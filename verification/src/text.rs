//! Text as sequences of characters: decimal numerals, padding, splitting,
//! searching and dictionary order.

use vstd::prelude::*;

verus! {

/// `String::push` appends the given character to the end of the string.
pub assume_specification[ String::push ](text: &mut String, c: char)
    ensures
        final(text)@ == old(text)@.push(c),
;

/// The character that stands for the digit `d`.
pub open spec fn digit(d: nat) -> char {
    (48 + d) as char
}

/// The decimal numeral of `n`, without leading zeros.
pub open spec fn decimal(n: nat) -> Seq<char>
    decreases n,
{
    if n < 10 {
        seq![digit(n)]
    } else {
        decimal(n / 10).push(digit(n % 10))
    }
}

/// `text` with zeros in front of it, as many as it takes to be `width` long.
pub open spec fn zero_padded(text: Seq<char>, width: nat) -> Seq<char> {
    if text.len() >= width {
        text
    } else {
        Seq::new((width - text.len()) as nat, |i: int| '0') + text
    }
}

/// Whether every character is a decimal digit.
pub open spec fn is_numeral(text: Seq<char>) -> bool {
    forall|i: int| 0 <= i < text.len() ==> '0' <= #[trigger] text[i] <= '9'
}

/// The number that a string of decimal digits stands for.
pub open spec fn numeral_value(text: Seq<char>) -> int
    decreases text.len(),
{
    if text.len() == 0 {
        0
    } else {
        numeral_value(text.drop_last()) * 10 + (text.last() as int - 48)
    }
}

pub proof fn lemma_decimal(n: nat)
    ensures
        is_numeral(decimal(n)),
        numeral_value(decimal(n)) == n,
        decimal(n).len() >= 1,
    decreases n,
{
    reveal_with_fuel(numeral_value, 2);
    if n < 10 {
        assert(decimal(n).drop_last() =~= Seq::<char>::empty());
    } else {
        lemma_decimal(n / 10);
        assert(decimal(n).drop_last() =~= decimal(n / 10));
    }
}

/// The decimal numeral of a machine integer.
pub fn decimal_text(n: u64) -> (text: String)
    ensures
        text@ == decimal(n as nat),
    decreases n,
{
    let mut text = if n < 10 {
        String::new()
    } else {
        decimal_text(n / 10)
    };
    let last: u8 = 48 + (n % 10) as u8;
    text.push(last as char);
    text
}

/// The characters of a string, one by one.
pub fn chars_of(text: &str) -> (chars: Vec<char>)
    ensures
        chars@ == text@,
{
    let mut chars: Vec<char> = Vec::new();
    for c in it: text.chars()
        invariant
            chars@ == it.seq().take(it.index() as int),
            it.seq() == text@,
    {
        chars.push(c);
    }
    chars
}

/// Padding with zeros keeps a numeral a numeral and keeps its value.
pub proof fn lemma_zero_padded(text: Seq<char>, width: nat)
    requires
        is_numeral(text),
    ensures
        is_numeral(zero_padded(text, width)),
        numeral_value(zero_padded(text, width)) == numeral_value(text),
        text.len() <= width ==> zero_padded(text, width).len() == width,
{
    if text.len() < width {
        let zeros = Seq::new((width - text.len()) as nat, |i: int| '0');
        lemma_leading_zeros(zeros, text);
    }
}

proof fn lemma_leading_zeros(zeros: Seq<char>, text: Seq<char>)
    requires
        forall|i: int| 0 <= i < zeros.len() ==> zeros[i] == '0',
    ensures
        numeral_value(zeros + text) == numeral_value(text),
    decreases zeros.len() + text.len(),
{
    if text.len() > 0 {
        assert((zeros + text).drop_last() =~= zeros + text.drop_last());
        lemma_leading_zeros(zeros, text.drop_last());
    } else if zeros.len() > 0 {
        assert((zeros + text).drop_last() =~= zeros.drop_last() + text);
        lemma_leading_zeros(zeros.drop_last(), text);
    }
}

/// How far a numeral reaches: `n` digits stand for less than ten to the `n`.
pub proof fn lemma_decimal_len(n: nat)
    ensures
        n < 10 ==> decimal(n).len() == 1,
        n < 100 ==> decimal(n).len() <= 2,
        n < 10000 ==> decimal(n).len() <= 4,
        n >= 10000 ==> decimal(n).len() >= 5,
{
    reveal_with_fuel(decimal, 6);
    if n >= 10000 {
        assert(decimal(n / 10 / 10 / 10 / 10).len() >= 1) by {
            lemma_decimal(n / 10 / 10 / 10 / 10);
        }
    }
}

/// Dictionary order: the first character that differs decides, and a proper
/// prefix comes first.
pub open spec fn text_less(a: Seq<char>, b: Seq<char>) -> bool
    decreases a.len(),
{
    if b.len() == 0 {
        false
    } else if a.len() == 0 {
        true
    } else if a[0] != b[0] {
        a[0] < b[0]
    } else {
        text_less(a.drop_first(), b.drop_first())
    }
}

/// Whether `a` comes before `b` in dictionary order.
pub fn is_text_less(a: &str, b: &str) -> (less: bool)
    ensures
        less == text_less(a@, b@),
{
    let left = chars_of(a);
    let right = chars_of(b);
    let mut i: usize = 0;
    assert(left@.skip(0) =~= left@ && right@.skip(0) =~= right@);
    while i < left.len() && i < right.len()
        invariant
            i <= left.len(),
            i <= right.len(),
            left@ == a@,
            right@ == b@,
            text_less(a@, b@) == text_less(left@.skip(i as int), right@.skip(i as int)),
        decreases left.len() - i,
    {
        if left[i] != right[i] {
            return left[i] < right[i];
        }
        assert(left@.skip(i as int).drop_first() =~= left@.skip(i + 1));
        assert(right@.skip(i as int).drop_first() =~= right@.skip(i + 1));
        i = i + 1;
    }
    i < right.len()
}

/// Two words of one length decide the order of what begins with them, unless
/// they are equal.
pub proof fn lemma_text_less_concat(a: Seq<char>, b: Seq<char>, c: Seq<char>, d: Seq<char>)
    requires
        a.len() == b.len(),
    ensures
        text_less(a + c, b + d) <==> text_less(a, b) || (a == b && text_less(c, d)),
    decreases a.len(),
{
    if a.len() == 0 {
        assert(a + c =~= c);
        assert(b + d =~= d);
        assert(a =~= b);
    } else {
        assert((a + c).drop_first() =~= a.drop_first() + c);
        assert((b + d).drop_first() =~= b.drop_first() + d);
        lemma_text_less_concat(a.drop_first(), b.drop_first(), c, d);
        if a[0] == b[0] && a.drop_first() == b.drop_first() {
            assert(a =~= seq![a[0]] + a.drop_first());
            assert(b =~= seq![b[0]] + b.drop_first());
        }
    }
}

/// Between numerals of one length, dictionary order is the order of the numbers.
pub proof fn lemma_text_less_numerals(a: Seq<char>, b: Seq<char>)
    requires
        is_numeral(a),
        is_numeral(b),
        a.len() == b.len(),
    ensures
        text_less(a, b) <==> numeral_value(a) < numeral_value(b),
        a == b <==> numeral_value(a) == numeral_value(b),
    decreases a.len(),
{
    if a.len() > 0 {
        let (p, q) = (a.drop_last(), b.drop_last());
        lemma_text_less_numerals(p, q);
        lemma_text_less_concat(p, q, seq![a.last()], seq![b.last()]);
        assert(a =~= p + seq![a.last()]);
        assert(b =~= q + seq![b.last()]);
        reveal_with_fuel(text_less, 2);
        assert('0' <= a[a.len() - 1] <= '9');
        assert('0' <= b[b.len() - 1] <= '9');
        if a == b {
            assert(p == q);
        } else if p == q {
            assert(a.last() != b.last());
        }
    } else {
        assert(a =~= b);
    }
}

/// Two decimal numerals are equal only where the numbers are.
pub proof fn lemma_decimal_injective(m: nat, n: nat)
    requires
        decimal(m) == decimal(n),
    ensures
        m == n,
{
    lemma_decimal(m);
    lemma_decimal(n);
}

/// The pieces of `text` between the occurrences of `mark`: one more than there
/// are marks.
pub open spec fn split(text: Seq<char>, mark: char) -> Seq<Seq<char>>
    decreases text.len(),
{
    if text.len() == 0 {
        seq![Seq::empty()]
    } else {
        let front = split(text.drop_last(), mark);
        if text.last() == mark {
            front.push(Seq::empty())
        } else {
            front.drop_last().push(front.last().push(text.last()))
        }
    }
}

pub proof fn lemma_split_nonempty(text: Seq<char>, mark: char)
    ensures
        split(text, mark).len() >= 1,
    decreases text.len(),
{
    if text.len() > 0 {
        lemma_split_nonempty(text.drop_last(), mark);
    }
}

/// Text without the mark is one piece.
pub proof fn lemma_split_unmarked(text: Seq<char>, mark: char)
    requires
        !text.contains(mark),
    ensures
        split(text, mark) == seq![text],
    decreases text.len(),
{
    if text.len() > 0 {
        let front = text.drop_last();
        assert forall|i: int| 0 <= i < front.len() implies front[i] != mark by {
            assert(text.contains(text[i]));
        }
        lemma_split_unmarked(front, mark);
        assert(text.contains(text.last()));
        assert(front.push(text.last()) =~= text);
        assert(split(text, mark) =~= seq![text]);
    } else {
        assert(text =~= Seq::<char>::empty());
    }
}

/// A mark separates: what stands before it and after it split on their own.
pub proof fn lemma_split_at_mark(before: Seq<char>, after: Seq<char>, mark: char)
    ensures
        split(before + seq![mark] + after, mark) == split(before, mark) + split(after, mark),
    decreases after.len(),
{
    let whole = before + seq![mark] + after;
    lemma_split_nonempty(after, mark);
    if after.len() == 0 {
        assert(whole.drop_last() =~= before);
        assert(split(whole, mark) =~= split(before, mark) + split(after, mark));
    } else {
        lemma_split_at_mark(before, after.drop_last(), mark);
        lemma_split_nonempty(after.drop_last(), mark);
        assert(whole.drop_last() =~= before + seq![mark] + after.drop_last());
        assert(split(whole, mark) =~= split(before, mark) + split(after, mark));
    }
}

/// The pieces of `text` between the occurrences of `mark`.
pub fn split_text(text: &str, mark: char) -> (pieces: Vec<String>)
    ensures
        texts(pieces@) == split(text@, mark),
{
    let chars = chars_of(text);
    let mut pieces: Vec<String> = Vec::new();
    let mut piece = String::new();
    let mut i: usize = 0;
    assert(texts(pieces@).push(piece@) =~= split(chars@.take(0), mark));
    while i < chars.len()
        invariant
            i <= chars.len(),
            texts(pieces@).push(piece@) == split(chars@.take(i as int), mark),
        decreases chars.len() - i,
    {
        let ghost front = chars@.take(i as int);
        assert(chars@.take(i + 1).drop_last() =~= front);
        assert(split(front, mark).drop_last() =~= texts(pieces@));
        if chars[i] == mark {
            let ghost before = pieces@;
            let ghost done = piece@;
            pieces.push(piece);
            piece = String::new();
            assert(texts(pieces@) =~= texts(before).push(done));
        } else {
            piece.push(chars[i]);
        }
        i = i + 1;
    }
    let ghost before = pieces@;
    let ghost done = piece@;
    pieces.push(piece);
    assert(texts(pieces@) =~= texts(before).push(done));
    assert(chars@.take(chars.len() as int) =~= text@);
    pieces
}

/// What a list of strings holds.
pub open spec fn texts(strings: Seq<String>) -> Seq<Seq<char>> {
    strings.map_values(|s: String| s@)
}

/// Whether `part` stands somewhere in `text`.
pub open spec fn has_part(text: Seq<char>, part: Seq<char>) -> bool {
    exists|at: int|
        0 <= at <= text.len() - part.len() && #[trigger] text.subrange(at, at + part.len()) == part
}

/// Whether the characters of `part` stand in `text` from `at` on.
fn stands_at(text: &Vec<char>, part: &Vec<char>, at: usize) -> (stands: bool)
    requires
        at + part.len() <= text.len(),
    ensures
        stands == (text@.subrange(at as int, at + part.len()) == part@),
{
    let mut i: usize = 0;
    while i < part.len()
        invariant
            i <= part.len(),
            at + part.len() <= text.len(),
            forall|j: int| 0 <= j < i ==> text@[at + j] == part@[j],
        decreases part.len() - i,
    {
        if text[at + i] != part[i] {
            assert(text@.subrange(at as int, at + part.len())[i as int] != part@[i as int]);
            return false;
        }
        i = i + 1;
    }
    assert(text@.subrange(at as int, at + part.len()) =~= part@);
    true
}

/// Whether `part` stands somewhere in `text`.
pub fn contains_part(text: &str, part: &str) -> (found: bool)
    ensures
        found == has_part(text@, part@),
{
    let whole = chars_of(text);
    let wanted = chars_of(part);
    if wanted.len() > whole.len() {
        return false;
    }
    let last: usize = whole.len() - wanted.len();
    let mut at: usize = 0;
    while at <= last
        invariant
            whole@ == text@,
            wanted@ == part@,
            last == whole.len() - wanted.len(),
            at <= last + 1,
            forall|j: int|
                0 <= j < at ==> #[trigger] whole@.subrange(j, j + wanted.len()) != wanted@,
        decreases last + 1 - at,
    {
        if stands_at(&whole, &wanted, at) {
            return true;
        }
        if at == last {
            assert(forall|j: int|
                0 <= j <= last ==> #[trigger] whole@.subrange(j, j + wanted.len()) != wanted@);
            return false;
        }
        at = at + 1;
    }
    false
}

/// Whether `text` begins with `start`.
pub fn begins_with(text: &str, start: &str) -> (begins: bool)
    ensures
        begins == start@.is_prefix_of(text@),
{
    let whole = chars_of(text);
    let wanted = chars_of(start);
    if wanted.len() > whole.len() {
        return false;
    }
    stands_at(&whole, &wanted, 0)
}

/// `first` followed by `second`.
pub fn joined(first: &str, second: &str) -> (text: String)
    ensures
        text@ == first@ + second@,
{
    let mut text = first.to_owned();
    text.append(second);
    text
}

/// The decimal numeral of a number is made of digits, stands for the number and
/// has no zero in front, but for zero itself.
pub proof fn law_numerals_stand_for_their_numbers(n: nat)
    ensures
        is_numeral(decimal(n)),
        numeral_value(decimal(n)) == n,
        n > 0 ==> decimal(n)[0] != '0',
        n == 0 ==> decimal(n) == seq!['0'],
    decreases n,
{
    lemma_decimal(n);
    if n >= 10 {
        law_numerals_stand_for_their_numbers(n / 10);
        lemma_decimal(n / 10);
        assert(decimal(n)[0] == decimal(n / 10)[0]);
    } else {
        assert(decimal(n)[0] == digit(n));
    }
}

/// One text comes before another in dictionary order exactly where they agree up
/// to some place at which the one has ended and the other has not, or has the
/// smaller character.
pub proof fn law_dictionary_order(a: Seq<char>, b: Seq<char>)
    ensures
        text_less(a, b) <==> exists|k: int|
            0 <= k <= a.len() && k < b.len() && #[trigger] a.take(k) == b.take(k) && (k == a.len()
                || a[k] < b[k]),
    decreases a.len(),
{
    if b.len() == 0 {
    } else if a.len() == 0 {
        assert(a.take(0) =~= b.take(0));
    } else if a[0] != b[0] {
        assert(a.take(0) =~= b.take(0));
        assert forall|k: int|
            0 <= k <= a.len() && k < b.len() && #[trigger] a.take(k) == b.take(k) implies k == 0 by {
            if k > 0 {
                assert(a.take(k)[0] == a[0] && b.take(k)[0] == b[0]);
            }
        }
    } else {
        let (c, d) = (a.drop_first(), b.drop_first());
        law_dictionary_order(c, d);
        if text_less(c, d) {
            let k = choose|k: int|
                0 <= k <= c.len() && k < d.len() && #[trigger] c.take(k) == d.take(k) && (k
                    == c.len() || c[k] < d[k]);
            assert(a.take(k + 1) =~= seq![a[0]] + c.take(k));
            assert(b.take(k + 1) =~= seq![b[0]] + d.take(k));
        }
        if exists|k: int|
            0 <= k <= a.len() && k < b.len() && #[trigger] a.take(k) == b.take(k) && (k == a.len()
                || a[k] < b[k]) {
            let k = choose|k: int|
                0 <= k <= a.len() && k < b.len() && #[trigger] a.take(k) == b.take(k) && (k
                    == a.len() || a[k] < b[k]);
            assert(k > 0);
            assert(c.take(k - 1) =~= a.take(k).drop_first());
            assert(d.take(k - 1) =~= b.take(k).drop_first());
        }
    }
}

/// A part stands in a text exactly where the text is made of something, the part
/// and something else.
pub proof fn law_parts_stand_in_their_text(text: Seq<char>, part: Seq<char>)
    ensures
        has_part(text, part) <==> exists|before: Seq<char>, after: Seq<char>|
            text == #[trigger] (before + part + after),
{
    if has_part(text, part) {
        let at = choose|at: int|
            0 <= at <= text.len() - part.len() && #[trigger] text.subrange(at, at + part.len())
                == part;
        let (before, after) = (text.take(at), text.skip(at + part.len()));
        assert(text =~= before + text.subrange(at, at + part.len()) + after);
        assert(text == before + part + after);
    }
    if exists|before: Seq<char>, after: Seq<char>| text == #[trigger] (before + part + after) {
        let (before, after) = choose|before: Seq<char>, after: Seq<char>|
            text == #[trigger] (before + part + after);
        let at = before.len() as int;
        assert(text.subrange(at, at + part.len()) =~= part);
    }
}

/// A list of strings shows each of them in its place.
pub proof fn law_lists_show_every_text(strings: Seq<String>)
    ensures
        texts(strings).len() == strings.len(),
        forall|i: int| 0 <= i < strings.len() ==> #[trigger] texts(strings)[i] == strings[i]@,
{
}

/// The pieces of a text are as many as there are marks and one more, none of them
/// holds the mark, and with the marks between them they make up the text.
pub proof fn law_pieces_make_up_their_text(text: Seq<char>, mark: char)
    ensures
        split(text, mark).len() == text.filter(|c: char| c == mark).len() + 1,
        forall|i: int|
            0 <= i < split(text, mark).len() ==> !(#[trigger] split(text, mark)[i]).contains(mark),
        joined_with(split(text, mark), mark) == text,
    decreases text.len(),
{
    reveal(Seq::filter);
    reveal_with_fuel(joined_with, 2);
    lemma_split_nonempty(text, mark);
    if text.len() == 0 {
        assert(split(text, mark)[0] =~= Seq::empty());
        assert(joined_with(split(text, mark), mark) =~= text);
    } else {
        let (front, last) = (text.drop_last(), text.last());
        let pieces = split(front, mark);
        law_pieces_make_up_their_text(front, mark);
        lemma_split_nonempty(front, mark);
        assert(text =~= front.push(last));
        if last == mark {
            let more = pieces.push(Seq::empty());
            assert(more.drop_last() =~= pieces);
            assert(joined_with(more, mark) =~= front.push(mark));
        } else {
            let grown = pieces.last().push(last);
            let more = pieces.drop_last().push(grown);
            assert(more.drop_last() =~= pieces.drop_last());
            assert(!grown.contains(mark)) by {
                if grown.contains(mark) {
                    let i = choose|i: int| 0 <= i < grown.len() && grown[i] == mark;
                    assert(pieces[pieces.len() - 1][i] == mark);
                    assert(pieces[pieces.len() - 1].contains(mark));
                }
            }
            assert forall|i: int| 0 <= i < more.len() implies !(#[trigger] more[i]).contains(
                mark,
            ) by {
                if i < pieces.len() - 1 {
                    assert(more[i] == pieces[i]);
                }
            }
            assert(joined_with(more, mark) =~= joined_with(pieces, mark).push(last));
        }
    }
}

/// Texts with a mark between each two of them.
pub open spec fn joined_with(pieces: Seq<Seq<char>>, mark: char) -> Seq<char>
    decreases pieces.len(),
{
    if pieces.len() == 0 {
        Seq::empty()
    } else if pieces.len() == 1 {
        pieces[0]
    } else {
        joined_with(pieces.drop_last(), mark) + seq![mark] + pieces.last()
    }
}

} // verus!
