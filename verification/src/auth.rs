//! Letting a request in: the token in its header, then its body or its path.

use jsonwebtoken::{decode, DecodingKey, Validation};
use serde::de::IgnoredAny;
use vstd::prelude::*;

use crate::error::Error;
use crate::error::{error_from, error_with_details, ErrorKind, ErrorView};
use crate::text::{begins_with, joined, split_text};
use crate::text::{lemma_split_at_mark, lemma_split_unmarked, split, texts};

verus! {

/// The header that carries the token.
pub const AUTHORIZATION_HEADER: &'static str = "Authorization";

/// What the header begins with.
pub const BEARER: &'static str = "Bearer";

pub const BAD_REQUEST: u16 = 400;

pub const UNAUTHORIZED: u16 = 401;

pub const INTERNAL_SERVER_ERROR: u16 = 500;

/// Whether a byte stands for a printable character or a tab.
pub open spec fn is_visible(byte: u8) -> bool {
    32 <= byte < 127 || byte == 9
}

/// The text of a header: nothing where a byte of it is not visible.
pub open spec fn header_text(bytes: Seq<u8>) -> Seq<char> {
    if forall|i: int| 0 <= i < bytes.len() ==> is_visible(#[trigger] bytes[i]) {
        bytes.map_values(|byte: u8| byte as char)
    } else {
        Seq::empty()
    }
}

/// The text with a space for each tab.
pub open spec fn without_tabs(text: Seq<char>) -> Seq<char> {
    text.map_values(
        |c: char|
            if c == '\t' {
                ' '
            } else {
                c
            },
    )
}

/// The words of a header, which stand between spaces and tabs.
pub open spec fn words(text: Seq<char>) -> Seq<Seq<char>> {
    split(without_tabs(text), ' ').filter(|word: Seq<char>| word.len() > 0)
}

/// What a request shows of itself in its header.
#[derive(Debug, PartialEq, Eq)]
pub enum AuthHeader {
    /// There is no such header.
    Missing,
    /// The header is not one that carries a token.
    NotBearer,
    /// The header should carry a token and does not.
    NoToken,
    /// The header carries this token.
    Token(String),
}

pub enum AuthHeaderView {
    Missing,
    NotBearer,
    NoToken,
    Token(Seq<char>),
}

impl View for AuthHeader {
    type V = AuthHeaderView;

    open spec fn view(&self) -> AuthHeaderView {
        match self {
            AuthHeader::Missing => AuthHeaderView::Missing,
            AuthHeader::NotBearer => AuthHeaderView::NotBearer,
            AuthHeader::NoToken => AuthHeaderView::NoToken,
            AuthHeader::Token(token) => AuthHeaderView::Token(token@),
        }
    }
}

/// What the bytes of a header show: the token is its second word.
pub open spec fn shown_by(header: Option<Seq<u8>>) -> AuthHeaderView {
    match header {
        None => AuthHeaderView::Missing,
        Some(bytes) => {
            let text = header_text(bytes);
            if !BEARER@.is_prefix_of(text) {
                AuthHeaderView::NotBearer
            } else if words(text).len() < 2 {
                AuthHeaderView::NoToken
            } else {
                AuthHeaderView::Token(words(text)[1])
            }
        },
    }
}

/// What an optional list of bytes holds.
pub open spec fn optional_bytes(bytes: Option<&[u8]>) -> Option<Seq<u8>> {
    match bytes {
        Some(bytes) => Some(bytes@),
        None => None,
    }
}

/// The text of a header.
fn text_of_header(bytes: &[u8]) -> (text: String)
    ensures
        text@ == header_text(bytes@),
{
    let mut text = String::new();
    let mut i: usize = 0;
    assert(text@ =~= bytes@.take(0).map_values(|byte: u8| byte as char));
    while i < bytes.len()
        invariant
            i <= bytes.len(),
            forall|j: int| 0 <= j < i ==> is_visible(#[trigger] bytes@[j]),
            text@ == bytes@.take(i as int).map_values(|byte: u8| byte as char),
        decreases bytes.len() - i,
    {
        let byte: u8 = bytes[i];
        if !((32 <= byte && byte < 127) || byte == 9) {
            assert(!is_visible(bytes@[i as int]));
            return String::new();
        }
        text.push(byte as char);
        i = i + 1;
        assert(text@ =~= bytes@.take(i as int).map_values(|byte: u8| byte as char));
    }
    assert(bytes@.take(bytes@.len() as int) =~= bytes@);
    text
}

/// The words of a header.
fn words_of(text: &str) -> (found: Vec<String>)
    ensures
        texts(found@) == words(text@),
{
    let mut spaced = String::new();
    for c in it: text.chars()
        invariant
            spaced@ == without_tabs(it.seq().take(it.index() as int)),
            it.seq() == text@,
    {
        spaced.push(
            if c == '\t' {
                ' '
            } else {
                c
            },
        );
        assert(spaced@ =~= without_tabs(it.seq().take(it.index() + 1)));
    }
    assert(text@.take(text@.len() as int) =~= text@);
    let pieces = split_text(spaced.as_str(), ' ');
    let ghost all = texts(pieces@);
    let ghost keep = |word: Seq<char>| word.len() > 0;
    let mut found: Vec<String> = Vec::new();
    let mut i: usize = 0;
    proof {
        reveal(Seq::filter);
        assert(texts(found@) =~= all.take(0).filter(keep));
    }
    while i < pieces.len()
        invariant
            i <= pieces.len(),
            all == texts(pieces@),
            keep == (|word: Seq<char>| word.len() > 0),
            texts(found@) == all.take(i as int).filter(keep),
        decreases pieces.len() - i,
    {
        let ghost before = found@;
        proof {
            reveal(Seq::filter);
            assert(all.take(i + 1).drop_last() =~= all.take(i as int));
            assert(all[i as int] == pieces@[i as int]@);
        }
        if !(pieces[i].as_str().is_empty()) {
            found.push(pieces[i].clone());
            assert(texts(found@) =~= texts(before).push(pieces@[i as int]@));
        }
        i = i + 1;
    }
    assert(all.take(all.len() as int) =~= all);
    found
}

/// What the bytes of a header show.
pub fn read_auth_header(header: Option<&[u8]>) -> (shown: AuthHeader)
    ensures
        shown@ == shown_by(optional_bytes(header)),
{
    match header {
        None => AuthHeader::Missing,
        Some(bytes) => {
            let text = text_of_header(bytes);
            if !begins_with(text.as_str(), BEARER) {
                return AuthHeader::NotBearer;
            }
            let found = words_of(text.as_str());
            assert(texts(found@).len() == found.len());
            if found.len() < 2 {
                AuthHeader::NoToken
            } else {
                assert(texts(found@)[1] == found@[1]@);
                AuthHeader::Token(found[1].clone())
            }
        },
    }
}

/// What came of checking a token: nothing to complain of, or the complaint.
pub open spec fn check_text(checked: Result<(), String>) -> Result<(), Seq<char>> {
    match checked {
        Ok(_) => Ok(()),
        Err(complaint) => Err(complaint@),
    }
}

/// What `jsonwebtoken::decode` says of a token and a secret when the clock
/// reads so many seconds since the start of 1970.
pub uninterp spec fn token_outcome(token: Seq<char>, secret: Seq<char>, now: u64) -> Result<
    (),
    Seq<char>,
>;

/// `jsonwebtoken::decode` with the default validation: the token is signed with
/// the secret by HS256, its payload is JSON, and the moment at which it expires
/// is given in it and has not passed for more than a minute. The outcome
/// depends on the token, the secret and the reading of the clock, and on
/// nothing else; a token that is accepted has three pieces between dots. Which
/// tokens have a good signature is not stated.
#[verifier::external_body]
fn check_token(token: &str, secret: &str) -> (checked: Result<(), String>)
    ensures
        exists|now: u64| check_text(checked) == #[trigger] token_outcome(token@, secret@, now),
        checked is Ok ==> split(token@, '.').len() == 3,
{
    let key = DecodingKey::from_secret(secret.as_bytes());
    match decode::<IgnoredAny>(token, &key, &Validation::default()) {
        Ok(_) => Ok(()),
        Err(error) => Err(error.to_string()),
    }
}

/// What came of checking a token of which the service reads its own claims: the
/// complaint about the claims comes first.
pub open spec fn checked_with(
    claims: Result<(), Seq<char>>,
    checked: Result<(), Seq<char>>,
) -> Result<(), Seq<char>> {
    if claims is Err {
        claims
    } else {
        checked
    }
}

/// Checks a token of which the service has read its own claims.
fn check_with_claims(token: &str, secret: &str, claims: Result<(), String>) -> (checked: Result<
    (),
    String,
>)
    ensures
        exists|now: u64|
            check_text(checked) == checked_with(
                check_text(claims),
                #[trigger] token_outcome(token@, secret@, now),
            ),
        checked is Ok ==> split(token@, '.').len() == 3,
{
    let checked = check_token(token, secret);
    let ghost now = choose|now: u64|
        check_text(checked) == #[trigger] token_outcome(token@, secret@, now);
    let ghost due = checked_with(check_text(claims), token_outcome(token@, secret@, now));
    let checked = match claims {
        Ok(_) => checked,
        Err(complaint) => Err(complaint),
    };
    assert(check_text(checked) == due);
    checked
}

/// Checks the token that a header shows. Where it shows none there is nothing
/// to complain of.
fn check_shown(shown: &AuthHeader, secret: &str, claims: Result<(), String>) -> (checked: Result<
    (),
    String,
>)
    ensures
        match shown@ {
            AuthHeaderView::Token(token) => {
                &&& exists|now: u64|
                    check_text(checked) == checked_with(
                        check_text(claims),
                        #[trigger] token_outcome(token, secret@, now),
                    )
                &&& checked is Ok ==> split(token, '.').len() == 3
            },
            _ => checked is Ok,
        },
{
    match shown {
        AuthHeader::Token(token) => {
            let checked = check_with_claims(token.as_str(), secret, claims);
            proof {
                let now = choose|now: u64|
                    check_text(checked) == checked_with(
                        check_text(claims),
                        #[trigger] token_outcome(token@, secret@, now),
                    );
                assert(check_text(checked) == checked_with(
                    check_text(claims),
                    token_outcome(token@, secret@, now),
                ));
                assert(shown@ == AuthHeaderView::Token(token@));
                match shown@ {
                    AuthHeaderView::Token(own) => {
                        assert(exists|now: u64|
                            check_text(checked) == checked_with(
                                check_text(claims),
                                #[trigger] token_outcome(own, secret@, now),
                            ));
                    },
                    _ => {},
                }
            }
            checked
        },
        _ => Ok(()),
    }
}

/// A refusal: the status of the answer and the error in it.
#[derive(Debug, PartialEq, Eq)]
pub struct Rejection {
    pub status: u16,
    pub error: Error,
}

pub struct RejectionView {
    pub status: u16,
    pub error: ErrorView,
}

impl View for Rejection {
    type V = RejectionView;

    open spec fn view(&self) -> RejectionView {
        RejectionView { status: self.status, error: self.error@ }
    }
}

/// What came of a request, whatever it brings along.
pub open spec fn admission_of(admission: Result<(), Rejection>) -> Result<(), RejectionView> {
    match admission {
        Ok(_) => Ok(()),
        Err(rejection) => Err(rejection@),
    }
}

/// The refusal of a request that shows no token.
pub open spec fn no_token(path: Seq<char>) -> RejectionView {
    RejectionView {
        status: UNAUTHORIZED,
        error: error_with_details(ErrorKind::Unauthorized, path),
    }
}

/// Who is let in with a body, given what came of checking the token.
pub open spec fn json_admission(
    shown: AuthHeaderView,
    path: Seq<char>,
    checked: Result<(), Seq<char>>,
) -> Result<(), RejectionView> {
    if shown !is Token {
        Err(no_token(path))
    } else {
        match checked {
            Ok(_) => Ok(()),
            Err(complaint) => Err(
                RejectionView {
                    status: INTERNAL_SERVER_ERROR,
                    error: error_from(ErrorKind::Internal, complaint),
                },
            ),
        }
    }
}

/// Who is let in by path, given what came of checking the token.
pub open spec fn path_admission(
    shown: AuthHeaderView,
    path: Seq<char>,
    checked: Result<(), Seq<char>>,
) -> Result<(), RejectionView> {
    if shown !is Token {
        Err(no_token(path))
    } else {
        match checked {
            Ok(_) => Ok(()),
            Err(complaint) => Err(
                RejectionView {
                    status: UNAUTHORIZED,
                    error: ErrorView {
                        kind: ErrorKind::Unauthorized,
                        cause: Some(complaint),
                        details: Some(path),
                    },
                },
            ),
        }
    }
}

fn refuse_without_token(path: &str) -> (rejection: Rejection)
    ensures
        rejection@ == no_token(path@),
{
    Rejection {
        status: UNAUTHORIZED,
        error: Error::unauthorized_with_details(path.to_owned()),
    }
}

/// Why the body of a request cannot be had.
#[derive(Debug, PartialEq, Eq)]
pub struct BodyRejection {
    pub status: u16,
    pub text: String,
}

/// Why the parameters in the path of a request cannot be had.
#[derive(Debug, PartialEq, Eq)]
pub enum PathRejection {
    /// They are not what they should be.
    FailedToDeserialize(String),
    /// There are none.
    MissingParams(String),
    /// Anything else.
    Other(String),
}

/// The answer to a body that cannot be had.
pub open spec fn body_refusal(rejection: BodyRejection) -> RejectionView {
    RejectionView {
        status: rejection.status,
        error: error_from(ErrorKind::BodyParsing, rejection.text@),
    }
}

/// The answer to parameters that cannot be had.
pub open spec fn path_refusal(rejection: PathRejection) -> RejectionView {
    match rejection {
        PathRejection::FailedToDeserialize(text) => RejectionView {
            status: BAD_REQUEST,
            error: error_from(ErrorKind::PathParsing, text@),
        },
        PathRejection::MissingParams(text) => RejectionView {
            status: INTERNAL_SERVER_ERROR,
            error: error_from(ErrorKind::PathParsing, text@),
        },
        PathRejection::Other(text) => RejectionView {
            status: INTERNAL_SERVER_ERROR,
            error: error_with_details(
                ErrorKind::Internal,
                "Unhandled path rejection: "@ + text@,
            ),
        },
    }
}

/// The body of a request that was let in.
#[derive(Debug, PartialEq, Eq)]
pub struct JsonWithAuthExtractor<T>(pub T);

impl<T> JsonWithAuthExtractor<T> {
    /// Whether the request is let in, given what came of checking its token.
    pub fn let_in(shown: &AuthHeader, path: &str, checked: Result<(), String>) -> (admission: Result<
        (),
        Rejection,
    >)
        requires
            shown@ !is NoToken,
        ensures
            admission_of(admission) == json_admission(shown@, path@, check_text(checked)),
            match (shown, checked, admission) {
                (AuthHeader::Token(_), Ok(_), Ok(_)) => true,
                (AuthHeader::Token(_), Err(complaint), Err(rejection)) => rejection.status == 500
                    && rejection.error@ == (ErrorView {
                    kind: ErrorKind::Internal,
                    cause: Some(complaint@),
                    details: None,
                }),
                (AuthHeader::Token(_), _, _) => false,
                (_, _, Err(rejection)) => rejection.status == 401 && rejection.error@ == (
                ErrorView { kind: ErrorKind::Unauthorized, cause: None, details: Some(path@) }),
                _ => false,
            },
    {
        match shown {
            AuthHeader::Token(_) => match checked {
                Ok(_) => Ok(()),
                Err(complaint) => Err(
                    Rejection { status: INTERNAL_SERVER_ERROR, error: Error::internal(complaint) },
                ),
            },
            _ => Err(refuse_without_token(path)),
        }
    }

    /// Whether the request with this header is let in. Its token has a good
    /// signature and has not expired, and it holds the claims that the service
    /// expects: `claims` is what came of reading them.
    pub fn authorize(
        header: Option<&[u8]>,
        path: &str,
        secret: &str,
        claims: Result<(), String>,
    ) -> (admission: Result<(), Rejection>)
        requires
            shown_by(optional_bytes(header)) !is NoToken,
        ensures
            match shown_by(optional_bytes(header)) {
                AuthHeaderView::Token(token) => {
                    &&& exists|now: u64|
                        admission_of(admission) == json_admission(
                            AuthHeaderView::Token(token),
                            path@,
                            checked_with(
                                check_text(claims),
                                #[trigger] token_outcome(token, secret@, now),
                            ),
                        )
                    &&& admission is Ok ==> claims is Ok && split(token, '.').len() == 3
                },
                _ => admission_of(admission) == Err::<(), RejectionView>(no_token(path@)),
            },
    {
        let shown = read_auth_header(header);
        let checked = check_shown(&shown, secret, claims);
        let ghost outcome = check_text(checked);
        let admission = Self::let_in(&shown, path, checked);
        proof {
            if let AuthHeaderView::Token(token) = shown@ {
                let now = choose|now: u64|
                    outcome == checked_with(
                        check_text(claims),
                        #[trigger] token_outcome(token, secret@, now),
                    );
                assert(outcome == checked_with(
                    check_text(claims),
                    token_outcome(token, secret@, now),
                ));
            }
        }
        admission
    }

    /// The body of a request that was let in, or the answer where it cannot be
    /// had.
    pub fn from_body(body: Result<T, BodyRejection>) -> (outcome: Result<Self, Rejection>)
        ensures
            match body {
                Ok(value) => outcome == Ok::<Self, Rejection>(JsonWithAuthExtractor(value)),
                Err(rejection) => outcome matches Err(answer) && answer@ == body_refusal(rejection),
            },
            body matches Err(rejection) ==> outcome is Err && outcome->Err_0.status
                == rejection.status && outcome->Err_0.error@ == (ErrorView {
                kind: ErrorKind::BodyParsing,
                cause: Some(rejection.text@),
                details: None,
            }),
    {
        match body {
            Ok(value) => Ok(JsonWithAuthExtractor(value)),
            Err(rejection) => Err(
                Rejection {
                    status: rejection.status,
                    error: Error::body_parsing(rejection.text),
                },
            ),
        }
    }
}

/// The parameters in the path of a request that was let in.
#[derive(Debug, PartialEq, Eq)]
pub struct PathWithAuthExtractor<T>(pub T);

impl<T> PathWithAuthExtractor<T> {
    /// Whether the request is let in, given what came of checking its token.
    pub fn let_in(shown: &AuthHeader, path: &str, checked: Result<(), String>) -> (admission: Result<
        (),
        Rejection,
    >)
        requires
            shown@ !is NoToken,
        ensures
            admission_of(admission) == path_admission(shown@, path@, check_text(checked)),
            match (shown, checked, admission) {
                (AuthHeader::Token(_), Ok(_), Ok(_)) => true,
                (AuthHeader::Token(_), Err(complaint), Err(rejection)) => rejection.status == 401
                    && rejection.error@ == (ErrorView {
                    kind: ErrorKind::Unauthorized,
                    cause: Some(complaint@),
                    details: Some(path@),
                }),
                (AuthHeader::Token(_), _, _) => false,
                (_, _, Err(rejection)) => rejection.status == 401 && rejection.error@ == (
                ErrorView { kind: ErrorKind::Unauthorized, cause: None, details: Some(path@) }),
                _ => false,
            },
    {
        match shown {
            AuthHeader::Token(_) => match checked {
                Ok(_) => Ok(()),
                Err(complaint) => Err(
                    Rejection {
                        status: UNAUTHORIZED,
                        error: Error::unauthorized(complaint, path.to_owned()),
                    },
                ),
            },
            _ => Err(refuse_without_token(path)),
        }
    }

    /// Whether the request with this header is let in. Its token has a good
    /// signature and has not expired, and it holds the claims that the service
    /// expects: `claims` is what came of reading them.
    pub fn authorize(
        header: Option<&[u8]>,
        path: &str,
        secret: &str,
        claims: Result<(), String>,
    ) -> (admission: Result<(), Rejection>)
        requires
            shown_by(optional_bytes(header)) !is NoToken,
        ensures
            match shown_by(optional_bytes(header)) {
                AuthHeaderView::Token(token) => {
                    &&& exists|now: u64|
                        admission_of(admission) == path_admission(
                            AuthHeaderView::Token(token),
                            path@,
                            checked_with(
                                check_text(claims),
                                #[trigger] token_outcome(token, secret@, now),
                            ),
                        )
                    &&& admission is Ok ==> claims is Ok && split(token, '.').len() == 3
                },
                _ => admission_of(admission) == Err::<(), RejectionView>(no_token(path@)),
            },
    {
        let shown = read_auth_header(header);
        let checked = check_shown(&shown, secret, claims);
        let ghost outcome = check_text(checked);
        let admission = Self::let_in(&shown, path, checked);
        proof {
            if let AuthHeaderView::Token(token) = shown@ {
                let now = choose|now: u64|
                    outcome == checked_with(
                        check_text(claims),
                        #[trigger] token_outcome(token, secret@, now),
                    );
                assert(outcome == checked_with(
                    check_text(claims),
                    token_outcome(token, secret@, now),
                ));
            }
        }
        admission
    }

    /// The parameters of a request that was let in, or the answer where they
    /// cannot be had.
    pub fn from_params(params: Result<T, PathRejection>) -> (outcome: Result<Self, Rejection>)
        ensures
            match params {
                Ok(value) => outcome == Ok::<Self, Rejection>(PathWithAuthExtractor(value)),
                Err(rejection) => outcome matches Err(answer) && answer@ == path_refusal(rejection),
            },
            match (params, outcome) {
                (Ok(value), Ok(extracted)) => extracted.0 == value,
                (Err(PathRejection::FailedToDeserialize(text)), Err(answer)) => answer.status == 400
                    && answer.error@ == (ErrorView {
                    kind: ErrorKind::PathParsing,
                    cause: Some(text@),
                    details: None,
                }),
                (Err(PathRejection::MissingParams(text)), Err(answer)) => answer.status == 500
                    && answer.error@ == (ErrorView {
                    kind: ErrorKind::PathParsing,
                    cause: Some(text@),
                    details: None,
                }),
                (Err(PathRejection::Other(text)), Err(answer)) => answer.status == 500
                    && answer.error@ == (ErrorView {
                    kind: ErrorKind::Internal,
                    cause: None,
                    details: Some("Unhandled path rejection: "@ + text@),
                }),
                _ => false,
            },
    {
        match params {
            Ok(value) => Ok(PathWithAuthExtractor(value)),
            Err(PathRejection::FailedToDeserialize(text)) => Err(
                Rejection { status: BAD_REQUEST, error: Error::path_parsing(text) },
            ),
            Err(PathRejection::MissingParams(text)) => Err(
                Rejection { status: INTERNAL_SERVER_ERROR, error: Error::path_parsing(text) },
            ),
            Err(PathRejection::Other(text)) => Err(
                Rejection {
                    status: INTERNAL_SERVER_ERROR,
                    error: Error::internal_with_details(
                        joined("Unhandled path rejection: ", text.as_str()),
                    ),
                },
            ),
        }
    }
}

/// Nobody is let in without a token that was found good, by body or by path,
/// and both let in the same requests.
pub proof fn law_only_good_tokens_are_let_in(
    shown: AuthHeaderView,
    path: Seq<char>,
    checked: Result<(), Seq<char>>,
)
    ensures
        json_admission(shown, path, checked) is Ok <==> shown is Token && checked is Ok,
        path_admission(shown, path, checked) is Ok <==> shown is Token && checked is Ok,
{
}

/// Without a token the answer is the same by body and by path: it names the
/// path and says that the caller is not known, with the status for that.
pub proof fn law_no_token_is_answered_alike(
    shown: AuthHeaderView,
    path: Seq<char>,
    checked: Result<(), Seq<char>>,
)
    requires
        shown !is Token,
    ensures
        json_admission(shown, path, checked) == Err::<(), RejectionView>(no_token(path)),
        path_admission(shown, path, checked) == Err::<(), RejectionView>(no_token(path)),
{
}

/// A header is read where each byte of it stands for a printable character or a
/// tab, character by character; else it counts as empty.
pub proof fn law_visible_headers_are_read_as_they_are(bytes: Seq<u8>)
    ensures
        (forall|i: int| 0 <= i < bytes.len() ==> (32 <= #[trigger] bytes[i] <= 126 || bytes[i] == 9))
            ==> {
            &&& header_text(bytes).len() == bytes.len()
            &&& forall|i: int|
                0 <= i < bytes.len() ==> #[trigger] header_text(bytes)[i] == bytes[i] as char
        },
        (exists|i: int|
            0 <= i < bytes.len() && !(32 <= #[trigger] bytes[i] <= 126 || bytes[i] == 9))
            ==> header_text(bytes).len() == 0,
{
    if forall|i: int| 0 <= i < bytes.len() ==> (32 <= #[trigger] bytes[i] <= 126 || bytes[i] == 9) {
        assert forall|i: int| 0 <= i < bytes.len() implies is_visible(#[trigger] bytes[i]) by {}
    }
    if exists|i: int| 0 <= i < bytes.len() && !(32 <= #[trigger] bytes[i] <= 126 || bytes[i] == 9) {
        let i = choose|i: int|
            0 <= i < bytes.len() && !(32 <= #[trigger] bytes[i] <= 126 || bytes[i] == 9);
        assert(!is_visible(bytes[i]));
    }
}

/// Whether a text holds neither spaces nor tabs.
pub open spec fn has_no_blanks(text: Seq<char>) -> bool {
    forall|i: int| 0 <= i < text.len() ==> #[trigger] text[i] != ' ' && text[i] != '\t'
}

/// A text without blanks is one word, or none where it is empty; and a space or
/// a tab separates the words before it from those after it.
pub proof fn law_blanks_separate_words(before: Seq<char>, after: Seq<char>, blank: char)
    requires
        blank == ' ' || blank == '\t',
    ensures
        words(before + seq![blank] + after) == words(before) + words(after),
        has_no_blanks(before) && before.len() > 0 ==> words(before) == seq![before],
        before.len() == 0 ==> words(before).len() == 0,
{
    let keep = |word: Seq<char>| word.len() > 0;
    assert(without_tabs(before + seq![blank] + after) =~= without_tabs(before) + seq![' ']
        + without_tabs(after));
    lemma_split_at_mark(without_tabs(before), without_tabs(after), ' ');
    lemma_filter_add(split(without_tabs(before), ' '), split(without_tabs(after), ' '), keep);
    if has_no_blanks(before) {
        assert(without_tabs(before) =~= before);
        assert(!before.contains(' ')) by {
            if before.contains(' ') {
                let i = choose|i: int| 0 <= i < before.len() && before[i] == ' ';
                assert(before[i] != ' ');
            }
        }
        lemma_split_unmarked(before, ' ');
        reveal(Seq::filter);
        let one = seq![before];
        assert(one.drop_last() =~= Seq::empty());
        assert(one.last() == before);
        assert(Seq::<Seq<char>>::empty().filter(keep) =~= Seq::empty());
        assert(one.filter(keep) =~= if before.len() > 0 {
            seq![before]
        } else {
            Seq::empty()
        });
    }
}

proof fn lemma_filter_add(
    first: Seq<Seq<char>>,
    second: Seq<Seq<char>>,
    keep: spec_fn(Seq<char>) -> bool,
)
    ensures
        (first + second).filter(keep) == first.filter(keep) + second.filter(keep),
    decreases second.len(),
{
    reveal(Seq::filter);
    if second.len() == 0 {
        assert(first + second =~= first);
        assert(second.filter(keep) =~= Seq::empty());
        assert(first.filter(keep) + second.filter(keep) =~= first.filter(keep));
    } else {
        let front = second.drop_last();
        lemma_filter_add(first, front, keep);
        assert((first + second).drop_last() =~= first + front);
        assert((first + second).last() == second.last());
        assert((first + second).filter(keep) =~= first.filter(keep) + second.filter(keep));
    }
}

/// A header whose text is `Bearer`, a blank and a token shows the token, whatever
/// follows after another blank.
pub proof fn law_bearers_show_their_token(
    bytes: Seq<u8>,
    blank: char,
    token: Seq<char>,
    rest: Seq<char>,
)
    requires
        blank == ' ' || blank == '\t',
        token.len() > 0,
        has_no_blanks(token),
        header_text(bytes) == "Bearer"@ + seq![blank] + token || header_text(bytes) == "Bearer"@
            + seq![blank] + (token + seq![' '] + rest),
    ensures
        shown_by(Some(bytes)) == AuthHeaderView::Token(token),
{
    reveal_strlit("Bearer");
    let word = "Bearer"@;
    let text = header_text(bytes);
    law_blanks_separate_words(word, token, blank);
    law_blanks_separate_words(word, token + seq![' '] + rest, blank);
    law_blanks_separate_words(token, rest, ' ');
    assert(word.is_prefix_of(text));
    assert(words(text)[1] == token);
}

/// A request without the header shows that it has none; a header that does not
/// begin with `Bearer` shows no token, and neither does one that has no second
/// word.
pub proof fn law_other_headers_show_no_token(bytes: Seq<u8>)
    ensures
        shown_by(None) is Missing,
        !"Bearer"@.is_prefix_of(header_text(bytes)) ==> shown_by(Some(bytes)) is NotBearer,
        "Bearer"@.is_prefix_of(header_text(bytes)) && words(header_text(bytes)).len() < 2
            ==> shown_by(Some(bytes)) is NoToken,
        "Bearer"@.is_prefix_of(header_text(bytes)) && words(header_text(bytes)).len() >= 2
            ==> shown_by(Some(bytes)) == AuthHeaderView::Token(words(header_text(bytes))[1]),
        AUTHORIZATION_HEADER@ == "Authorization"@,
{
}

/// What a request is answered: nothing stands in its way where its token is good;
/// a bad token is an error on this side by body and refused by path; and without
/// a token both refuse it.
pub proof fn law_requests_are_answered_so(
    shown: AuthHeaderView,
    path: Seq<char>,
    checked: Result<(), Seq<char>>,
)
    ensures
        ({
            let (json, by_path) = (
                json_admission(shown, path, checked),
                path_admission(shown, path, checked),
            );
            &&& match (shown, checked) {
                (AuthHeaderView::Token(_), Ok(_)) => json is Ok && by_path is Ok,
                (AuthHeaderView::Token(_), Err(complaint)) => {
                    &&& json == Err::<(), RejectionView>(
                        RejectionView {
                            status: 500,
                            error: ErrorView {
                                kind: ErrorKind::Internal,
                                cause: Some(complaint),
                                details: None,
                            },
                        },
                    )
                    &&& by_path == Err::<(), RejectionView>(
                        RejectionView {
                            status: 401,
                            error: ErrorView {
                                kind: ErrorKind::Unauthorized,
                                cause: Some(complaint),
                                details: Some(path),
                            },
                        },
                    )
                },
                _ => {
                    &&& json == by_path
                    &&& json == Err::<(), RejectionView>(
                        RejectionView {
                            status: 401,
                            error: ErrorView {
                                kind: ErrorKind::Unauthorized,
                                cause: None,
                                details: Some(path),
                            },
                        },
                    )
                },
            }
        }),
{
}

/// A complaint about the claims of a token comes before any other; without one
/// the check of the token decides.
pub proof fn law_claims_are_complained_of_first(
    complaint: Seq<char>,
    checked: Result<(), Seq<char>>,
)
    ensures
        checked_with(Err(complaint), checked) == Err::<(), Seq<char>>(complaint),
        checked_with(Ok(()), checked) == checked,
{
}

/// What a request shows and what it is answered are seen as they are.
pub proof fn law_headers_and_answers_show_what_they_hold(shown: AuthHeader, rejection: Rejection)
    ensures
        match shown {
            AuthHeader::Missing => shown@ is Missing,
            AuthHeader::NotBearer => shown@ is NotBearer,
            AuthHeader::NoToken => shown@ is NoToken,
            AuthHeader::Token(token) => shown@ == AuthHeaderView::Token(token@),
        },
        rejection@.status == rejection.status,
        rejection@.error == rejection.error@,
{
}

} // verus!
