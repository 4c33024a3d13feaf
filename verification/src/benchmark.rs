//! A benchmark of the message box: the messages that it sends, and their order.

use vstd::prelude::*;
use vstd::utf8::encode_utf8;

use crate::config::MongoDbConfig;
use crate::config::MongoDbConfigView;
use crate::error::Error;
use crate::error::{optional_error, ErrorView};
use crate::message::{GroupMemSeq, Msg, MsgType, PlatformType};
use crate::message::{member_views, GroupMemSeqView, MsgView};
use crate::text::{decimal, lemma_decimal_injective, texts};
use crate::text::{decimal_text, joined};

verus! {

/// How many users take turns to receive the benchmark's messages.
pub const RECEIVER_COUNT: usize = 20;

/// How many groups take turns to receive the benchmark's group messages.
pub const GROUP_COUNT: usize = 5;

/// After how many messages the benchmark reports.
pub const SINGLE_REPORT_STEP: usize = 1000;

/// After how many group messages the benchmark reports.
pub const GROUP_REPORT_STEP: usize = 100;

/// How many members each group of the benchmark has.
pub const MEMBERS_PER_GROUP: usize = 10;

/// The names of the first `count` users: the prefix, an underscore and the
/// user's number.
pub open spec fn user_ids(count: nat, prefix: Seq<char>) -> Seq<Seq<char>> {
    Seq::new(count, |i: int| prefix + "_"@ + decimal(i as nat))
}

/// The names of the first `count` groups.
pub open spec fn group_ids(count: nat) -> Seq<Seq<char>> {
    Seq::new(count, |i: int| "group_"@ + decimal(i as nat))
}

/// A word followed by a number.
fn numbered(word: &str, number: usize) -> (text: String)
    ensures
        text@ == word@ + decimal(number as nat),
{
    let digits = decimal_text(number as u64);
    joined(word, digits.as_str())
}

/// The names of the first `count` users.
pub fn generate_user_ids(count: usize, prefix: &str) -> (ids: Vec<String>)
    ensures
        texts(ids@) == user_ids(count as nat, prefix@),
        ids@.len() == count,
        forall|i: int|
            0 <= i < count ==> (#[trigger] ids@[i])@ == prefix@ + "_"@ + decimal(i as nat),
{
    let start = joined(prefix, "_");
    let mut ids: Vec<String> = Vec::new();
    let mut i: usize = 0;
    while i < count
        invariant
            i <= count,
            start@ == prefix@ + "_"@,
            texts(ids@) == user_ids(i as nat, prefix@),
        decreases count - i,
    {
        let ghost before = ids@;
        let id = numbered(start.as_str(), i);
        let ghost added = id@;
        ids.push(id);
        assert(texts(ids@) =~= texts(before).push(added));
        i = i + 1;
        assert(user_ids(i as nat, prefix@) =~= user_ids((i - 1) as nat, prefix@).push(added));
    }
    proof {
        assert(texts(ids@).len() == ids@.len());
        assert forall|i: int| 0 <= i < count implies (#[trigger] ids@[i])@ == prefix@ + "_"@
            + decimal(i as nat) by {
            assert(texts(ids@)[i] == ids@[i]@);
        }
    }
    ids
}

/// The names of the first `count` groups.
pub fn generate_group_ids(count: usize) -> (ids: Vec<String>)
    ensures
        texts(ids@) == group_ids(count as nat),
        ids@.len() == count,
        forall|i: int| 0 <= i < count ==> (#[trigger] ids@[i])@ == "group_"@ + decimal(i as nat),
{
    let mut ids: Vec<String> = Vec::new();
    let mut i: usize = 0;
    while i < count
        invariant
            i <= count,
            texts(ids@) == group_ids(i as nat),
        decreases count - i,
    {
        let ghost before = ids@;
        let id = numbered("group_", i);
        let ghost added = id@;
        ids.push(id);
        assert(texts(ids@) =~= texts(before).push(added));
        i = i + 1;
        assert(group_ids(i as nat) =~= group_ids((i - 1) as nat).push(added));
    }
    proof {
        assert(texts(ids@).len() == ids@.len());
        assert forall|i: int| 0 <= i < count implies (#[trigger] ids@[i])@ == "group_"@ + decimal(
            i as nat,
        ) by {
            assert(texts(ids@)[i] == ids@[i]@);
        }
    }
    ids
}

/// The message that the benchmark makes of a name, the two users, a moment and
/// a number.
pub open spec fn test_message(
    id: Seq<char>,
    sender_id: Seq<char>,
    receiver_id: Seq<char>,
    time: i64,
    seq: i64,
    msg_type: MsgType,
) -> MsgView {
    MsgView {
        client_id: "client_"@ + id,
        server_id: "server_"@ + id,
        create_time: (time - 1) as i64,
        send_time: time,
        content_type: 0,
        content: encode_utf8("Test content for message "@ + id),
        sender_id,
        receiver_id,
        seq,
        send_seq: (seq + 1000) as i64,
        msg_type: msg_type.spec_code(),
        is_read: false,
        platform: PlatformType::Mobile.spec_code(),
        group_id: if msg_type is GroupMsg {
            "group_"@ + id
        } else {
            Seq::empty()
        },
        avatar: Seq::empty(),
        nickname: Seq::empty(),
        related_msg_id: None,
    }
}

/// The message that the benchmark makes of a name, the two users, a moment and
/// a number.
pub fn create_test_message(
    id: String,
    sender_id: String,
    receiver_id: String,
    time: i64,
    seq: i64,
    msg_type: MsgType,
) -> (message: Msg)
    requires
        time > i64::MIN,
        seq + 1000 <= i64::MAX,
    ensures
        message@ == test_message(id@, sender_id@, receiver_id@, time, seq, msg_type),
        message.client_id@ == "client_"@ + id@,
        message.server_id@ == "server_"@ + id@,
        message.create_time == time - 1,
        message.send_time == time,
        message.content_type == 0,
        message.content@ == encode_utf8("Test content for message "@ + id@),
        message.sender_id@ == sender_id@,
        message.receiver_id@ == receiver_id@,
        message.seq == seq,
        message.send_seq == seq + 1000,
        message.msg_type == (match msg_type {
            MsgType::SingleMsg => 0i32,
            MsgType::GroupMsg => 1i32,
        }),
        !message.is_read,
        message.platform == 1,
        msg_type is GroupMsg ==> message.group_id@ == "group_"@ + id@,
        msg_type is SingleMsg ==> message.group_id@.len() == 0,
        message.avatar@.len() == 0,
        message.nickname@.len() == 0,
        message.related_msg_id is None,
{
    let group_id = match msg_type {
        MsgType::GroupMsg => joined("group_", id.as_str()),
        MsgType::SingleMsg => String::new(),
    };
    Msg {
        client_id: joined("client_", id.as_str()),
        server_id: joined("server_", id.as_str()),
        create_time: time - 1,
        send_time: time,
        content_type: 0,
        content: joined("Test content for message ", id.as_str()).as_str().as_bytes_vec(),
        sender_id,
        receiver_id,
        seq,
        send_seq: seq + 1000,
        msg_type: msg_type.code(),
        is_read: false,
        platform: PlatformType::Mobile.code(),
        group_id,
        avatar: String::new(),
        nickname: String::new(),
        related_msg_id: None,
    }
}

/// The user that sends the benchmark's message with this number: ten of them
/// take turns.
pub open spec fn benchmark_sender(number: nat) -> Seq<char> {
    "sender_"@ + decimal(number % 10)
}

/// The message with this number of a benchmark of messages between two users,
/// for which the receivers take turns.
pub fn single_message(number: usize, base_time: i64) -> (message: Msg)
    requires
        number + 1000 <= i64::MAX,
        i64::MIN < base_time + number <= i64::MAX,
    ensures
        message@ == test_message(
            "s_"@ + decimal(number as nat),
            benchmark_sender(number as nat),
            user_ids(RECEIVER_COUNT as nat, "recv"@)[number as int % RECEIVER_COUNT as int],
            (base_time + number) as i64,
            number as i64,
            MsgType::SingleMsg,
        ),
        message.server_id@ == "server_"@ + ("s_"@ + decimal(number as nat)),
        message.client_id@ == "client_"@ + ("s_"@ + decimal(number as nat)),
        message.sender_id@ == "sender_"@ + decimal((number % 10) as nat),
        message.receiver_id@ == "recv"@ + "_"@ + decimal((number % 20) as nat),
        message.send_time == base_time + number,
        message.seq == number,
        message.msg_type == 0,
{
    let start = joined("recv", "_");
    create_test_message(
        numbered("s_", number),
        numbered("sender_", number % 10),
        numbered(start.as_str(), number % RECEIVER_COUNT),
        base_time + number as i64,
        number as i64,
        MsgType::SingleMsg,
    )
}

/// The place of a member of the benchmark's group with this number.
pub open spec fn benchmark_member(group: nat, member: nat) -> GroupMemSeqView {
    GroupMemSeqView {
        mem_id: "mem_"@ + decimal(group) + "_"@ + decimal(member),
        cur_seq: (1000 + member) as i64,
        max_seq: (1000 + member) as i64,
        need_update: false,
    }
}

/// The members of the benchmark's group with this number.
pub fn group_members(group: usize) -> (members: Vec<GroupMemSeq>)
    ensures
        member_views(members@) == Seq::new(
            MEMBERS_PER_GROUP as nat,
            |i: int| benchmark_member(group as nat, i as nat),
        ),
        members@.len() == 10,
        forall|i: int|
            0 <= i < 10 ==> {
                &&& (#[trigger] members@[i]).mem_id@ == "mem_"@ + decimal(group as nat) + "_"@
                    + decimal(i as nat)
                &&& members@[i].cur_seq == 1000 + i
                &&& members@[i].max_seq == 1000 + i
                &&& !members@[i].need_update
            },
{
    let start = numbered("mem_", group);
    let start = joined(start.as_str(), "_");
    let mut members: Vec<GroupMemSeq> = Vec::new();
    let mut i: usize = 0;
    while i < MEMBERS_PER_GROUP
        invariant
            i <= MEMBERS_PER_GROUP,
            start@ == "mem_"@ + decimal(group as nat) + "_"@,
            member_views(members@) == Seq::new(
                i as nat,
                |k: int| benchmark_member(group as nat, k as nat),
            ),
        decreases MEMBERS_PER_GROUP - i,
    {
        let ghost before = members@;
        let seq: i64 = 1000 + i as i64;
        let member = GroupMemSeq::new(numbered(start.as_str(), i), seq, seq, false);
        let ghost added = member@;
        members.push(member);
        assert(member_views(members@) =~= member_views(before).push(added));
        i = i + 1;
        assert(member_views(members@) =~= Seq::new(
            i as nat,
            |k: int| benchmark_member(group as nat, k as nat),
        ));
    }
    proof {
        assert(member_views(members@).len() == members@.len());
        assert forall|i: int| 0 <= i < 10 implies {
            &&& (#[trigger] members@[i]).mem_id@ == "mem_"@ + decimal(group as nat) + "_"@
                + decimal(i as nat)
            &&& members@[i].cur_seq == 1000 + i
            &&& members@[i].max_seq == 1000 + i
            &&& !members@[i].need_update
        } by {
            assert(member_views(members@)[i] == members@[i]@);
        }
    }
    members
}

/// The message with this number of a benchmark of group messages, for which
/// the groups take turns, and the members that receive it.
pub fn group_message(number: usize, base_time: i64) -> (sent: (Msg, Vec<GroupMemSeq>))
    requires
        number + 1000 <= i64::MAX,
        i64::MIN < base_time + number <= i64::MAX,
    ensures
        sent.0@ == test_message(
            "g_"@ + decimal(number as nat),
            benchmark_sender(number as nat),
            "group"@,
            (base_time + number) as i64,
            number as i64,
            MsgType::GroupMsg,
        ),
        member_views(sent.1@) == Seq::new(
            MEMBERS_PER_GROUP as nat,
            |i: int| benchmark_member(number as nat % GROUP_COUNT as nat, i as nat),
        ),
        sent.0.server_id@ == "server_"@ + ("g_"@ + decimal(number as nat)),
        sent.0.client_id@ == "client_"@ + ("g_"@ + decimal(number as nat)),
        sent.0.sender_id@ == "sender_"@ + decimal((number % 10) as nat),
        sent.0.receiver_id@ == "group"@,
        sent.0.group_id@ == "group_"@ + ("g_"@ + decimal(number as nat)),
        sent.0.send_time == base_time + number,
        sent.0.seq == number,
        sent.0.msg_type == 1,
        sent.1@.len() == 10,
        forall|i: int|
            0 <= i < 10 ==> {
                &&& (#[trigger] sent.1@[i]).mem_id@ == "mem_"@ + decimal((number % 5) as nat)
                    + "_"@ + decimal(i as nat)
                &&& sent.1@[i].cur_seq == 1000 + i
                &&& sent.1@[i].max_seq == 1000 + i
                &&& !sent.1@[i].need_update
            },
{
    let message = create_test_message(
        numbered("g_", number),
        numbered("sender_", number % 10),
        "group".to_owned(),
        base_time + number as i64,
        number as i64,
        MsgType::GroupMsg,
    );
    (message, group_members(number % GROUP_COUNT))
}

/// How many messages of a mixed benchmark go between two users, and how many
/// to groups: seven in ten, and the rest.
pub fn mixed_counts(count: usize) -> (counts: (usize, usize))
    requires
        count * 7 <= usize::MAX,
    ensures
        counts.0 == count * 7 / 10,
        counts.0 + counts.1 == count,
{
    let single: usize = count * 7 / 10;
    (single, count - single)
}

/// Whether the benchmark reports after the message with this number: at every
/// multiple of the step but zero.
pub fn single_reports_at(number: usize) -> (reports: bool)
    ensures
        reports == (number > 0 && number % SINGLE_REPORT_STEP == 0),
{
    number % SINGLE_REPORT_STEP == 0 && number > 0
}

/// Whether the benchmark reports after the group message with this number.
pub fn group_reports_at(number: usize) -> (reports: bool)
    ensures
        reports == (number > 0 && number % GROUP_REPORT_STEP == 0),
{
    number % GROUP_REPORT_STEP == 0 && number > 0
}

/// What a benchmark measures.
#[derive(Clone, Copy, Debug, PartialEq, Eq, Structural)]
pub enum TestMode {
    /// Messages between two users.
    Single,
    /// Messages to groups.
    Group,
    /// Both, one after the other.
    Mixed,
}

/// How many messages a benchmark sends between two users, and how many to
/// groups.
pub open spec fn counts_of(mode: TestMode, count: nat) -> (nat, nat) {
    match mode {
        TestMode::Single => (count, 0),
        TestMode::Group => (0, count),
        TestMode::Mixed => (count * 7 / 10, (count - count * 7 / 10) as nat),
    }
}

/// A message to send, by its number among those of its sort.
#[derive(Clone, Copy, Debug, PartialEq, Eq, Structural)]
pub enum BenchmarkTask {
    Single(usize),
    Group(usize),
}

/// The run of a benchmark.
#[derive(Debug)]
pub struct BenchmarkRun {
    singles: usize,
    groups: usize,
    sent: usize,
    failure: Option<Error>,
}

pub struct BenchmarkRunView {
    /// How many messages go between two users.
    pub singles: nat,
    /// How many messages go to groups, after the others.
    pub groups: nat,
    /// How many messages were sent.
    pub sent: nat,
    pub failure: Option<ErrorView>,
}

impl View for BenchmarkRun {
    type V = BenchmarkRunView;

    closed spec fn view(&self) -> BenchmarkRunView {
        BenchmarkRunView {
            singles: self.singles as nat,
            groups: self.groups as nat,
            sent: self.sent as nat,
            failure: optional_error(self.failure),
        }
    }
}

/// The messages of a benchmark in the order in which they are sent.
pub open spec fn all_tasks(singles: nat, groups: nat) -> Seq<BenchmarkTask> {
    Seq::new(
        singles + groups,
        |i: int|
            if i < singles {
                BenchmarkTask::Single(i as usize)
            } else {
                BenchmarkTask::Group((i - singles) as usize)
            },
    )
}

impl BenchmarkRunView {
    /// Whether there is a message to send.
    pub open spec fn is_running(self) -> bool {
        self.failure is None && self.sent < self.singles + self.groups
    }

    /// The message to send.
    pub open spec fn task(self) -> BenchmarkTask {
        all_tasks(self.singles, self.groups)[self.sent as int]
    }

    /// After the message at hand was sent, or could not be.
    pub open spec fn after(self, failure: Option<ErrorView>) -> BenchmarkRunView {
        match failure {
            Some(error) => BenchmarkRunView { failure: Some(error), ..self },
            None => BenchmarkRunView { sent: self.sent + 1, ..self },
        }
    }
}

/// Whether there is a report after a message that was sent.
pub open spec fn reports_after(task: BenchmarkTask) -> bool {
    match task {
        BenchmarkTask::Single(number) => number > 0 && number % SINGLE_REPORT_STEP == 0,
        BenchmarkTask::Group(number) => number > 0 && number % GROUP_REPORT_STEP == 0,
    }
}

/// The run of a benchmark before the first message is sent.
pub open spec fn benchmark_of(mode: TestMode, count: nat) -> BenchmarkRunView {
    BenchmarkRunView {
        singles: counts_of(mode, count).0,
        groups: counts_of(mode, count).1,
        sent: 0,
        failure: None,
    }
}

impl BenchmarkRun {
    #[verifier::type_invariant]
    spec fn wf(self) -> bool {
        self.singles + self.groups <= usize::MAX
    }

    /// A run of so many messages.
    pub fn new(mode: TestMode, count: usize) -> (run: Self)
        requires
            mode is Mixed ==> count * 7 <= usize::MAX,
        ensures
            run@ == benchmark_of(mode, count as nat),
            run@.singles == (match mode {
                TestMode::Single => count as int,
                TestMode::Group => 0,
                TestMode::Mixed => count * 7 / 10,
            }),
            run@.singles + run@.groups == count,
            run@.sent == 0,
            run@.failure is None,
    {
        let (singles, groups): (usize, usize) = match mode {
            TestMode::Single => (count, 0),
            TestMode::Group => (0, count),
            TestMode::Mixed => mixed_counts(count),
        };
        BenchmarkRun { singles, groups, sent: 0, failure: None }
    }

    /// The message to send next, or nothing where all are sent or one failed.
    pub fn current(&self) -> (task: Option<BenchmarkTask>)
        ensures
            task == (if self@.is_running() {
                Some(self@.task())
            } else {
                None
            }),
            match task {
                None => self@.failure is Some || self@.sent >= self@.singles + self@.groups,
                Some(BenchmarkTask::Single(number)) => self@.failure is None && number
                    == self@.sent < self@.singles,
                Some(BenchmarkTask::Group(number)) => {
                    &&& self@.failure is None
                    &&& number == self@.sent - self@.singles
                    &&& self@.singles <= self@.sent < self@.singles + self@.groups
                },
            },
    {
        proof {
            use_type_invariant(self);
        }
        match &self.failure {
            Some(_) => None,
            None => if self.sent < self.singles {
                Some(BenchmarkTask::Single(self.sent))
            } else if self.sent < self.singles + self.groups {
                Some(BenchmarkTask::Group(self.sent - self.singles))
            } else {
                None
            },
        }
    }

    /// Takes note of what came of sending the message at hand, and tells whether
    /// there is a report after it. A failure ends the run.
    pub fn on_sent(&mut self, failure: Option<Error>) -> (reports: bool)
        requires
            old(self)@.is_running(),
        ensures
            final(self)@ == old(self)@.after(optional_error(failure)),
            reports == (failure is None && reports_after(old(self)@.task())),
            match failure {
                Some(error) => final(self)@ == (BenchmarkRunView {
                    failure: Some(error@),
                    ..old(self)@
                }),
                None => final(self)@ == (BenchmarkRunView {
                    sent: old(self)@.sent + 1,
                    ..old(self)@
                }),
            },
            reports <==> failure is None && (if old(self)@.sent < old(self)@.singles {
                old(self)@.sent > 0 && old(self)@.sent % 1000 == 0
            } else {
                let number = old(self)@.sent - old(self)@.singles;
                number > 0 && number % 100 == 0
            }),
    {
        proof {
            use_type_invariant(&*self);
        }
        match failure {
            Some(error) => {
                self.failure = Some(error);
                false
            },
            None => {
                let number: usize = self.sent;
                self.sent = number + 1;
                if number < self.singles {
                    single_reports_at(number)
                } else {
                    group_reports_at(number - self.singles)
                }
            },
        }
    }

    /// Whether a message could not be sent.
    pub fn has_failed(&self) -> (failed: bool)
        ensures
            failed == (self@.failure is Some),
    {
        match &self.failure {
            Some(_) => true,
            None => false,
        }
    }

    /// How the run ended.
    pub fn finish(self) -> (outcome: Result<(), Error>)
        ensures
            match outcome {
                Ok(_) => self@.failure is None,
                Err(error) => self@.failure == Some(error@),
            },
    {
        match self.failure {
            Some(error) => Err(error),
            None => Ok(()),
        }
    }
}

/// What a series of outcomes leads to, and the messages that were asked for.
/// Outcomes after the end change nothing.
pub open spec fn benchmark_run(run: BenchmarkRunView, outcomes: Seq<Option<ErrorView>>) -> (
    BenchmarkRunView,
    Seq<BenchmarkTask>,
)
    decreases outcomes.len(),
{
    if outcomes.len() == 0 {
        (run, Seq::empty())
    } else {
        let (before, asked) = benchmark_run(run, outcomes.drop_last());
        if before.is_running() {
            (before.after(outcomes.last()), asked.push(before.task()))
        } else {
            (before, asked)
        }
    }
}

/// How many of some outcomes are taken note of: all up to the first failure, and
/// no more than there are messages.
pub open spec fn heeded(outcomes: Seq<Option<ErrorView>>, count: nat) -> nat
    decreases outcomes.len(),
{
    if outcomes.len() == 0 {
        0
    } else {
        let before = heeded(outcomes.drop_last(), count);
        if before < count && before == outcomes.len() - 1 && (before == 0 || outcomes[before - 1]
            is None) {
            before + 1
        } else {
            before
        }
    }
}

proof fn lemma_benchmark_run(
    singles: nat,
    groups: nat,
    outcomes: Seq<Option<ErrorView>>,
)
    ensures
        ({
            let start = BenchmarkRunView { singles, groups, sent: 0, failure: None };
            let (run, asked) = benchmark_run(start, outcomes);
            let count = heeded(outcomes, singles + groups);
            &&& count <= outcomes.len() && count <= singles + groups
            &&& asked == all_tasks(singles, groups).take(count as int)
            &&& run.singles == singles && run.groups == groups
            &&& run.failure == (if count > 0 {
                outcomes[count - 1]
            } else {
                None
            })
            &&& run.failure is None ==> run.sent == count
            &&& run.is_running() ==> count == outcomes.len()
        }),
    decreases outcomes.len(),
{
    let start = BenchmarkRunView { singles, groups, sent: 0, failure: None };
    let all = all_tasks(singles, groups);
    if outcomes.len() > 0 {
        let front = outcomes.drop_last();
        lemma_benchmark_run(singles, groups, front);
        let (before, asked) = benchmark_run(start, front);
        let count = heeded(front, singles + groups);
        if before.is_running() {
            assert(all.take(count as int).push(all[count as int]) =~= all.take(
                count as int + 1,
            ));
        }
    } else {
        assert(all.take(0) =~= Seq::empty());
    }
}

/// Where all goes well a benchmark sends all its messages in their order, those
/// between two users first, and then ends.
pub proof fn law_benchmarks_send_every_message(
    mode: TestMode,
    count: nat,
    outcomes: Seq<Option<ErrorView>>,
)
    requires
        outcomes.len() == count,
        forall|i: int| 0 <= i < count ==> #[trigger] outcomes[i] is None,
    ensures
        ({
            let (singles, groups) = counts_of(mode, count);
            let (run, asked) = benchmark_run(benchmark_of(mode, count), outcomes);
            &&& singles + groups == count
            &&& asked == all_tasks(singles, groups)
            &&& run.failure is None
            &&& !run.is_running()
        }),
{
    let (singles, groups) = counts_of(mode, count);
    lemma_benchmark_run(singles, groups, outcomes);
    lemma_all_heeded(outcomes, count);
    assert(all_tasks(singles, groups).take(count as int) =~= all_tasks(singles, groups));
}

proof fn lemma_all_heeded(outcomes: Seq<Option<ErrorView>>, count: nat)
    requires
        outcomes.len() <= count,
        forall|i: int| 0 <= i < outcomes.len() - 1 ==> #[trigger] outcomes[i] is None,
    ensures
        heeded(outcomes, count) == outcomes.len(),
    decreases outcomes.len(),
{
    if outcomes.len() > 0 {
        lemma_all_heeded(outcomes.drop_last(), count);
    }
}

/// A benchmark of one sort sends as many messages of that sort as asked for, by
/// their numbers from zero; a mixed one sends seven in ten between two users and
/// then the rest to groups.
pub proof fn law_benchmarks_send_so_many_of_each_sort(mode: TestMode, count: nat, i: int)
    requires
        count <= usize::MAX,
        0 <= i < count,
    ensures
        ({
            let (singles, groups) = counts_of(mode, count);
            let tasks = all_tasks(singles, groups);
            &&& mode is Single ==> singles == count
            &&& mode is Group ==> singles == 0
            &&& mode is Mixed ==> singles == count * 7 / 10
            &&& singles + groups == count
            &&& tasks.len() == count
            &&& i < singles ==> (tasks[i] matches BenchmarkTask::Single(number) && number == i)
            &&& i >= singles ==> (tasks[i] matches BenchmarkTask::Group(number) && number == i
                - singles)
        }),
{
}

/// A benchmark ends with the first message that cannot be sent, and reports why:
/// nothing after it is sent, whatever would have come of it.
pub proof fn law_benchmarks_end_with_the_first_failure(
    mode: TestMode,
    count: nat,
    outcomes: Seq<Option<ErrorView>>,
    failed: int,
)
    requires
        0 <= failed < outcomes.len(),
        failed < count,
        outcomes[failed] is Some,
        forall|i: int| 0 <= i < failed ==> #[trigger] outcomes[i] is None,
    ensures
        ({
            let (singles, groups) = counts_of(mode, count);
            let (run, asked) = benchmark_run(benchmark_of(mode, count), outcomes);
            &&& asked == all_tasks(singles, groups).take(failed + 1)
            &&& run.failure == outcomes[failed]
            &&& !run.is_running()
        }),
    decreases outcomes.len(),
{
    let (singles, groups) = counts_of(mode, count);
    if outcomes.len() == failed + 1 {
        lemma_benchmark_run(singles, groups, outcomes);
        lemma_all_heeded(outcomes, count);
    } else {
        law_benchmarks_end_with_the_first_failure(mode, count, outcomes.drop_last(), failed);
    }
}

/// The name of the database that a benchmark started at this moment uses.
pub fn benchmark_database(milliseconds: u64) -> (name: String)
    ensures
        name@ == "bench_test_"@ + decimal(milliseconds as nat),
{
    let digits = decimal_text(milliseconds);
    joined("bench_test_", digits.as_str())
}

/// The configuration of a benchmark: a database of its own, sharded into so many
/// slices, and all else as configured.
pub fn benchmark_config(config: &MongoDbConfig, database: String, shards: u8) -> (own: MongoDbConfig)
    ensures
        own@ == (MongoDbConfigView {
            database: database@,
            use_sharding: Some(true),
            user_shards: Some(shards as u32),
            ..config@
        }),
{
    let mut own = config.clone();
    own.database = database;
    own.use_sharding = Some(true);
    own.user_shards = Some(shards as u32);
    own
}

/// No two users of a benchmark have the same name.
pub proof fn law_user_names_are_distinct(count: nat, prefix: Seq<char>)
    ensures
        user_ids(count, prefix).no_duplicates(),
{
    let ids = user_ids(count, prefix);
    assert forall|i: int, j: int|
        0 <= i < ids.len() && 0 <= j < ids.len() && i != j implies ids[i] != ids[j] by {
        let start = prefix + "_"@;
        assert(ids[i].skip(start.len() as int) =~= decimal(i as nat));
        assert(ids[j].skip(start.len() as int) =~= decimal(j as nat));
        if ids[i] == ids[j] {
            lemma_decimal_injective(i as nat, j as nat);
        }
    }
}

} // verus!
