//! What is kept in the cache: counters, members of groups, registration codes
//! and who is online.

use vstd::prelude::*;

use crate::config::RedisConfig;
use crate::counter::DEFAULT_SEQ_STEP;
use crate::message::GroupMemSeq;
use crate::message::{member_views, GroupMemSeqView};
use crate::text::joined;
use crate::text::texts;

verus! {

pub const GROUP_MEMBERS_ID_PREFIX: &'static str = "group_members_id";

pub const REGISTER_CODE_KEY: &'static str = "register_code";

/// For how many seconds a registration code is kept.
pub const REGISTER_CODE_EXPIRE: u64 = 300;

pub const USER_ONLINE_SET: &'static str = "user_online_set";

pub const CUR_SEQ_KEY: &'static str = "cur_seq";

pub const MAX_SEQ_KEY: &'static str = "max_seq";

pub const IS_LOADED: &'static str = "seq_need_load";

pub const SEQ_NO_NEED_LOAD: &'static str = "false";

/// The key of the counter of what a user receives.
pub open spec fn seq_key(user_id: Seq<char>) -> Seq<char> {
    "seq:"@ + user_id
}

/// The key of the counter of what a user sends.
pub open spec fn send_seq_key(user_id: Seq<char>) -> Seq<char> {
    "send_seq:"@ + user_id
}

/// The key of the members of a group.
pub open spec fn group_key(group_id: Seq<char>) -> Seq<char> {
    GROUP_MEMBERS_ID_PREFIX@ + ":"@ + group_id
}

/// The key of the registration code of an address.
pub open spec fn register_key(email: Seq<char>) -> Seq<char> {
    REGISTER_CODE_KEY@ + ":"@ + email
}

/// A command to the cache.
#[derive(Debug, PartialEq, Eq)]
pub enum Command {
    GetText { key: String },
    SetText { key: String, value: String },
    /// Keeps a text for so many seconds.
    SetTextFor { key: String, value: String, seconds: u64 },
    HGet { key: String, field: String },
    HSetNumber { key: String, field: String, number: i64 },
    SAdd { key: String, member: String },
    SRem { key: String, members: Vec<String> },
    SMembers { key: String },
    SCard { key: String },
    Del { key: String },
    /// Runs a script that was loaded before, with these keys, the number
    /// of numbers to set aside and these other arguments.
    EvalSha { sha: String, keys: Vec<String>, step: i32, rest: Vec<String> },
}

pub enum CommandView {
    GetText { key: Seq<char> },
    SetText { key: Seq<char>, value: Seq<char> },
    SetTextFor { key: Seq<char>, value: Seq<char>, seconds: u64 },
    HGet { key: Seq<char>, field: Seq<char> },
    HSetNumber { key: Seq<char>, field: Seq<char>, number: i64 },
    SAdd { key: Seq<char>, member: Seq<char> },
    SRem { key: Seq<char>, members: Seq<Seq<char>> },
    SMembers { key: Seq<char> },
    SCard { key: Seq<char> },
    Del { key: Seq<char> },
    EvalSha { sha: Seq<char>, keys: Seq<Seq<char>>, step: i32, rest: Seq<Seq<char>> },
}

impl View for Command {
    type V = CommandView;

    open spec fn view(&self) -> CommandView {
        match self {
            Command::GetText { key } => CommandView::GetText { key: key@ },
            Command::SetText { key, value } => CommandView::SetText { key: key@, value: value@ },
            Command::SetTextFor { key, value, seconds } => CommandView::SetTextFor {
                key: key@,
                value: value@,
                seconds: *seconds,
            },
            Command::HGet { key, field } => CommandView::HGet { key: key@, field: field@ },
            Command::HSetNumber { key, field, number } => CommandView::HSetNumber {
                key: key@,
                field: field@,
                number: *number,
            },
            Command::SAdd { key, member } => CommandView::SAdd { key: key@, member: member@ },
            Command::SRem { key, members } => CommandView::SRem {
                key: key@,
                members: texts(members@),
            },
            Command::SMembers { key } => CommandView::SMembers { key: key@ },
            Command::SCard { key } => CommandView::SCard { key: key@ },
            Command::Del { key } => CommandView::Del { key: key@ },
            Command::EvalSha { sha, keys, step, rest } => CommandView::EvalSha {
                sha: sha@,
                keys: texts(keys@),
                step: *step,
                rest: texts(rest@),
            },
        }
    }
}

/// What a list of commands holds.
pub open spec fn command_views(commands: Seq<Command>) -> Seq<CommandView> {
    commands.map_values(|command: Command| command@)
}

/// An answer of the cache.
#[derive(Debug, PartialEq, Eq)]
pub enum RedisValue {
    Int(i64),
    Bulk(Vec<RedisValue>),
    Other,
}

/// The numbers in an answer to the drawing of one number: the number, the last
/// one that is set aside, and whether more were set aside.
pub open spec fn drawn_in(value: RedisValue) -> Option<(i64, i64, i64)> {
    match value {
        RedisValue::Bulk(items) => if items@.len() == 3 {
            match (items@[0], items@[1], items@[2]) {
                (
                    RedisValue::Int(cur_seq),
                    RedisValue::Int(max_seq),
                    RedisValue::Int(updated),
                ) => Some((cur_seq, max_seq, updated)),
                _ => None,
            }
        } else {
            None
        },
        _ => None,
    }
}

/// The drawings that a list of answers tells of. Answers of another shape tell
/// of none.
pub open spec fn all_drawn_in(values: Seq<RedisValue>) -> Seq<(i64, i64, i64)>
    decreases values.len(),
{
    if values.len() == 0 {
        Seq::empty()
    } else {
        let front = all_drawn_in(values.drop_last());
        match drawn_in(values.last()) {
            Some(numbers) => front.push(numbers),
            None => front,
        }
    }
}

/// What each member was given: the drawings go to the members in their order.
pub open spec fn given_to(members: Seq<Seq<char>>, drawings: Seq<(i64, i64, i64)>) -> Seq<
    GroupMemSeqView,
> {
    Seq::new(
        drawings.len(),
        |i: int|
            GroupMemSeqView {
                mem_id: members[i],
                cur_seq: drawings[i].0,
                max_seq: drawings[i].1,
                need_update: drawings[i].2 != 0,
            },
    )
}

/// The cache and the scripts that were loaded into it.
#[derive(Debug)]
pub struct RedisCache {
    pub seq_step: i32,
    pub single_seq_exe_sha: String,
    pub group_seq_exe_sha: String,
}

/// The commands that start a counter from this number.
pub open spec fn start_counter(key: Seq<char>, seq: i64) -> Seq<CommandView> {
    seq![
        CommandView::HSetNumber { key, field: CUR_SEQ_KEY@, number: seq },
        CommandView::HSetNumber { key, field: MAX_SEQ_KEY@, number: seq },
    ]
}

/// The commands that start both counters of each user.
pub open spec fn start_counters(max_seq: Seq<(String, i64, i64)>) -> Seq<CommandView>
    decreases max_seq.len(),
{
    if max_seq.len() == 0 {
        Seq::empty()
    } else {
        let (user_id, send_seq, rec_seq) = max_seq.last();
        start_counters(max_seq.drop_last()) + start_counter(send_seq_key(user_id@), send_seq)
            + start_counter(seq_key(user_id@), rec_seq)
    }
}

/// The commands that start the counter of what each user sends.
pub open spec fn start_send_counters(max_seq: Seq<(String, i64)>) -> Seq<CommandView>
    decreases max_seq.len(),
{
    if max_seq.len() == 0 {
        Seq::empty()
    } else {
        let (user_id, send_seq) = max_seq.last();
        start_send_counters(max_seq.drop_last()) + start_counter(send_seq_key(user_id@), send_seq)
    }
}

/// The command that keeps a registration code.
pub open spec fn save_code(email: Seq<char>, code: Seq<char>) -> CommandView {
    CommandView::SetTextFor {
        key: register_key(email),
        value: code,
        seconds: REGISTER_CODE_EXPIRE,
    }
}

/// The key of the counter of what a user receives.
fn seq_key_of(user_id: &str) -> (key: String)
    ensures
        key@ == seq_key(user_id@),
{
    joined("seq:", user_id)
}

/// The key of the counter of what a user sends.
fn send_seq_key_of(user_id: &str) -> (key: String)
    ensures
        key@ == send_seq_key(user_id@),
{
    joined("send_seq:", user_id)
}

/// The key of the members of a group.
fn group_key_of(group_id: &str) -> (key: String)
    ensures
        key@ == group_key(group_id@),
{
    let start = joined(GROUP_MEMBERS_ID_PREFIX, ":");
    joined(start.as_str(), group_id)
}

/// The key of the registration code of an address.
fn register_key_of(email: &str) -> (key: String)
    ensures
        key@ == register_key(email@),
{
    let start = joined(REGISTER_CODE_KEY, ":");
    joined(start.as_str(), email)
}

/// Adds the commands that start a counter.
fn push_start(commands: &mut Vec<Command>, key: String, seq: i64)
    ensures
        command_views(final(commands)@) == command_views(old(commands)@) + start_counter(key@, seq),
{
    let ghost before = commands@;
    commands.push(Command::HSetNumber { key: key.clone(), field: CUR_SEQ_KEY.to_owned(), number: seq });
    commands.push(Command::HSetNumber { key, field: MAX_SEQ_KEY.to_owned(), number: seq });
    assert(command_views(commands@) =~= command_views(before) + start_counter(key@, seq));
}

impl RedisCache {
    /// A cache with these scripts, where the usual number of numbers is set
    /// aside at a time.
    pub fn new(single_seq_exe_sha: String, group_seq_exe_sha: String) -> (cache: Self)
        ensures
            cache.seq_step == DEFAULT_SEQ_STEP,
            cache.seq_step == 5000,
            cache.single_seq_exe_sha == single_seq_exe_sha,
            cache.group_seq_exe_sha == group_seq_exe_sha,
    {
        RedisCache { seq_step: DEFAULT_SEQ_STEP, single_seq_exe_sha, group_seq_exe_sha }
    }

    /// A cache with these scripts, where the configured number of numbers is set
    /// aside at a time, or the usual number where none is configured.
    pub fn from_config(
        config: &RedisConfig,
        single_seq_exe_sha: String,
        group_seq_exe_sha: String,
    ) -> (cache: Self)
        ensures
            cache.seq_step == if config.seq_step != 0 {
                config.seq_step
            } else {
                DEFAULT_SEQ_STEP
            },
            config.seq_step == 0 ==> cache.seq_step == 5000,
            cache.single_seq_exe_sha == single_seq_exe_sha,
            cache.group_seq_exe_sha == group_seq_exe_sha,
    {
        let mut seq_step: i32 = DEFAULT_SEQ_STEP;
        if config.seq_step != 0 {
            seq_step = config.seq_step;
        }
        RedisCache { seq_step, single_seq_exe_sha, group_seq_exe_sha }
    }

    /// Asks whether the counters are loaded.
    pub fn check_seq_loaded(&self) -> (command: Command)
        ensures
            command@ == (CommandView::GetText { key: IS_LOADED@ }),
    {
        Command::GetText { key: IS_LOADED.to_owned() }
    }

    /// Whether the counters need to be loaded: they do unless the answer says
    /// that they do not.
    pub fn needs_load(&self, answer: Result<Option<String>, String>) -> (needed: bool)
        ensures
            needed <==> !(answer matches Ok(Some(value)) && value@ == SEQ_NO_NEED_LOAD@),
            needed <==> !(answer matches Ok(Some(value)) && value@ == "false"@),
    {
        match answer {
            Ok(Some(value)) => !(value == SEQ_NO_NEED_LOAD.to_owned()),
            _ => true,
        }
    }

    /// Takes note that the counters are loaded.
    pub fn set_seq_loaded(&self) -> (command: Command)
        ensures
            command@ == (CommandView::SetText { key: IS_LOADED@, value: SEQ_NO_NEED_LOAD@ }),
    {
        Command::SetText { key: IS_LOADED.to_owned(), value: SEQ_NO_NEED_LOAD.to_owned() }
    }

    /// Starts both counters of each user: of what they send from the first
    /// number, of what they receive from the second.
    pub fn set_seq(&self, max_seq: &[(String, i64, i64)]) -> (commands: Vec<Command>)
        ensures
            command_views(commands@) == start_counters(max_seq@),
            commands@.len() == 4 * max_seq@.len(),
            forall|i: int|
                #![trigger max_seq@[i]]
                0 <= i < max_seq@.len() ==> {
                    let (user_id, send_seq, rec_seq) = max_seq@[i];
                    let (sent, received) = ("send_seq:"@ + user_id@, "seq:"@ + user_id@);
                    &&& commands@[4 * i]@ == (CommandView::HSetNumber {
                        key: sent,
                        field: "cur_seq"@,
                        number: send_seq,
                    })
                    &&& commands@[4 * i + 1]@ == (CommandView::HSetNumber {
                        key: sent,
                        field: "max_seq"@,
                        number: send_seq,
                    })
                    &&& commands@[4 * i + 2]@ == (CommandView::HSetNumber {
                        key: received,
                        field: "cur_seq"@,
                        number: rec_seq,
                    })
                    &&& commands@[4 * i + 3]@ == (CommandView::HSetNumber {
                        key: received,
                        field: "max_seq"@,
                        number: rec_seq,
                    })
                },
    {
        let mut commands: Vec<Command> = Vec::new();
        let mut i: usize = 0;
        assert(command_views(commands@) =~= start_counters(max_seq@.take(0)));
        while i < max_seq.len()
            invariant
                i <= max_seq.len(),
                command_views(commands@) == start_counters(max_seq@.take(i as int)),
            decreases max_seq.len() - i,
        {
            let user_id = max_seq[i].0.as_str();
            push_start(&mut commands, send_seq_key_of(user_id), max_seq[i].1);
            push_start(&mut commands, seq_key_of(user_id), max_seq[i].2);
            assert(max_seq@.take(i + 1).drop_last() =~= max_seq@.take(i as int));
            i = i + 1;
        }
        assert(max_seq@.take(max_seq@.len() as int) =~= max_seq@);
        proof {
            assert(command_views(commands@).len() == commands@.len());
            law_both_counters_of_each_user_are_started(max_seq@, 0);
            assert forall|i: int|
                #![trigger max_seq@[i]]
                0 <= i < max_seq@.len() implies {
                let (user_id, send_seq, rec_seq) = max_seq@[i];
                let (sent, received) = ("send_seq:"@ + user_id@, "seq:"@ + user_id@);
                &&& commands@[4 * i]@ == (CommandView::HSetNumber {
                    key: sent,
                    field: "cur_seq"@,
                    number: send_seq,
                })
                &&& commands@[4 * i + 1]@ == (CommandView::HSetNumber {
                    key: sent,
                    field: "max_seq"@,
                    number: send_seq,
                })
                &&& commands@[4 * i + 2]@ == (CommandView::HSetNumber {
                    key: received,
                    field: "cur_seq"@,
                    number: rec_seq,
                })
                &&& commands@[4 * i + 3]@ == (CommandView::HSetNumber {
                    key: received,
                    field: "max_seq"@,
                    number: rec_seq,
                })
            } by {
                law_both_counters_of_each_user_are_started(max_seq@, i);
                let all = command_views(commands@);
                assert(all[4 * i] == commands@[4 * i]@ && all[4 * i + 1] == commands@[4 * i
                    + 1]@);
                assert(all[4 * i + 2] == commands@[4 * i + 2]@ && all[4 * i + 3] == commands@[4
                    * i + 3]@);
            }
        }
        commands
    }

    /// Starts the counter of what each user sends.
    pub fn set_send_seq(&self, max_seq: &[(String, i64)]) -> (commands: Vec<Command>)
        ensures
            command_views(commands@) == start_send_counters(max_seq@),
            commands@.len() == 2 * max_seq@.len(),
            forall|i: int|
                #![trigger max_seq@[i]]
                0 <= i < max_seq@.len() ==> {
                    let (user_id, send_seq) = max_seq@[i];
                    let sent = "send_seq:"@ + user_id@;
                    &&& commands@[2 * i]@ == (CommandView::HSetNumber {
                        key: sent,
                        field: "cur_seq"@,
                        number: send_seq,
                    })
                    &&& commands@[2 * i + 1]@ == (CommandView::HSetNumber {
                        key: sent,
                        field: "max_seq"@,
                        number: send_seq,
                    })
                },
    {
        let mut commands: Vec<Command> = Vec::new();
        let mut i: usize = 0;
        assert(command_views(commands@) =~= start_send_counters(max_seq@.take(0)));
        while i < max_seq.len()
            invariant
                i <= max_seq.len(),
                command_views(commands@) == start_send_counters(max_seq@.take(i as int)),
            decreases max_seq.len() - i,
        {
            let user_id = max_seq[i].0.as_str();
            push_start(&mut commands, send_seq_key_of(user_id), max_seq[i].1);
            assert(max_seq@.take(i + 1).drop_last() =~= max_seq@.take(i as int));
            i = i + 1;
        }
        assert(max_seq@.take(max_seq@.len() as int) =~= max_seq@);
        proof {
            assert(command_views(commands@).len() == commands@.len());
            law_the_send_counter_of_each_user_is_started(max_seq@, 0);
            assert forall|i: int|
                #![trigger max_seq@[i]]
                0 <= i < max_seq@.len() implies {
                let (user_id, send_seq) = max_seq@[i];
                let sent = "send_seq:"@ + user_id@;
                &&& commands@[2 * i]@ == (CommandView::HSetNumber {
                    key: sent,
                    field: "cur_seq"@,
                    number: send_seq,
                })
                &&& commands@[2 * i + 1]@ == (CommandView::HSetNumber {
                    key: sent,
                    field: "max_seq"@,
                    number: send_seq,
                })
            } by {
                law_the_send_counter_of_each_user_is_started(max_seq@, i);
                let all = command_views(commands@);
                assert(all[2 * i] == commands@[2 * i]@ && all[2 * i + 1] == commands@[2 * i
                    + 1]@);
            }
        }
        commands
    }

    /// Asks for the last number of what a user received.
    pub fn get_seq(&self, user_id: &str) -> (command: Command)
        ensures
            command@ == (CommandView::HGet { key: seq_key(user_id@), field: CUR_SEQ_KEY@ }),
    {
        Command::HGet { key: seq_key_of(user_id), field: CUR_SEQ_KEY.to_owned() }
    }

    /// The last number of what a user received: zero where the cache has no
    /// number to give.
    pub fn seq_or_zero(&self, answer: Result<i64, String>) -> (seq: i64)
        ensures
            seq == match answer {
                Ok(seq) => seq,
                Err(_) => 0,
            },
    {
        match answer {
            Ok(seq) => seq,
            Err(_) => 0,
        }
    }

    /// Asks for the last number of what a user received and of what they sent.
    pub fn get_cur_seq(&self, user_id: &str) -> (commands: Vec<Command>)
        ensures
            command_views(commands@) == seq![
                CommandView::HGet { key: seq_key(user_id@), field: CUR_SEQ_KEY@ },
                CommandView::HGet { key: send_seq_key(user_id@), field: CUR_SEQ_KEY@ },
            ],
    {
        let mut commands: Vec<Command> = Vec::new();
        commands.push(Command::HGet { key: seq_key_of(user_id), field: CUR_SEQ_KEY.to_owned() });
        commands.push(
            Command::HGet { key: send_seq_key_of(user_id), field: CUR_SEQ_KEY.to_owned() },
        );
        assert(command_views(commands@) =~= seq![
            CommandView::HGet { key: seq_key(user_id@), field: CUR_SEQ_KEY@ },
            CommandView::HGet { key: send_seq_key(user_id@), field: CUR_SEQ_KEY@ },
        ]);
        commands
    }

    /// Asks for the last number of what a user sent and the last that is set
    /// aside.
    pub fn get_send_seq(&self, user_id: &str) -> (commands: Vec<Command>)
        ensures
            command_views(commands@) == seq![
                CommandView::HGet { key: send_seq_key(user_id@), field: CUR_SEQ_KEY@ },
                CommandView::HGet { key: send_seq_key(user_id@), field: MAX_SEQ_KEY@ },
            ],
    {
        let key = send_seq_key_of(user_id);
        let mut commands: Vec<Command> = Vec::new();
        commands.push(Command::HGet { key: key.clone(), field: CUR_SEQ_KEY.to_owned() });
        commands.push(Command::HGet { key, field: MAX_SEQ_KEY.to_owned() });
        assert(command_views(commands@) =~= seq![
            CommandView::HGet { key: send_seq_key(user_id@), field: CUR_SEQ_KEY@ },
            CommandView::HGet { key: send_seq_key(user_id@), field: MAX_SEQ_KEY@ },
        ]);
        commands
    }

    /// The numbers of what a user sent: zero where there is none.
    pub fn send_seq_or_zero(&self, answer: (Option<i64>, Option<i64>)) -> (seqs: (i64, i64))
        ensures
            seqs.0 == match answer.0 {
                Some(seq) => seq,
                None => 0,
            },
            seqs.1 == match answer.1 {
                Some(seq) => seq,
                None => 0,
            },
    {
        let cur_seq: i64 = match answer.0 {
            Some(seq) => seq,
            None => 0,
        };
        let max_seq: i64 = match answer.1 {
            Some(seq) => seq,
            None => 0,
        };
        (cur_seq, max_seq)
    }

    fn run_single_script(&self, key: String) -> (command: Command)
        ensures
            command@ == (CommandView::EvalSha {
                sha: self.single_seq_exe_sha@,
                keys: seq![key@],
                step: self.seq_step,
                rest: Seq::empty(),
            }),
    {
        let ghost name = key@;
        let mut keys: Vec<String> = Vec::new();
        keys.push(key);
        assert(texts(keys@) =~= seq![name]);
        let rest: Vec<String> = Vec::new();
        assert(texts(rest@) =~= Seq::empty());
        Command::EvalSha {
            sha: self.single_seq_exe_sha.clone(),
            keys,
            step: self.seq_step,
            rest,
        }
    }

    /// Draws the next number of what a user receives.
    pub fn increase_seq(&self, user_id: &str) -> (command: Command)
        ensures
            command@ == (CommandView::EvalSha {
                sha: self.single_seq_exe_sha@,
                keys: seq![seq_key(user_id@)],
                step: self.seq_step,
                rest: Seq::empty(),
            }),
    {
        self.run_single_script(seq_key_of(user_id))
    }

    /// Draws the next number of what a user sends.
    pub fn incr_send_seq(&self, user_id: &str) -> (command: Command)
        ensures
            command@ == (CommandView::EvalSha {
                sha: self.single_seq_exe_sha@,
                keys: seq![send_seq_key(user_id@)],
                step: self.seq_step,
                rest: Seq::empty(),
            }),
    {
        self.run_single_script(send_seq_key_of(user_id))
    }

    /// Draws the next number of what each member receives.
    pub fn incr_group_seq(&self, members: &Vec<String>) -> (command: Command)
        ensures
            command@ == (CommandView::EvalSha {
                sha: self.group_seq_exe_sha@,
                keys: Seq::empty(),
                step: self.seq_step,
                rest: texts(members@),
            }),
    {
        let mut rest: Vec<String> = Vec::new();
        let mut i: usize = 0;
        while i < members.len()
            invariant
                i <= members.len(),
                rest@.len() == i,
                forall|j: int| 0 <= j < i ==> rest@[j]@ == members@[j]@,
            decreases members.len() - i,
        {
            rest.push(members[i].clone());
            i = i + 1;
        }
        assert(texts(rest@) =~= texts(members@));
        let keys: Vec<String> = Vec::new();
        assert(texts(keys@) =~= Seq::empty());
        Command::EvalSha { sha: self.group_seq_exe_sha.clone(), keys, step: self.seq_step, rest }
    }

    /// What each member was given, by the answers of the cache.
    pub fn group_seqs(&self, response: &Vec<RedisValue>, members: &Vec<String>) -> (given: Vec<
        GroupMemSeq,
    >)
        requires
            all_drawn_in(response@).len() <= members@.len(),
        ensures
            member_views(given@) == given_to(texts(members@), all_drawn_in(response@)),
    {
        let ghost ids = texts(members@);
        let mut given: Vec<GroupMemSeq> = Vec::new();
        let mut i: usize = 0;
        assert(member_views(given@) =~= given_to(ids, all_drawn_in(response@.take(0))));
        proof {
            lemma_drawings_grow(response@, 0);
        }
        while i < response.len()
            invariant
                i <= response.len(),
                ids == texts(members@),
                all_drawn_in(response@).len() <= members@.len(),
                all_drawn_in(response@.take(i as int)).len() <= all_drawn_in(response@).len(),
                member_views(given@) == given_to(ids, all_drawn_in(response@.take(i as int))),
            decreases response.len() - i,
        {
            let ghost before = given@;
            proof {
                assert(response@.take(i + 1).drop_last() =~= response@.take(i as int));
                lemma_drawings_grow(response@, i + 1);
                assert(member_views(given@).len() == given@.len());
            }
            match drawn_numbers(&response[i]) {
                Some((cur_seq, max_seq, updated)) => {
                    let place: usize = given.len();
                    let member = GroupMemSeq::new(
                        members[place].clone(),
                        cur_seq,
                        max_seq,
                        updated != 0,
                    );
                    let ghost added = member@;
                    given.push(member);
                    assert(member_views(given@) =~= member_views(before).push(added));
                    assert(ids[place as int] == members@[place as int]@);
                    assert(member_views(given@) =~= given_to(
                        ids,
                        all_drawn_in(response@.take(i + 1)),
                    ));
                },
                None => {},
            }
            i = i + 1;
        }
        assert(response@.take(response@.len() as int) =~= response@);
        given
    }

    /// Asks for the members of a group.
    pub fn query_group_members_id(&self, group_id: &str) -> (command: Command)
        ensures
            command@ == (CommandView::SMembers { key: group_key(group_id@) }),
    {
        Command::SMembers { key: group_key_of(group_id) }
    }

    /// Adds members to a group.
    pub fn save_group_members_id(&self, group_id: &str, members_id: Vec<String>) -> (commands: Vec<
        Command,
    >)
        ensures
            command_views(commands@) == texts(members_id@).map_values(
                |member: Seq<char>| CommandView::SAdd { key: group_key(group_id@), member },
            ),
    {
        let key = group_key_of(group_id);
        let mut commands: Vec<Command> = Vec::new();
        let mut i: usize = 0;
        while i < members_id.len()
            invariant
                i <= members_id.len(),
                commands@.len() == i,
                key@ == group_key(group_id@),
                forall|j: int|
                    0 <= j < i ==> (#[trigger] commands@[j])@ == (CommandView::SAdd {
                        key: group_key(group_id@),
                        member: members_id@[j]@,
                    }),
            decreases members_id.len() - i,
        {
            commands.push(Command::SAdd { key: key.clone(), member: members_id[i].clone() });
            i = i + 1;
        }
        assert(command_views(commands@) =~= texts(members_id@).map_values(
            |member: Seq<char>| CommandView::SAdd { key: group_key(group_id@), member },
        ));
        commands
    }

    /// Adds a member to a group.
    pub fn add_group_member_id(&self, member_id: &str, group_id: &str) -> (command: Command)
        ensures
            command@ == (CommandView::SAdd { key: group_key(group_id@), member: member_id@ }),
    {
        Command::SAdd { key: group_key_of(group_id), member: member_id.to_owned() }
    }

    /// Takes a member out of a group.
    pub fn remove_group_member_id(&self, group_id: &str, member_id: &str) -> (command: Command)
        ensures
            command@ == (CommandView::SRem { key: group_key(group_id@), members: seq![member_id@] }),
    {
        let mut members: Vec<String> = Vec::new();
        members.push(member_id.to_owned());
        assert(texts(members@) =~= seq![member_id@]);
        Command::SRem { key: group_key_of(group_id), members }
    }

    /// Takes several members out of a group.
    pub fn remove_group_member_batch(&self, group_id: &str, member_id: &[&str]) -> (command: Command)
        ensures
            command@ == (CommandView::SRem {
                key: group_key(group_id@),
                members: member_id@.map_values(|member: &str| member@),
            }),
    {
        let mut members: Vec<String> = Vec::new();
        let mut i: usize = 0;
        while i < member_id.len()
            invariant
                i <= member_id.len(),
                members@.len() == i,
                forall|j: int| 0 <= j < i ==> members@[j]@ == member_id@[j]@,
            decreases member_id.len() - i,
        {
            members.push(member_id[i].to_owned());
            i = i + 1;
        }
        assert(texts(members@) =~= member_id@.map_values(|member: &str| member@));
        Command::SRem { key: group_key_of(group_id), members }
    }

    /// Takes all members out of a group.
    pub fn del_group_members(&self, group_id: &str) -> (command: Command)
        ensures
            command@ == (CommandView::Del { key: group_key(group_id@) }),
    {
        Command::Del { key: group_key_of(group_id) }
    }

    /// Keeps the registration code of an address for some time from now.
    pub fn save_register_code(&self, email: &str, code: &str) -> (command: Command)
        ensures
            command@ == save_code(email@, code@),
            command@ == (CommandView::SetTextFor {
                key: "register_code"@ + ":"@ + email@,
                value: code@,
                seconds: 300,
            }),
    {
        Command::SetTextFor {
            key: register_key_of(email),
            value: code.to_owned(),
            seconds: REGISTER_CODE_EXPIRE,
        }
    }

    /// Asks for the registration code of an address.
    pub fn get_register_code(&self, email: &str) -> (command: Command)
        ensures
            command@ == (CommandView::GetText { key: register_key(email@) }),
    {
        Command::GetText { key: register_key_of(email) }
    }

    /// Drops the registration code of an address.
    pub fn del_register_code(&self, email: &str) -> (command: Command)
        ensures
            command@ == (CommandView::Del { key: register_key(email@) }),
    {
        Command::Del { key: register_key_of(email) }
    }

    /// Takes note that a user is online.
    pub fn user_login(&self, user_id: &str) -> (command: Command)
        ensures
            command@ == (CommandView::SAdd { key: USER_ONLINE_SET@, member: user_id@ }),
    {
        Command::SAdd { key: USER_ONLINE_SET.to_owned(), member: user_id.to_owned() }
    }

    /// Takes note that a user is not online any more.
    pub fn user_logout(&self, user_id: &str) -> (command: Command)
        ensures
            command@ == (CommandView::SRem { key: USER_ONLINE_SET@, members: seq![user_id@] }),
    {
        let mut members: Vec<String> = Vec::new();
        members.push(user_id.to_owned());
        assert(texts(members@) =~= seq![user_id@]);
        Command::SRem { key: USER_ONLINE_SET.to_owned(), members }
    }

    /// Asks how many users are online.
    pub fn online_count(&self) -> (command: Command)
        ensures
            command@ == (CommandView::SCard { key: USER_ONLINE_SET@ }),
    {
        Command::SCard { key: USER_ONLINE_SET.to_owned() }
    }
}

proof fn lemma_drawings_grow(values: Seq<RedisValue>, count: int)
    requires
        0 <= count <= values.len(),
    ensures
        all_drawn_in(values.take(count)).len() <= all_drawn_in(values).len(),
    decreases values.len(),
{
    if count < values.len() {
        lemma_drawings_grow(values.drop_last(), count);
        assert(values.drop_last().take(count) =~= values.take(count));
    } else {
        assert(values.take(count) =~= values);
    }
}

/// The numbers in an answer to the drawing of one number.
pub fn drawn_numbers(value: &RedisValue) -> (numbers: Option<(i64, i64, i64)>)
    ensures
        numbers == drawn_in(*value),
{
    match value {
        RedisValue::Bulk(items) => {
            if items.len() == 3 {
                match (&items[0], &items[1], &items[2]) {
                    (
                        RedisValue::Int(cur_seq),
                        RedisValue::Int(max_seq),
                        RedisValue::Int(updated),
                    ) => Some((*cur_seq, *max_seq, *updated)),
                    _ => None,
                }
            } else {
                None
            }
        },
        _ => None,
    }
}

/// How the keys of the cache are spelled.
pub proof fn law_keys_are_spelled_so(name: Seq<char>)
    ensures
        seq_key(name) == "seq:"@ + name,
        send_seq_key(name) == "send_seq:"@ + name,
        group_key(name) == "group_members_id"@ + ":"@ + name,
        register_key(name) == "register_code"@ + ":"@ + name,
        USER_ONLINE_SET@ == "user_online_set"@,
        CUR_SEQ_KEY@ == "cur_seq"@,
        MAX_SEQ_KEY@ == "max_seq"@,
        IS_LOADED@ == "seq_need_load"@,
        SEQ_NO_NEED_LOAD@ == "false"@,
        REGISTER_CODE_EXPIRE == 300,
{
}

/// Starting counters sets four numbers for each user, in the order of the list:
/// the last number and the last one set aside of what they send, both to the
/// first number given, and of what they receive, both to the second.
pub proof fn law_both_counters_of_each_user_are_started(
    max_seq: Seq<(String, i64, i64)>,
    i: int,
)
    ensures
        start_counters(max_seq).len() == 4 * max_seq.len(),
        0 <= i < max_seq.len() ==> {
            let (user_id, send_seq, rec_seq) = max_seq[i];
            let (sent, received) = ("send_seq:"@ + user_id@, "seq:"@ + user_id@);
            let commands = start_counters(max_seq);
            &&& commands[4 * i] == (CommandView::HSetNumber {
                key: sent,
                field: "cur_seq"@,
                number: send_seq,
            })
            &&& commands[4 * i + 1] == (CommandView::HSetNumber {
                key: sent,
                field: "max_seq"@,
                number: send_seq,
            })
            &&& commands[4 * i + 2] == (CommandView::HSetNumber {
                key: received,
                field: "cur_seq"@,
                number: rec_seq,
            })
            &&& commands[4 * i + 3] == (CommandView::HSetNumber {
                key: received,
                field: "max_seq"@,
                number: rec_seq,
            })
        },
    decreases max_seq.len(),
{
    if max_seq.len() > 0 {
        let front = max_seq.drop_last();
        law_both_counters_of_each_user_are_started(front, i);
        if 0 <= i < front.len() {
            assert(front[i] == max_seq[i]);
        }
    }
}

/// Starting the counters of what users send sets two numbers for each user, in
/// the order of the list: the last number and the last one set aside, both to
/// the number given.
pub proof fn law_the_send_counter_of_each_user_is_started(max_seq: Seq<(String, i64)>, i: int)
    ensures
        start_send_counters(max_seq).len() == 2 * max_seq.len(),
        0 <= i < max_seq.len() ==> {
            let (user_id, send_seq) = max_seq[i];
            let sent = "send_seq:"@ + user_id@;
            let commands = start_send_counters(max_seq);
            &&& commands[2 * i] == (CommandView::HSetNumber {
                key: sent,
                field: "cur_seq"@,
                number: send_seq,
            })
            &&& commands[2 * i + 1] == (CommandView::HSetNumber {
                key: sent,
                field: "max_seq"@,
                number: send_seq,
            })
        },
    decreases max_seq.len(),
{
    if max_seq.len() > 0 {
        let front = max_seq.drop_last();
        law_the_send_counter_of_each_user_is_started(front, i);
        if 0 <= i < front.len() {
            assert(front[i] == max_seq[i]);
        }
    }
}

/// Whether an answer tells of the drawing of one number: three whole numbers.
pub open spec fn tells_of_a_drawing(value: RedisValue) -> bool {
    value matches RedisValue::Bulk(items) && items@.len() == 3 && items@[0] is Int && items@[1]
        is Int && items@[2] is Int
}

/// Each answer that tells of a drawing goes to the next member in turn: the
/// member's number, the last one set aside and whether more were are the three
/// numbers of the answer. Answers of another shape are passed over, and nobody
/// gets anything else.
pub proof fn law_answers_go_to_the_members_in_turn(
    members: Seq<Seq<char>>,
    values: Seq<RedisValue>,
    i: int,
)
    requires
        0 <= i < values.len(),
    ensures
        ({
            let given = given_to(members, all_drawn_in(values));
            let place = values.take(i).filter(
                |value: RedisValue| tells_of_a_drawing(value),
            ).len() as int;
            &&& given.len() == values.filter(|value: RedisValue| tells_of_a_drawing(value)).len()
            &&& tells_of_a_drawing(values[i]) ==> {
                let items = values[i]->Bulk_0@;
                &&& place < given.len()
                &&& given[place].mem_id == members[place]
                &&& items[0] == RedisValue::Int(given[place].cur_seq)
                &&& items[1] == RedisValue::Int(given[place].max_seq)
                &&& given[place].need_update == (items[2] != RedisValue::Int(0))
            }
        }),
{
    lemma_drawings_in_turn(values, i);
}

proof fn lemma_drawings_in_turn(values: Seq<RedisValue>, i: int)
    requires
        0 <= i < values.len(),
    ensures
        ({
            let drawings = all_drawn_in(values);
            let place = values.take(i).filter(
                |value: RedisValue| tells_of_a_drawing(value),
            ).len() as int;
            &&& drawings.len() == values.filter(
                |value: RedisValue| tells_of_a_drawing(value),
            ).len()
            &&& tells_of_a_drawing(values[i]) ==> {
                let items = values[i]->Bulk_0@;
                &&& place < drawings.len()
                &&& items[0] == RedisValue::Int(drawings[place].0)
                &&& items[1] == RedisValue::Int(drawings[place].1)
                &&& items[2] == RedisValue::Int(drawings[place].2)
            }
        }),
    decreases values.len(),
{
    reveal(Seq::filter);
    reveal_with_fuel(all_drawn_in, 2);
    let tells = |value: RedisValue| tells_of_a_drawing(value);
    let front = values.drop_last();
    assert(values.filter(tells) == if tells_of_a_drawing(values.last()) {
        front.filter(tells).push(values.last())
    } else {
        front.filter(tells)
    });
    assert(drawn_in(values.last()) is Some <==> tells_of_a_drawing(values.last()));
    if front.len() == 0 {
        assert(front.filter(tells).len() == 0);
        assert(values.take(0) =~= front);
    } else {
        lemma_drawings_in_turn(front, 0);
        if i < front.len() {
            lemma_drawings_in_turn(front, i);
            assert(front.take(i) =~= values.take(i));
            assert(front[i] == values[i]);
        } else {
            assert(values.take(i) =~= front);
        }
    }
}

/// A command shows all that it asks for.
pub proof fn law_commands_show_what_they_ask_for(command: Command)
    ensures
        match command {
            Command::GetText { key } => command@ == (CommandView::GetText { key: key@ }),
            Command::SetText { key, value } => command@ == (CommandView::SetText {
                key: key@,
                value: value@,
            }),
            Command::SetTextFor { key, value, seconds } => command@ == (CommandView::SetTextFor {
                key: key@,
                value: value@,
                seconds,
            }),
            Command::HGet { key, field } => command@ == (CommandView::HGet {
                key: key@,
                field: field@,
            }),
            Command::HSetNumber { key, field, number } => command@ == (CommandView::HSetNumber {
                key: key@,
                field: field@,
                number,
            }),
            Command::SAdd { key, member } => command@ == (CommandView::SAdd {
                key: key@,
                member: member@,
            }),
            Command::SRem { key, members } => command@ == (CommandView::SRem {
                key: key@,
                members: texts(members@),
            }),
            Command::SMembers { key } => command@ == (CommandView::SMembers { key: key@ }),
            Command::SCard { key } => command@ == (CommandView::SCard { key: key@ }),
            Command::Del { key } => command@ == (CommandView::Del { key: key@ }),
            Command::EvalSha { sha, keys, step, rest } => command@ == (CommandView::EvalSha {
                sha: sha@,
                keys: texts(keys@),
                step,
                rest: texts(rest@),
            }),
        },
{
}

} // verus!
