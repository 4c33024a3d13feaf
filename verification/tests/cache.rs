//! The cache, driven against a store that lies in memory.

use std::collections::{BTreeMap, BTreeSet};

use sandcat::cache::{drawn_numbers, Command, RedisCache, RedisValue};
use sandcat::config::RedisConfig;
use sandcat::counter::{SeqCounter, DEFAULT_SEQ_STEP, GROUP_SEQ_SCRIPT, SINGLE_SEQ_SCRIPT};
use sandcat::message::GroupMemSeq;

#[derive(Debug, Clone, PartialEq)]
enum Entry {
    Text(String, Option<u64>),
    Hash(BTreeMap<String, String>),
    Members(BTreeSet<String>),
}

#[derive(Debug, PartialEq)]
enum Answer {
    Nothing,
    Text(String),
    Count(i64),
    Members(Vec<String>),
    Drawn(i64, i64, bool),
    Values(Vec<RedisValue>),
}

struct TestRedis {
    cache: RedisCache,
    held: BTreeMap<String, Entry>,
    now: u64,
}

impl TestRedis {
    fn new() -> Self {
        TestRedis {
            cache: RedisCache::new("single".to_string(), "group".to_string()),
            held: BTreeMap::new(),
            now: 0,
        }
    }

    fn hash(&mut self, key: &str) -> Result<&mut BTreeMap<String, String>, String> {
        let entry = self.held.entry(key.to_string()).or_insert(Entry::Hash(BTreeMap::new()));
        match entry {
            Entry::Hash(fields) => Ok(fields),
            _ => Err("WRONGTYPE".to_string()),
        }
    }

    fn members(&mut self, key: &str) -> Result<&mut BTreeSet<String>, String> {
        let entry = self.held.entry(key.to_string()).or_insert(Entry::Members(BTreeSet::new()));
        match entry {
            Entry::Members(members) => Ok(members),
            _ => Err("WRONGTYPE".to_string()),
        }
    }

    fn draw(&mut self, key: &str, step: i32) -> Result<(i64, i64, bool), String> {
        let fields = self.hash(key)?;
        let number = |field: &str| fields.get(field).map(|text| text.parse::<i64>().unwrap());
        let mut counter = SeqCounter {
            cur_seq: number("cur_seq").unwrap_or(0),
            max_seq: number("max_seq"),
        };
        let given = counter.draw(step);
        fields.insert("cur_seq".to_string(), counter.cur_seq.to_string());
        fields.insert("max_seq".to_string(), counter.max_seq.unwrap().to_string());
        Ok((given.cur_seq, given.max_seq, given.updated))
    }

    fn run(&mut self, command: Command) -> Result<Answer, String> {
        match command {
            Command::GetText { key } => match self.held.get(&key) {
                Some(Entry::Text(_, Some(until))) if *until <= self.now => Ok(Answer::Nothing),
                Some(Entry::Text(text, _)) => Ok(Answer::Text(text.clone())),
                Some(_) => Err("WRONGTYPE".to_string()),
                None => Ok(Answer::Nothing),
            },
            Command::SetText { key, value } => {
                self.held.insert(key, Entry::Text(value, None));
                Ok(Answer::Nothing)
            }
            Command::SetTextFor { key, value, seconds } => {
                self.held.insert(key, Entry::Text(value, Some(self.now + seconds)));
                Ok(Answer::Nothing)
            }
            Command::HGet { key, field } => match self.hash(&key)?.get(&field) {
                Some(text) => Ok(Answer::Text(text.clone())),
                None => Ok(Answer::Nothing),
            },
            Command::HSetNumber { key, field, number } => {
                self.hash(&key)?.insert(field, number.to_string());
                Ok(Answer::Nothing)
            }
            Command::SAdd { key, member } => {
                self.members(&key)?.insert(member);
                Ok(Answer::Nothing)
            }
            Command::SRem { key, members } => {
                let held = self.members(&key)?;
                for member in members {
                    held.remove(&member);
                }
                if held.is_empty() {
                    self.held.remove(&key);
                }
                Ok(Answer::Nothing)
            }
            Command::SMembers { key } => {
                Ok(Answer::Members(self.members(&key)?.iter().cloned().collect()))
            }
            Command::SCard { key } => Ok(Answer::Count(self.members(&key)?.len() as i64)),
            Command::Del { key } => {
                self.held.remove(&key);
                Ok(Answer::Nothing)
            }
            Command::EvalSha { sha, keys, step, rest } => {
                if sha == "single" {
                    let (cur_seq, max_seq, updated) = self.draw(&keys[0], step)?;
                    return Ok(Answer::Drawn(cur_seq, max_seq, updated));
                }
                let mut values = Vec::new();
                for member in rest {
                    let drawn = self.draw(&format!("seq:{}", member), step)?;
                    values.push(RedisValue::Bulk(vec![
                        RedisValue::Int(drawn.0),
                        RedisValue::Int(drawn.1),
                        RedisValue::Int(drawn.2 as i64),
                    ]));
                }
                Ok(Answer::Values(values))
            }
        }
    }

    fn run_all(&mut self, commands: Vec<Command>) -> Result<Vec<Answer>, String> {
        commands.into_iter().map(|command| self.run(command)).collect()
    }

    fn increase_seq(&mut self, user_id: &str) -> (i64, i64, bool) {
        match self.run(self.cache.increase_seq(user_id)) {
            Ok(Answer::Drawn(cur_seq, max_seq, updated)) => (cur_seq, max_seq, updated),
            other => panic!("{:?}", other),
        }
    }

    fn query_group_members_id(&mut self, group_id: &str) -> Vec<String> {
        match self.run(self.cache.query_group_members_id(group_id)) {
            Ok(Answer::Members(members)) => members,
            other => panic!("{:?}", other),
        }
    }

    fn online_count(&mut self) -> i64 {
        match self.run(self.cache.online_count()) {
            Ok(Answer::Count(count)) => count,
            other => panic!("{:?}", other),
        }
    }

    fn number(&mut self, command: Command) -> Result<i64, String> {
        match self.run(command)? {
            Answer::Text(text) => text.parse::<i64>().map_err(|error| error.to_string()),
            _ => Err("Response was of incompatible type".to_string()),
        }
    }
}

#[test]
fn test_increase_seq() {
    let user_id = "test";
    let mut cache = TestRedis::new();
    let seq = cache.increase_seq(user_id);
    assert_eq!(seq, (1, DEFAULT_SEQ_STEP as i64, false));
}

#[test]
fn test_save_group_members_id() {
    let group_id = "test";
    let members_id = vec!["1".to_string(), "2".to_string()];
    let mut cache = TestRedis::new();
    let commands = cache.cache.save_group_members_id(group_id, members_id);
    let result = cache.run_all(commands);
    assert!(result.is_ok());
}

#[test]
fn test_query_group_members_id() {
    let group_id = "test";
    let members_id = vec!["1".to_string(), "2".to_string()];
    let mut cache = TestRedis::new();
    let commands = cache.cache.save_group_members_id(group_id, members_id);
    let result = cache.run_all(commands);
    assert!(result.is_ok());
    let result = cache.query_group_members_id(group_id);
    assert_eq!(result.len(), 2);
    assert!(result.contains(&"1".to_string()));
    assert!(result.contains(&"2".to_string()));
}

#[test]
fn test_add_group_member_id() {
    let group_id = "test";
    let member_id = "1";
    let mut cache = TestRedis::new();
    let command = cache.cache.add_group_member_id(member_id, group_id);
    let result = cache.run(command);
    assert!(result.is_ok());
}

#[test]
fn test_remove_group_member_id() {
    let group_id = "test";
    let member_id = "1";
    let mut cache = TestRedis::new();
    let command = cache.cache.add_group_member_id(member_id, group_id);
    let result = cache.run(command);
    assert!(result.is_ok());
    let command = cache.cache.remove_group_member_id(group_id, member_id);
    let result = cache.run(command);
    assert!(result.is_ok());
}

#[test]
fn test_del_group_members() {
    let group_id = "test";
    let members_id = vec!["1".to_string(), "2".to_string()];
    let mut cache = TestRedis::new();
    let commands = cache.cache.save_group_members_id(group_id, members_id);
    let result = cache.run_all(commands);
    assert!(result.is_ok());
    let command = cache.cache.del_group_members(group_id);
    let result = cache.run(command);
    assert!(result.is_ok());
}

#[test]
fn members_come_and_go() {
    let mut cache = TestRedis::new();
    let ids = |names: &[&str]| names.iter().map(|name| name.to_string()).collect::<Vec<String>>();
    let commands = cache.cache.save_group_members_id("g", ids(&["a", "b", "b"]));
    cache.run_all(commands).unwrap();
    let command = cache.cache.add_group_member_id("c", "g");
    assert_eq!(
        command,
        Command::SAdd { key: "group_members_id:g".to_string(), member: "c".to_string() }
    );
    cache.run(command).unwrap();
    let commands = cache.cache.save_group_members_id("other", ids(&["a"]));
    cache.run_all(commands).unwrap();
    let command = cache.cache.remove_group_member_id("g", "b");
    cache.run(command).unwrap();
    assert_eq!(cache.query_group_members_id("g"), ids(&["a", "c"]));
    let command = cache.cache.remove_group_member_batch("g", &["a", "x"]);
    assert_eq!(
        command,
        Command::SRem { key: "group_members_id:g".to_string(), members: ids(&["a", "x"]) }
    );
    cache.run(command).unwrap();
    assert_eq!(cache.query_group_members_id("g"), ids(&["c"]));
    let command = cache.cache.del_group_members("g");
    cache.run(command).unwrap();
    assert!(cache.query_group_members_id("g").is_empty());
    assert_eq!(cache.query_group_members_id("other"), ids(&["a"]));
}

#[test]
fn counters_set_more_numbers_aside_when_they_run_out() {
    let config = RedisConfig { url: "redis://localhost".to_string(), seq_step: 2 };
    let mut cache = TestRedis::new();
    cache.cache = RedisCache::from_config(&config, "single".to_string(), "group".to_string());
    let drawn: Vec<(i64, i64, bool)> = (0..5).map(|_| cache.increase_seq("u")).collect();
    assert_eq!(
        drawn,
        vec![(1, 2, false), (2, 2, false), (3, 4, true), (4, 4, false), (5, 6, true)]
    );
    // what a user sends is counted apart
    let command = cache.cache.incr_send_seq("u");
    assert_eq!(cache.run(command), Ok(Answer::Drawn(1, 2, false)));
}

#[test]
fn the_step_is_configured_or_usual() {
    let config = |seq_step| RedisConfig { url: String::new(), seq_step };
    let step = |seq_step| {
        RedisCache::from_config(&config(seq_step), "s".to_string(), "g".to_string()).seq_step
    };
    assert_eq!(step(0), 5000);
    assert_eq!(step(7), 7);
    assert_eq!(step(-1), -1);
    assert_eq!(RedisCache::new("s".to_string(), "g".to_string()).seq_step, 5000);
}

#[test]
fn started_counters_are_read_back() {
    let mut cache = TestRedis::new();
    let commands = cache.cache.set_seq(&[
        ("alice".to_string(), 10, 20),
        ("bob".to_string(), 30, 40),
        ("alice".to_string(), 11, 21),
    ]);
    assert_eq!(commands.len(), 12);
    assert_eq!(
        commands[0],
        Command::HSetNumber {
            key: "send_seq:alice".to_string(),
            field: "cur_seq".to_string(),
            number: 10,
        }
    );
    cache.run_all(commands).unwrap();
    let commands = cache.cache.get_cur_seq("alice");
    let numbers: Vec<i64> =
        commands.into_iter().map(|command| cache.number(command).unwrap()).collect();
    assert_eq!(numbers, vec![21, 11]);
    let commands = cache.cache.get_send_seq("bob");
    let mut numbers = commands.into_iter().map(|command| cache.number(command).ok());
    let answer = (numbers.next().unwrap(), numbers.next().unwrap());
    drop(numbers);
    assert_eq!(cache.cache.send_seq_or_zero(answer), (30, 30));
    // the numbers that were set aside are used up
    assert_eq!(cache.increase_seq("bob"), (41, 40 + 5000, true));

    let commands = cache.cache.set_send_seq(&[("bob".to_string(), 7)]);
    cache.run_all(commands).unwrap();
    let commands = cache.cache.get_cur_seq("bob");
    let numbers: Vec<i64> =
        commands.into_iter().map(|command| cache.number(command).unwrap()).collect();
    assert_eq!(numbers, vec![41, 7]);
}

#[test]
fn unknown_counters_read_as_zero() {
    let mut cache = TestRedis::new();
    let command = cache.cache.get_seq("nobody");
    let answer = cache.number(command);
    assert!(answer.is_err());
    assert_eq!(cache.cache.seq_or_zero(answer), 0);
    assert_eq!(cache.cache.seq_or_zero(Ok(9)), 9);
    assert_eq!(cache.cache.send_seq_or_zero((None, None)), (0, 0));
    assert_eq!(cache.cache.send_seq_or_zero((Some(3), None)), (3, 0));
    cache.increase_seq("somebody");
    let command = cache.cache.get_seq("somebody");
    let answer = cache.number(command);
    assert_eq!(cache.cache.seq_or_zero(answer), 1);
}

#[test]
fn group_members_draw_from_their_own_counters() {
    let mut cache = TestRedis::new();
    cache.increase_seq("b");
    let members = vec!["a".to_string(), "b".to_string()];
    let command = cache.cache.incr_group_seq(&members);
    assert_eq!(
        command,
        Command::EvalSha {
            sha: "group".to_string(),
            keys: Vec::new(),
            step: 5000,
            rest: members.clone(),
        }
    );
    let response = match cache.run(command) {
        Ok(Answer::Values(values)) => values,
        other => panic!("{:?}", other),
    };
    assert_eq!(
        cache.cache.group_seqs(&response, &members),
        vec![
            GroupMemSeq::new("a".to_string(), 1, 5000, false),
            GroupMemSeq::new("b".to_string(), 2, 5000, false),
        ]
    );
}

#[test]
fn members_that_are_listed_twice_get_two_numbers() {
    let mut cache = TestRedis::new();
    let members = vec!["a".to_string(), "b".to_string(), "a".to_string()];
    let command = cache.cache.incr_group_seq(&members);
    let response = match cache.run(command) {
        Ok(Answer::Values(values)) => values,
        other => panic!("{:?}", other),
    };
    assert_eq!(
        cache.cache.group_seqs(&response, &members),
        vec![
            GroupMemSeq::new("a".to_string(), 1, 5000, false),
            GroupMemSeq::new("b".to_string(), 1, 5000, false),
            GroupMemSeq::new("a".to_string(), 2, 5000, false),
        ]
    );
}

#[test]
fn drawing_from_another_kind_of_thing_changes_nothing() {
    let mut cache = TestRedis::new();
    let text = Entry::Text("text".to_string(), None);
    cache.held.insert("seq:b".to_string(), text.clone());
    let command = cache.cache.increase_seq("b");
    assert!(cache.run(command).is_err());
    assert_eq!(cache.held["seq:b"], text);

    // the members before have drawn, those after have not
    let members = vec!["a".to_string(), "b".to_string(), "c".to_string()];
    let command = cache.cache.incr_group_seq(&members);
    assert!(cache.run(command).is_err());
    assert!(cache.held.contains_key("seq:a") && !cache.held.contains_key("seq:c"));
    assert_eq!(cache.held["seq:b"], text);
}

#[test]
fn sets_without_members_are_not_kept() {
    let mut cache = TestRedis::new();
    let command = cache.cache.remove_group_member_id("g", "a");
    cache.run(command).unwrap();
    assert!(cache.held.is_empty());
    let command = cache.cache.add_group_member_id("a", "g");
    cache.run(command).unwrap();
    let command = cache.cache.remove_group_member_id("g", "a");
    cache.run(command).unwrap();
    assert!(cache.held.is_empty());
}

#[test]
fn counters_count_up_to_the_largest_number() {
    let mut counter = SeqCounter { cur_seq: i64::MAX - 1, max_seq: Some(i64::MAX) };
    let given = counter.draw(DEFAULT_SEQ_STEP);
    assert_eq!((given.cur_seq, given.max_seq, given.updated), (i64::MAX, i64::MAX, false));
    let last = 9_007_199_254_740_992;
    let mut counter = SeqCounter { cur_seq: last, max_seq: Some(last) };
    let given = counter.draw(DEFAULT_SEQ_STEP);
    assert_eq!((given.cur_seq, given.max_seq, given.updated), (last + 1, last + 5000, true));
}

#[test]
fn answers_of_another_shape_are_passed_over() {
    let cache = RedisCache::new("s".to_string(), "g".to_string());
    let drawn = |a, b, c| {
        RedisValue::Bulk(vec![RedisValue::Int(a), RedisValue::Int(b), RedisValue::Int(c)])
    };
    let response = vec![
        RedisValue::Other,
        drawn(1, 2, 0),
        RedisValue::Bulk(vec![RedisValue::Int(1), RedisValue::Int(2)]),
        RedisValue::Bulk(vec![RedisValue::Int(1), RedisValue::Other, RedisValue::Int(2)]),
        RedisValue::Int(4),
        drawn(3, 4, 7),
    ];
    let members = vec!["a".to_string(), "b".to_string(), "c".to_string()];
    assert_eq!(response.iter().filter(|value| drawn_numbers(value).is_some()).count(), 2);
    assert_eq!(
        cache.group_seqs(&response, &members),
        vec![
            GroupMemSeq::new("a".to_string(), 1, 2, false),
            GroupMemSeq::new("b".to_string(), 3, 4, true),
        ]
    );
    assert!(cache.group_seqs(&Vec::new(), &members).is_empty());
}

#[test]
fn counters_need_loading_until_it_is_noted() {
    let mut cache = TestRedis::new();
    let loaded = |test: &mut TestRedis| {
        let command = test.cache.check_seq_loaded();
        let answer = match test.run(command) {
            Ok(Answer::Text(text)) => Ok(Some(text)),
            Ok(_) => Ok(None),
            Err(error) => Err(error),
        };
        test.cache.needs_load(answer)
    };
    assert!(loaded(&mut cache));
    let command = cache.cache.set_seq_loaded();
    assert_eq!(
        command,
        Command::SetText { key: "seq_need_load".to_string(), value: "false".to_string() }
    );
    cache.run(command).unwrap();
    assert!(!loaded(&mut cache));
    assert!(cache.cache.needs_load(Ok(Some("true".to_string()))));
    assert!(cache.cache.needs_load(Err("timeout".to_string())));
}

#[test]
fn each_registration_code_is_kept_for_five_minutes() {
    let mut cache = TestRedis::new();
    let code_of = |cache: &mut TestRedis, email: &str| {
        let command = cache.cache.get_register_code(email);
        match cache.run(command) {
            Ok(Answer::Text(code)) => Some(code),
            Ok(Answer::Nothing) => None,
            other => panic!("{:?}", other),
        }
    };
    let command = cache.cache.save_register_code("a@b.c", "123456");
    assert_eq!(
        command,
        Command::SetTextFor {
            key: "register_code:a@b.c".to_string(),
            value: "123456".to_string(),
            seconds: 300,
        }
    );
    cache.run(command).unwrap();
    cache.now = 200;
    let command = cache.cache.save_register_code("x@y.z", "654321");
    cache.run(command).unwrap();
    cache.now = 299;
    assert_eq!(code_of(&mut cache, "a@b.c"), Some("123456".to_string()));
    assert_eq!(code_of(&mut cache, "nobody"), None);
    // a code that was saved later for another address does not prolong it
    cache.now = 300;
    assert_eq!(code_of(&mut cache, "a@b.c"), None);
    assert_eq!(code_of(&mut cache, "x@y.z"), Some("654321".to_string()));
    cache.now = 499;
    assert_eq!(code_of(&mut cache, "x@y.z"), Some("654321".to_string()));
    cache.now = 500;
    assert_eq!(code_of(&mut cache, "x@y.z"), None);
}

#[test]
fn dropped_registration_codes_are_gone() {
    let mut cache = TestRedis::new();
    for email in ["a@b.c", "x@y.z"] {
        let command = cache.cache.save_register_code(email, "123456");
        cache.run(command).unwrap();
    }
    let command = cache.cache.del_register_code("a@b.c");
    assert_eq!(command, Command::Del { key: "register_code:a@b.c".to_string() });
    cache.run(command).unwrap();
    let command = cache.cache.get_register_code("a@b.c");
    assert_eq!(cache.run(command), Ok(Answer::Nothing));
    let command = cache.cache.get_register_code("x@y.z");
    assert_eq!(cache.run(command), Ok(Answer::Text("123456".to_string())));
}

#[test]
fn each_user_online_counts_once() {
    let mut cache = TestRedis::new();
    assert_eq!(cache.online_count(), 0);
    for user_id in ["a", "b", "a"] {
        let command = cache.cache.user_login(user_id);
        cache.run(command).unwrap();
    }
    assert_eq!(cache.online_count(), 2);
    let command = cache.cache.user_logout("a");
    assert_eq!(
        command,
        Command::SRem { key: "user_online_set".to_string(), members: vec!["a".to_string()] }
    );
    cache.run(command).unwrap();
    assert_eq!(cache.online_count(), 1);
}

#[test]
fn users_and_groups_have_keys_of_their_own() {
    let cache = RedisCache::new("s".to_string(), "g".to_string());
    let mut keys = BTreeSet::new();
    for id in ["", "a", "seq:a", "1"] {
        for command in cache.get_cur_seq(id) {
            if let Command::HGet { key, .. } = command {
                keys.insert(key);
            }
        }
        if let Command::SMembers { key } = cache.query_group_members_id(id) {
            keys.insert(key);
        }
        if let Command::GetText { key } = cache.get_register_code(id) {
            keys.insert(key);
        }
    }
    assert_eq!(keys.len(), 16);
}

#[test]
fn scripts_count_the_fields_of_the_counters() {
    assert!(SINGLE_SEQ_SCRIPT.contains("redis.call('HINCRBY', KEYS[1], 'cur_seq', 1)"));
    assert!(SINGLE_SEQ_SCRIPT.contains("return {cur_seq, max_seq, updated}"));
    assert!(GROUP_SEQ_SCRIPT.contains("local key = \"seq:\" .. ARGV[i]"));
    assert!(GROUP_SEQ_SCRIPT.contains("table.insert(result, {cur_seq, max_seq, updated})"));
}
