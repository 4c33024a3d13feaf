//! The message box, driven against a database that lies in memory.

use std::collections::hash_map::DefaultHasher;
use std::collections::{BTreeMap, HashMap};
use std::hash::{Hash, Hasher};
use std::time::{SystemTime, UNIX_EPOCH};

use chrono::Utc;

use sandcat::calendar::{months_after, months_before, year_month_or};
use sandcat::clean::{cutoff_has_date, CleanEvent, CLEANING_INTERVAL_SECS};
use sandcat::config::MongoDbConfig;
use sandcat::error::{Error, ErrorKind};
use sandcat::filter::Filter;
use sandcat::lookup::{DeleteEvent, LookupEvent};
use sandcat::message::{GroupMemSeq, Msg, MsgType, PlatformType};
use sandcat::order::MessageOrder;
use sandcat::provision::{index_model, Provision, INDEX_COUNT, MAINTENANCE_INTERVAL_SECS};
use sandcat::read::{MessageRead, ReadEvent};
use sandcat::save::MessageSave;
use sandcat::shard::{collection_name_at, HybridShardedMsgBox};
use sandcat::stream::StreamEvent;
use sandcat::update::{SeqUpdate, UpdateEvent};

/// Noon on the fifteenth of March 2024.
const MARCH_2024: i64 = 1710504000;

struct TestBox {
    msg_box: HybridShardedMsgBox,
    collections: BTreeMap<String, Vec<Msg>>,
}

impl TestBox {
    fn new() -> Self {
        let mut test = TestBox {
            msg_box: HybridShardedMsgBox::new("test".to_string(), 10),
            collections: BTreeMap::new(),
        };
        let provision = test.msg_box.initialize_system();
        test.provision(provision).unwrap();
        test
    }

    fn at(now: i64, user_shards: u8) -> Self {
        let mut test = TestBox {
            msg_box: HybridShardedMsgBox::new("test".to_string(), user_shards),
            collections: BTreeMap::new(),
        };
        let provision = test.msg_box.initialize_system_at(now);
        test.provision(provision).unwrap();
        test
    }

    fn provision(&mut self, mut provision: Provision) -> Result<(), Error> {
        while let Some((name, _model)) = provision.next_index() {
            self.collections.entry(name).or_default();
            provision.on_index(&mut self.msg_box, Ok(()));
        }
        provision.finish()
    }

    fn ready(&mut self, name: &str) -> Result<(), Error> {
        let provision = self.msg_box.get_collection(name);
        let outcome = self.provision(provision);
        self.msg_box.got_collection(name, outcome)
    }

    fn carry_out(&mut self, mut save: MessageSave) -> Result<(), Error> {
        while let Some(name) = save.current() {
            let outcome = self.ready(&name);
            save.on_ready(outcome);
        }
        let mut outcomes = Vec::new();
        for insert in save.into_inserts()? {
            let messages = self.collections.entry(insert.collection).or_default();
            let message = insert.message;
            if messages.iter().any(|held| {
                held.server_id == message.server_id && held.receiver_id == message.receiver_id
            }) {
                outcomes.push(Err(Error::storage("duplicate key".to_string())));
            } else {
                messages.push(message);
                outcomes.push(Ok(()));
            }
        }
        MessageSave::finish(outcomes)
    }

    fn save_message(&mut self, message: &Msg) -> Result<(), Error> {
        let save = MessageSave::new(vec![self.msg_box.save_message(message)]);
        self.carry_out(save)
    }

    fn save_group_msg(&mut self, message: Msg, members: Vec<GroupMemSeq>) -> Result<(), Error> {
        let save = MessageSave::new(self.msg_box.save_group_msg(&message, &members));
        self.carry_out(save)
    }

    fn stored(&self, name: &str) -> Vec<Msg> {
        self.collections.get(name).cloned().unwrap_or_default()
    }

    fn read(&self, mut read: MessageRead) -> Result<Vec<Msg>, Error> {
        while let Some(name) = read.current() {
            for message in self.stored(&name) {
                if read.filter().picks(&message) {
                    read.on_event(ReadEvent::Message(message));
                }
            }
            read.on_event(ReadEvent::Drained);
        }
        read.finish()
    }

    fn get_msgs(
        &self,
        user_id: &str,
        send_start: i64,
        send_end: i64,
        rec_start: i64,
        rec_end: i64,
    ) -> Result<Vec<Msg>, Error> {
        self.read(self.msg_box.get_msgs(user_id, send_start, send_end, rec_start, rec_end))
    }

    fn get_messages(&self, user_id: &str, start: i64, end: i64) -> Result<Vec<Msg>, Error> {
        self.read(self.msg_box.get_messages(user_id, start, end))
    }

    fn update(&mut self, mut update: SeqUpdate) -> Result<(), Error> {
        while let Some(name) = update.current() {
            let mut left = Vec::new();
            for message in self.stored(&name) {
                if update.filter().picks(&message) {
                    if let Some(changed) = update.change().apply(message) {
                        left.push(changed);
                    }
                } else {
                    left.push(message);
                }
            }
            self.collections.insert(name, left);
            update.on_event(UpdateEvent::Applied);
        }
        update.finish()
    }

    fn get_message(&self, message_id: &str) -> Result<Option<Msg>, Error> {
        let mut lookup = self.msg_box.get_message(message_id);
        while let Some(name) = lookup.current() {
            let found = self.stored(&name).into_iter().find(|m| lookup.filter().picks(m));
            match found {
                Some(message) => lookup.on_event(LookupEvent::Found(message)),
                None => lookup.on_event(LookupEvent::Absent),
            }
        }
        lookup.finish()
    }

    fn delete_message(&mut self, message_id: &str) -> Result<(), Error> {
        let mut delete = self.msg_box.delete_message(message_id);
        while let Some(name) = delete.current() {
            let mut messages = self.stored(&name);
            let place = messages.iter().position(|m| delete.filter().picks(m));
            match place {
                Some(place) => {
                    messages.remove(place);
                    self.collections.insert(name, messages);
                    delete.on_event(DeleteEvent::Deleted(1));
                }
                None => delete.on_event(DeleteEvent::Deleted(0)),
            }
        }
        delete.finish()
    }
}

fn get_timestamp_ms() -> u128 {
    SystemTime::now().duration_since(UNIX_EPOCH).unwrap().as_millis()
}

fn get_test_msg(msg_id: String) -> Msg {
    Msg {
        client_id: format!("client_{}", get_timestamp_ms()),
        server_id: msg_id,
        create_time: 0,
        send_time: Utc::now().timestamp(),
        content_type: 0,
        content: "test content".to_string().into_bytes(),
        sender_id: format!("sender_{}", get_timestamp_ms()),
        receiver_id: format!("receiver_{}", get_timestamp_ms()),
        seq: 0,
        send_seq: 0,
        msg_type: MsgType::SingleMsg.code(),
        is_read: false,
        platform: PlatformType::Mobile.code(),
        group_id: "".to_string(),
        avatar: "".to_string(),
        nickname: "".to_string(),
        related_msg_id: None,
    }
}

fn message_to(receiver_id: &str, seq: i64, send_time: i64) -> Msg {
    let mut message = get_test_msg(format!("{}_{}", receiver_id, seq));
    message.receiver_id = receiver_id.to_string();
    message.sender_id = "somebody".to_string();
    message.seq = seq;
    message.send_time = send_time;
    message
}

#[test]
fn sharded_insert_and_get_works() {
    let mut msg_box = TestBox::new();
    let msg_id = format!("test_{}", get_timestamp_ms());
    let msg = get_test_msg(msg_id.clone());

    msg_box.save_message(&msg).unwrap();

    let retrieved_msg = msg_box.get_message(&msg_id).unwrap();
    assert!(retrieved_msg.is_some());
    assert_eq!(retrieved_msg.unwrap().server_id, msg_id);
}

#[test]
fn sharded_insert_and_delete_works() {
    let mut msg_box = TestBox::new();
    let msg_id = format!("test_{}", get_timestamp_ms());
    let msg = get_test_msg(msg_id.clone());

    msg_box.save_message(&msg).unwrap();
    msg_box.delete_message(&msg_id).unwrap();

    let retrieved_msg = msg_box.get_message(&msg_id).unwrap();
    assert!(retrieved_msg.is_none());
}

#[test]
fn sharded_query_messages_works() {
    let mut msg_box = TestBox::new();
    let user_id = format!("user_{}", get_timestamp_ms());
    let base_time = Utc::now().timestamp();

    for i in 0..10 {
        let msg_id = format!("test_msg_{}_{}", user_id, i);
        let mut msg = get_test_msg(msg_id);
        msg.receiver_id = user_id.clone();
        msg.seq = i;
        msg.send_time = base_time + i;

        msg_box.save_message(&msg).unwrap();
    }

    let messages = msg_box.get_msgs(&user_id, 0, 0, 3, 7).unwrap();
    assert!(messages.len() > 0);

    let mut rec_messages: Vec<&Msg> =
        messages.iter().filter(|msg| msg.seq >= 3 && msg.seq <= 7).collect();
    rec_messages.sort_by_key(|msg| msg.seq);

    let expected_seqs: Vec<i64> = (3..=7).collect();
    let actual_seqs: Vec<i64> = rec_messages.iter().map(|msg| msg.seq).collect();
    assert_eq!(actual_seqs, expected_seqs);
}

#[test]
fn sharded_group_message_works() {
    let mut msg_box = TestBox::new();
    let base_id = format!("group_test_{}", get_timestamp_ms());
    let group_id = format!("group_{}", base_id);
    let sender_id = format!("sender_{}", base_id);

    let msg_id = format!("group_msg_{}", base_id);
    let mut msg = get_test_msg(msg_id.clone());
    msg.sender_id = sender_id.clone();
    msg.group_id = group_id.clone();
    msg.msg_type = MsgType::GroupMsg.code();
    msg.send_seq = 100;

    let members = vec![
        GroupMemSeq {
            mem_id: format!("member_1_{}", base_id),
            cur_seq: 1001,
            max_seq: 1001,
            need_update: false,
        },
        GroupMemSeq {
            mem_id: format!("member_2_{}", base_id),
            cur_seq: 2001,
            max_seq: 2001,
            need_update: false,
        },
    ];

    msg_box.save_group_msg(msg.clone(), members.clone()).unwrap();

    let sender_msgs = msg_box.get_msgs(&sender_id, 0, 1000, 0, 0).unwrap();
    assert!(!sender_msgs.is_empty());

    let member1_msgs = msg_box.get_msgs(&members[0].mem_id, 0, 0, 1000, 1002).unwrap();
    assert!(!member1_msgs.is_empty());
    assert_eq!(member1_msgs[0].seq, 1001);

    let member2_msgs = msg_box.get_msgs(&members[1].mem_id, 0, 0, 2000, 2002).unwrap();
    assert!(!member2_msgs.is_empty());
    assert_eq!(member2_msgs[0].seq, 2001);
}

#[test]
fn sharded_message_read_status_works() {
    let mut msg_box = TestBox::new();
    let user_id = format!("read_test_{}", get_timestamp_ms());

    let mut seq_list = Vec::new();
    for i in 0..5 {
        let msg_id = format!("read_msg_{}_{}", user_id, i);
        let mut msg = get_test_msg(msg_id);
        msg.receiver_id = user_id.clone();
        msg.seq = 100 + i;
        msg.is_read = false;
        seq_list.push(100 + i);

        msg_box.save_message(&msg).unwrap();
    }

    let update = msg_box.msg_box.msg_read(&user_id, &seq_list[0..3]);
    msg_box.update(update).unwrap();

    let messages = msg_box.get_msgs(&user_id, 0, 0, 100, 104).unwrap();

    let read_status: HashMap<i64, bool> = messages
        .iter()
        .filter(|msg| msg.seq >= 100 && msg.seq <= 104)
        .map(|msg| (msg.seq, msg.is_read))
        .collect();

    assert_eq!(read_status.len(), 5);

    for seq in 100..=102 {
        assert!(read_status.get(&seq).unwrap());
    }

    for seq in 103..=104 {
        assert!(!read_status.get(&seq).unwrap());
    }
}

#[test]
fn collections_are_named_after_month_and_slice() {
    assert_eq!(collection_name_at(1704067200, 3, 0), "msg_box_2024_01_3");
    assert_eq!(collection_name_at(1704067199, 0, 0), "msg_box_2023_12_0");
    assert_eq!(collection_name_at(0, 255, MARCH_2024), "msg_box_1970_01_255");
    assert_eq!(collection_name_at(-1, 7, MARCH_2024), "msg_box_1969_12_7");
    // the last day of February in a leap year
    assert_eq!(collection_name_at(1709251199, 1, 0), "msg_box_2024_02_1");
    assert_eq!(collection_name_at(1709251200, 1, 0), "msg_box_2024_03_1");
    // years beyond four digits carry a sign
    assert_eq!(collection_name_at(253402300800, 1, 0), "msg_box_+10000_01_1");
    // a moment without a date counts as the present
    assert_eq!(collection_name_at(i64::MAX, 1, MARCH_2024), "msg_box_2024_03_1");
    assert_eq!(collection_name_at(i64::MIN, 1, MARCH_2024), "msg_box_2024_03_1");

    // the first and the last second that have a date
    assert_eq!(collection_name_at(-8334601228800, 1, 0), "msg_box_-262143_01_1");
    assert_eq!(collection_name_at(-8334601228801, 1, 0), "msg_box_1970_01_1");
    assert_eq!(collection_name_at(8210266876799, 1, 0), "msg_box_+262142_12_1");
    assert_eq!(collection_name_at(8210266876800, 1, 0), "msg_box_1970_01_1");
    assert_eq!(collection_name_at(-62135596801, 1, 0), "msg_box_0000_12_1");
    assert_eq!(collection_name_at(-62167219201, 1, 0), "msg_box_-0001_12_1");

    let msg_box = HybridShardedMsgBox::new("test".to_string(), 10);
    assert_eq!(msg_box.user_shards(), 10);
    assert_eq!(msg_box.get_collection_name(1704067200, 9), "msg_box_2024_01_9");
    let present = format!("msg_box_{}_9", Utc::now().format("%Y_%m"));
    assert_eq!(msg_box.get_collection_name(i64::MAX, 9), present);
}

#[test]
fn months_move_to_the_last_day_where_they_are_too_short() {
    // 31 March 2024 at noon
    let end_of_march = 1711886400;
    // 29 February 2024 at noon
    assert_eq!(months_before(end_of_march, 1), 1709208000);
    // 30 April 2024 at noon
    assert_eq!(months_after(end_of_march, 1), 1714478400);
    assert_eq!(months_before(end_of_march, 0), end_of_march);
    // there are not so many months
    assert_eq!(months_after(8210266876799, 1), 8210266876799);
    assert_eq!(months_before(-8334601228800, 1), -8334601228800);
    assert_eq!(months_after(8210264198399, 1), 8210266790399);
    assert_eq!(months_after(end_of_march, u32::MAX), end_of_march);
    assert_eq!(months_before(end_of_march, u32::MAX), end_of_march);
    assert_eq!(year_month_or(months_before(MARCH_2024, 3), 0), "2023_12");
    assert_eq!(year_month_or(months_after(MARCH_2024, 10), 0), "2025_01");
}

#[test]
fn users_belong_to_the_slice_of_their_hash() {
    let msg_box = HybridShardedMsgBox::new("test".to_string(), 10);
    for user_id in ["", "test", "user_1", "用户"] {
        let mut hasher = DefaultHasher::new();
        user_id.hash(&mut hasher);
        assert_eq!(msg_box.get_user_range(user_id) as u64, hasher.finish() % 10);
    }
    let one = HybridShardedMsgBox::new("test".to_string(), 1);
    assert_eq!(one.get_user_range("test"), 0);
}

#[test]
fn startup_readies_three_months_before_and_after() {
    let test = TestBox::at(MARCH_2024, 2);
    assert_eq!(test.msg_box.db_name(), "test");
    let mut expected = Vec::new();
    for month in ["2023_12", "2024_01", "2024_02", "2024_03", "2024_04", "2024_05", "2024_06"] {
        for range in 0..2 {
            expected.push(format!("msg_box_{}_{}", month, range));
        }
    }
    assert_eq!(test.msg_box.active_collections(), expected);
    assert_eq!(test.msg_box.startup_collections_at(MARCH_2024), expected);
    assert!(test.msg_box.is_cached("msg_box_2023_12_0"));
    assert!(test.msg_box.is_cached("msg_box_2024_06_1"));
    assert!(!test.msg_box.is_active("msg_box_2023_11_0"));
    assert!(!test.msg_box.is_active("msg_box_2024_07_0"));
}

#[test]
fn messages_of_last_month_are_found_after_a_restart() {
    let mut test = TestBox::at(MARCH_2024, 4);
    let message = message_to("alice", 1, months_before(MARCH_2024, 1));
    test.save_message(&message).unwrap();
    let kept = test.collections.clone();
    let mut test = TestBox::at(MARCH_2024, 4);
    test.collections = kept;
    assert_eq!(test.get_message(&message.server_id).unwrap(), Some(message.clone()));
    test.delete_message(&message.server_id).unwrap();
    assert_eq!(test.get_message(&message.server_id).unwrap(), None);
}

#[test]
fn box_from_config_starts_empty() {
    let config = MongoDbConfig {
        url: "mongodb://localhost".to_string(),
        database: "im".to_string(),
        use_sharding: Some(true),
        user_shards: Some(10),
    };
    let msg_box = HybridShardedMsgBox::from_config(&config, 4);
    assert_eq!(msg_box.db_name(), "im");
    assert!(msg_box.active_collections().is_empty());
    assert_eq!(msg_box.maintained_collections_at(MARCH_2024).len(), 16);
}

#[test]
fn each_collection_has_four_indexes() {
    assert_eq!(INDEX_COUNT, 4);
    assert_eq!(index_model(0).keys, vec!["receiver_id", "seq"]);
    assert_eq!(index_model(1).keys, vec!["send_time"]);
    assert_eq!(index_model(2).keys, vec!["sender_id", "send_seq"]);
    assert_eq!(index_model(3).keys, vec!["server_id", "receiver_id"]);
    assert!(index_model(3).unique && index_model(3).sparse);
    assert!(!index_model(0).unique && !index_model(0).sparse);
}

#[test]
fn startup_stops_at_a_failure_but_not_at_an_index_that_is_there() {
    let mut msg_box = HybridShardedMsgBox::new("test".to_string(), 1);
    let mut provision = msg_box.initialize_system_at(MARCH_2024);
    let complaint = "Index with name receiver_id_1 already exists".to_string();
    for _ in 0..4 {
        assert!(provision.next_index().is_some());
        provision.on_index(&mut msg_box, Err(complaint.clone()));
    }
    assert_eq!(msg_box.active_collections(), vec!["msg_box_2023_12_0"]);
    provision.on_index(&mut msg_box, Err("no connection".to_string()));
    assert!(provision.next_index().is_none());
    let error = provision.finish().unwrap_err();
    assert_eq!(error.kind, ErrorKind::Storage);
    assert_eq!(error.cause, Some("no connection".to_string()));
    assert_eq!(msg_box.active_collections(), vec!["msg_box_2023_12_0"]);
}

#[test]
fn maintenance_goes_on_after_failures_and_passes_over_what_is_in_use() {
    let mut test = TestBox::at(MARCH_2024, 1);
    let next_month = months_after(MARCH_2024, 1);
    let mut provision = test.msg_box.maintain_collections_at(next_month);
    let mut names = Vec::new();
    while let Some((name, _model)) = provision.next_index() {
        names.push(name);
        provision.on_index(&mut test.msg_box, Err("no connection".to_string()));
    }
    assert_eq!(names, vec!["msg_box_2024_07_0"; 4]);
    assert!(provision.finish().is_ok());
    assert!(test.msg_box.is_active("msg_box_2024_07_0"));
    assert!(test.msg_box.maintain_collections_at(next_month).next_index().is_none());
}

#[test]
fn a_collection_for_one_message_is_ready_but_not_in_use() {
    let mut test = TestBox::at(MARCH_2024, 1);
    let name = "msg_box_2023_01_0";
    let error = test.msg_box.got_collection(name, Ok(())).unwrap_err();
    assert_eq!(error.kind, ErrorKind::Internal);
    assert_eq!(error.details, Some("Failed to cache collection".to_string()));
    test.ready(name).unwrap();
    assert!(test.msg_box.got_collection(name, Ok(())).is_ok());
    assert!(test.msg_box.is_cached(name) && !test.msg_box.is_active(name));
}

#[test]
fn a_collection_is_indexed_once_and_only_when_it_is_not_ready() {
    let mut test = TestBox::at(MARCH_2024, 1);
    // in use since the start
    assert!(test.msg_box.get_collection("msg_box_2024_03_0").next_index().is_none());

    let name = "msg_box_2023_01_0";
    let mut provision = test.msg_box.get_collection(name);
    provision.on_index(&mut test.msg_box, Ok(()));
    provision.on_index(&mut test.msg_box, Err("no connection".to_string()));
    assert!(provision.next_index().is_none());
    let outcome = provision.finish();
    let error = test.msg_box.got_collection(name, outcome).unwrap_err();
    assert_eq!(error, Error::storage("no connection".to_string()));
    assert!(!test.msg_box.is_cached(name));

    let mut provision = test.msg_box.get_collection(name);
    let mut asked = 0;
    while let Some((collection, _model)) = provision.next_index() {
        assert_eq!(collection, name);
        asked += 1;
        provision.on_index(&mut test.msg_box, Err("index already exists".to_string()));
    }
    assert_eq!(asked, 4);
    let outcome = provision.finish();
    assert!(test.msg_box.got_collection(name, outcome).is_ok());
    assert!(test.msg_box.get_collection(name).next_index().is_none());
    assert!(!test.msg_box.is_active(name));
}

#[test]
fn maintenance_keeps_what_is_in_use() {
    let mut test = TestBox::at(MARCH_2024, 1);
    let before = test.msg_box.active_collections();
    let later = months_after(MARCH_2024, 5);
    let provision = test.msg_box.maintain_collections_at(later);
    test.provision(provision).unwrap();
    let mut expected = before;
    for month in ["08", "09", "10", "11"] {
        expected.push(format!("msg_box_2024_{}_0", month));
    }
    assert_eq!(test.msg_box.active_collections(), expected);
    assert_eq!((MAINTENANCE_INTERVAL_SECS, CLEANING_INTERVAL_SECS), (86400, 86400));
}

#[test]
fn messages_are_read_for_three_months() {
    let test = TestBox::at(MARCH_2024, 4);
    let range = test.msg_box.get_user_range("alice");
    let read = test.msg_box.get_messages_at("alice", 1, 5, MARCH_2024);
    assert_eq!(read.current(), Some(format!("msg_box_2024_03_{}", range)));
    let expected = vec![
        format!("msg_box_2024_03_{}", range),
        format!("msg_box_2024_02_{}", range),
        format!("msg_box_2024_01_{}", range),
    ];
    assert_eq!(test.msg_box.recent_collections_at("alice", 3, MARCH_2024), expected);

    let mut test = TestBox::at(MARCH_2024, 4);
    let months_back = |count| months_before(MARCH_2024, count);
    for (seq, back) in [(4, 0), (3, 1), (2, 2), (1, 3)] {
        let insert = test.msg_box.save_message(&message_to("alice", seq, months_back(back)));
        test.collections.entry(insert.collection).or_default().push(insert.message);
    }
    let read = test.msg_box.get_messages_at("alice", 1, 9, MARCH_2024);
    let seqs: Vec<i64> = test.read(read).unwrap().iter().map(|m| m.seq).collect();
    assert_eq!(seqs, vec![2, 3, 4]);
    let other = test.msg_box.get_messages_at("bob", 1, 9, MARCH_2024);
    assert!(test.read(other).unwrap().is_empty());
}

#[test]
fn reading_passes_over_what_cannot_be_had_and_stops_at_a_failure() {
    let msg_box = HybridShardedMsgBox::new("test".to_string(), 4);
    let mut read = msg_box.get_messages_at("alice", 0, 10, MARCH_2024);
    read.on_event(ReadEvent::Unavailable);
    read.on_event(ReadEvent::Message(message_to("alice", 2, MARCH_2024)));
    read.on_event(ReadEvent::Message(message_to("alice", 1, MARCH_2024)));
    read.on_event(ReadEvent::Drained);
    read.on_event(ReadEvent::Unavailable);
    assert!(read.current().is_none());
    let seqs: Vec<i64> = read.finish().unwrap().iter().map(|m| m.seq).collect();
    assert_eq!(seqs, vec![1, 2]);

    let mut read = msg_box.get_messages_at("alice", 0, 10, MARCH_2024);
    read.on_event(ReadEvent::Failed(Error::storage("cursor".to_string())));
    assert!(read.current().is_none());
    assert_eq!(read.finish().unwrap_err(), Error::storage("cursor".to_string()));
}

#[test]
fn a_conversation_is_ordered_by_time_and_hides_the_number_of_what_was_sent() {
    let msg_box = HybridShardedMsgBox::new("test".to_string(), 1);
    let mut read = msg_box.get_msgs_at("alice", 0, 10, 0, 10, MARCH_2024);
    let received = message_to("alice", 7, MARCH_2024);
    let mut sent = message_to("alice", 9, MARCH_2024);
    sent.sender_id = "alice".to_string();
    sent.send_seq = 3;
    let earlier = message_to("alice", 8, MARCH_2024 - 1);
    for message in [received, sent, earlier] {
        assert!(read.filter().picks(&message));
        read.on_event(ReadEvent::Message(message));
    }
    for _ in 0..3 {
        read.on_event(ReadEvent::Drained);
    }
    let messages = read.finish().unwrap();
    let shown: Vec<(i64, i64)> = messages.iter().map(|m| (m.seq, m.send_seq)).collect();
    assert_eq!(shown, vec![(8, 0), (0, 3), (7, 0)]);
}

#[test]
fn messages_of_equal_rank_stay_as_they_came() {
    let msg_box = HybridShardedMsgBox::new("test".to_string(), 1);
    let mut read = msg_box.get_messages_at("alice", 0, 10, MARCH_2024);
    for (seq, name) in [(2, "a"), (1, "b"), (2, "c"), (1, "d"), (0, "e")] {
        let mut message = message_to("alice", seq, MARCH_2024);
        message.server_id = name.to_string();
        read.on_event(ReadEvent::Message(message));
    }
    for _ in 0..3 {
        read.on_event(ReadEvent::Drained);
    }
    let names: Vec<String> = read.finish().unwrap().into_iter().map(|m| m.server_id).collect();
    assert_eq!(names, vec!["e", "b", "d", "a", "c"]);
}

#[test]
fn group_messages_have_a_copy_for_the_sender_and_for_each_member() {
    let msg_box = HybridShardedMsgBox::new("test".to_string(), 8);
    let mut message = message_to("group", 5, MARCH_2024);
    message.sender_id = "alice".to_string();
    message.send_seq = 42;
    let members = vec![
        GroupMemSeq::new("bob".to_string(), 11, 20, false),
        GroupMemSeq::new("carol".to_string(), 12, 20, true),
    ];
    let inserts = msg_box.save_group_msg_at(&message, &members, MARCH_2024);
    assert_eq!(inserts.len(), 3);
    assert_eq!(inserts[0].message.receiver_id, "alice");
    assert_eq!((inserts[0].message.seq, inserts[0].message.send_seq), (5, 42));
    assert_eq!(inserts[1].message.receiver_id, "bob");
    assert_eq!((inserts[1].message.seq, inserts[1].message.send_seq), (11, 0));
    assert_eq!(inserts[2].message.receiver_id, "carol");
    assert_eq!((inserts[2].message.seq, inserts[2].message.send_seq), (12, 0));
    for insert in &inserts {
        let range = msg_box.get_user_range(&insert.message.receiver_id);
        assert_eq!(insert.collection, format!("msg_box_2024_03_{}", range));
        assert_eq!(insert.message.sender_id, "alice");
        assert_eq!(insert.message.content, message.content);
    }
    assert_eq!(msg_box.save_group_msg_at(&message, &Vec::new(), MARCH_2024).len(), 1);
}

#[test]
fn nobody_gets_two_copies_of_a_group_message() {
    let mut test = TestBox::at(MARCH_2024, 4);
    let mut message = message_to("group", 5, MARCH_2024);
    message.sender_id = "alice".to_string();
    let members = |ids: &[&str]| -> Vec<GroupMemSeq> {
        ids.iter().map(|id| GroupMemSeq::new(id.to_string(), 1, 1, false)).collect()
    };
    test.save_group_msg(message.clone(), members(&["bob", "carol"])).unwrap();
    // the same message again
    let error = test.save_group_msg(message.clone(), members(&["bob"])).unwrap_err();
    assert_eq!(error, Error::storage("duplicate key".to_string()));
    // the sender as a member
    message.server_id = "other".to_string();
    let error = test.save_group_msg(message, members(&["alice", "dave"])).unwrap_err();
    assert_eq!(error, Error::storage("duplicate key".to_string()));
    let held: usize = test.collections.values().map(|messages| messages.len()).sum();
    assert_eq!(held, 5);
}

#[test]
fn nothing_is_inserted_before_all_collections_are_ready() {
    let msg_box = HybridShardedMsgBox::new("test".to_string(), 8);
    let message = message_to("alice", 1, MARCH_2024);
    let members = vec![GroupMemSeq::new("bob".to_string(), 1, 1, false)];
    let inserts = msg_box.save_group_msg_at(&message, &members, MARCH_2024);
    let second = inserts[1].collection.clone();
    let mut save = MessageSave::new(inserts);
    save.on_ready(Ok(()));
    assert_eq!(save.current(), Some(second));
    save.on_ready(Err(Error::storage("index".to_string())));
    assert!(save.current().is_none());
    assert_eq!(save.into_inserts().unwrap_err(), Error::storage("index".to_string()));

    let outcomes = vec![
        Ok(()),
        Err(Error::internal("first".to_string())),
        Err(Error::storage("second".to_string())),
    ];
    assert_eq!(MessageSave::finish(outcomes), Err(Error::internal("first".to_string())));
    assert_eq!(MessageSave::finish(vec![Ok(()), Ok(())]), Ok(()));
}

#[test]
fn deleting_by_number_reaches_two_months() {
    let mut test = TestBox::at(MARCH_2024, 4);
    for (seq, back) in [(1, 0), (2, 1), (3, 2), (4, 0)] {
        let message = message_to("alice", seq, months_before(MARCH_2024, back));
        test.save_message(&message).unwrap();
    }
    test.save_message(&message_to("bob", 1, MARCH_2024)).unwrap();
    let update = test.msg_box.delete_messages_at("alice", vec![1, 2, 3], MARCH_2024);
    test.update(update).unwrap();
    let read = test.msg_box.get_messages_at("alice", 0, 9, MARCH_2024);
    let seqs: Vec<i64> = test.read(read).unwrap().iter().map(|m| m.seq).collect();
    assert_eq!(seqs, vec![3, 4]);
    let read = test.msg_box.get_messages_at("bob", 0, 9, MARCH_2024);
    assert_eq!(test.read(read).unwrap().len(), 1);

    // without numbers there is nothing to do
    let nothing = test.msg_box.delete_messages("alice", Vec::new());
    assert!(nothing.current().is_none());
    let nothing = test.msg_box.msg_read("alice", &[]);
    assert!(nothing.current().is_none());
}

#[test]
fn updates_pass_over_what_cannot_be_had_and_stop_at_a_failure() {
    let msg_box = HybridShardedMsgBox::new("test".to_string(), 4);
    let mut update = msg_box.delete_messages_at("alice", vec![1], MARCH_2024);
    update.on_event(UpdateEvent::Unavailable);
    update.on_event(UpdateEvent::Applied);
    assert!(update.current().is_none());
    assert!(update.finish().is_ok());

    let mut update = msg_box.msg_read_at("alice", &[1], MARCH_2024);
    update.on_event(UpdateEvent::Failed(Error::storage("update".to_string())));
    assert!(update.current().is_none());
    assert_eq!(update.finish(), Err(Error::storage("update".to_string())));
}

#[test]
fn deleting_undoes_saving() {
    let mut test = TestBox::at(MARCH_2024, 4);
    test.save_message(&message_to("alice", 1, MARCH_2024)).unwrap();
    let before = test.collections.clone();
    let message = message_to("bob", 2, MARCH_2024);
    test.save_message(&message).unwrap();
    assert_eq!(test.get_message(&message.server_id).unwrap(), Some(message.clone()));
    test.delete_message(&message.server_id).unwrap();
    assert_eq!(test.collections, before);
    assert_eq!(test.get_message(&message.server_id).unwrap(), None);
    // deleting what is not there ends well
    test.delete_message("nobody").unwrap();
    assert_eq!(test.collections, before);
}

#[test]
fn lookups_and_deletions_stop_at_a_failure() {
    let test = TestBox::at(MARCH_2024, 1);
    let mut lookup = test.msg_box.get_message("id");
    lookup.on_event(LookupEvent::Absent);
    lookup.on_event(LookupEvent::Failed(Error::storage("find".to_string())));
    assert!(lookup.current().is_none());
    assert_eq!(lookup.finish(), Err(Error::storage("find".to_string())));

    let mut delete = test.msg_box.delete_message("id");
    delete.on_event(DeleteEvent::Failed(Error::storage("delete".to_string())));
    assert!(delete.current().is_none());
    assert_eq!(delete.finish(), Err(Error::storage("delete".to_string())));
}

#[test]
fn streams_hand_on_every_item_of_three_months() {
    let mut test = TestBox::at(MARCH_2024, 4);
    for (seq, back) in [(5, 0), (3, 0), (4, 1), (2, 1), (1, 2)] {
        let message = message_to("alice", seq, months_before(MARCH_2024, back));
        test.save_message(&message).unwrap();
    }
    let mut stream = test.msg_box.get_messages_stream_at("alice", 0, 9, MARCH_2024);
    let mut handed_on = Vec::new();
    while let Some(name) = stream.current() {
        let mut messages = test.stored(&name);
        assert!(matches!(stream.order(), MessageOrder::BySeq));
        messages.sort_by_key(|message| message.seq);
        for message in messages {
            if stream.filter().picks(&message) {
                let item = stream.on_event(StreamEvent::Item(Ok(message)));
                handed_on.push(item.unwrap().unwrap().seq);
            }
        }
        assert!(stream.on_event(StreamEvent::Drained).is_none());
    }
    assert_eq!(handed_on, vec![3, 5, 2, 4, 1]);
    let read = test.msg_box.get_messages_at("alice", 0, 9, MARCH_2024);
    let seqs: Vec<i64> = test.read(read).unwrap().iter().map(|m| m.seq).collect();
    assert_eq!(seqs, vec![1, 2, 3, 4, 5]);

    let mut stream = test.msg_box.get_messages_stream("alice", 0, 9);
    let failure = Error::storage("cursor".to_string());
    let item = stream.on_event(StreamEvent::Item(Err(failure)));
    assert!(matches!(item, Some(Err(_))));
    assert!(stream.on_event(StreamEvent::QueryFailed).is_none());
    assert!(stream.on_event(StreamEvent::Missing).is_none());
    assert!(stream.current().is_some());
    assert!(stream.on_event(StreamEvent::ReceiverGone).is_none());
    assert!(stream.current().is_none());
}

#[test]
fn clearing_takes_expired_messages_but_for_some_types() {
    let msg_box = HybridShardedMsgBox::new("test".to_string(), 1);
    let round = msg_box.clean_receive_box_at(7, vec![1], MARCH_2024);
    let cutoff = MARCH_2024 - 7 * 86400;
    assert_eq!(
        *round.filter(),
        Filter::Expired { cutoff, kept_types: vec![1] }
    );
    assert!(round.filter().picks(&message_to("alice", 1, cutoff - 1)));
    assert!(!round.filter().picks(&message_to("alice", 1, cutoff)));
    let mut group = message_to("alice", 1, cutoff - 1);
    group.msg_type = MsgType::GroupMsg.code();
    assert!(!round.filter().picks(&group));
}

#[test]
fn old_collections_go_out_of_use() {
    let mut test = TestBox::at(MARCH_2024, 2);
    // six months later, messages are kept for thirty days: three months back
    let later = months_after(MARCH_2024, 6);
    let mut round = test.msg_box.clean_receive_box_at(30, Vec::new(), later);
    let mut visited = 0;
    while round.current().is_some() {
        round.on_event(match visited {
            0 => CleanEvent::Missing,
            1 => CleanEvent::Failed,
            _ => CleanEvent::Deleted(3),
        });
        visited += 1;
    }
    assert_eq!(visited, 14);
    round.finish(&mut test.msg_box);
    assert_eq!(
        test.msg_box.active_collections(),
        vec!["msg_box_2024_06_0", "msg_box_2024_06_1"]
    );
    assert!(test.msg_box.is_cached("msg_box_2024_03_0"));
}

#[test]
fn clearing_needs_a_date_to_reach_back_to() {
    assert!(cutoff_has_date(30, MARCH_2024));
    assert!(cutoff_has_date(-30, MARCH_2024));
    assert!(!cutoff_has_date(i64::MAX, MARCH_2024));
    assert!(!cutoff_has_date(1_000_000_000, MARCH_2024));
    let msg_box = HybridShardedMsgBox::new("test".to_string(), 1);
    assert!(msg_box.clean_receive_box(i64::MIN, Vec::new()).is_none());
    assert!(msg_box.clean_receive_box(30, Vec::new()).is_some());
}
