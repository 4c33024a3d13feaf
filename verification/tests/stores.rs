//! Migration, the object store, the message archive and the benchmark.

use std::collections::{BTreeMap, BTreeSet};

use sandcat::benchmark::{
    benchmark_config, benchmark_database, create_test_message, generate_group_ids,
    generate_user_ids, group_message, group_reports_at, mixed_counts, single_message,
    single_reports_at, BenchmarkRun, BenchmarkTask, TestMode,
};
use sandcat::config::{MongoDbConfig, OssConfig};
use sandcat::error::{Error, ErrorKind};
use sandcat::message::{GroupMemSeq, MsgType};
use sandcat::migrate::{process_batch, run_migration, MessageMigrator, MigrationStep, Progress};
use sandcat::oss::{
    AvatarTask, BucketRequest, BucketSetup, HeadOutcome, ObjectRequest, S3Client,
};
use sandcat::postgres::{PostgresMessage, SqlValue, INSERT_MESSAGE};

fn mongodb(use_sharding: Option<bool>, user_shards: Option<u32>) -> MongoDbConfig {
    MongoDbConfig {
        url: "mongodb://localhost".to_string(),
        database: "im".to_string(),
        use_sharding,
        user_shards,
    }
}

fn batches(batch_size: usize, count: usize) -> Vec<Vec<usize>> {
    let mut migration = MessageMigrator::new()
        .with_batch_size(batch_size)
        .with_concurrency(2)
        .migrate::<usize>();
    let mut documents = 0..count;
    let mut handed_out: Vec<Vec<usize>> = Vec::new();
    let mut running = 0;
    loop {
        match migration.step() {
            MigrationStep::Count => migration.on_counted(None),
            MigrationStep::Open => migration.on_opened(None),
            MigrationStep::Read => migration.on_read(Ok(documents.next())),
            MigrationStep::Start => {
                handed_out.push(migration.start_batch());
                running += 1;
                assert!(running <= 2);
            }
            MigrationStep::Wait => {
                migration.on_batch_done();
                running -= 1;
            }
            MigrationStep::Join => {
                assert_eq!(running, 0);
                migration.on_joined(handed_out.iter().map(|_| Ok(())).collect());
            }
            MigrationStep::End => break,
        }
    }
    assert_eq!(migration.finish(), Ok(()));
    handed_out
}

#[test]
fn documents_are_gathered_into_batches() {
    assert_eq!(batches(3, 7), vec![vec![0, 1, 2], vec![3, 4, 5], vec![6]]);
    assert_eq!(batches(3, 6), vec![vec![0, 1, 2], vec![3, 4, 5]]);
    assert_eq!(batches(1, 2), vec![vec![0], vec![1]]);
    assert_eq!(batches(0, 2), vec![vec![0], vec![1]]);
    assert!(batches(3, 0).is_empty());
}

#[test]
fn migration_ends_at_a_failed_count_find_or_read() {
    let failure = || Error::storage("no connection".to_string());
    let start = || MessageMigrator::new().with_batch_size(1).migrate::<u8>();
    let mut migration = start();
    assert_eq!(migration.step(), MigrationStep::Count);
    migration.on_counted(Some(failure()));
    assert_eq!(migration.step(), MigrationStep::End);
    assert_eq!(migration.finish(), Err(failure()));

    let mut migration = start();
    migration.on_counted(None);
    migration.on_opened(Some(failure()));
    assert_eq!(migration.step(), MigrationStep::End);
    assert_eq!(migration.finish(), Err(failure()));

    let mut migration = start();
    migration.on_counted(None);
    migration.on_opened(None);
    migration.on_read(Ok(Some(7)));
    assert_eq!(migration.start_batch(), vec![7]);
    migration.on_read(Err(failure()));
    assert_eq!(migration.step(), MigrationStep::End);
    migration.on_batch_done();
    assert_eq!(migration.finish(), Err(failure()));
}

#[test]
fn migration_fails_with_the_first_batch_that_broke_off() {
    let mut migration =
        MessageMigrator::new().with_batch_size(1).with_concurrency(1).migrate::<u8>();
    migration.on_counted(None);
    migration.on_opened(None);
    for document in [1, 2] {
        migration.on_read(Ok(Some(document)));
        assert_eq!(migration.step(), MigrationStep::Start);
        assert_eq!(migration.start_batch(), vec![document]);
        if document == 1 {
            migration.on_read(Ok(Some(9)));
            // one batch at a time
            assert_eq!(migration.step(), MigrationStep::Wait);
            migration.on_batch_done();
            assert_eq!(migration.start_batch(), vec![9]);
        }
        migration.on_batch_done();
    }
    migration.on_read(Ok(None));
    assert_eq!(migration.step(), MigrationStep::Join);
    let broken = |text: &str| Err(Error::internal(text.to_string()));
    migration.on_joined(vec![Ok(()), broken("first"), broken("second")]);
    assert_eq!(migration.step(), MigrationStep::End);
    assert_eq!(migration.finish(), broken("first"));
}

#[test]
fn migrators_have_defaults_that_can_be_changed() {
    let migrator = MessageMigrator::new();
    assert_eq!((migrator.batch_size, migrator.concurrency), (100, 10));
    let migrator = migrator.with_batch_size(7).with_concurrency(2);
    assert_eq!((migrator.batch_size, migrator.concurrency), (7, 2));
    assert_eq!(migrator.cursor_batch_size(), 7);
    assert_eq!(migrator.with_batch_size((1 << 32) + 5).cursor_batch_size(), 5);
}

#[test]
fn migration_is_always_sharded() {
    let (target, migrator) = run_migration(&mongodb(None, None));
    assert_eq!(target, mongodb(Some(true), Some(10)));
    assert_eq!((migrator.batch_size, migrator.concurrency), (500, 5));
    let (target, _) = run_migration(&mongodb(Some(false), Some(3)));
    assert_eq!(target, mongodb(Some(true), Some(3)));
}

#[test]
fn batches_go_on_after_what_cannot_be_made_out() {
    let message = |id: &str| {
        let (sender, receiver) = ("a".to_string(), "b".to_string());
        create_test_message(id.to_string(), sender, receiver, 10, 1, MsgType::SingleMsg)
    };
    let batch = vec![
        Ok(message("1")),
        Err(Error::internal("no such field".to_string())),
        Ok(message("2")),
    ];
    assert_eq!(process_batch(batch), vec![message("1"), message("2")]);
    let mut progress = Progress { processed: 0, total_count: 5 };
    progress.on_batch(3);
    progress.on_batch(2);
    assert_eq!(progress, Progress { processed: 5, total_count: 5 });
}

fn client() -> S3Client {
    S3Client::new(&OssConfig {
        endpoint: "http://localhost:9000".to_string(),
        access_key: "minio".to_string(),
        secret_key: "minio".to_string(),
        bucket: "files".to_string(),
        avatar_bucket: "avatars".to_string(),
        region: "us-east-1".to_string(),
    })
}

#[test]
fn buckets_are_there_missing_or_unknown() {
    let client = client();
    assert_eq!(client.check_bucket_exists(HeadOutcome::Found), Ok(true));
    assert_eq!(client.check_avatar_bucket_exits(HeadOutcome::ServiceError(404)), Ok(false));
    let error = client.check_bucket_exists(HeadOutcome::ServiceError(403)).unwrap_err();
    assert_eq!(error.kind, ErrorKind::Internal);
    assert_eq!(error.details, Some("check avatar_bucket exists error".to_string()));
    let error = client
        .check_avatar_bucket_exits(HeadOutcome::Other("dispatch failure".to_string()))
        .unwrap_err();
    assert_eq!(error, Error::internal_with_details("dispatch failure".to_string()));
}

fn set_up(client: &S3Client, buckets: &mut BTreeSet<String>) -> Vec<BucketRequest> {
    let mut setup: BucketSetup = client.create_bucket();
    let mut requests = Vec::new();
    while let Some(request) = setup.request() {
        match &request {
            BucketRequest::Head { bucket } => setup.on_head(
                client,
                if buckets.contains(bucket) {
                    HeadOutcome::Found
                } else {
                    HeadOutcome::ServiceError(404)
                },
            ),
            BucketRequest::Create { bucket } => {
                buckets.insert(bucket.clone());
                setup.on_create(None);
            }
        }
        requests.push(request);
    }
    setup.finish().unwrap();
    requests
}

#[test]
fn both_buckets_are_there_in_the_end() {
    let client = client();
    let mut buckets = BTreeSet::new();
    buckets.insert("files".to_string());
    let head = |bucket: &str| BucketRequest::Head { bucket: bucket.to_string() };
    let create = |bucket: &str| BucketRequest::Create { bucket: bucket.to_string() };
    let requests = set_up(&client, &mut buckets);
    assert_eq!(requests, vec![head("files"), head("avatars"), create("avatars")]);
    let names: Vec<&str> = buckets.iter().map(|name| name.as_str()).collect();
    assert_eq!(names, vec!["avatars", "files"]);
    let requests = set_up(&client, &mut buckets);
    assert_eq!(requests, vec![head("files"), head("avatars")]);
    let requests = set_up(&client, &mut BTreeSet::new());
    assert_eq!(
        requests,
        vec![head("files"), create("files"), head("avatars"), create("avatars")]
    );
}

#[test]
fn setting_up_buckets_stops_at_a_failure() {
    let client = client();
    let mut setup = client.create_bucket();
    setup.on_head(&client, HeadOutcome::ServiceError(500));
    assert!(setup.request().is_none());
    assert_eq!(setup.finish().unwrap_err().kind, ErrorKind::Internal);

    let mut setup = client.create_bucket();
    setup.on_head(&client, HeadOutcome::ServiceError(404));
    setup.on_create(Some(Error::storage("quota".to_string())));
    assert!(setup.request().is_none());
    assert_eq!(setup.finish(), Err(Error::storage("quota".to_string())));
}

#[test]
fn avatars_are_uploaded_where_they_are_missing() {
    let client = client();
    let avatars = ["one", "two", "three"]
        .iter()
        .map(|name| (format!("/tmp/{}.png", name), format!("{}.png", name)))
        .collect();
    let mut setup = client.check_default_avatars(avatars);
    let ask = |name: &str| {
        AvatarTask::Ask(ObjectRequest::Head {
            bucket: "avatars".to_string(),
            key: name.to_string(),
        })
    };
    assert_eq!(setup.current(), Some(ask("one.png")));
    setup.on_asked(true);
    assert_eq!(setup.current(), Some(ask("two.png")));
    setup.on_asked(false);
    assert_eq!(setup.current(), Some(AvatarTask::Read("/tmp/two.png".to_string())));
    let upload = setup.on_read(Some(vec![1, 2, 3]));
    assert_eq!(
        upload,
        Some(ObjectRequest::Put {
            bucket: "avatars".to_string(),
            key: "two.png".to_string(),
            content: vec![1, 2, 3],
        })
    );
    assert_eq!(setup.current(), Some(AvatarTask::Wait));
    setup.on_uploaded(None);
    setup.on_asked(false);
    // what cannot be read is passed over
    assert_eq!(setup.on_read(None), None);
    assert!(setup.current().is_none());
    assert!(setup.finish().is_ok());

    let mut setup = client.check_default_avatars(vec![("p".to_string(), "n".to_string())]);
    setup.on_asked(false);
    setup.on_read(Some(Vec::new()));
    setup.on_uploaded(Some(Error::storage("quota".to_string())));
    assert!(setup.current().is_none());
    assert_eq!(setup.finish(), Err(Error::storage("quota".to_string())));
}

#[test]
fn files_and_avatars_have_a_bucket_each() {
    let client = client();
    let (files, avatars, key) = ("files".to_string(), "avatars".to_string(), "k".to_string());
    assert_eq!(
        client.file_exists("k"),
        ObjectRequest::Head { bucket: files.clone(), key: key.clone() }
    );
    assert_eq!(
        client.upload_file("k", vec![1]),
        ObjectRequest::Put { bucket: files.clone(), key: key.clone(), content: vec![1] }
    );
    assert_eq!(
        client.download_file("k"),
        ObjectRequest::Fetch { bucket: files.clone(), key: key.clone() }
    );
    assert_eq!(
        client.delete_file("k"),
        ObjectRequest::Delete { bucket: files, key: key.clone() }
    );
    assert_eq!(
        client.upload_avatar("k", vec![2]),
        ObjectRequest::Put { bucket: avatars.clone(), key: key.clone(), content: vec![2] }
    );
    assert_eq!(
        client.download_avatar("k"),
        ObjectRequest::Fetch { bucket: avatars.clone(), key: key.clone() }
    );
    assert_eq!(client.delete_avatar("k"), ObjectRequest::Delete { bucket: avatars, key });
}

#[test]
fn messages_are_archived_by_nine_values() {
    let message = create_test_message(
        "7".to_string(),
        "alice".to_string(),
        "bob".to_string(),
        100,
        5,
        MsgType::GroupMsg,
    );
    let statement = PostgresMessage::new().save_message(message);
    assert_eq!(statement.sql, INSERT_MESSAGE);
    assert_eq!(
        statement.values,
        vec![
            SqlValue::Text("client_7".to_string()),
            SqlValue::Text("server_7".to_string()),
            SqlValue::Text("alice".to_string()),
            SqlValue::Text("bob".to_string()),
            SqlValue::Int(1),
            SqlValue::Int(0),
            SqlValue::Bytes(b"Test content for message 7".to_vec()),
            SqlValue::BigInt(100),
            SqlValue::Int(1),
        ]
    );
}

#[test]
fn names_are_numbered() {
    assert_eq!(generate_user_ids(3, "recv"), vec!["recv_0", "recv_1", "recv_2"]);
    assert_eq!(generate_group_ids(2), vec!["group_0", "group_1"]);
    assert!(generate_group_ids(0).is_empty());
    let ids: BTreeSet<String> = generate_user_ids(120, "u").into_iter().collect();
    assert_eq!(ids.len(), 120);
    assert_eq!(benchmark_database(1704067200123), "bench_test_1704067200123");
}

#[test]
fn benchmark_messages_take_turns() {
    let receivers = generate_user_ids(20, "recv");
    let message = single_message(23, 1000);
    assert_eq!(message.receiver_id, receivers[23 % 20]);
    assert_eq!(message.server_id, "server_s_23");
    assert_eq!(message.client_id, "client_s_23");
    assert_eq!(message.sender_id, "sender_3");
    assert_eq!(message.receiver_id, "recv_3");
    assert_eq!((message.create_time, message.send_time), (1022, 1023));
    assert_eq!((message.seq, message.send_seq), (23, 1023));
    assert_eq!((message.msg_type, message.platform), (0, 1));
    assert_eq!(message.group_id, "");
    assert!(!message.is_read && message.related_msg_id.is_none());

    let (message, members) = group_message(12, 1000);
    assert_eq!(message.group_id, "group_g_12");
    assert_eq!(message.receiver_id, "group");
    assert_eq!(message.msg_type, 1);
    assert_eq!(members.len(), 10);
    assert_eq!(members[9], GroupMemSeq::new("mem_2_9".to_string(), 1009, 1009, false));
}

#[test]
fn benchmarks_mix_and_report() {
    assert_eq!(mixed_counts(10000), (7000, 3000));
    assert_eq!(mixed_counts(9), (6, 3));
    assert_eq!(mixed_counts(0), (0, 0));
    assert!(single_reports_at(2000));
    assert!(!single_reports_at(0));
    assert!(!single_reports_at(1500));
    assert!(group_reports_at(1500));
    assert!(!group_reports_at(0));
    assert!(!group_reports_at(1550));
    let own = benchmark_config(&mongodb(None, Some(2)), "bench".to_string(), 4);
    let mut expected = mongodb(Some(true), Some(4));
    expected.database = "bench".to_string();
    assert_eq!(own, expected);
}

#[test]
fn benchmarks_send_every_message_in_order() {
    let mut run = BenchmarkRun::new(TestMode::Mixed, 9);
    let mut tasks = Vec::new();
    while let Some(task) = run.current() {
        tasks.push(task);
        assert!(!run.on_sent(None));
    }
    let mut expected: Vec<BenchmarkTask> = (0..6).map(BenchmarkTask::Single).collect();
    expected.extend((0..3).map(BenchmarkTask::Group));
    assert_eq!(tasks, expected);
    assert!(run.finish().is_ok());

    for (mode, sort) in [
        (TestMode::Single, BenchmarkTask::Single as fn(usize) -> BenchmarkTask),
        (TestMode::Group, BenchmarkTask::Group),
    ] {
        let mut run = BenchmarkRun::new(mode, 2);
        assert_eq!(run.current(), Some(sort(0)));
        run.on_sent(None);
        assert_eq!(run.current(), Some(sort(1)));
        run.on_sent(None);
        assert_eq!(run.current(), None);
    }
}

#[test]
fn benchmarks_report_and_end_with_the_first_failure() {
    let mut run = BenchmarkRun::new(TestMode::Group, 1000);
    let mut reports = Vec::new();
    while let Some(BenchmarkTask::Group(number)) = run.current() {
        let failure = if number == 250 {
            Some(Error::storage("no connection".to_string()))
        } else {
            None
        };
        if run.on_sent(failure) {
            reports.push(number);
        }
    }
    assert_eq!(reports, vec![100, 200]);
    assert!(run.has_failed());
    assert_eq!(run.finish(), Err(Error::storage("no connection".to_string())));
}

#[test]
fn readable_avatars_are_uploaded_once() {
    let avatar = |path: &str, key: &str| (path.to_string(), key.to_string());
    let client = S3Client { bucket: "files".to_string(), avatar_bucket: "avatars".to_string() };
    let mut setup = client.check_default_avatars(vec![
        avatar("here.png", "new"),
        avatar("missing.png", "none"),
        avatar("here.png", "old"),
        avatar("other.png", "new"),
    ]);
    let mut held = BTreeMap::from([("old".to_string(), vec![9])]);
    let files = BTreeMap::from([("here.png", vec![1, 2]), ("other.png", vec![3])]);
    while let Some(task) = setup.current() {
        match task {
            AvatarTask::Ask(ObjectRequest::Head { bucket, key }) => {
                assert_eq!(bucket, "avatars");
                setup.on_asked(held.contains_key(&key));
            }
            AvatarTask::Read(path) => {
                let upload = setup.on_read(files.get(path.as_str()).cloned());
                if let Some(ObjectRequest::Put { bucket, key, content }) = upload {
                    assert_eq!(bucket, "avatars");
                    assert!(held.insert(key, content).is_none());
                    setup.on_uploaded(None);
                }
            }
            other => panic!("unexpected {:?}", other),
        }
    }
    assert!(setup.finish().is_ok());
    let expected = [("new".to_string(), vec![1, 2]), ("old".to_string(), vec![9])];
    assert_eq!(held, BTreeMap::from(expected));
}
