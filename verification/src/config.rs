//! The parts of the configuration that the stores are set up from.

use vstd::prelude::*;

use crate::shard::HybridShardedMsgBox;
use crate::shard::MsgBoxView;

verus! {

#[derive(Debug, PartialEq, Eq)]
pub struct MongoDbConfig {
    pub url: String,
    pub database: String,
    /// Whether messages are sharded.
    pub use_sharding: Option<bool>,
    /// Into how many slices the users are divided.
    pub user_shards: Option<u32>,
}

pub struct MongoDbConfigView {
    pub url: Seq<char>,
    pub database: Seq<char>,
    pub use_sharding: Option<bool>,
    pub user_shards: Option<u32>,
}

impl View for MongoDbConfig {
    type V = MongoDbConfigView;

    open spec fn view(&self) -> MongoDbConfigView {
        MongoDbConfigView {
            url: self.url@,
            database: self.database@,
            use_sharding: self.use_sharding,
            user_shards: self.user_shards,
        }
    }
}

impl Clone for MongoDbConfig {
    fn clone(&self) -> (copy: Self)
        ensures
            copy@ == self@,
            copy.url@ == self.url@,
            copy.database@ == self.database@,
            copy.use_sharding == self.use_sharding,
            copy.user_shards == self.user_shards,
    {
        MongoDbConfig {
            url: self.url.clone(),
            database: self.database.clone(),
            use_sharding: self.use_sharding,
            user_shards: self.user_shards,
        }
    }
}

#[derive(Debug, PartialEq, Eq)]
pub struct RedisConfig {
    pub url: String,
    /// How many numbers a counter sets aside at a time; zero for the usual
    /// number.
    pub seq_step: i32,
}

#[derive(Debug, PartialEq, Eq)]
pub struct OssConfig {
    pub endpoint: String,
    pub access_key: String,
    pub secret_key: String,
    pub bucket: String,
    pub avatar_bucket: String,
    pub region: String,
}

impl HybridShardedMsgBox {
    /// A box in the configured database that has no collections yet.
    pub fn from_config(config: &MongoDbConfig, user_shards: u8) -> (msg_box: Self)
        ensures
            msg_box@ == (MsgBoxView {
                db_name: config@.database,
                active: Seq::empty(),
                cached: Seq::empty(),
                user_shards,
            }),
            msg_box@.wf(),
    {
        HybridShardedMsgBox::new(config.database.clone(), user_shards)
    }
}

/// A configuration shows all that it holds.
pub proof fn law_configurations_show_what_they_hold(config: MongoDbConfig)
    ensures
        config@.url == config.url@,
        config@.database == config.database@,
        config@.use_sharding == config.use_sharding,
        config@.user_shards == config.user_shards,
{
}

} // verus!
