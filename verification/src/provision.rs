//! Getting the collections ready: the indexes that each of them has, and the
//! rounds in which they are made.

use vstd::prelude::*;

use crate::calendar::{has_date, month_before, month_of, FIRST_MONTH, LAST_MONTH};
use crate::calendar::{clock_may_read, utc_now};
use crate::error::Error;
use crate::error::{error_from, error_with_details, optional_error, ErrorKind, ErrorView};
use crate::shard::HybridShardedMsgBox;
use crate::shard::{collection_name, collections_of, is_collection_name, maintained_months, startup_months};
use crate::shard::{lemma_collections_of, lemma_with_name, with_name, MsgBoxView};
use crate::text::contains_part;
use crate::text::{has_part, texts};

verus! {

/// How many indexes each collection has.
pub const INDEX_COUNT: usize = 4;

/// How many seconds pass between two rounds of maintenance.
pub const MAINTENANCE_INTERVAL_SECS: u64 = 86400;

/// What a server's complaint says where the index was there before.
pub const ALREADY_EXISTS: &'static str = "already exists";

/// An index over some fields, all of them ascending.
#[derive(Debug, PartialEq, Eq)]
pub struct IndexModel {
    pub keys: Vec<String>,
    pub unique: bool,
    pub sparse: bool,
}

pub struct IndexModelView {
    pub keys: Seq<Seq<char>>,
    pub unique: bool,
    pub sparse: bool,
}

impl View for IndexModel {
    type V = IndexModelView;

    open spec fn view(&self) -> IndexModelView {
        IndexModelView { keys: texts(self.keys@), unique: self.unique, sparse: self.sparse }
    }
}

/// The indexes of a collection, by their place: the receiver's messages by
/// number, the messages by time, the sender's messages by number, and the one
/// that lets a receiver have a message only once.
pub open spec fn index_model_at(place: int) -> IndexModelView {
    if place == 0 {
        IndexModelView { keys: seq!["receiver_id"@, "seq"@], unique: false, sparse: false }
    } else if place == 1 {
        IndexModelView { keys: seq!["send_time"@], unique: false, sparse: false }
    } else if place == 2 {
        IndexModelView { keys: seq!["sender_id"@, "send_seq"@], unique: false, sparse: false }
    } else {
        IndexModelView { keys: seq!["server_id"@, "receiver_id"@], unique: true, sparse: true }
    }
}

/// A collection has four indexes: over the receiver and the receiver's number,
/// over the time of sending, over the sender and the sender's number, and over
/// the message's name and its receiver. Only the last one is unique.
pub proof fn law_indexes_of_a_collection(place: int)
    requires
        0 <= place < INDEX_COUNT,
    ensures
        INDEX_COUNT == 4,
        index_model_at(0).keys == seq!["receiver_id"@, "seq"@],
        index_model_at(1).keys == seq!["send_time"@],
        index_model_at(2).keys == seq!["sender_id"@, "send_seq"@],
        index_model_at(3).keys == seq!["server_id"@, "receiver_id"@],
        index_model_at(place).unique <==> place == 3,
        index_model_at(place).sparse <==> place == 3,
{
}

/// An index shows all that it holds.
pub proof fn law_indexes_show_what_they_hold(model: IndexModel)
    ensures
        model@.keys == texts(model.keys@),
        model@.unique == model.unique,
        model@.sparse == model.sparse,
{
}

/// The index of a collection at this place.
pub fn index_model(place: usize) -> (model: IndexModel)
    requires
        place < INDEX_COUNT,
    ensures
        model@ == index_model_at(place as int),
        model.unique == (place == 3),
        model.sparse == (place == 3),
        texts(model.keys@) == (if place == 0 {
            seq!["receiver_id"@, "seq"@]
        } else if place == 1 {
            seq!["send_time"@]
        } else if place == 2 {
            seq!["sender_id"@, "send_seq"@]
        } else {
            seq!["server_id"@, "receiver_id"@]
        }),
{
    let mut keys: Vec<String> = Vec::new();
    if place == 0 {
        keys.push("receiver_id".to_owned());
        keys.push("seq".to_owned());
    } else if place == 1 {
        keys.push("send_time".to_owned());
    } else if place == 2 {
        keys.push("sender_id".to_owned());
        keys.push("send_seq".to_owned());
    } else {
        keys.push("server_id".to_owned());
        keys.push("receiver_id".to_owned());
    }
    let last = place == 3;
    let model = IndexModel { keys, unique: last, sparse: last };
    assert(texts(model.keys@) =~= index_model_at(place as int).keys);
    model
}

/// Why indexes are made.
#[derive(Clone, Copy, Debug, PartialEq, Eq, Structural)]
pub enum ProvisionMode {
    /// The box starts: the collections of the coming months get ready.
    Startup,
    /// A day has passed: new collections get ready, and failures wait for the
    /// next day.
    Maintenance,
    /// A message needs a collection that is not ready.
    OnDemand,
}

/// Making the indexes of a list of collections, one index at a time.
#[derive(Debug)]
pub struct Provision {
    mode: ProvisionMode,
    names: Vec<String>,
    next: usize,
    index: usize,
    failure: Option<Error>,
}

pub struct ProvisionView {
    pub mode: ProvisionMode,
    /// The collections that are not ready, the one at hand first.
    pub todo: Seq<Seq<char>>,
    /// The index at hand.
    pub index: int,
    pub failure: Option<ErrorView>,
}

impl View for Provision {
    type V = ProvisionView;

    closed spec fn view(&self) -> ProvisionView {
        ProvisionView {
            mode: self.mode,
            todo: texts(self.names@).skip(self.next as int),
            index: self.index as int,
            failure: optional_error(self.failure),
        }
    }
}

/// The list from the first name on that is not among the known ones.
pub open spec fn skip_known(names: Seq<Seq<char>>, known: Seq<Seq<char>>) -> Seq<Seq<char>>
    decreases names.len(),
{
    if names.len() > 0 && known.contains(names[0]) {
        skip_known(names.drop_first(), known)
    } else {
        names
    }
}

impl ProvisionView {
    /// Whether there is an index to make.
    pub open spec fn is_running(self) -> bool {
        self.failure is None && self.todo.len() > 0
    }

    pub open spec fn wf(self) -> bool {
        &&& 0 <= self.index < INDEX_COUNT
        &&& self.mode is OnDemand || forall|i: int|
            0 <= i < self.todo.len() ==> is_collection_name(#[trigger] self.todo[i])
    }

    /// Whether the outcome of making an index ends it all: a complaint other
    /// than that the index was there before, unless this is maintenance.
    pub open spec fn is_fatal(self, complaint: Option<Seq<char>>) -> bool {
        self.mode !is Maintenance && match complaint {
            Some(text) => !has_part(text, ALREADY_EXISTS@),
            None => false,
        }
    }

    /// What follows the outcome of making the index at hand.
    pub open spec fn after(self, msg_box: MsgBoxView, complaint: Option<Seq<char>>) -> (
        ProvisionView,
        MsgBoxView,
    ) {
        if self.is_fatal(complaint) {
            (
                ProvisionView {
                    failure: Some(error_from(ErrorKind::Storage, complaint->0)),
                    ..self
                },
                msg_box,
            )
        } else if self.index + 1 < INDEX_COUNT {
            (ProvisionView { index: self.index + 1, ..self }, msg_box)
        } else {
            let ready = MsgBoxView {
                cached: with_name(msg_box.cached, self.todo[0]),
                active: if self.mode is OnDemand {
                    msg_box.active
                } else {
                    with_name(msg_box.active, self.todo[0])
                },
                ..msg_box
            };
            (
                ProvisionView {
                    todo: if self.mode is Maintenance {
                        skip_known(self.todo.drop_first(), ready.active)
                    } else {
                        self.todo.drop_first()
                    },
                    index: 0,
                    ..self
                },
                ready,
            )
        }
    }
}

impl Provision {
    /// Moves past the collections that are in use already.
    fn skip_active(&mut self, msg_box: &HybridShardedMsgBox)
        requires
            old(self).next <= old(self).names.len(),
        ensures
            final(self).next <= final(self).names.len(),
            final(self).names == old(self).names,
            final(self)@ == (ProvisionView {
                todo: skip_known(old(self)@.todo, msg_box@.active),
                ..old(self)@
            }),
    {
        let ghost whole = self@;
        while self.next < self.names.len() && msg_box.is_active(self.names[self.next].as_str())
            invariant
                self.next <= self.names.len(),
                self.names == old(self).names,
                self.mode == old(self).mode,
                self.index == old(self).index,
                self.failure == old(self).failure,
                skip_known(whole.todo, msg_box@.active) == skip_known(self@.todo, msg_box@.active),
                whole == old(self)@,
            decreases self.names.len() - self.next,
        {
            let ghost before = self@.todo;
            assert(before[0] == texts(self.names@)[self.next as int]);
            self.next = self.next + 1;
            assert(self@.todo =~= before.drop_first());
        }
        proof {
            if self.next < self.names.len() {
                assert(self@.todo[0] == texts(self.names@)[self.next as int]);
            }
        }
    }
}

/// A complaint as text, or nothing where all went well.
pub open spec fn complaint_of(outcome: Result<(), String>) -> Option<Seq<char>> {
    match outcome {
        Ok(_) => None,
        Err(text) => Some(text@),
    }
}

impl Provision {
    /// Whether the index at hand is one, and the collections can be in use.
    pub closed spec fn wf(&self) -> bool {
        self.next <= self.names.len() && self@.wf()
    }

    fn new(mode: ProvisionMode, names: Vec<String>) -> (provision: Self)
        requires
            mode is OnDemand || forall|i: int|
                0 <= i < texts(names@).len() ==> is_collection_name(#[trigger] texts(names@)[i]),
        ensures
            provision.wf(),
            provision@ == (ProvisionView { mode, todo: texts(names@), index: 0, failure: None }),
    {
        let provision = Provision { mode, names, next: 0, index: 0, failure: None };
        assert(provision@.todo =~= texts(names@));
        provision
    }

    /// The index to make next, and its collection, or nothing where all is
    /// done or something failed.
    pub fn next_index(&self) -> (task: Option<(String, IndexModel)>)
        requires
            self.wf(),
        ensures
            match task {
                Some((name, model)) => self@.is_running() && name@ == self@.todo[0] && model@
                    == index_model_at(self@.index),
                None => !self@.is_running(),
            },
            match task {
                Some((name, model)) => {
                    &&& self@.failure is None
                    &&& self@.todo.len() > 0
                    &&& name@ == self@.todo[0]
                    &&& model.unique == (self@.index == 3)
                    &&& model.sparse == (self@.index == 3)
                },
                None => self@.failure is Some || self@.todo.len() == 0,
            },
    {
        if self.next >= self.names.len() {
            return None;
        }
        match &self.failure {
            Some(_) => None,
            None => {
                assert(self@.todo[0] == texts(self.names@)[self.next as int]);
                Some((self.names[self.next].clone(), index_model(self.index)))
            },
        }
    }

    /// Takes note of the outcome of making the index at hand: nothing, or the
    /// server's complaint. With its last index a collection is ready.
    pub fn on_index(&mut self, msg_box: &mut HybridShardedMsgBox, outcome: Result<(), String>)
        requires
            old(self).wf(),
            old(self)@.is_running(),
            old(msg_box)@.wf(),
        ensures
            final(self).wf(),
            final(msg_box)@.wf(),
            (final(self)@, final(msg_box)@) == old(self)@.after(
                old(msg_box)@,
                complaint_of(outcome),
            ),
            final(self)@.mode == old(self)@.mode,
            match outcome {
                Err(text) => old(self)@.mode !is Maintenance && !has_part(
                    text@,
                    "already exists"@,
                ) ==> {
                    &&& final(self)@.failure == Some(
                        ErrorView { kind: ErrorKind::Storage, cause: Some(text@), details: None },
                    )
                    &&& final(self)@.todo == old(self)@.todo
                    &&& final(msg_box)@ == old(msg_box)@
                },
                Ok(_) => final(self)@.failure is None,
            },
            final(self)@.failure is None && old(self)@.index < 3 ==> {
                &&& final(self)@.index == old(self)@.index + 1
                &&& final(self)@.todo == old(self)@.todo
                &&& final(msg_box)@ == old(msg_box)@
            },
            final(self)@.failure is None && old(self)@.index == 3 ==> {
                &&& final(self)@.index == 0
                &&& final(msg_box)@.cached.contains(old(self)@.todo[0])
                &&& old(self)@.mode !is OnDemand ==> final(msg_box)@.active.contains(
                    old(self)@.todo[0],
                )
                &&& old(self)@.mode is OnDemand ==> final(msg_box)@.active == old(msg_box)@.active
            },
            outcome matches Err(text) && (old(self)@.mode is Maintenance || has_part(
                text@,
                "already exists"@,
            )) ==> final(self)@.failure is None,
    {
        let ghost before = self@;
        let ghost known = msg_box@;
        if let Err(text) = outcome {
            let lenient = match self.mode {
                ProvisionMode::Maintenance => true,
                _ => contains_part(text.as_str(), ALREADY_EXISTS),
            };
            if !lenient {
                self.failure = Some(Error::storage(text));
                return;
            }
        }
        if self.index + 1 < INDEX_COUNT {
            self.index = self.index + 1;
            return;
        }
        self.index = 0;
        let name = self.names[self.next].clone();
        assert(name@ == texts(self.names@)[self.next as int]);
        assert(name@ == before.todo[0]);
        msg_box.remember(name.as_str());
        proof {
            lemma_with_name(known.cached, name@);
            lemma_with_name(known.active, name@);
        }
        match self.mode {
            ProvisionMode::OnDemand => {},
            _ => {
                msg_box.track(name.as_str());
            },
        }
        self.next = self.next + 1;
        assert(self@.todo =~= before.todo.drop_first());
        let ghost rest = self@.todo;
        if let ProvisionMode::Maintenance = self.mode {
            self.skip_active(msg_box);
            proof {
                lemma_skip_known(rest, msg_box@.active);
            }
        }
    }

    /// How it ended: well, or with the complaint that stopped it.
    pub fn finish(self) -> (outcome: Result<(), Error>)
        ensures
            match outcome {
                Ok(_) => self@.failure is None,
                Err(error) => self@.failure == Some(error@),
            },
    {
        match self.failure {
            Some(error) => Err(error),
            None => Ok(()),
        }
    }
}

/// What remains of a list is its end, and it begins with an unknown name; what
/// does not remain is known.
pub proof fn lemma_skip_known(names: Seq<Seq<char>>, known: Seq<Seq<char>>)
    ensures
        skip_known(names, known).len() <= names.len(),
        skip_known(names, known) == names.skip(names.len() - skip_known(names, known).len()),
        skip_known(names, known).len() > 0 ==> !known.contains(skip_known(names, known)[0]),
        forall|name: Seq<char>| #[trigger]
            names.contains(name) ==> known.contains(name) || skip_known(names, known).contains(name),
    decreases names.len(),
{
    if names.len() > 0 && known.contains(names[0]) {
        lemma_skip_known(names.drop_first(), known);
        let rest = skip_known(names.drop_first(), known);
        assert(rest =~= names.skip(names.len() - rest.len()));
        assert forall|name: Seq<char>| #[trigger] names.contains(name) implies known.contains(name)
            || rest.contains(name) by {
            let i = choose|i: int| 0 <= i < names.len() && names[i] == name;
            if i > 0 {
                assert(names.drop_first()[i - 1] == name);
                assert(names.drop_first().contains(name));
            }
        }
    } else {
        assert(names.skip(0) =~= names);
    }
}

/// The making of the indexes with which the box starts.
pub open spec fn startup_of(user_shards: u8, now: int) -> ProvisionView {
    ProvisionView {
        mode: ProvisionMode::Startup,
        todo: collections_of(startup_months(now), user_shards as nat),
        index: 0,
        failure: None,
    }
}

/// The daily making of the indexes of collections that are not in use.
pub open spec fn maintenance_of(
    active: Seq<Seq<char>>,
    user_shards: u8,
    now: int,
) -> ProvisionView {
    ProvisionView {
        mode: ProvisionMode::Maintenance,
        todo: skip_known(collections_of(maintained_months(now), user_shards as nat), active),
        index: 0,
        failure: None,
    }
}

/// The making of the indexes of one collection.
pub open spec fn indexing_of(name: Seq<char>) -> ProvisionView {
    ProvisionView {
        mode: ProvisionMode::OnDemand,
        todo: seq![name],
        index: 0,
        failure: None,
    }
}

/// What there is to do before a collection can be used: nothing where it is
/// ready.
pub open spec fn getting_of(cached: Seq<Seq<char>>, name: Seq<char>) -> ProvisionView {
    if cached.contains(name) {
        ProvisionView { todo: Seq::empty(), ..indexing_of(name) }
    } else {
        indexing_of(name)
    }
}

/// Why a collection cannot be used after all was done that had to be done, or
/// nothing where it can.
pub open spec fn getting_failure(
    cached: Seq<Seq<char>>,
    name: Seq<char>,
    failure: Option<ErrorView>,
) -> Option<ErrorView> {
    if failure is Some {
        failure
    } else if cached.contains(name) {
        None
    } else {
        Some(error_with_details(ErrorKind::Internal, "Failed to cache collection"@))
    }
}

impl HybridShardedMsgBox {
    /// The making of the indexes with which the box starts, at the moment `now`.
    pub fn initialize_system_at(&self, now: i64) -> (provision: Provision)
        requires
            has_date(now as int),
        ensures
            provision.wf(),
            provision@ == startup_of(self@.user_shards, now as int),
            provision@.mode is Startup,
            provision@.todo == collections_of(
                startup_months(now as int),
                self@.user_shards as nat,
            ),
            provision@.index == 0,
            provision@.failure is None,
    {
        proof {
            lemma_collections_of(startup_months(now as int), self@.user_shards as nat);
        }
        Provision::new(ProvisionMode::Startup, self.startup_collections_at(now))
    }

    /// The making of the indexes with which the box starts.
    pub fn initialize_system(&self) -> (provision: Provision)
        ensures
            provision.wf(),
            exists|now: i64|
                clock_may_read(now) && provision@ == #[trigger] startup_of(
                    self@.user_shards,
                    now as int,
                ),
    {
        let now: i64 = utc_now();
        self.initialize_system_at(now)
    }

    /// The daily making of the indexes of collections that are not in use yet,
    /// at the moment `now`.
    pub fn maintain_collections_at(&self, now: i64) -> (provision: Provision)
        requires
            has_date(now as int),
        ensures
            provision.wf(),
            provision@ == maintenance_of(self@.active, self@.user_shards, now as int),
            provision@.mode is Maintenance,
            provision@.index == 0,
            provision@.failure is None,
            provision@.todo.len() > 0 ==> !self@.active.contains(provision@.todo[0]),
    {
        proof {
            lemma_collections_of(maintained_months(now as int), self@.user_shards as nat);
        }
        let mut provision = Provision::new(
            ProvisionMode::Maintenance,
            self.maintained_collections_at(now),
        );
        let ghost names = provision@.todo;
        provision.skip_active(self);
        proof {
            lemma_skip_known(names, self@.active);
        }
        provision
    }

    /// The daily making of the indexes of collections that are not in use yet.
    pub fn maintain_collections(&self) -> (provision: Provision)
        ensures
            provision.wf(),
            exists|now: i64|
                clock_may_read(now) && provision@ == #[trigger] maintenance_of(
                    self@.active,
                    self@.user_shards,
                    now as int,
                ),
    {
        let now: i64 = utc_now();
        self.maintain_collections_at(now)
    }

    /// The making of the indexes of one collection.
    pub fn ensure_collection_indexed(&self, collection_name: &str) -> (provision: Provision)
        ensures
            provision.wf(),
            provision@ == indexing_of(collection_name@),
            provision@.mode is OnDemand,
            provision@.todo == seq![collection_name@],
            provision@.index == 0,
            provision@.failure is None,
    {
        let mut names: Vec<String> = Vec::new();
        names.push(collection_name.to_owned());
        assert(texts(names@) =~= seq![collection_name@]);
        Provision::new(ProvisionMode::OnDemand, names)
    }

    /// What there is to do before the collection can be used: nothing where it is
    /// ready, and else the making of its indexes.
    pub fn get_collection(&self, collection_name: &str) -> (provision: Provision)
        ensures
            provision.wf(),
            provision@ == getting_of(self@.cached, collection_name@),
            provision@.mode is OnDemand,
            provision@.todo == (if self@.cached.contains(collection_name@) {
                Seq::empty()
            } else {
                seq![collection_name@]
            }),
            provision@.index == 0,
            provision@.failure is None,
    {
        if self.is_cached(collection_name) {
            let provision = Provision::new(ProvisionMode::OnDemand, Vec::new());
            assert(provision@.todo =~= Seq::empty());
            provision
        } else {
            self.ensure_collection_indexed(collection_name)
        }
    }

    /// Whether the collection can be used, once all was done that had to be done
    /// before, with this outcome.
    pub fn got_collection(&self, collection_name: &str, outcome: Result<(), Error>) -> (ready: Result<
        (),
        Error,
    >)
        ensures
            failure_in(ready) == getting_failure(
                self@.cached,
                collection_name@,
                failure_in(outcome),
            ),
            match (outcome, ready) {
                (Err(failure), Err(error)) => error@ == failure@,
                (Err(_), Ok(_)) => false,
                (Ok(_), Ok(_)) => self@.cached.contains(collection_name@),
                (Ok(_), Err(error)) => !self@.cached.contains(collection_name@) && error@ == (
                ErrorView {
                    kind: ErrorKind::Internal,
                    cause: None,
                    details: Some("Failed to cache collection"@),
                }),
            },
    {
        match outcome {
            Err(error) => Err(error),
            Ok(_) => if self.is_cached(collection_name) {
                Ok(())
            } else {
                Err(Error::internal_with_details("Failed to cache collection".to_owned()))
            },
        }
    }
}

/// The error of an outcome, or nothing where all went well.
pub open spec fn failure_in(outcome: Result<(), Error>) -> Option<ErrorView> {
    match outcome {
        Ok(_) => None,
        Err(error) => Some(error@),
    }
}

/// What a series of outcomes leads to. Outcomes after the end change nothing.
pub open spec fn provision_run(
    provision: ProvisionView,
    msg_box: MsgBoxView,
    complaints: Seq<Option<Seq<char>>>,
) -> (ProvisionView, MsgBoxView)
    decreases complaints.len(),
{
    if complaints.len() == 0 {
        (provision, msg_box)
    } else {
        let (p, b) = provision_run(provision, msg_box, complaints.drop_last());
        if p.is_running() {
            p.after(b, complaints.last())
        } else {
            (p, b)
        }
    }
}

/// Whether each of the names is still to come or ready, and in use where that
/// is the aim.
spec fn is_seen_to(names: Seq<Seq<char>>, provision: ProvisionView, msg_box: MsgBoxView) -> bool {
    forall|name: Seq<char>| #[trigger]
        names.contains(name) ==> provision.todo.contains(name) || (msg_box.cached.contains(name) && (
        provision.mode is OnDemand || msg_box.active.contains(name)))
}

proof fn lemma_seen_to(
    names: Seq<Seq<char>>,
    provision: ProvisionView,
    msg_box: MsgBoxView,
    complaint: Option<Seq<char>>,
)
    requires
        is_seen_to(names, provision, msg_box),
        provision.is_running(),
        provision.wf(),
        msg_box.wf(),
    ensures
        is_seen_to(names, provision.after(msg_box, complaint).0, provision.after(msg_box, complaint).1),
        provision.after(msg_box, complaint).0.wf(),
        provision.after(msg_box, complaint).1.wf(),
        provision.after(msg_box, complaint).0.mode == provision.mode,
{
    let (p, b) = provision.after(msg_box, complaint);
    if !provision.is_fatal(complaint) && provision.index + 1 >= INDEX_COUNT {
        let done = provision.todo[0];
        let rest = provision.todo.drop_first();
        assert(is_collection_name(done) || provision.mode is OnDemand);
        lemma_with_name(msg_box.cached, done);
        lemma_with_name(msg_box.active, done);
        lemma_skip_known(rest, b.active);
        assert forall|name: Seq<char>| #[trigger] names.contains(name) implies p.todo.contains(name)
            || (b.cached.contains(name) && (p.mode is OnDemand || b.active.contains(name))) by {
            if provision.todo.contains(name) {
                let i = choose|i: int| 0 <= i < provision.todo.len() && provision.todo[i] == name;
                if i > 0 {
                    assert(rest[i - 1] == name);
                    assert(rest.contains(name));
                }
            }
        }
    }
}

/// Whatever the server answers, when no collection is left and nothing failed,
/// each collection of the list has its indexes, and is in use unless it was
/// made ready for a single message.
pub proof fn law_provisioning_reaches_every_collection(
    provision: ProvisionView,
    msg_box: MsgBoxView,
    complaints: Seq<Option<Seq<char>>>,
    name: Seq<char>,
)
    requires
        provision.wf(),
        msg_box.wf(),
        provision.todo.contains(name),
        provision_run(provision, msg_box, complaints).0.todo.len() == 0,
    ensures
        provision_run(provision, msg_box, complaints).1.cached.contains(name),
        provision.mode !is OnDemand ==> provision_run(
            provision,
            msg_box,
            complaints,
        ).1.active.contains(name),
{
    lemma_run_seen_to(provision.todo, provision, msg_box, complaints);
}

proof fn lemma_run_seen_to(
    names: Seq<Seq<char>>,
    provision: ProvisionView,
    msg_box: MsgBoxView,
    complaints: Seq<Option<Seq<char>>>,
)
    requires
        provision.wf(),
        msg_box.wf(),
        is_seen_to(names, provision, msg_box),
    ensures
        is_seen_to(
            names,
            provision_run(provision, msg_box, complaints).0,
            provision_run(provision, msg_box, complaints).1,
        ),
        provision_run(provision, msg_box, complaints).0.wf(),
        provision_run(provision, msg_box, complaints).1.wf(),
        provision_run(provision, msg_box, complaints).0.mode == provision.mode,
    decreases complaints.len(),
{
    if complaints.len() > 0 {
        lemma_run_seen_to(names, provision, msg_box, complaints.drop_last());
        let (p, b) = provision_run(provision, msg_box, complaints.drop_last());
        if p.is_running() {
            lemma_seen_to(names, p, b, complaints.last());
        }
    }
}

/// In maintenance no complaint stops the round.
pub proof fn law_maintenance_never_fails(
    provision: ProvisionView,
    msg_box: MsgBoxView,
    complaints: Seq<Option<Seq<char>>>,
)
    requires
        provision.mode is Maintenance,
        provision.failure is None,
    ensures
        provision_run(provision, msg_box, complaints).0.failure is None,
        provision_run(provision, msg_box, complaints).0.mode is Maintenance,
    decreases complaints.len(),
{
    if complaints.len() > 0 {
        law_maintenance_never_fails(provision, msg_box, complaints.drop_last());
    }
}

/// A list with more names, each at the end unless it is there already.
pub open spec fn with_names(names: Seq<Seq<char>>, more: Seq<Seq<char>>) -> Seq<Seq<char>>
    decreases more.len(),
{
    if more.len() == 0 {
        names
    } else {
        with_names(with_name(names, more[0]), more.drop_first())
    }
}

/// What a list holds with more names: the names that it held, and the others.
pub proof fn lemma_with_names(names: Seq<Seq<char>>, more: Seq<Seq<char>>, name: Seq<char>)
    ensures
        with_names(names, more).contains(name) <==> names.contains(name) || more.contains(name),
    decreases more.len(),
{
    if more.len() > 0 {
        let rest = more.drop_first();
        lemma_with_name(names, more[0]);
        lemma_with_names(with_name(names, more[0]), rest, name);
        if more.contains(name) {
            let i = choose|i: int| 0 <= i < more.len() && more[i] == name;
            if i > 0 {
                assert(rest[i - 1] == name);
            }
        }
        if rest.contains(name) {
            let i = choose|i: int| 0 <= i < rest.len() && rest[i] == name;
            assert(more[i + 1] == name);
        }
    }
}

/// Names that are passed over because they are known add nothing.
proof fn lemma_known_add_nothing(
    names: Seq<Seq<char>>,
    known: Seq<Seq<char>>,
    more: Seq<Seq<char>>,
)
    requires
        forall|name: Seq<char>| #[trigger] known.contains(name) ==> names.contains(name),
    ensures
        with_names(names, skip_known(more, known)) == with_names(names, more),
    decreases more.len(),
{
    if more.len() > 0 && known.contains(more[0]) {
        lemma_known_add_nothing(names, known, more.drop_first());
    }
}

proof fn lemma_run_adds(
    provision: ProvisionView,
    msg_box: MsgBoxView,
    complaints: Seq<Option<Seq<char>>>,
)
    requires
        provision.wf(),
        provision.mode !is OnDemand,
        msg_box.wf(),
    ensures
        ({
            let (p, b) = provision_run(provision, msg_box, complaints);
            &&& p.wf() && b.wf() && p.mode == provision.mode
            &&& with_names(b.active, p.todo) == with_names(msg_box.active, provision.todo)
            &&& with_names(b.cached, p.todo) == with_names(msg_box.cached, provision.todo)
            &&& b.user_shards == msg_box.user_shards && b.db_name == msg_box.db_name
        }),
    decreases complaints.len(),
{
    if complaints.len() > 0 {
        lemma_run_adds(provision, msg_box, complaints.drop_last());
        let (p, b) = provision_run(provision, msg_box, complaints.drop_last());
        if p.is_running() {
            lemma_seen_to(Seq::empty(), p, b, complaints.last());
            let ready = p.after(b, complaints.last()).1;
            if p.mode is Maintenance {
                lemma_known_add_nothing(ready.active, ready.active, p.todo.drop_first());
                lemma_known_add_nothing(ready.cached, ready.active, p.todo.drop_first());
            }
        }
    }
}

/// At the start and in maintenance, whatever the server answers, when no
/// collection is left those of the list are in use and ready after those that
/// were there before, each once and in the order of the list. None is taken out
/// of use, and nothing else in the box changes.
pub proof fn law_provisioning_adds_the_collections(
    provision: ProvisionView,
    msg_box: MsgBoxView,
    complaints: Seq<Option<Seq<char>>>,
)
    requires
        provision.wf(),
        provision.mode !is OnDemand,
        msg_box.wf(),
        provision_run(provision, msg_box, complaints).0.todo.len() == 0,
    ensures
        provision_run(provision, msg_box, complaints).1 == (MsgBoxView {
            active: with_names(msg_box.active, provision.todo),
            cached: with_names(msg_box.cached, provision.todo),
            ..msg_box
        }),
{
    lemma_run_adds(provision, msg_box, complaints);
}

/// After a round of maintenance the collections of the present month and of the
/// three after it are in use and ready, beside those that were in use before,
/// all of which stay. During the round indexes are asked for collections of
/// those months only that are not in use.
pub proof fn law_maintenance_adds_the_coming_months(
    msg_box: MsgBoxView,
    now: int,
    complaints: Seq<Option<Seq<char>>>,
)
    requires
        msg_box.wf(),
        has_date(now),
    ensures
        ({
            let kept = collections_of(maintained_months(now), msg_box.user_shards as nat);
            let round = maintenance_of(msg_box.active, msg_box.user_shards, now);
            let (p, b) = provision_run(round, msg_box, complaints);
            &&& p.failure is None
            &&& p.todo.len() == 0 ==> b == (MsgBoxView {
                active: with_names(msg_box.active, kept),
                cached: with_names(msg_box.cached, kept),
                ..msg_box
            })
            &&& p.todo.len() == 0 ==> forall|name: Seq<char>| #[trigger]
                b.active.contains(name) <==> msg_box.active.contains(name) || kept.contains(name)
            &&& p.todo.len() > 0 ==> kept.contains(p.todo[0]) && !b.active.contains(p.todo[0])
        }),
{
    let kept = collections_of(maintained_months(now), msg_box.user_shards as nat);
    let round = maintenance_of(msg_box.active, msg_box.user_shards, now);
    let (p, b) = provision_run(round, msg_box, complaints);
    lemma_collections_of(maintained_months(now), msg_box.user_shards as nat);
    lemma_skip_known(kept, msg_box.active);
    lemma_run_adds(round, msg_box, complaints);
    lemma_known_add_nothing(msg_box.active, msg_box.active, kept);
    lemma_known_add_nothing(msg_box.cached, msg_box.active, kept);
    law_maintenance_never_fails(round, msg_box, complaints);
    lemma_maintenance_asks(round, msg_box, complaints, kept);
    assert forall|name: Seq<char>| #[trigger]
        with_names(msg_box.active, kept).contains(name) <==> msg_box.active.contains(name)
            || kept.contains(name) by {
        lemma_with_names(msg_box.active, kept, name);
    }
}

/// Whether each name of a list is among others.
spec fn is_among(names: Seq<Seq<char>>, others: Seq<Seq<char>>) -> bool {
    forall|i: int| 0 <= i < names.len() ==> others.contains(#[trigger] names[i])
}

proof fn lemma_maintenance_asks(
    round: ProvisionView,
    msg_box: MsgBoxView,
    complaints: Seq<Option<Seq<char>>>,
    kept: Seq<Seq<char>>,
)
    requires
        round.mode is Maintenance,
        round.todo.len() > 0 ==> !msg_box.active.contains(round.todo[0]),
        is_among(round.todo, kept),
    ensures
        ({
            let (p, b) = provision_run(round, msg_box, complaints);
            &&& p.mode is Maintenance
            &&& p.todo.len() > 0 ==> !b.active.contains(p.todo[0])
            &&& is_among(p.todo, kept)
        }),
    decreases complaints.len(),
{
    if complaints.len() > 0 {
        lemma_maintenance_asks(round, msg_box, complaints.drop_last(), kept);
        let (p, b) = provision_run(round, msg_box, complaints.drop_last());
        if p.is_running() {
            let (next, ready) = p.after(b, complaints.last());
            let rest = p.todo.drop_first();
            lemma_skip_known(rest, ready.active);
            assert forall|i: int| 0 <= i < next.todo.len() implies kept.contains(
                #[trigger] next.todo[i],
            ) by {
                if p.index + 1 >= INDEX_COUNT {
                    assert(next.todo[i] == rest[rest.len() - next.todo.len() + i]);
                    assert(next.todo[i] == p.todo[rest.len() - next.todo.len() + i + 1]);
                }
            }
        }
    }
}

/// Where a collection is ready, getting it asks nothing of the server and
/// changes nothing.
pub proof fn law_ready_collections_are_had_at_once(
    msg_box: MsgBoxView,
    name: Seq<char>,
    complaints: Seq<Option<Seq<char>>>,
)
    requires
        msg_box.cached.contains(name),
    ensures
        ({
            let getting = getting_of(msg_box.cached, name);
            let (p, b) = provision_run(getting, msg_box, complaints);
            &&& !getting.is_running()
            &&& p == getting
            &&& b == msg_box
            &&& getting_failure(b.cached, name, p.failure) is None
        }),
    decreases complaints.len(),
{
    if complaints.len() > 0 {
        law_ready_collections_are_had_at_once(msg_box, name, complaints.drop_last());
    }
}

/// Whether these outcomes, one for each index, end the making of the indexes of a
/// collection well.
pub open spec fn indexes_are_made(name: Seq<char>, complaints: Seq<Option<Seq<char>>>) -> bool {
    &&& complaints.len() >= INDEX_COUNT
    &&& forall|i: int|
        0 <= i < INDEX_COUNT ==> !indexing_of(name).is_fatal(#[trigger] complaints[i])
}

proof fn lemma_indexing_run(
    msg_box: MsgBoxView,
    name: Seq<char>,
    complaints: Seq<Option<Seq<char>>>,
)
    ensures
        ({
            let (p, b) = provision_run(indexing_of(name), msg_box, complaints);
            &&& p.mode is OnDemand
            &&& p.is_running() ==> {
                &&& b == msg_box
                &&& p.todo == seq![name]
                &&& p.index == complaints.len() < INDEX_COUNT
                &&& forall|i: int|
                    0 <= i < complaints.len() ==> !p.is_fatal(#[trigger] complaints[i])
            }
            &&& p.failure is Some ==> {
                &&& b == msg_box
                &&& exists|i: int|
                    0 <= i < complaints.len() && i < INDEX_COUNT && indexing_of(name).is_fatal(
                        #[trigger] complaints[i],
                    ) && p.failure == Some(error_from(ErrorKind::Storage, complaints[i]->0))
            }
            &&& !p.is_running() && p.failure is None ==> {
                &&& b == (MsgBoxView { cached: with_name(msg_box.cached, name), ..msg_box })
                &&& indexes_are_made(name, complaints)
            }
        }),
    decreases complaints.len(),
{
    if complaints.len() > 0 {
        let front = complaints.drop_last();
        lemma_indexing_run(msg_box, name, front);
        let (p, b) = provision_run(indexing_of(name), msg_box, front);
        assert(forall|i: int| 0 <= i < front.len() ==> #[trigger] front[i] == complaints[i]);
        if p.is_running() {
            let last = complaints[complaints.len() - 1];
            assert forall|i: int| 0 <= i < front.len() implies !p.is_fatal(
                #[trigger] complaints[i],
            ) by {
                assert(!p.is_fatal(front[i]));
            }
            assert(p.is_fatal(last) == indexing_of(name).is_fatal(last));
        } else if p.failure is Some {
            let i = choose|i: int|
                0 <= i < front.len() && i < INDEX_COUNT && indexing_of(name).is_fatal(
                    #[trigger] front[i],
                ) && p.failure == Some(error_from(ErrorKind::Storage, front[i]->0));
            assert(indexing_of(name).is_fatal(complaints[i]));
        } else {
            assert forall|i: int| 0 <= i < INDEX_COUNT implies !indexing_of(name).is_fatal(
                #[trigger] complaints[i],
            ) by {
                assert(!indexing_of(name).is_fatal(front[i]));
            }
        }
    }
}

/// Getting a collection that is not ready makes its indexes. When that is over
/// and nothing failed, the collection is ready and can be used, and getting it
/// again asks nothing; every index was made or was there before. When it failed,
/// the complaint of the server about an index says so, and nothing has changed.
/// In neither case does the collection come into use.
pub proof fn law_getting_makes_a_collection_ready(
    msg_box: MsgBoxView,
    name: Seq<char>,
    complaints: Seq<Option<Seq<char>>>,
)
    requires
        !msg_box.cached.contains(name),
    ensures
        ({
            let (p, b) = provision_run(getting_of(msg_box.cached, name), msg_box, complaints);
            &&& b.active == msg_box.active
            &&& p.failure is Some ==> {
                &&& b == msg_box
                &&& getting_failure(b.cached, name, p.failure) == p.failure
                &&& exists|i: int|
                    0 <= i < complaints.len() && i < INDEX_COUNT && p.is_fatal(
                        #[trigger] complaints[i],
                    ) && p.failure == Some(error_from(ErrorKind::Storage, complaints[i]->0))
            }
            &&& !p.is_running() && p.failure is None ==> {
                &&& b == (MsgBoxView { cached: with_name(msg_box.cached, name), ..msg_box })
                &&& getting_failure(b.cached, name, p.failure) is None
                &&& !getting_of(b.cached, name).is_running()
                &&& indexes_are_made(name, complaints)
            }
        }),
{
    lemma_indexing_run(msg_box, name, complaints);
    lemma_with_name(msg_box.cached, name);
    let (p, b) = provision_run(getting_of(msg_box.cached, name), msg_box, complaints);
    if p.failure is Some {
        let i = choose|i: int|
            0 <= i < complaints.len() && i < INDEX_COUNT && indexing_of(name).is_fatal(
                #[trigger] complaints[i],
            ) && p.failure == Some(error_from(ErrorKind::Storage, complaints[i]->0));
        assert(p.is_fatal(complaints[i]));
    }
}

/// The collections that maintenance looks after are among those with which the
/// box starts; the others are those of the three months before the present.
pub proof fn law_startup_covers_maintenance(now: int, user_shards: u8, name: Seq<char>)
    requires
        has_date(now),
    ensures
        collections_of(startup_months(now), user_shards as nat).contains(name) <==> {
            ||| collections_of(maintained_months(now), user_shards as nat).contains(name)
            ||| exists|back: int, slice: u8|
                1 <= back <= 3 && slice < user_shards && name == #[trigger] collection_name(
                    month_before(month_of(now), back),
                    slice,
                )
        },
{
    lemma_collections_of(startup_months(now), user_shards as nat);
    lemma_collections_of(maintained_months(now), user_shards as nat);
    let (starting, kept) = (startup_months(now), maintained_months(now));
    assert(starting =~= seq![
        month_before(month_of(now), 3),
        month_before(month_of(now), 2),
        month_before(month_of(now), 1),
    ] + kept);
    if collections_of(starting, user_shards as nat).contains(name) {
        let (month, slice) = choose|month: int, slice: u8|
            starting.contains(month) && slice < user_shards && name == #[trigger] collection_name(
                month,
                slice,
            );
        let i = choose|i: int| 0 <= i < starting.len() && starting[i] == month;
        if i < 3 {
            assert(month == month_before(month_of(now), 3 - i));
            assert(name == collection_name(month_before(month_of(now), 3 - i), slice));
        } else {
            assert(kept[i - 3] == month);
            assert(name == collection_name(month, slice));
        }
    }
    if collections_of(kept, user_shards as nat).contains(name) {
        let (month, slice) = choose|month: int, slice: u8|
            kept.contains(month) && slice < user_shards && name == #[trigger] collection_name(
                month,
                slice,
            );
        let i = choose|i: int| 0 <= i < kept.len() && kept[i] == month;
        assert(starting[i + 3] == month);
        assert(name == collection_name(month, slice));
    }
    assert forall|back: int, slice: u8|
        1 <= back <= 3 && slice < user_shards && name == #[trigger] collection_name(
            month_before(month_of(now), back),
            slice,
        ) implies collections_of(starting, user_shards as nat).contains(name) by {
        assert(starting[3 - back] == month_before(month_of(now), back));
    }
}

/// When the start ended well, the collections of the present month, of the three
/// before it and of the three after it have their indexes and are in use, for
/// every slice of the users.
pub proof fn law_started_box_has_the_months_around(
    msg_box: MsgBoxView,
    complaints: Seq<Option<Seq<char>>>,
    now: int,
    offset: int,
    user_range: u8,
)
    requires
        msg_box.wf(),
        has_date(now),
        -3 <= offset <= 3,
        FIRST_MONTH <= month_of(now) + offset <= LAST_MONTH,
        user_range < msg_box.user_shards,
        !provision_run(startup_of(msg_box.user_shards, now), msg_box, complaints).0.is_running(),
        provision_run(startup_of(msg_box.user_shards, now), msg_box, complaints).0.failure is None,
    ensures
        ({
            let name = collection_name(month_of(now) + offset, user_range);
            let after = provision_run(
                startup_of(msg_box.user_shards, now),
                msg_box,
                complaints,
            ).1;
            after.active.contains(name) && after.cached.contains(name)
        }),
{
    let months = startup_months(now);
    lemma_collections_of(months, msg_box.user_shards as nat);
    assert(months[offset + 3] == month_of(now) + offset);
    assert(months.contains(month_of(now) + offset));
    let name = collection_name(month_of(now) + offset, user_range);
    let start = startup_of(msg_box.user_shards, now);
    law_provisioning_reaches_every_collection(start, msg_box, complaints, name);
}

} // verus!
