//! Moving messages from the one collection that held them all to the box.

use vstd::prelude::*;

use crate::config::MongoDbConfig;
use crate::config::MongoDbConfigView;
use crate::error::Error;
use crate::error::{optional_error, ErrorView};
use crate::message::Msg;
use crate::message::{message_views, MsgView};
use crate::save::MessageSave;
use crate::save::{failure_of, first_failure};

verus! {

/// The collection that the messages come from.
pub const SOURCE_COLLECTION: &'static str = "single_msg_box";

/// Into how many slices the users are divided, unless configured otherwise.
pub const DEFAULT_USER_SHARDS: u32 = 10;

/// How messages are moved.
#[derive(Debug, PartialEq, Eq)]
pub struct MessageMigrator {
    /// How many messages are moved at a time.
    pub batch_size: usize,
    /// How many batches are moved side by side.
    pub concurrency: usize,
}

impl MessageMigrator {
    pub fn new() -> (migrator: Self)
        ensures
            migrator == (MessageMigrator { batch_size: 100, concurrency: 10 }),
    {
        MessageMigrator { batch_size: 100, concurrency: 10 }
    }

    /// Moves so many messages at a time.
    pub fn with_batch_size(self, batch_size: usize) -> (migrator: Self)
        ensures
            migrator == (MessageMigrator { batch_size, ..self }),
    {
        MessageMigrator { batch_size, ..self }
    }

    /// Moves so many batches side by side.
    pub fn with_concurrency(self, concurrency: usize) -> (migrator: Self)
        ensures
            migrator == (MessageMigrator { concurrency, ..self }),
    {
        MessageMigrator { concurrency, ..self }
    }

    /// How many documents the server is asked for at a time. A number that does
    /// not fit is cut to its low bits.
    pub fn cursor_batch_size(&self) -> (count: u32)
        ensures
            count == self.batch_size as u32,
    {
        self.batch_size as u32
    }

    /// The moving of all documents.
    pub fn migrate<D>(&self) -> (migration: Migration<D>)
        ensures
            migration@ == start_of::<D>(self.batch_size as int, self.concurrency as int),
            migration@ == (MigrationView {
                batch_size: self.batch_size as int,
                concurrency: self.concurrency as int,
                stage: MigrationStage::Count,
                batch: Seq::<D>::empty(),
                ready: None,
                running: 0,
                failure: None,
            }),
    {
        Migration {
            batch_size: self.batch_size,
            concurrency: self.concurrency,
            stage: MigrationStage::Count,
            batch: Vec::new(),
            ready: None,
            running: 0,
            failure: None,
        }
    }
}

/// How far a migration has come.
#[derive(Clone, Copy, Debug, PartialEq, Eq, Structural)]
pub enum MigrationStage {
    /// The documents are to be counted.
    Count,
    /// They are to be asked for.
    Open,
    /// They come, one by one.
    Read,
    /// No more come; batches may be in progress.
    Drain,
    /// It is known what came of all batches.
    Done,
}

/// What to do next.
#[derive(Clone, Copy, Debug, PartialEq, Eq, Structural)]
pub enum MigrationStep {
    /// Count the documents.
    Count,
    /// Ask for them.
    Open,
    /// Take the next one.
    Read,
    /// Start to move the batch that is ready.
    Start,
    /// Wait until a batch in progress is through.
    Wait,
    /// Find out what came of the batches.
    Join,
    /// Nothing.
    End,
}

/// Moving documents in batches, so many of them side by side at most.
#[derive(Debug)]
pub struct Migration<D> {
    batch_size: usize,
    concurrency: usize,
    stage: MigrationStage,
    batch: Vec<D>,
    ready: Option<Vec<D>>,
    running: usize,
    failure: Option<Error>,
}

pub struct MigrationView<D> {
    pub batch_size: int,
    pub concurrency: int,
    pub stage: MigrationStage,
    /// The documents that wait for the batch to fill up.
    pub batch: Seq<D>,
    /// The batch that waits for its turn.
    pub ready: Option<Seq<D>>,
    /// How many batches are in progress.
    pub running: int,
    pub failure: Option<ErrorView>,
}

impl<D> View for Migration<D> {
    type V = MigrationView<D>;

    closed spec fn view(&self) -> MigrationView<D> {
        MigrationView {
            batch_size: self.batch_size as int,
            concurrency: self.concurrency as int,
            stage: self.stage,
            batch: self.batch@,
            ready: optional_batch(self.ready),
            running: self.running as int,
            failure: optional_error(self.failure),
        }
    }
}

/// A migration that has not begun.
pub open spec fn start_of<D>(batch_size: int, concurrency: int) -> MigrationView<D> {
    MigrationView {
        batch_size,
        concurrency,
        stage: MigrationStage::Count,
        batch: Seq::empty(),
        ready: None,
        running: 0,
        failure: None,
    }
}

/// What comes of a step.
pub enum MigrationEventView<D> {
    /// The documents are counted, unless that failed.
    Counted(Option<ErrorView>),
    /// They are asked for, unless that failed.
    Opened(Option<ErrorView>),
    /// The next one, or none where there are no more, unless that failed.
    Read(Result<Option<D>, ErrorView>),
    /// The batch that was ready is in progress.
    Started,
    /// A batch is through.
    BatchDone,
    /// It is known what came of all batches: the first failure counts.
    Joined(Option<ErrorView>),
}

impl<D> MigrationEventView<D> {
    /// What failed, where something did.
    pub open spec fn failure(self) -> Option<ErrorView> {
        match self {
            MigrationEventView::Counted(failure) => failure,
            MigrationEventView::Opened(failure) => failure,
            MigrationEventView::Read(Err(error)) => Some(error),
            MigrationEventView::Joined(failure) => failure,
            _ => None,
        }
    }
}

impl<D> MigrationView<D> {
    /// What to do next. A batch that is ready goes before new documents, and
    /// waits while as many as may be are in progress.
    pub open spec fn step(self) -> MigrationStep {
        if self.failure is Some {
            MigrationStep::End
        } else if self.ready is Some {
            if self.running < self.concurrency {
                MigrationStep::Start
            } else {
                MigrationStep::Wait
            }
        } else {
            match self.stage {
                MigrationStage::Count => MigrationStep::Count,
                MigrationStage::Open => MigrationStep::Open,
                MigrationStage::Read => MigrationStep::Read,
                MigrationStage::Drain => if self.running > 0 {
                    MigrationStep::Wait
                } else {
                    MigrationStep::Join
                },
                MigrationStage::Done => MigrationStep::End,
            }
        }
    }

    /// Whether the event is one that can come now. A batch in progress may be
    /// through at any time.
    pub open spec fn awaits(self, event: MigrationEventView<D>) -> bool {
        match event {
            MigrationEventView::Counted(_) => self.step() == MigrationStep::Count,
            MigrationEventView::Opened(_) => self.step() == MigrationStep::Open,
            MigrationEventView::Read(_) => self.step() == MigrationStep::Read,
            MigrationEventView::Started => self.step() == MigrationStep::Start,
            MigrationEventView::BatchDone => self.running > 0,
            MigrationEventView::Joined(_) => self.step() == MigrationStep::Join,
        }
    }

    /// What waits after one more document: a full batch is ready.
    pub open spec fn with_document(self, document: D) -> MigrationView<D> {
        let batch = self.batch.push(document);
        if batch.len() >= self.batch_size {
            MigrationView { batch: Seq::empty(), ready: Some(batch), ..self }
        } else {
            MigrationView { batch, ..self }
        }
    }

    /// When no more documents come, what is left is the last batch.
    pub open spec fn drained(self) -> MigrationView<D> {
        MigrationView {
            stage: MigrationStage::Drain,
            batch: Seq::empty(),
            ready: if self.batch.len() == 0 {
                None
            } else {
                Some(self.batch)
            },
            ..self
        }
    }

    pub open spec fn after(self, event: MigrationEventView<D>) -> MigrationView<D> {
        if event.failure() is Some {
            MigrationView { failure: event.failure(), ..self }
        } else {
            match event {
                MigrationEventView::Counted(_) => MigrationView {
                    stage: MigrationStage::Open,
                    ..self
                },
                MigrationEventView::Opened(_) => MigrationView {
                    stage: MigrationStage::Read,
                    ..self
                },
                MigrationEventView::Read(Ok(Some(document))) => self.with_document(document),
                MigrationEventView::Read(_) => self.drained(),
                MigrationEventView::Started => MigrationView {
                    ready: None,
                    running: self.running + 1,
                    ..self
                },
                MigrationEventView::BatchDone => MigrationView {
                    running: self.running - 1,
                    ..self
                },
                MigrationEventView::Joined(_) => MigrationView {
                    stage: MigrationStage::Done,
                    ..self
                },
            }
        }
    }
}

/// What an optional batch holds.
pub open spec fn optional_batch<D>(batch: Option<Vec<D>>) -> Option<Seq<D>> {
    match batch {
        Some(batch) => Some(batch@),
        None => None,
    }
}

/// What came of taking the next document.
pub open spec fn read_view<D>(next: Result<Option<D>, Error>) -> Result<Option<D>, ErrorView> {
    match next {
        Ok(document) => Ok(document),
        Err(error) => Err(error@),
    }
}

impl<D> Migration<D> {
    /// What to do next.
    pub fn step(&self) -> (step: MigrationStep)
        ensures
            step == self@.step(),
            self@.failure is Some ==> step == MigrationStep::End,
            self@.failure is None && self@.ready is Some ==> step == (if self@.running
                < self@.concurrency {
                MigrationStep::Start
            } else {
                MigrationStep::Wait
            }),
            self@.failure is None && self@.ready is None ==> step == (match self@.stage {
                MigrationStage::Count => MigrationStep::Count,
                MigrationStage::Open => MigrationStep::Open,
                MigrationStage::Read => MigrationStep::Read,
                MigrationStage::Drain => if self@.running > 0 {
                    MigrationStep::Wait
                } else {
                    MigrationStep::Join
                },
                MigrationStage::Done => MigrationStep::End,
            }),
    {
        if self.failure.is_some() {
            return MigrationStep::End;
        }
        if self.ready.is_some() {
            return if self.running < self.concurrency {
                MigrationStep::Start
            } else {
                MigrationStep::Wait
            };
        }
        match self.stage {
            MigrationStage::Count => MigrationStep::Count,
            MigrationStage::Open => MigrationStep::Open,
            MigrationStage::Read => MigrationStep::Read,
            MigrationStage::Drain => if self.running > 0 {
                MigrationStep::Wait
            } else {
                MigrationStep::Join
            },
            MigrationStage::Done => MigrationStep::End,
        }
    }

    /// Takes note of what came of counting the documents.
    pub fn on_counted(&mut self, failure: Option<Error>)
        requires
            old(self)@.step() == MigrationStep::Count,
        ensures
            final(self)@ == old(self)@.after(
                MigrationEventView::Counted(optional_error(failure)),
            ),
            final(self)@ == (match failure {
                Some(error) => MigrationView { failure: Some(error@), ..old(self)@ },
                None => MigrationView { stage: MigrationStage::Open, ..old(self)@ },
            }),
    {
        match failure {
            Some(error) => {
                self.failure = Some(error);
            },
            None => {
                self.stage = MigrationStage::Open;
            },
        }
    }

    /// Takes note of what came of asking for the documents.
    pub fn on_opened(&mut self, failure: Option<Error>)
        requires
            old(self)@.step() == MigrationStep::Open,
        ensures
            final(self)@ == old(self)@.after(MigrationEventView::Opened(optional_error(failure))),
            final(self)@ == (match failure {
                Some(error) => MigrationView { failure: Some(error@), ..old(self)@ },
                None => MigrationView { stage: MigrationStage::Read, ..old(self)@ },
            }),
    {
        match failure {
            Some(error) => {
                self.failure = Some(error);
            },
            None => {
                self.stage = MigrationStage::Read;
            },
        }
    }

    /// Takes the next document, or takes note that there are no more or that
    /// taking it failed.
    pub fn on_read(&mut self, next: Result<Option<D>, Error>)
        requires
            old(self)@.step() == MigrationStep::Read,
        ensures
            final(self)@ == old(self)@.after(MigrationEventView::Read(read_view(next))),
            match next {
                Err(error) => final(self)@ == (MigrationView {
                    failure: Some(error@),
                    ..old(self)@
                }),
                Ok(Some(document)) => {
                    let batch = old(self)@.batch.push(document);
                    if batch.len() < old(self)@.batch_size {
                        final(self)@ == (MigrationView { batch, ..old(self)@ })
                    } else {
                        final(self)@ == (MigrationView {
                            batch: Seq::empty(),
                            ready: Some(batch),
                            ..old(self)@
                        })
                    }
                },
                Ok(None) => final(self)@ == (MigrationView {
                    stage: MigrationStage::Drain,
                    batch: Seq::empty(),
                    ready: if old(self)@.batch.len() > 0 {
                        Some(old(self)@.batch)
                    } else {
                        None
                    },
                    ..old(self)@
                }),
            },
    {
        match next {
            Err(error) => {
                self.failure = Some(error);
            },
            Ok(Some(document)) => {
                self.batch.push(document);
                if self.batch.len() >= self.batch_size {
                    let mut full: Vec<D> = Vec::new();
                    std::mem::swap(&mut full, &mut self.batch);
                    self.ready = Some(full);
                }
            },
            Ok(None) => {
                self.stage = MigrationStage::Drain;
                if self.batch.len() > 0 {
                    let mut rest: Vec<D> = Vec::new();
                    std::mem::swap(&mut rest, &mut self.batch);
                    self.ready = Some(rest);
                } else {
                    assert(self.batch@ =~= Seq::empty());
                }
            },
        }
    }

    /// Hands out the batch that is ready, which is in progress from now on.
    pub fn start_batch(&mut self) -> (batch: Vec<D>)
        requires
            old(self)@.step() == MigrationStep::Start,
        ensures
            old(self)@.ready == Some(batch@),
            final(self)@ == old(self)@.after(MigrationEventView::Started),
            final(self)@ == (MigrationView {
                ready: None,
                running: old(self)@.running + 1,
                ..old(self)@
            }),
    {
        let mut ready: Option<Vec<D>> = None;
        std::mem::swap(&mut ready, &mut self.ready);
        self.running = self.running + 1;
        match ready {
            Some(batch) => batch,
            None => {
                assert(false);
                Vec::new()
            },
        }
    }

    /// Takes note that a batch is through.
    pub fn on_batch_done(&mut self)
        requires
            old(self)@.running > 0,
        ensures
            final(self)@ == old(self)@.after(MigrationEventView::BatchDone),
            final(self)@ == (MigrationView { running: old(self)@.running - 1, ..old(self)@ }),
    {
        self.running = self.running - 1;
    }

    /// Takes note of what came of the batches, in the order in which they were
    /// started.
    pub fn on_joined(&mut self, outcomes: Vec<Result<(), Error>>)
        requires
            old(self)@.step() == MigrationStep::Join,
        ensures
            final(self)@ == old(self)@.after(
                MigrationEventView::Joined(first_failure(outcomes@)),
            ),
            match first_failure(outcomes@) {
                Some(error) => final(self)@ == (MigrationView {
                    failure: Some(error),
                    ..old(self)@
                }),
                None => final(self)@ == (MigrationView {
                    stage: MigrationStage::Done,
                    ..old(self)@
                }),
            },
    {
        match MessageSave::finish(outcomes) {
            Err(error) => {
                self.failure = Some(error);
            },
            Ok(_) => {
                self.stage = MigrationStage::Done;
            },
        }
    }

    /// How it ended.
    pub fn finish(self) -> (outcome: Result<(), Error>)
        requires
            self@.step() == MigrationStep::End,
        ensures
            failure_of(outcome) == self@.failure,
            match outcome {
                Ok(_) => self@.failure is None,
                Err(error) => self@.failure == Some(error@),
            },
    {
        match self.failure {
            Some(error) => Err(error),
            None => Ok(()),
        }
    }
}

/// The messages of a batch that could be made out.
pub open spec fn readable(batch: Seq<Result<Msg, Error>>) -> Seq<MsgView>
    decreases batch.len(),
{
    if batch.len() == 0 {
        Seq::empty()
    } else {
        let front = readable(batch.drop_last());
        match batch.last() {
            Ok(message) => front.push(message@),
            Err(_) => front,
        }
    }
}

/// The messages of a batch that are saved, in order. What cannot be made out is
/// passed over, and the rest of the batch is saved all the same.
pub fn process_batch(batch: Vec<Result<Msg, Error>>) -> (messages: Vec<Msg>)
    ensures
        message_views(messages@) == readable(batch@),
        messages@.len() == made_out(batch@).len(),
        forall|i: int|
            0 <= i < batch@.len() && (#[trigger] batch@[i]) is Ok ==> {
                let place = made_out(batch@.take(i)).len();
                place < messages@.len() && messages@[place as int]@ == batch@[i]->Ok_0@
            },
{
    let mut messages: Vec<Msg> = Vec::new();
    let mut i: usize = 0;
    assert(message_views(messages@) =~= readable(batch@.take(0)));
    while i < batch.len()
        invariant
            i <= batch.len(),
            message_views(messages@) == readable(batch@.take(i as int)),
        decreases batch.len() - i,
    {
        let ghost before = messages@;
        assert(batch@.take(i + 1).drop_last() =~= batch@.take(i as int));
        match &batch[i] {
            Ok(message) => {
                messages.push(message.clone());
                assert(message_views(messages@) =~= message_views(before).push(message@));
            },
            Err(_) => {},
        }
        i = i + 1;
    }
    assert(batch@.take(batch@.len() as int) =~= batch@);
    proof {
        assert(message_views(messages@).len() == messages@.len());
        if batch@.len() == 0 {
            reveal(Seq::filter);
        }
        assert forall|i: int| 0 <= i < batch@.len() && (#[trigger] batch@[i]) is Ok implies {
            let place = made_out(batch@.take(i)).len();
            place < messages@.len() && messages@[place as int]@ == batch@[i]->Ok_0@
        } by {
            law_every_message_of_a_batch_is_saved(batch@, i);
            let place = made_out(batch@.take(i)).len();
            assert(message_views(messages@)[place as int] == messages@[place as int]@);
        }
        if batch@.len() > 0 {
            law_every_message_of_a_batch_is_saved(batch@, 0);
        }
    }
    messages
}

/// The entries of a batch that can be made out.
pub open spec fn made_out(batch: Seq<Result<Msg, Error>>) -> Seq<Result<Msg, Error>> {
    batch.filter(|entry: Result<Msg, Error>| entry is Ok)
}

/// Every message of a batch that can be made out is saved exactly as it is, and
/// they keep their order: the place of each is the number of those before it
/// that can be made out. Nothing else is saved.
pub proof fn law_every_message_of_a_batch_is_saved(batch: Seq<Result<Msg, Error>>, i: int)
    requires
        0 <= i < batch.len(),
    ensures
        readable(batch).len() == made_out(batch).len(),
        batch[i] is Ok ==> {
            let place = made_out(batch.take(i)).len();
            place < readable(batch).len() && readable(batch)[place as int] == batch[i]->Ok_0@
        },
    decreases batch.len(),
{
    reveal(Seq::filter);
    reveal_with_fuel(readable, 2);
    let front = batch.drop_last();
    assert(made_out(batch) == if batch.last() is Ok {
        made_out(front).push(batch.last())
    } else {
        made_out(front)
    });
    if front.len() == 0 {
        assert(made_out(front).len() == 0);
        assert(batch.take(0) =~= front);
    } else {
        law_every_message_of_a_batch_is_saved(front, 0);
        if i < front.len() {
            law_every_message_of_a_batch_is_saved(front, i);
            assert(front.take(i) =~= batch.take(i));
            assert(front[i] == batch[i]);
        } else {
            assert(batch.take(i) =~= front);
        }
    }
}

/// How far the moving has come.
#[derive(Debug, PartialEq, Eq)]
pub struct Progress {
    pub processed: usize,
    pub total_count: u64,
}

impl Progress {
    /// Takes note that a batch of so many documents is through.
    pub fn on_batch(&mut self, batch_count: usize)
        requires
            old(self).processed + batch_count <= usize::MAX,
        ensures
            final(self).processed == old(self).processed + batch_count,
            final(self).total_count == old(self).total_count,
    {
        self.processed = self.processed + batch_count;
    }
}

/// The configuration of the box that messages are moved to: always sharded, and
/// into the usual number of slices unless another number is configured.
pub open spec fn sharding_config(config: MongoDbConfigView) -> MongoDbConfigView {
    MongoDbConfigView {
        use_sharding: Some(true),
        user_shards: match config.user_shards {
            Some(user_shards) => Some(user_shards),
            None => Some(DEFAULT_USER_SHARDS),
        },
        ..config
    }
}

/// The configuration of the box that messages are moved to, and how they are
/// moved.
pub fn run_migration(config: &MongoDbConfig) -> (plan: (MongoDbConfig, MessageMigrator))
    ensures
        plan.0@ == sharding_config(config@),
        plan.0.url@ == config.url@,
        plan.0.database@ == config.database@,
        plan.0.use_sharding == Some(true),
        plan.0.user_shards == (match config.user_shards {
            Some(user_shards) => Some(user_shards),
            None => Some(10u32),
        }),
        plan.1 == (MessageMigrator { batch_size: 500, concurrency: 5 }),
{
    let mut target = config.clone();
    target.use_sharding = Some(true);
    if target.user_shards.is_none() {
        target.user_shards = Some(DEFAULT_USER_SHARDS);
    }
    (target, MessageMigrator::new().with_batch_size(500).with_concurrency(5))
}

/// A migration after several events, and the batches that were handed out.
pub open spec fn run<D>(start: MigrationView<D>, events: Seq<MigrationEventView<D>>) -> (
    MigrationView<D>,
    Seq<Seq<D>>,
)
    decreases events.len(),
{
    if events.len() == 0 {
        (start, Seq::empty())
    } else {
        let (before, batches) = run(start, events.drop_last());
        (
            before.after(events.last()),
            match events.last() {
                MigrationEventView::Started => batches.push(before.ready->0),
                _ => batches,
            },
        )
    }
}

/// Whether each of the events can come in its turn.
pub open spec fn can_come<D>(start: MigrationView<D>, events: Seq<MigrationEventView<D>>) -> bool
    decreases events.len(),
{
    events.len() == 0 || {
        &&& can_come(start, events.drop_last())
        &&& run(start, events.drop_last()).0.awaits(events.last())
    }
}

/// The documents that came, in order.
pub open spec fn documents_in<D>(events: Seq<MigrationEventView<D>>) -> Seq<D>
    decreases events.len(),
{
    if events.len() == 0 {
        Seq::empty()
    } else {
        let front = documents_in(events.drop_last());
        match events.last() {
            MigrationEventView::Read(Ok(Some(document))) => front.push(document),
            _ => front,
        }
    }
}

/// How many documents a full batch has: one at least.
pub open spec fn full_size(batch_size: int) -> int {
    if batch_size < 1 {
        1
    } else {
        batch_size
    }
}

/// What a migration keeps, with the batches that were handed out and the
/// documents that came.
spec fn is_sound<D>(migration: MigrationView<D>, batches: Seq<Seq<D>>, documents: Seq<D>) -> bool {
    let full = full_size(migration.batch_size);
    let ready = match migration.ready {
        Some(batch) => batch,
        None => Seq::empty(),
    };
    &&& batches.flatten() + ready + migration.batch == documents
    &&& migration.batch.len() < full
    &&& migration.ready is Some ==> 0 < ready.len() <= full
    &&& migration.stage == MigrationStage::Read && migration.ready is Some ==> ready.len() == full
    &&& migration.stage == MigrationStage::Done ==> migration.ready is None && migration.running
        == 0
    &&& migration.stage == MigrationStage::Count || migration.stage == MigrationStage::Open ==> {
        &&& batches.len() == 0
        &&& migration.ready is None
        &&& migration.batch.len() == 0
        &&& migration.running == 0
    }
    &&& migration.stage == MigrationStage::Drain || migration.stage == MigrationStage::Done ==>
        migration.batch.len() == 0
    &&& forall|i: int| 0 <= i < batches.len() ==> 0 < (#[trigger] batches[i]).len() <= full
    &&& forall|i: int| 0 <= i < batches.len() - 1 ==> (#[trigger] batches[i]).len() == full
    &&& batches.len() > 0 && (migration.stage == MigrationStage::Read || migration.ready is Some)
        ==> batches.last().len() == full
    &&& 0 <= migration.running <= migration.concurrency
}

proof fn lemma_sound_read<D>(
    migration: MigrationView<D>,
    batches: Seq<Seq<D>>,
    documents: Seq<D>,
    document: D,
)
    requires
        migration.batch_size >= 0,
        is_sound(migration, batches, documents),
        migration.step() == MigrationStep::Read,
    ensures
        is_sound(migration.with_document(document), batches, documents.push(document)),
{
    let empty = Seq::<D>::empty();
    assert(batches.flatten() + empty =~= batches.flatten());
    let more = migration.batch.push(document);
    assert((batches.flatten() + migration.batch).push(document) =~= batches.flatten() + more);
    assert(batches.flatten() + empty + more =~= batches.flatten() + more);
    assert(batches.flatten() + more + empty =~= batches.flatten() + more);
}

proof fn lemma_sound<D>(
    batch_size: int,
    concurrency: int,
    events: Seq<MigrationEventView<D>>,
)
    requires
        batch_size >= 0,
        concurrency >= 0,
        can_come(start_of::<D>(batch_size, concurrency), events),
    ensures
        ({
            let (migration, batches) = run(start_of::<D>(batch_size, concurrency), events);
            &&& migration.batch_size == batch_size
            &&& migration.concurrency == concurrency
            &&& is_sound(migration, batches, documents_in(events))
        }),
    decreases events.len(),
{
    let start = start_of::<D>(batch_size, concurrency);
    let empty = Seq::<D>::empty();
    if events.len() == 0 {
        assert(Seq::<Seq<D>>::empty().flatten() =~= empty);
        assert(empty + empty + empty =~= documents_in(events));
    } else {
        let front = events.drop_last();
        lemma_sound(batch_size, concurrency, front);
        let (before, batches) = run(start, front);
        let (after, more) = run(start, events);
        let documents = documents_in(front);
        match events.last() {
            MigrationEventView::Read(Ok(Some(document))) => {
                lemma_sound_read(before, batches, documents, document);
            },
            MigrationEventView::Read(Ok(None)) => {
                assert(batches.flatten() + empty + before.batch =~= batches.flatten()
                    + before.batch + empty);
                assert(before.batch.len() == 0 ==> before.batch =~= empty);
            },
            MigrationEventView::Started => {
                let batch = before.ready->0;
                batches.lemma_flatten_push(batch);
                assert(batches.flatten() + batch + before.batch =~= more.flatten() + empty
                    + before.batch);
                assert forall|i: int| 0 <= i < more.len() - 1 implies (#[trigger] more[i]).len()
                    == full_size(batch_size) by {
                    assert(more[i] == batches[i]);
                    if i == batches.len() - 1 {
                        assert(batches.last().len() == full_size(batch_size));
                    }
                }
            },
            _ => {},
        }
    }
}

/// At every moment at most so many batches are in progress as may be, and when
/// a migration ended well all of them are through.
pub proof fn law_batches_in_progress_are_bounded<D>(
    batch_size: int,
    concurrency: int,
    events: Seq<MigrationEventView<D>>,
)
    requires
        batch_size >= 0,
        concurrency >= 0,
        can_come(start_of::<D>(batch_size, concurrency), events),
    ensures
        ({
            let (migration, batches) = run(start_of::<D>(batch_size, concurrency), events);
            &&& 0 <= migration.running <= concurrency
            &&& migration.step() == MigrationStep::End && migration.failure is None ==>
                migration.running == 0
        }),
{
    lemma_sound(batch_size, concurrency, events);
}

/// When a migration ended well, every document that came is in exactly one
/// batch, in the order in which they came; each batch but the last is full, and
/// none is empty.
pub proof fn law_every_document_is_moved_once<D>(
    batch_size: int,
    concurrency: int,
    events: Seq<MigrationEventView<D>>,
)
    requires
        batch_size >= 0,
        concurrency >= 0,
        can_come(start_of::<D>(batch_size, concurrency), events),
        run(start_of::<D>(batch_size, concurrency), events).0.step() == MigrationStep::End,
        run(start_of::<D>(batch_size, concurrency), events).0.failure is None,
    ensures
        ({
            let batches = run(start_of::<D>(batch_size, concurrency), events).1;
            &&& batches.flatten() == documents_in(events)
            &&& forall|i: int|
                0 <= i < batches.len() ==> 0 < (#[trigger] batches[i]).len() <= full_size(batch_size)
            &&& forall|i: int|
                0 <= i < batches.len() - 1 ==> (#[trigger] batches[i]).len() == full_size(batch_size)
        }),
{
    lemma_sound(batch_size, concurrency, events);
    let (migration, batches) = run(start_of::<D>(batch_size, concurrency), events);
    assert(migration.batch =~= Seq::empty());
    assert(batches.flatten() + Seq::<D>::empty() + Seq::<D>::empty() =~= batches.flatten());
}

/// Whether one of the events tells of a failure.
pub open spec fn has_failure<D>(events: Seq<MigrationEventView<D>>) -> bool {
    exists|i: int| 0 <= i < events.len() && (#[trigger] events[i]).failure() is Some
}

/// A migration fails exactly when counting, asking for or taking the documents
/// failed, or a batch did.
pub proof fn law_migration_fails_when_a_step_fails<D>(
    start: MigrationView<D>,
    events: Seq<MigrationEventView<D>>,
)
    requires
        start.failure is None,
        can_come(start, events),
    ensures
        run(start, events).0.failure is Some <==> has_failure(events),
    decreases events.len(),
{
    if events.len() > 0 {
        let front = events.drop_last();
        law_migration_fails_when_a_step_fails(start, front);
        let last = events.len() - 1;
        if has_failure(front) {
            let i = choose|i: int| 0 <= i < front.len() && (#[trigger] front[i]).failure() is Some;
            assert(events[i] == front[i]);
        }
        if has_failure(events) && events[last].failure() is None {
            let i = choose|i: int| 0 <= i < events.len() && (#[trigger] events[i]).failure() is Some;
            assert(front[i] == events[i]);
        }
        if events[last].failure() is Some {
            assert(has_failure(events));
        }
    }
}

/// Nothing is moved where counting the documents or asking for them failed.
pub proof fn law_nothing_is_moved_before_documents_are_asked_for<D>(
    batch_size: int,
    concurrency: int,
    events: Seq<MigrationEventView<D>>,
    i: int,
)
    requires
        batch_size >= 0,
        concurrency >= 0,
        can_come(start_of::<D>(batch_size, concurrency), events),
        0 <= i < events.len(),
        events[i] is Counted || events[i] is Opened,
        events[i].failure() is Some,
    ensures
        run(start_of::<D>(batch_size, concurrency), events).1.len() == 0,
    decreases events.len(),
{
    let start = start_of::<D>(batch_size, concurrency);
    let front = events.drop_last();
    lemma_sound(batch_size, concurrency, front);
    if i < front.len() {
        assert(front[i] == events[i]);
        law_nothing_is_moved_before_documents_are_asked_for(batch_size, concurrency, front, i);
        assert(has_failure(front));
        law_migration_fails_when_a_step_fails(start, front);
    }
}

proof fn lemma_readable_add(first: Seq<Result<Msg, Error>>, second: Seq<Result<Msg, Error>>)
    ensures
        readable(first + second) == readable(first) + readable(second),
    decreases second.len(),
{
    if second.len() == 0 {
        assert(first + second =~= first);
        assert(readable(first) + readable(second) =~= readable(first));
    } else {
        let front = second.drop_last();
        lemma_readable_add(first, front);
        assert((first + second).drop_last() =~= first + front);
        assert(readable(first + second) =~= readable(first) + readable(second));
    }
}

/// The messages that are saved, batch by batch.
pub open spec fn all_saved(batches: Seq<Seq<Result<Msg, Error>>>) -> Seq<MsgView>
    decreases batches.len(),
{
    if batches.len() == 0 {
        Seq::empty()
    } else {
        readable(batches[0]) + all_saved(batches.drop_first())
    }
}

proof fn lemma_all_saved(batches: Seq<Seq<Result<Msg, Error>>>)
    ensures
        all_saved(batches) == readable(batches.flatten()),
    decreases batches.len(),
{
    if batches.len() > 0 {
        lemma_all_saved(batches.drop_first());
        lemma_readable_add(batches[0], batches.drop_first().flatten());
    }
}

/// When a migration ended well, every message that can be made out is saved
/// once, in the order in which they came, however they are divided into batches.
pub proof fn law_every_readable_message_is_saved(
    batch_size: int,
    concurrency: int,
    events: Seq<MigrationEventView<Result<Msg, Error>>>,
)
    requires
        batch_size >= 0,
        concurrency >= 0,
        can_come(start_of::<Result<Msg, Error>>(batch_size, concurrency), events),
        run(start_of::<Result<Msg, Error>>(batch_size, concurrency), events).0.step()
            == MigrationStep::End,
        run(start_of::<Result<Msg, Error>>(batch_size, concurrency), events).0.failure is None,
    ensures
        all_saved(run(start_of::<Result<Msg, Error>>(batch_size, concurrency), events).1)
            == readable(documents_in(events)),
{
    law_every_document_is_moved_once(batch_size, concurrency, events);
    lemma_all_saved(run(start_of::<Result<Msg, Error>>(batch_size, concurrency), events).1);
}

/// Messages are moved from the one collection that held them all into a box that
/// is always sharded, into ten slices where no number is configured; all else is
/// as configured.
pub proof fn law_migration_goes_to_a_sharded_box(config: MongoDbConfigView)
    ensures
        SOURCE_COLLECTION@ == "single_msg_box"@,
        sharding_config(config).url == config.url,
        sharding_config(config).database == config.database,
        sharding_config(config).use_sharding == Some(true),
        config.user_shards is Some ==> sharding_config(config).user_shards == config.user_shards,
        config.user_shards is None ==> sharding_config(config).user_shards == Some(10u32),
{
}

/// The failure with which a migration ends is one that a step told of.
pub proof fn law_migration_tells_of_a_failure_that_came<D>(
    start: MigrationView<D>,
    events: Seq<MigrationEventView<D>>,
)
    requires
        start.failure is None,
        run(start, events).0.failure is Some,
    ensures
        exists|i: int|
            0 <= i < events.len() && match #[trigger] events[i] {
                MigrationEventView::Counted(failure) => failure == run(start, events).0.failure,
                MigrationEventView::Opened(failure) => failure == run(start, events).0.failure,
                MigrationEventView::Read(Err(error)) => Some(error) == run(
                    start,
                    events,
                ).0.failure,
                MigrationEventView::Joined(failure) => failure == run(start, events).0.failure,
                _ => false,
            },
    decreases events.len(),
{
    if events.len() > 0 {
        let front = events.drop_last();
        let last = events[events.len() - 1];
        if last.failure() is None {
            law_migration_tells_of_a_failure_that_came(start, front);
            let i = choose|i: int|
                0 <= i < front.len() && match #[trigger] front[i] {
                    MigrationEventView::Counted(failure) => failure == run(start, front).0.failure,
                    MigrationEventView::Opened(failure) => failure == run(start, front).0.failure,
                    MigrationEventView::Read(Err(error)) => Some(error) == run(
                        start,
                        front,
                    ).0.failure,
                    MigrationEventView::Joined(failure) => failure == run(start, front).0.failure,
                    _ => false,
                };
            assert(events[i] == front[i]);
        }
    }
}

} // verus!
