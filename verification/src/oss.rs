//! Files and avatars in an object store.

use vstd::prelude::*;

use crate::config::OssConfig;
use crate::error::Error;
use crate::error::{error_with_details, optional_error, ErrorKind, ErrorView};

verus! {

/// The status of an answer where there is no such thing.
pub const NOT_FOUND: u16 = 404;

/// What came of asking for a bucket.
#[derive(Debug, PartialEq, Eq)]
pub enum HeadOutcome {
    /// It is there.
    Found,
    /// The service refused, with this status.
    ServiceError(u16),
    /// The service could not be asked.
    Other(String),
}

/// Whether a bucket is there, by what came of asking for it.
pub open spec fn bucket_exists(outcome: HeadOutcome) -> Result<bool, ErrorView> {
    match outcome {
        HeadOutcome::Found => Ok(true),
        HeadOutcome::ServiceError(status) => if status == NOT_FOUND {
            Ok(false)
        } else {
            Err(error_with_details(ErrorKind::Internal, "check avatar_bucket exists error"@))
        },
        HeadOutcome::Other(text) => Err(error_with_details(ErrorKind::Internal, text@)),
    }
}

/// What to ask of the store about an object.
#[derive(Debug, PartialEq, Eq)]
pub enum ObjectRequest {
    Head { bucket: String, key: String },
    Put { bucket: String, key: String, content: Vec<u8> },
    Fetch { bucket: String, key: String },
    Delete { bucket: String, key: String },
}

pub enum ObjectRequestView {
    Head { bucket: Seq<char>, key: Seq<char> },
    Put { bucket: Seq<char>, key: Seq<char>, content: Seq<u8> },
    Fetch { bucket: Seq<char>, key: Seq<char> },
    Delete { bucket: Seq<char>, key: Seq<char> },
}

impl View for ObjectRequest {
    type V = ObjectRequestView;

    open spec fn view(&self) -> ObjectRequestView {
        match self {
            ObjectRequest::Head { bucket, key } => ObjectRequestView::Head {
                bucket: bucket@,
                key: key@,
            },
            ObjectRequest::Put { bucket, key, content } => ObjectRequestView::Put {
                bucket: bucket@,
                key: key@,
                content: content@,
            },
            ObjectRequest::Fetch { bucket, key } => ObjectRequestView::Fetch {
                bucket: bucket@,
                key: key@,
            },
            ObjectRequest::Delete { bucket, key } => ObjectRequestView::Delete {
                bucket: bucket@,
                key: key@,
            },
        }
    }
}

/// The store: one bucket for files and one for avatars.
#[derive(Debug, PartialEq, Eq)]
pub struct S3Client {
    pub bucket: String,
    pub avatar_bucket: String,
}

impl S3Client {
    pub fn new(config: &OssConfig) -> (client: Self)
        ensures
            client.bucket@ == config.bucket@,
            client.avatar_bucket@ == config.avatar_bucket@,
    {
        S3Client { bucket: config.bucket.clone(), avatar_bucket: config.avatar_bucket.clone() }
    }

    /// Whether the bucket for files is there.
    pub fn check_bucket_exists(&self, outcome: HeadOutcome) -> (found: Result<bool, Error>)
        ensures
            match found {
                Ok(there) => bucket_exists(outcome) == Ok::<bool, ErrorView>(there),
                Err(error) => bucket_exists(outcome) == Err::<bool, ErrorView>(error@),
            },
            match (outcome, found) {
                (HeadOutcome::Found, Ok(there)) => there,
                (HeadOutcome::ServiceError(status), Ok(there)) => status == 404 && !there,
                (HeadOutcome::ServiceError(status), Err(error)) => status != 404 && error@ == (
                ErrorView {
                    kind: ErrorKind::Internal,
                    cause: None,
                    details: Some("check avatar_bucket exists error"@),
                }),
                (HeadOutcome::Other(text), Err(error)) => error@ == (ErrorView {
                    kind: ErrorKind::Internal,
                    cause: None,
                    details: Some(text@),
                }),
                _ => false,
            },
    {
        match outcome {
            HeadOutcome::Found => Ok(true),
            HeadOutcome::ServiceError(status) => if status == NOT_FOUND {
                Ok(false)
            } else {
                Err(Error::internal_with_details("check avatar_bucket exists error".to_owned()))
            },
            HeadOutcome::Other(text) => Err(Error::internal_with_details(text)),
        }
    }

    /// Whether the bucket for avatars is there.
    pub fn check_avatar_bucket_exits(&self, outcome: HeadOutcome) -> (found: Result<bool, Error>)
        ensures
            match found {
                Ok(there) => bucket_exists(outcome) == Ok::<bool, ErrorView>(there),
                Err(error) => bucket_exists(outcome) == Err::<bool, ErrorView>(error@),
            },
            match (outcome, found) {
                (HeadOutcome::Found, Ok(there)) => there,
                (HeadOutcome::ServiceError(status), Ok(there)) => status == 404 && !there,
                (HeadOutcome::ServiceError(status), Err(error)) => status != 404 && error@ == (
                ErrorView {
                    kind: ErrorKind::Internal,
                    cause: None,
                    details: Some("check avatar_bucket exists error"@),
                }),
                (HeadOutcome::Other(text), Err(error)) => error@ == (ErrorView {
                    kind: ErrorKind::Internal,
                    cause: None,
                    details: Some(text@),
                }),
                _ => false,
            },
    {
        self.check_bucket_exists(outcome)
    }

    /// The setting up of both buckets.
    pub fn create_bucket(&self) -> (setup: BucketSetup)
        ensures
            setup@ == (BucketSetupView {
                files: self.bucket@,
                avatars: self.avatar_bucket@,
                stage: SetupStage::CheckFiles,
                failure: None,
            }),
    {
        BucketSetup {
            files: self.bucket.clone(),
            avatars: self.avatar_bucket.clone(),
            stage: SetupStage::CheckFiles,
            failure: None,
        }
    }

    /// The setting up of the avatars that everybody can choose from: where they
    /// lie on disk, and their names in the store.
    pub fn check_default_avatars(&self, avatars: Vec<(String, String)>) -> (setup: AvatarSetup)
        ensures
            setup@ == (AvatarSetupView {
                bucket: self.avatar_bucket@,
                todo: avatar_views(avatars@),
                stage: AvatarStage::Ask,
                failure: None,
            }),
            setup@.todo.len() == avatars@.len(),
            forall|i: int|
                0 <= i < avatars@.len() ==> #[trigger] setup@.todo[i] == (
                    avatars@[i].0@,
                    avatars@[i].1@,
                ),
    {
        let setup = AvatarSetup {
            bucket: self.avatar_bucket.clone(),
            avatars,
            next: 0,
            stage: AvatarStage::Ask,
            failure: None,
        };
        assert(setup@.todo =~= avatar_views(avatars@));
        setup
    }

    /// Asks whether a file is there.
    pub fn file_exists(&self, key: &str) -> (request: ObjectRequest)
        ensures
            request@ == (ObjectRequestView::Head { bucket: self.bucket@, key: key@ }),
    {
        ObjectRequest::Head { bucket: self.bucket.clone(), key: key.to_owned() }
    }

    pub fn upload_file(&self, key: &str, content: Vec<u8>) -> (request: ObjectRequest)
        ensures
            request@ == (ObjectRequestView::Put {
                bucket: self.bucket@,
                key: key@,
                content: content@,
            }),
    {
        ObjectRequest::Put { bucket: self.bucket.clone(), key: key.to_owned(), content }
    }

    pub fn download_file(&self, key: &str) -> (request: ObjectRequest)
        ensures
            request@ == (ObjectRequestView::Fetch { bucket: self.bucket@, key: key@ }),
    {
        ObjectRequest::Fetch { bucket: self.bucket.clone(), key: key.to_owned() }
    }

    pub fn delete_file(&self, key: &str) -> (request: ObjectRequest)
        ensures
            request@ == (ObjectRequestView::Delete { bucket: self.bucket@, key: key@ }),
    {
        ObjectRequest::Delete { bucket: self.bucket.clone(), key: key.to_owned() }
    }

    pub fn upload_avatar(&self, key: &str, content: Vec<u8>) -> (request: ObjectRequest)
        ensures
            request@ == (ObjectRequestView::Put {
                bucket: self.avatar_bucket@,
                key: key@,
                content: content@,
            }),
    {
        ObjectRequest::Put { bucket: self.avatar_bucket.clone(), key: key.to_owned(), content }
    }

    pub fn download_avatar(&self, key: &str) -> (request: ObjectRequest)
        ensures
            request@ == (ObjectRequestView::Fetch { bucket: self.avatar_bucket@, key: key@ }),
    {
        ObjectRequest::Fetch { bucket: self.avatar_bucket.clone(), key: key.to_owned() }
    }

    pub fn delete_avatar(&self, key: &str) -> (request: ObjectRequest)
        ensures
            request@ == (ObjectRequestView::Delete { bucket: self.avatar_bucket@, key: key@ }),
    {
        ObjectRequest::Delete { bucket: self.avatar_bucket.clone(), key: key.to_owned() }
    }
}

/// How far the setting up of the buckets has come.
#[derive(Clone, Copy, Debug, PartialEq, Eq, Structural)]
pub enum SetupStage {
    CheckFiles,
    CreateFiles,
    CheckAvatars,
    CreateAvatars,
    Done,
}

/// Setting up the bucket for files, then the one for avatars: each is made
/// where it is not there.
#[derive(Debug)]
pub struct BucketSetup {
    files: String,
    avatars: String,
    stage: SetupStage,
    failure: Option<Error>,
}

pub struct BucketSetupView {
    pub files: Seq<char>,
    pub avatars: Seq<char>,
    pub stage: SetupStage,
    pub failure: Option<ErrorView>,
}

impl View for BucketSetup {
    type V = BucketSetupView;

    closed spec fn view(&self) -> BucketSetupView {
        BucketSetupView {
            files: self.files@,
            avatars: self.avatars@,
            stage: self.stage,
            failure: optional_error(self.failure),
        }
    }
}

/// What to ask of the store about a bucket.
#[derive(Debug, PartialEq, Eq)]
pub enum BucketRequest {
    Head { bucket: String },
    Create { bucket: String },
}

pub enum BucketRequestView {
    Head { bucket: Seq<char> },
    Create { bucket: Seq<char> },
}

impl View for BucketRequest {
    type V = BucketRequestView;

    open spec fn view(&self) -> BucketRequestView {
        match self {
            BucketRequest::Head { bucket } => BucketRequestView::Head { bucket: bucket@ },
            BucketRequest::Create { bucket } => BucketRequestView::Create { bucket: bucket@ },
        }
    }
}

impl BucketSetupView {
    /// What to ask of the store next.
    pub open spec fn request(self) -> Option<BucketRequestView> {
        if self.failure is Some {
            None
        } else {
            match self.stage {
                SetupStage::CheckFiles => Some(BucketRequestView::Head { bucket: self.files }),
                SetupStage::CreateFiles => Some(BucketRequestView::Create { bucket: self.files }),
                SetupStage::CheckAvatars => Some(BucketRequestView::Head { bucket: self.avatars }),
                SetupStage::CreateAvatars => Some(
                    BucketRequestView::Create { bucket: self.avatars },
                ),
                SetupStage::Done => None,
            }
        }
    }

    /// After a bucket was asked for: it is made where it is not there.
    pub open spec fn after_head(self, outcome: HeadOutcome) -> BucketSetupView {
        let (make, skip) = if self.stage == SetupStage::CheckFiles {
            (SetupStage::CreateFiles, SetupStage::CheckAvatars)
        } else {
            (SetupStage::CreateAvatars, SetupStage::Done)
        };
        match bucket_exists(outcome) {
            Ok(there) => BucketSetupView {
                stage: if there {
                    skip
                } else {
                    make
                },
                ..self
            },
            Err(error) => BucketSetupView { failure: Some(error), ..self },
        }
    }

    /// After a bucket was made.
    pub open spec fn after_create(self, failure: Option<ErrorView>) -> BucketSetupView {
        match failure {
            Some(error) => BucketSetupView { failure: Some(error), ..self },
            None => BucketSetupView {
                stage: if self.stage == SetupStage::CreateFiles {
                    SetupStage::CheckAvatars
                } else {
                    SetupStage::Done
                },
                ..self
            },
        }
    }
}

/// What an optional request holds.
pub open spec fn optional_request(request: Option<BucketRequest>) -> Option<BucketRequestView> {
    match request {
        Some(request) => Some(request@),
        None => None,
    }
}

impl BucketSetup {
    /// What to ask of the store next.
    pub fn request(&self) -> (request: Option<BucketRequest>)
        ensures
            optional_request(request) == self@.request(),
            match request {
                None => self@.failure is Some || self@.stage == SetupStage::Done,
                Some(BucketRequest::Head { bucket }) => self@.failure is None && ((self@.stage
                    == SetupStage::CheckFiles && bucket@ == self@.files) || (self@.stage
                    == SetupStage::CheckAvatars && bucket@ == self@.avatars)),
                Some(BucketRequest::Create { bucket }) => self@.failure is None && ((self@.stage
                    == SetupStage::CreateFiles && bucket@ == self@.files) || (self@.stage
                    == SetupStage::CreateAvatars && bucket@ == self@.avatars)),
            },
    {
        match &self.failure {
            Some(_) => None,
            None => match self.stage {
                SetupStage::CheckFiles => Some(BucketRequest::Head { bucket: self.files.clone() }),
                SetupStage::CreateFiles => Some(
                    BucketRequest::Create { bucket: self.files.clone() },
                ),
                SetupStage::CheckAvatars => Some(
                    BucketRequest::Head { bucket: self.avatars.clone() },
                ),
                SetupStage::CreateAvatars => Some(
                    BucketRequest::Create { bucket: self.avatars.clone() },
                ),
                SetupStage::Done => None,
            },
        }
    }

    /// Takes note of whether a bucket is there.
    pub fn on_head(&mut self, client: &S3Client, outcome: HeadOutcome)
        requires
            old(self)@.request() matches Some(BucketRequestView::Head { .. }),
        ensures
            final(self)@ == old(self)@.after_head(outcome),
            final(self)@.files == old(self)@.files,
            final(self)@.avatars == old(self)@.avatars,
            match outcome {
                HeadOutcome::Found => {
                    &&& final(self)@.failure is None
                    &&& old(self)@.stage == SetupStage::CheckFiles ==> final(self)@.stage
                        == SetupStage::CheckAvatars
                    &&& old(self)@.stage == SetupStage::CheckAvatars ==> final(self)@.stage
                        == SetupStage::Done
                },
                HeadOutcome::ServiceError(status) => {
                    &&& final(self)@.failure is None <==> status == 404
                    &&& status == 404 ==> final(self)@.stage == (if old(self)@.stage
                        == SetupStage::CheckFiles {
                        SetupStage::CreateFiles
                    } else {
                        SetupStage::CreateAvatars
                    })
                },
                HeadOutcome::Other(text) => final(self)@.failure == Some(
                    ErrorView { kind: ErrorKind::Internal, cause: None, details: Some(text@) },
                ),
            },
    {
        let files = match self.stage {
            SetupStage::CheckFiles => true,
            _ => false,
        };
        let found = if files {
            client.check_bucket_exists(outcome)
        } else {
            client.check_avatar_bucket_exits(outcome)
        };
        match found {
            Ok(there) => {
                self.stage = if files {
                    if there {
                        SetupStage::CheckAvatars
                    } else {
                        SetupStage::CreateFiles
                    }
                } else if there {
                    SetupStage::Done
                } else {
                    SetupStage::CreateAvatars
                };
            },
            Err(error) => {
                self.failure = Some(error);
            },
        }
    }

    /// Takes note of what came of making a bucket.
    pub fn on_create(&mut self, failure: Option<Error>)
        requires
            old(self)@.request() matches Some(BucketRequestView::Create { .. }),
        ensures
            final(self)@ == old(self)@.after_create(optional_error(failure)),
            match failure {
                Some(error) => final(self)@ == (BucketSetupView {
                    failure: Some(error@),
                    ..old(self)@
                }),
                None => final(self)@ == (BucketSetupView {
                    stage: if old(self)@.stage == SetupStage::CreateFiles {
                        SetupStage::CheckAvatars
                    } else {
                        SetupStage::Done
                    },
                    ..old(self)@
                }),
            },
    {
        match failure {
            Some(error) => {
                self.failure = Some(error);
            },
            None => {
                self.stage = match self.stage {
                    SetupStage::CreateFiles => SetupStage::CheckAvatars,
                    _ => SetupStage::Done,
                };
            },
        }
    }

    /// How it ended.
    pub fn finish(self) -> (outcome: Result<(), Error>)
        ensures
            match outcome {
                Ok(_) => self@.failure is None,
                Err(error) => self@.failure == Some(error@),
            },
    {
        match self.failure {
            Some(error) => Err(error),
            None => Ok(()),
        }
    }
}

/// How far the setting up of one avatar has come.
#[derive(Clone, Copy, Debug, PartialEq, Eq, Structural)]
pub enum AvatarStage {
    Ask,
    Read,
    Upload,
}

/// Setting up avatars: each is read from disk and uploaded where it is not in
/// the store. What cannot be read is passed over.
#[derive(Debug)]
pub struct AvatarSetup {
    bucket: String,
    avatars: Vec<(String, String)>,
    next: usize,
    stage: AvatarStage,
    failure: Option<Error>,
}

pub struct AvatarSetupView {
    pub bucket: Seq<char>,
    /// The avatars that are not set up, the one at hand first: where they lie
    /// and their names.
    pub todo: Seq<(Seq<char>, Seq<char>)>,
    pub stage: AvatarStage,
    pub failure: Option<ErrorView>,
}

/// What a list of avatars holds.
pub open spec fn avatar_views(avatars: Seq<(String, String)>) -> Seq<(Seq<char>, Seq<char>)> {
    avatars.map_values(|avatar: (String, String)| (avatar.0@, avatar.1@))
}

impl View for AvatarSetup {
    type V = AvatarSetupView;

    closed spec fn view(&self) -> AvatarSetupView {
        AvatarSetupView {
            bucket: self.bucket@,
            todo: avatar_views(self.avatars@).skip(self.next as int),
            stage: self.stage,
            failure: optional_error(self.failure),
        }
    }
}

/// What to do next for an avatar.
#[derive(Debug, PartialEq, Eq)]
pub enum AvatarTask {
    /// Ask the store.
    Ask(ObjectRequest),
    /// Read the file.
    Read(String),
    /// Wait for the upload.
    Wait,
}

pub enum AvatarTaskView {
    Ask(ObjectRequestView),
    Read(Seq<char>),
    Wait,
}

impl View for AvatarTask {
    type V = AvatarTaskView;

    open spec fn view(&self) -> AvatarTaskView {
        match self {
            AvatarTask::Ask(request) => AvatarTaskView::Ask(request@),
            AvatarTask::Read(path) => AvatarTaskView::Read(path@),
            AvatarTask::Wait => AvatarTaskView::Wait,
        }
    }
}

impl AvatarSetupView {
    /// Whether there is an avatar to set up.
    pub open spec fn is_running(self) -> bool {
        self.failure is None && self.todo.len() > 0
    }

    /// What to do next.
    pub open spec fn task(self) -> AvatarTaskView {
        match self.stage {
            AvatarStage::Ask => AvatarTaskView::Ask(
                ObjectRequestView::Head { bucket: self.bucket, key: self.todo[0].1 },
            ),
            AvatarStage::Read => AvatarTaskView::Read(self.todo[0].0),
            AvatarStage::Upload => AvatarTaskView::Wait,
        }
    }

    /// After the avatar at hand is done with.
    pub open spec fn next(self) -> AvatarSetupView {
        AvatarSetupView { todo: self.todo.drop_first(), stage: AvatarStage::Ask, ..self }
    }

    /// After the store was asked for the avatar at hand.
    pub open spec fn after_asked(self, found: bool) -> AvatarSetupView {
        if found {
            self.next()
        } else {
            AvatarSetupView { stage: AvatarStage::Read, ..self }
        }
    }

    /// After the file of the avatar at hand was read, or could not be.
    pub open spec fn after_read(self, readable: bool) -> AvatarSetupView {
        if readable {
            AvatarSetupView { stage: AvatarStage::Upload, ..self }
        } else {
            self.next()
        }
    }

    /// After the upload of the avatar at hand.
    pub open spec fn after_uploaded(self, failure: Option<ErrorView>) -> AvatarSetupView {
        match failure {
            Some(error) => AvatarSetupView { failure: Some(error), ..self },
            None => self.next(),
        }
    }
}

impl AvatarSetup {
    #[verifier::type_invariant]
    spec fn wf(self) -> bool {
        self.next <= self.avatars.len()
    }

    /// What to do next.
    pub fn current(&self) -> (task: Option<AvatarTask>)
        ensures
            match task {
                Some(task) => self@.is_running() && task@ == self@.task(),
                None => !self@.is_running(),
            },
            match task {
                None => self@.failure is Some || self@.todo.len() == 0,
                Some(AvatarTask::Ask(request)) => self@.stage == AvatarStage::Ask && request@ == (
                ObjectRequestView::Head { bucket: self@.bucket, key: self@.todo[0].1 }),
                Some(AvatarTask::Read(path)) => self@.stage == AvatarStage::Read && path@
                    == self@.todo[0].0,
                Some(AvatarTask::Wait) => self@.stage == AvatarStage::Upload,
            },
    {
        proof {
            use_type_invariant(self);
        }
        if self.next >= self.avatars.len() {
            return None;
        }
        let avatar = &self.avatars[self.next];
        assert(self@.todo[0] == (avatar.0@, avatar.1@));
        match &self.failure {
            Some(_) => None,
            None => Some(
                match self.stage {
                    AvatarStage::Ask => AvatarTask::Ask(
                        ObjectRequest::Head { bucket: self.bucket.clone(), key: avatar.1.clone() },
                    ),
                    AvatarStage::Read => AvatarTask::Read(avatar.0.clone()),
                    AvatarStage::Upload => AvatarTask::Wait,
                },
            ),
        }
    }

    fn advance(&mut self)
        requires
            old(self)@.is_running(),
        ensures
            final(self)@ == old(self)@.next(),
    {
        proof {
            use_type_invariant(&*self);
        }
        let ghost before = self@;
        self.next = self.next + 1;
        self.stage = AvatarStage::Ask;
        assert(self@.todo =~= before.todo.drop_first());
    }

    /// Takes note of whether the avatar at hand is in the store.
    pub fn on_asked(&mut self, found: bool)
        requires
            old(self)@.is_running(),
            old(self)@.stage == AvatarStage::Ask,
        ensures
            final(self)@ == old(self)@.after_asked(found),
            final(self)@ == (if found {
                AvatarSetupView { todo: old(self)@.todo.drop_first(), ..old(self)@ }
            } else {
                AvatarSetupView { stage: AvatarStage::Read, ..old(self)@ }
            }),
    {
        proof {
            use_type_invariant(&*self);
        }
        if found {
            self.advance();
        } else {
            self.stage = AvatarStage::Read;
        }
    }

    /// Takes note of what the file of the avatar at hand holds, and gives what
    /// to upload.
    pub fn on_read(&mut self, content: Option<Vec<u8>>) -> (upload: Option<ObjectRequest>)
        requires
            old(self)@.is_running(),
            old(self)@.stage == AvatarStage::Read,
        ensures
            final(self)@ == old(self)@.after_read(content is Some),
            final(self)@ == (if content is Some {
                AvatarSetupView { stage: AvatarStage::Upload, ..old(self)@ }
            } else {
                AvatarSetupView {
                    todo: old(self)@.todo.drop_first(),
                    stage: AvatarStage::Ask,
                    ..old(self)@
                }
            }),
            match content {
                Some(content) => upload matches Some(request) && request@ == (
                ObjectRequestView::Put {
                    bucket: old(self)@.bucket,
                    key: old(self)@.todo[0].1,
                    content: content@,
                }),
                None => upload is None,
            },
    {
        proof {
            use_type_invariant(&*self);
        }
        match content {
            Some(content) => {
                let avatar = &self.avatars[self.next];
                assert(self@.todo[0] == (avatar.0@, avatar.1@));
                let request = ObjectRequest::Put {
                    bucket: self.bucket.clone(),
                    key: avatar.1.clone(),
                    content,
                };
                self.stage = AvatarStage::Upload;
                Some(request)
            },
            None => {
                self.advance();
                None
            },
        }
    }

    /// Takes note of what came of the upload.
    pub fn on_uploaded(&mut self, failure: Option<Error>)
        requires
            old(self)@.is_running(),
            old(self)@.stage == AvatarStage::Upload,
        ensures
            final(self)@ == old(self)@.after_uploaded(optional_error(failure)),
            final(self)@ == (match failure {
                Some(error) => AvatarSetupView { failure: Some(error@), ..old(self)@ },
                None => AvatarSetupView {
                    todo: old(self)@.todo.drop_first(),
                    stage: AvatarStage::Ask,
                    ..old(self)@
                },
            }),
    {
        proof {
            use_type_invariant(&*self);
        }
        match failure {
            Some(error) => {
                self.failure = Some(error);
            },
            None => {
                self.advance();
            },
        }
    }

    /// How it ended.
    pub fn finish(self) -> (outcome: Result<(), Error>)
        ensures
            match outcome {
                Ok(_) => self@.failure is None,
                Err(error) => self@.failure == Some(error@),
            },
    {
        match self.failure {
            Some(error) => Err(error),
            None => Ok(()),
        }
    }
}

/// What a store without faults answers about a bucket.
pub open spec fn head_outcome(buckets: Set<Seq<char>>, bucket: Seq<char>) -> HeadOutcome {
    if buckets.contains(bucket) {
        HeadOutcome::Found
    } else {
        HeadOutcome::ServiceError(NOT_FOUND)
    }
}

/// The next step of setting up the buckets of a store without faults.
pub open spec fn setup_step(setup: BucketSetupView, buckets: Set<Seq<char>>) -> (
    BucketSetupView,
    Set<Seq<char>>,
) {
    match setup.request() {
        Some(BucketRequestView::Head { bucket }) => (
            setup.after_head(head_outcome(buckets, bucket)),
            buckets,
        ),
        Some(BucketRequestView::Create { bucket }) => (
            setup.after_create(None),
            buckets.insert(bucket),
        ),
        None => (setup, buckets),
    }
}

/// Several steps of setting up the buckets of a store without faults.
pub open spec fn setup_steps(setup: BucketSetupView, buckets: Set<Seq<char>>, count: nat) -> (
    BucketSetupView,
    Set<Seq<char>>,
)
    decreases count,
{
    if count == 0 {
        (setup, buckets)
    } else {
        let (before, held) = setup_steps(setup, buckets, (count - 1) as nat);
        setup_step(before, held)
    }
}

/// In a store without faults the setting up ends after four steps at most, and
/// then both buckets are there, beside those that were.
pub proof fn law_both_buckets_are_there_in_the_end(
    files: Seq<char>,
    avatars: Seq<char>,
    buckets: Set<Seq<char>>,
)
    ensures
        ({
            let start = BucketSetupView {
                files,
                avatars,
                stage: SetupStage::CheckFiles,
                failure: None,
            };
            let (setup, held) = setup_steps(start, buckets, 4);
            &&& setup.stage == SetupStage::Done
            &&& setup.failure is None
            &&& held == buckets.insert(files).insert(avatars)
        }),
{
    reveal_with_fuel(setup_steps, 5);
    if buckets.contains(files) {
        assert(buckets.insert(files) =~= buckets);
    }
    if buckets.insert(files).contains(avatars) {
        assert(buckets.insert(files).insert(avatars) =~= buckets.insert(files));
    }
}

/// Setting up avatars to its end, with the files on disk, in a store without
/// faults that holds some avatars: what is left to do, and what the store holds
/// then.
pub open spec fn avatar_run(
    setup: AvatarSetupView,
    files: Map<Seq<char>, Seq<u8>>,
    held: Map<Seq<char>, Seq<u8>>,
) -> (AvatarSetupView, Map<Seq<char>, Seq<u8>>)
    decreases
            setup.todo.len(),
            (match setup.stage {
                AvatarStage::Ask => 2int,
                AvatarStage::Read => 1,
                AvatarStage::Upload => 0,
            }),
{
    if !setup.is_running() {
        (setup, held)
    } else {
        let (path, key) = setup.todo[0];
        match setup.stage {
            AvatarStage::Ask => avatar_run(
                setup.after_asked(held.contains_key(key)),
                files,
                held,
            ),
            AvatarStage::Read => avatar_run(
                setup.after_read(files.contains_key(path)),
                files,
                held,
            ),
            AvatarStage::Upload => avatar_run(
                setup.after_uploaded(None),
                files,
                held.insert(key, files[path]),
            ),
        }
    }
}

/// Whether an avatar is the first of the list that has its key and a file that
/// can be read.
pub open spec fn is_first_readable(
    avatars: Seq<(Seq<char>, Seq<char>)>,
    files: Map<Seq<char>, Seq<u8>>,
    i: int,
) -> bool {
    &&& 0 <= i < avatars.len()
    &&& files.contains_key(avatars[i].0)
    &&& forall|j: int|
        0 <= j < i ==> (#[trigger] avatars[j]).1 != avatars[i].1 || !files.contains_key(
            avatars[j].0,
        )
}

/// In a store without faults the setting up of avatars ends, and then every
/// avatar is there whose file can be read. Those that were there are left as
/// they are; each of the others holds what the first readable file for it
/// holds, and there are no more.
pub proof fn law_readable_avatars_are_there_in_the_end(
    bucket: Seq<char>,
    avatars: Seq<(Seq<char>, Seq<char>)>,
    files: Map<Seq<char>, Seq<u8>>,
    held: Map<Seq<char>, Seq<u8>>,
)
    ensures
        ({
            let start = AvatarSetupView {
                bucket,
                todo: avatars,
                stage: AvatarStage::Ask,
                failure: None,
            };
            let (setup, after) = avatar_run(start, files, held);
            &&& setup.failure is None
            &&& !setup.is_running()
            &&& forall|i: int|
                0 <= i < avatars.len() && files.contains_key((#[trigger] avatars[i]).0)
                    ==> after.contains_key(avatars[i].1)
            &&& forall|key: Seq<char>| #[trigger]
                held.contains_key(key) ==> after.contains_key(key) && after[key] == held[key]
            &&& forall|key: Seq<char>| #[trigger]
                after.contains_key(key) && !held.contains_key(key) ==> exists|i: int|
                    #[trigger] is_first_readable(avatars, files, i) && avatars[i].1 == key
                        && after[key] == files[avatars[i].0]
        }),
    decreases avatars.len(),
{
    let start = AvatarSetupView {
        bucket,
        todo: avatars,
        stage: AvatarStage::Ask,
        failure: None,
    };
    if avatars.len() > 0 {
        reveal_with_fuel(avatar_run, 4);
        let (path, key) = avatars[0];
        let rest = avatars.drop_first();
        let uploads = !held.contains_key(key) && files.contains_key(path);
        let then = if uploads {
            held.insert(key, files[path])
        } else {
            held
        };
        law_readable_avatars_are_there_in_the_end(bucket, rest, files, then);
        let (setup, after) = avatar_run(start, files, held);
        assert((setup, after) == avatar_run(start.next(), files, then));
        assert forall|i: int|
            0 <= i < avatars.len() && files.contains_key((#[trigger] avatars[i]).0) implies
            after.contains_key(avatars[i].1) by {
            if i > 0 {
                assert(rest[i - 1] == avatars[i]);
            } else {
                assert(then.contains_key(key));
            }
        }
        assert forall|any: Seq<char>| #[trigger] held.contains_key(any) implies after.contains_key(
            any,
        ) && after[any] == held[any] by {
            assert(then.contains_key(any));
        }
        assert forall|any: Seq<char>| #[trigger]
            after.contains_key(any) && !held.contains_key(any) implies exists|i: int|
            #[trigger] is_first_readable(avatars, files, i) && avatars[i].1 == any && after[any]
                == files[avatars[i].0] by {
            if then.contains_key(any) {
                assert(is_first_readable(avatars, files, 0));
            } else {
                let i = choose|i: int| #[trigger]
                    is_first_readable(rest, files, i) && rest[i].1 == any && after[any]
                        == files[rest[i].0];
                assert(rest[i] == avatars[i + 1]);
                assert forall|j: int| 0 <= j < i + 1 implies (#[trigger] avatars[j]).1 != any
                    || !files.contains_key(avatars[j].0) by {
                    if j > 0 {
                        assert(rest[j - 1] == avatars[j]);
                    }
                }
                assert(is_first_readable(avatars, files, i + 1));
            }
        }
    }
}

/// Whether a bucket is there: it is where it is found, it is not where the service
/// does not know it, and anything else is an error.
pub proof fn law_buckets_are_known_by_their_answer(status: u16, text: String)
    ensures
        bucket_exists(HeadOutcome::Found) == Ok::<bool, ErrorView>(true),
        bucket_exists(HeadOutcome::ServiceError(404)) == Ok::<bool, ErrorView>(false),
        status != 404 ==> bucket_exists(HeadOutcome::ServiceError(status)) is Err,
        bucket_exists(HeadOutcome::Other(text)) == Err::<bool, ErrorView>(
            ErrorView { kind: ErrorKind::Internal, cause: None, details: Some(text@) },
        ),
{
}

/// A failure ends the setting up of the buckets: nothing more is asked of the
/// store, and the failure is kept.
pub proof fn law_a_failure_ends_the_setting_up_of_buckets(
    setup: BucketSetupView,
    status: u16,
    failure: ErrorView,
)
    ensures
        status != 404 ==> setup.after_head(HeadOutcome::ServiceError(status)).request() is None,
        setup.after_create(Some(failure)).request() is None,
        setup.after_create(Some(failure)).failure == Some(failure),
{
}

/// A request shows all that it asks for.
pub proof fn law_requests_show_what_they_ask_for(request: ObjectRequest, other: BucketRequest)
    ensures
        match request {
            ObjectRequest::Head { bucket, key } => request@ == (ObjectRequestView::Head {
                bucket: bucket@,
                key: key@,
            }),
            ObjectRequest::Put { bucket, key, content } => request@ == (ObjectRequestView::Put {
                bucket: bucket@,
                key: key@,
                content: content@,
            }),
            ObjectRequest::Fetch { bucket, key } => request@ == (ObjectRequestView::Fetch {
                bucket: bucket@,
                key: key@,
            }),
            ObjectRequest::Delete { bucket, key } => request@ == (ObjectRequestView::Delete {
                bucket: bucket@,
                key: key@,
            }),
        },
        match other {
            BucketRequest::Head { bucket } => other@ == (BucketRequestView::Head {
                bucket: bucket@,
            }),
            BucketRequest::Create { bucket } => other@ == (BucketRequestView::Create {
                bucket: bucket@,
            }),
        },
{
}

/// A task shows what is to be done.
pub proof fn law_tasks_show_what_is_to_be_done(task: AvatarTask)
    ensures
        match task {
            AvatarTask::Ask(request) => task@ == AvatarTaskView::Ask(request@),
            AvatarTask::Read(path) => task@ == AvatarTaskView::Read(path@),
            AvatarTask::Wait => task@ is Wait,
        },
{
}

} // verus!
