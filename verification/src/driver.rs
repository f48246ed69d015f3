use crate::error::UploadError;
use crate::plan::{PartDescriptor, PlanView, UploadPlan};
use crate::progress::ProgressState;
use crate::plan::{lemma_part_within_file, lemma_parts_tile};
use crate::session::{
    lemma_numbered_in_order_covers, lemma_ordered_parts_are_kept, CommitRequest,
    CommitRequestView, CompletedPart, CompletedPartView, SessionView, UploadSession,
};
use vstd::pervasive::unreached;
use vstd::prelude::*;

verus! {

/// Where an upload stands.
#[derive(Clone, Copy, Debug, PartialEq, Eq, Structural)]
pub enum Phase {
    /// The session is being opened.
    Opening,
    /// Parts are being sent, one at a time in the order of their numbers.
    Uploading,
    /// All parts are sent and the commit is under way.
    Committing,
    /// The commit went through: the object exists.
    Done,
    /// The upload was given up.
    Failed,
}

/// What the caller is to do for the upload.
#[derive(Clone, Copy, Debug, PartialEq, Eq, Structural)]
pub enum Action {
    /// Open a multipart session for the destination.
    OpenSession,
    /// Read this byte range from the file and send it under this part number.
    UploadPart(PartDescriptor),
    /// Send the commit request that the driver holds.
    Commit,
    /// Nothing is left to do.
    Done,
    /// Stop: the upload has failed with this error.
    Abort(UploadError),
}

/// What the caller reports back: the outcome of the request it made last.
#[derive(Clone, Debug, PartialEq, Eq)]
pub enum Event {
    /// The store opened a session under this token.
    SessionOpened { session_id: String },
    /// The store could not open a session.
    SessionFailed,
    /// The store took the part with this number and answered with this tag.
    PartUploaded { part_number: u32, integrity_tag: String },
    /// The store did not take the part with this number.
    PartFailed { part_number: u32 },
    /// The store committed the session.
    Committed,
    /// The store could not commit the session.
    CommitFailed,
}

/// The mathematical content of an [`Event`].
pub enum EventView {
    SessionOpened { session_id: Seq<char> },
    SessionFailed,
    PartUploaded { part_number: nat, integrity_tag: Seq<char> },
    PartFailed { part_number: nat },
    Committed,
    CommitFailed,
}

impl View for Event {
    type V = EventView;

    open spec fn view(&self) -> EventView {
        match *self {
            Event::SessionOpened { session_id } => EventView::SessionOpened {
                session_id: session_id@,
            },
            Event::SessionFailed => EventView::SessionFailed,
            Event::PartUploaded { part_number, integrity_tag } => EventView::PartUploaded {
                part_number: part_number as nat,
                integrity_tag: integrity_tag@,
            },
            Event::PartFailed { part_number } => EventView::PartFailed {
                part_number: part_number as nat,
            },
            Event::Committed => EventView::Committed,
            Event::CommitFailed => EventView::CommitFailed,
        }
    }
}

/// The mathematical content of an [`UploadDriver`].
pub struct DriverView {
    pub plan: PlanView,
    pub container: Seq<char>,
    pub object_key: Seq<char>,
    pub phase: Phase,
    /// The session, once the store has opened one.
    pub session: Option<SessionView>,
    /// The parts that the store has taken, in the order in which it took them.
    pub completed: Seq<CompletedPartView>,
    pub bytes_done: nat,
    /// The error, once the upload has failed.
    pub failure: Option<UploadError>,
}

impl DriverView {
    /// The session is there, belongs to the destination, and is open or used up as asked.
    pub open spec fn has_session(self, open: bool) -> bool {
        &&& self.session is Some
        &&& self.session->Some_0.container == self.container
        &&& self.session->Some_0.object_key == self.object_key
        &&& self.session->Some_0.open == open
    }

    /// What holds of every driver: the parts taken so far are the first parts
    /// of the plan in order, the bytes done are the bytes of those parts, and
    /// the phase agrees with the session, the parts and the error.
    pub open spec fn wf(self) -> bool {
        &&& self.plan.valid()
        &&& self.plan.fits()
        &&& self.completed.len() <= self.plan.part_count
        &&& forall|i: int|
            0 <= i < self.completed.len() ==> (#[trigger] self.completed[i]).part_number == i + 1
        &&& self.bytes_done == self.plan.bytes_in(self.completed.len())
        &&& match self.phase {
            Phase::Opening => {
                &&& self.session is None
                &&& self.completed.len() == 0
                &&& self.failure is None
            },
            Phase::Uploading => {
                &&& self.has_session(true)
                &&& self.completed.len() < self.plan.part_count
                &&& self.failure is None
            },
            Phase::Committing | Phase::Done => {
                &&& self.has_session(false)
                &&& self.completed.len() == self.plan.part_count
                &&& self.failure is None
            },
            Phase::Failed => match self.failure {
                Some(UploadError::Session) => {
                    ||| self.session is None && self.completed.len() == 0
                    ||| self.has_session(false) && self.completed.len() == self.plan.part_count
                },
                Some(UploadError::PartUpload { part_number }) => {
                    &&& self.has_session(true)
                    &&& self.completed.len() < self.plan.part_count
                    &&& part_number == self.completed.len() + 1
                },
                _ => false,
            },
        }
    }

    /// The request that the driver waits to see answered, or how it ended.
    pub open spec fn pending(self) -> Action {
        match self.phase {
            Phase::Opening => Action::OpenSession,
            Phase::Uploading => Action::UploadPart(self.plan.part(self.completed.len())),
            Phase::Committing => Action::Commit,
            Phase::Done => Action::Done,
            Phase::Failed => Action::Abort(self.failure->Some_0),
        }
    }

    /// The commit request of an upload whose parts are all taken.
    pub open spec fn commit_request(self) -> CommitRequestView {
        CommitRequestView {
            session_id: self.session->Some_0.session_id,
            container: self.container,
            object_key: self.object_key,
            parts: self.completed,
        }
    }

    /// The driver as it is once the upload has failed with `error`.
    pub open spec fn failed(self, error: UploadError) -> DriverView {
        DriverView { phase: Phase::Failed, failure: Some(error), ..self }
    }

    /// The driver after `event`. An event that does not answer the pending
    /// request changes nothing; neither does any event after the end.
    pub open spec fn after(self, event: EventView) -> DriverView {
        match (self.phase, event) {
            (Phase::Opening, EventView::SessionOpened { session_id }) => DriverView {
                phase: Phase::Uploading,
                session: Some(
                    SessionView {
                        session_id,
                        container: self.container,
                        object_key: self.object_key,
                        open: true,
                    },
                ),
                ..self
            },
            (Phase::Opening, EventView::SessionFailed) => self.failed(UploadError::Session),
            (Phase::Uploading, EventView::PartUploaded { part_number, integrity_tag }) => {
                if part_number != self.completed.len() + 1 {
                    self
                } else {
                    let completed = self.completed.push(
                        CompletedPartView { part_number, integrity_tag },
                    );
                    if completed.len() < self.plan.part_count {
                        DriverView {
                            completed,
                            bytes_done: self.plan.bytes_in(completed.len()),
                            ..self
                        }
                    } else {
                        DriverView {
                            phase: Phase::Committing,
                            session: Some(SessionView { open: false, ..self.session->Some_0 }),
                            completed,
                            bytes_done: self.plan.bytes_in(completed.len()),
                            ..self
                        }
                    }
                }
            },
            (Phase::Uploading, EventView::PartFailed { part_number }) => {
                if part_number != self.completed.len() + 1 {
                    self
                } else {
                    self.failed(UploadError::PartUpload { part_number: part_number as u32 })
                }
            },
            (Phase::Committing, EventView::Committed) => DriverView { phase: Phase::Done, ..self },
            (Phase::Committing, EventView::CommitFailed) => self.failed(UploadError::Session),
            _ => self,
        }
    }
}

/// The decisions of one upload. The driver says which request comes next;
/// the caller makes the request and reports its outcome with [`UploadDriver::step`].
#[derive(Debug)]
pub struct UploadDriver {
    plan: UploadPlan,
    container: String,
    object_key: String,
    phase: Phase,
    session: Option<UploadSession>,
    /// The parts taken so far, until they go into the commit request.
    completed: Vec<CompletedPart>,
    /// The commit request, once all parts are taken.
    request: Option<CommitRequest>,
    progress: ProgressState,
    failure: Option<UploadError>,
}

impl View for UploadDriver {
    type V = DriverView;

    closed spec fn view(&self) -> DriverView {
        DriverView {
            plan: self.plan@,
            container: self.container@,
            object_key: self.object_key@,
            phase: self.phase,
            session: match self.session {
                Some(session) => Some(session@),
                None => None,
            },
            completed: match self.request {
                Some(request) => request@.parts,
                None => self.completed.deep_view(),
            },
            bytes_done: self.progress@.bytes_done,
            failure: self.failure,
        }
    }
}

impl UploadDriver {
    #[verifier::type_invariant]
    closed spec fn inv(&self) -> bool {
        &&& self@.wf()
        &&& self.progress@.total_size == self.plan@.total_size
        &&& self.request is Some <==> self@.completed.len() == self.plan@.part_count
        &&& self.request is Some ==> self.completed@.len() == 0 && self.request->Some_0@
            == self@.commit_request()
    }

    /// The driver of an upload of the planned file to `object_key` in
    /// `container`. Its first request is to open a session.
    pub fn new(plan: UploadPlan, container: String, object_key: String) -> (driver: UploadDriver)
        ensures
            driver@ == (DriverView {
                plan: plan@,
                container: container@,
                object_key: object_key@,
                phase: Phase::Opening,
                session: None,
                completed: Seq::empty(),
                bytes_done: 0,
                failure: None,
            }),
            driver@.wf(),
    {
        proof {
            use_type_invariant(&plan);
        }
        let progress = ProgressState::new(plan.total_size());
        let driver = UploadDriver {
            plan,
            container,
            object_key,
            phase: Phase::Opening,
            session: None,
            completed: Vec::new(),
            request: None,
            progress,
            failure: None,
        };
        assert(driver@.completed =~= Seq::empty());
        driver
    }

    /// The plan that the driver follows.
    pub fn plan(&self) -> (plan: UploadPlan)
        ensures
            plan@ == self@.plan,
    {
        self.plan
    }

    /// Where the upload stands.
    pub fn phase(&self) -> (phase: Phase)
        ensures
            phase == self@.phase,
            self@.wf(),
    {
        proof {
            use_type_invariant(self);
        }
        self.phase
    }

    /// How many bytes the store has taken, of how many.
    pub fn progress(&self) -> (progress: ProgressState)
        ensures
            progress@.bytes_done == self@.bytes_done,
            progress@.total_size == self@.plan.total_size,
    {
        proof {
            use_type_invariant(self);
        }
        self.progress
    }

    /// How many parts the store has taken.
    pub fn parts_done(&self) -> (count: u32)
        ensures
            count == self@.completed.len(),
    {
        proof {
            use_type_invariant(self);
        }
        let plan_count: u32 = self.plan.part_count();
        match &self.request {
            Some(_) => plan_count,
            None => {
                let held: usize = self.completed.len();
                held as u32
            },
        }
    }

    /// The session, once the store has opened one.
    pub fn session(&self) -> (session: Option<&UploadSession>)
        ensures
            match session {
                Some(s) => self@.session == Some(s@),
                None => self@.session is None,
            },
    {
        self.session.as_ref()
    }

    /// The commit request, once every part is taken: the parts of the plan
    /// by ascending number, each with the tag that the store gave for it.
    pub fn commit_request(&self) -> (request: Option<&CommitRequest>)
        ensures
            match request {
                Some(r) => self@.completed.len() == self@.plan.part_count && r@
                    == self@.commit_request(),
                None => self@.completed.len() < self@.plan.part_count,
            },
    {
        proof {
            use_type_invariant(self);
        }
        self.request.as_ref()
    }

    /// The error, once the upload has failed.
    pub fn failure(&self) -> (failure: Option<UploadError>)
        ensures
            failure == self@.failure,
    {
        self.failure
    }

    /// The request that the driver waits to see answered, or how it ended.
    pub fn pending(&self) -> (action: Action)
        ensures
            action == self@.pending(),
    {
        proof {
            use_type_invariant(self);
        }
        match self.phase {
            Phase::Opening => Action::OpenSession,
            Phase::Uploading => {
                let index: u32 = self.completed.len() as u32;
                match self.plan.part(index) {
                    Some(part) => Action::UploadPart(part),
                    None => unreached(),
                }
            },
            Phase::Committing => Action::Commit,
            Phase::Done => Action::Done,
            Phase::Failed => match self.failure {
                Some(error) => Action::Abort(error),
                None => unreached(),
            },
        }
    }

    /// Takes the outcome of the last request and says what to do next.
    ///
    /// The driver moves as [`DriverView::after`] says: an opened session
    /// starts the first part; a part that the store has taken is recorded,
    /// its bytes are counted, and the next part or the commit follows; a
    /// failed request ends the upload with its error. An event that does not
    /// answer the pending request changes nothing.
    pub fn step(self, event: Event) -> (result: (UploadDriver, Action))
        ensures
            result.0@ == self@.after(event@),
            result.0@.wf(),
            result.1 == result.0@.pending(),
    {
        proof {
            use_type_invariant(&self);
            use_type_invariant(&self.plan);
        }
        let ghost before = self@;
        let UploadDriver {
            plan,
            container,
            object_key,
            phase,
            session,
            completed,
            request,
            progress,
            failure,
        } = self;
        let next = match (phase, event) {
            (Phase::Opening, Event::SessionOpened { session_id }) => {
                let opened = UploadSession::new(session_id, container.clone(), object_key.clone());
                UploadDriver {
                    plan,
                    container,
                    object_key,
                    phase: Phase::Uploading,
                    session: Some(opened),
                    completed,
                    request,
                    progress,
                    failure,
                }
            },
            (Phase::Opening, Event::SessionFailed) => UploadDriver {
                plan,
                container,
                object_key,
                phase: Phase::Failed,
                session,
                completed,
                request,
                progress,
                failure: Some(UploadError::Session),
            },
            (Phase::Uploading, Event::PartUploaded { part_number, integrity_tag }) => {
                let index: u32 = completed.len() as u32;
                if part_number != index + 1 {
                    UploadDriver {
                        plan,
                        container,
                        object_key,
                        phase,
                        session,
                        completed,
                        request,
                        progress,
                        failure,
                    }
                } else {
                    let length: u64 = match plan.part(index) {
                        Some(part) => part.length,
                        None => unreached(),
                    };
                    proof {
                        lemma_parts_tile(plan@, index as nat);
                        lemma_part_within_file(plan@, index as nat);
                    }
                    let mut completed = completed;
                    let mut progress = progress;
                    let ghost held = completed.deep_view();
                    completed.push(CompletedPart { part_number, integrity_tag });
                    progress.advance(length);
                    let ghost taken = completed.deep_view();
                    assert(taken =~= held.push(
                        CompletedPartView {
                            part_number: part_number as nat,
                            integrity_tag: integrity_tag@,
                        },
                    ));
                    if index + 1 < plan.part_count() {
                        UploadDriver {
                            plan,
                            container,
                            object_key,
                            phase,
                            session,
                            completed,
                            request,
                            progress,
                            failure,
                        }
                    } else {
                        let mut session = match session {
                            Some(s) => s,
                            None => unreached(),
                        };
                        proof {
                            lemma_numbered_in_order_covers(taken);
                        }
                        let request = match session.finalize(&plan, completed) {
                            Ok(request) => request,
                            Err(_) => unreached(),
                        };
                        proof {
                            lemma_ordered_parts_are_kept(taken, request@.parts);
                        }
                        UploadDriver {
                            plan,
                            container,
                            object_key,
                            phase: Phase::Committing,
                            session: Some(session),
                            completed: Vec::new(),
                            request: Some(request),
                            progress,
                            failure,
                        }
                    }
                }
            },
            (Phase::Uploading, Event::PartFailed { part_number }) => {
                let index: u32 = completed.len() as u32;
                if part_number != index + 1 {
                    UploadDriver {
                        plan,
                        container,
                        object_key,
                        phase,
                        session,
                        completed,
                        request,
                        progress,
                        failure,
                    }
                } else {
                    UploadDriver {
                        plan,
                        container,
                        object_key,
                        phase: Phase::Failed,
                        session,
                        completed,
                        request,
                        progress,
                        failure: Some(UploadError::PartUpload { part_number }),
                    }
                }
            },
            (Phase::Committing, Event::Committed) => UploadDriver {
                plan,
                container,
                object_key,
                phase: Phase::Done,
                session,
                completed,
                request,
                progress,
                failure,
            },
            (Phase::Committing, Event::CommitFailed) => UploadDriver {
                plan,
                container,
                object_key,
                phase: Phase::Failed,
                session,
                completed,
                request,
                progress,
                failure: Some(UploadError::Session),
            },
            (_, _) => UploadDriver {
                plan,
                container,
                object_key,
                phase,
                session,
                completed,
                request,
                progress,
                failure,
            },
        };
        let action = next.pending();
        (next, action)
    }
}

} // verus!
