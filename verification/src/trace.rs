use crate::driver::{Action, DriverView, EventView, Phase};
use crate::error::UploadError;
use crate::plan::{lemma_part_within_file, lemma_parts_tile, PlanView};
use crate::session::{
    covers_exactly, lemma_numbered_in_order_covers, CompletedPartView, SessionView,
};
use vstd::prelude::*;

verus! {

impl DriverView {
    /// The driver of a fresh upload.
    pub open spec fn start(plan: PlanView, container: Seq<char>, object_key: Seq<char>) -> DriverView {
        DriverView {
            plan,
            container,
            object_key,
            phase: Phase::Opening,
            session: None,
            completed: Seq::empty(),
            bytes_done: 0,
            failure: None,
        }
    }

    /// The driver after all of `events`, the first of them first.
    pub open spec fn after_all(self, events: Seq<EventView>) -> DriverView
        decreases events.len(),
    {
        if events.len() == 0 {
            self
        } else {
            self.after_all(events.drop_last()).after(events.last())
        }
    }
}

/// The parts that a store confirms when it answers part `i + 1` with `tags[i]`.
pub open spec fn tagged_parts(tags: Seq<Seq<char>>) -> Seq<CompletedPartView> {
    Seq::new(
        tags.len(),
        |i: int| CompletedPartView { part_number: (i + 1) as nat, integrity_tag: tags[i] },
    )
}

/// The events of a store that takes every part, in order, with these tags.
pub open spec fn part_events(tags: Seq<Seq<char>>) -> Seq<EventView> {
    Seq::new(
        tags.len(),
        |i: int| EventView::PartUploaded { part_number: (i + 1) as nat, integrity_tag: tags[i] },
    )
}

/// The events of an upload in which every request succeeds.
pub open spec fn full_run(session_id: Seq<char>, tags: Seq<Seq<char>>) -> Seq<EventView> {
    seq![EventView::SessionOpened { session_id }] + part_events(tags) + seq![EventView::Committed]
}

/// Every step keeps the driver well-formed.
pub proof fn lemma_step_keeps_wf(driver: DriverView, event: EventView)
    requires
        driver.wf(),
    ensures
        driver.after(event).wf(),
{
    let next = driver.after(event);
    let held = driver.completed.len();
    if driver.phase == Phase::Uploading {
        lemma_parts_tile(driver.plan, held);
        lemma_part_within_file(driver.plan, held);
        if let EventView::PartUploaded { part_number, integrity_tag } = event {
            if part_number == held + 1 {
                assert forall|i: int| 0 <= i < next.completed.len() implies (
                #[trigger] next.completed[i]).part_number == i + 1 by {
                    if i < held {
                        assert(next.completed[i] == driver.completed[i]);
                    }
                }
            }
        }
    }
}

/// The count of bytes done never shrinks in a step and never passes the
/// size of the file.
pub proof fn lemma_step_progress(driver: DriverView, event: EventView)
    requires
        driver.wf(),
    ensures
        driver.bytes_done <= driver.after(event).bytes_done <= driver.plan.total_size,
{
    let held = driver.completed.len();
    lemma_step_keeps_wf(driver, event);
    if held < driver.plan.part_count {
        lemma_parts_tile(driver.plan, held);
        lemma_part_within_file(driver.plan, held);
    }
    let next = driver.after(event);
    if next.completed.len() < driver.plan.part_count {
        lemma_part_within_file(driver.plan, next.completed.len());
    }
}

/// Once every part is taken, all bytes are done, and the parts held are
/// exactly the parts of the plan: as many as planned, numbered from 1 on
/// without a gap or a repeat.
pub proof fn lemma_all_parts_at_commit(driver: DriverView)
    requires
        driver.wf(),
        driver.phase == Phase::Committing || driver.phase == Phase::Done,
    ensures
        driver.bytes_done == driver.plan.total_size,
        driver.completed.len() == driver.plan.part_count,
        covers_exactly(driver.completed, driver.plan.part_count),
        forall|i: int|
            0 <= i < driver.completed.len() ==> (#[trigger] driver.completed[i]).part_number == i
                + 1,
{
    lemma_numbered_in_order_covers(driver.completed);
}

/// A part is requested only while the session is open, and it is the part
/// of the plan that follows the parts taken so far; a commit is requested
/// only when every part is taken.
pub proof fn lemma_requests_follow_plan(driver: DriverView)
    requires
        driver.wf(),
    ensures
        driver.pending() is UploadPart ==> {
            &&& driver.has_session(true)
            &&& driver.completed.len() < driver.plan.part_count
            &&& driver.pending() == Action::UploadPart(driver.plan.part(driver.completed.len()))
            &&& driver.plan.part(driver.completed.len()).part_number == driver.completed.len() + 1
            &&& driver.plan.part(driver.completed.len()).offset == driver.bytes_done
        },
        driver.pending() is Commit ==> driver.completed.len() == driver.plan.part_count,
        driver.pending() is Done ==> driver.completed.len() == driver.plan.part_count,
{
    if driver.phase == Phase::Uploading {
        lemma_part_within_file(driver.plan, driver.completed.len());
    }
}

/// An upload that has ended stays as it ended: no event moves a driver that
/// is done or has failed, so a failed upload never asks for another part or
/// for the commit.
pub proof fn lemma_end_is_final(driver: DriverView, events: Seq<EventView>)
    requires
        driver.phase == Phase::Failed || driver.phase == Phase::Done,
    ensures
        driver.after_all(events) == driver,
    decreases events.len(),
{
    if events.len() > 0 {
        lemma_end_is_final(driver, events.drop_last());
    }
}

/// A part that the store refuses ends the upload with the number of that
/// part; the parts taken before stay recorded and the session stays open.
pub proof fn lemma_refused_part_fails(driver: DriverView)
    requires
        driver.wf(),
        driver.phase == Phase::Uploading,
    ensures
        ({
            let number = driver.completed.len() + 1;
            let next = driver.after(EventView::PartFailed { part_number: number as nat });
            &&& next.phase == Phase::Failed
            &&& next.pending() == Action::Abort(
                UploadError::PartUpload { part_number: number as u32 },
            )
            &&& next.completed == driver.completed
            &&& next.has_session(true)
            &&& number <= driver.plan.part_count <= u32::MAX
        }),
{
}

/// A run keeps the driver well-formed.
pub proof fn lemma_run_keeps_wf(driver: DriverView, events: Seq<EventView>)
    requires
        driver.wf(),
    ensures
        driver.after_all(events).wf(),
    decreases events.len(),
{
    if events.len() > 0 {
        lemma_run_keeps_wf(driver, events.drop_last());
        lemma_step_keeps_wf(driver.after_all(events.drop_last()), events.last());
    }
}

/// Running `first` and then `second` is running the two end to end.
pub proof fn lemma_run_in_two(driver: DriverView, first: Seq<EventView>, second: Seq<EventView>)
    ensures
        driver.after_all(first + second) == driver.after_all(first).after_all(second),
    decreases second.len(),
{
    if second.len() == 0 {
        assert(first + second =~= first);
    } else {
        lemma_run_in_two(driver, first, second.drop_last());
        assert((first + second).drop_last() =~= first + second.drop_last());
        assert((first + second).last() == second.last());
    }
}

/// Over a run the count of bytes done never shrinks: what is reported after
/// `shorter` events is at most what is reported after `longer` events, and
/// never more than the size of the file.
pub proof fn lemma_run_progress(
    driver: DriverView,
    events: Seq<EventView>,
    shorter: int,
    longer: int,
)
    requires
        driver.wf(),
        0 <= shorter <= longer <= events.len(),
    ensures
        driver.after_all(events.take(shorter)).bytes_done <= driver.after_all(
            events.take(longer),
        ).bytes_done <= driver.plan.total_size,
        driver.after_all(events.take(longer)).plan == driver.plan,
    decreases longer - shorter,
{
    lemma_run_keeps_wf(driver, events.take(longer));
    lemma_run_keeps_plan(driver, events.take(longer));
    let end = driver.after_all(events.take(longer));
    if end.completed.len() < end.plan.part_count {
        lemma_part_within_file(end.plan, end.completed.len());
    }
    if shorter < longer {
        let before = events.take(longer - 1);
        lemma_run_progress(driver, events, shorter, longer - 1);
        lemma_run_keeps_wf(driver, before);
        assert(events.take(longer).drop_last() =~= before);
        assert(events.take(longer).last() == events[longer - 1]);
        assert(end == driver.after_all(before).after(events[longer - 1]));
        lemma_step_progress(driver.after_all(before), events[longer - 1]);
    }
}

/// A run changes neither the plan nor the destination.
pub proof fn lemma_run_keeps_plan(driver: DriverView, events: Seq<EventView>)
    ensures
        driver.after_all(events).plan == driver.plan,
        driver.after_all(events).container == driver.container,
        driver.after_all(events).object_key == driver.object_key,
    decreases events.len(),
{
    if events.len() > 0 {
        lemma_run_keeps_plan(driver, events.drop_last());
    }
}

/// The driver after the session is open and the store has taken the first
/// `taken` parts with the first `taken` of `tags`.
pub open spec fn with_parts_taken(
    plan: PlanView,
    container: Seq<char>,
    object_key: Seq<char>,
    session_id: Seq<char>,
    tags: Seq<Seq<char>>,
    taken: nat,
) -> DriverView {
    DriverView {
        plan,
        container,
        object_key,
        phase: if taken < plan.part_count {
            Phase::Uploading
        } else {
            Phase::Committing
        },
        session: Some(
            SessionView { session_id, container, object_key, open: taken < plan.part_count },
        ),
        completed: tagged_parts(tags).take(taken as int),
        bytes_done: plan.bytes_in(taken),
        failure: None,
    }
}

/// When the store takes one part after the other, the driver holds after
/// `taken` answers exactly the first `taken` parts, and has counted exactly
/// their bytes.
pub proof fn lemma_parts_in_order(
    plan: PlanView,
    container: Seq<char>,
    object_key: Seq<char>,
    session_id: Seq<char>,
    tags: Seq<Seq<char>>,
    taken: nat,
)
    requires
        plan.valid(),
        plan.fits(),
        tags.len() == plan.part_count,
        taken <= plan.part_count,
    ensures
        DriverView::start(plan, container, object_key).after_all(
            seq![EventView::SessionOpened { session_id }] + part_events(tags).take(taken as int),
        ) == with_parts_taken(plan, container, object_key, session_id, tags, taken),
    decreases taken,
{
    let start = DriverView::start(plan, container, object_key);
    let opening = seq![EventView::SessionOpened { session_id }];
    let events = opening + part_events(tags).take(taken as int);
    let goal = with_parts_taken(plan, container, object_key, session_id, tags, taken);
    if taken == 0 {
        assert(events =~= opening);
        assert(opening.drop_last() =~= Seq::<EventView>::empty());
        assert(start.after_all(opening.drop_last()) == start);
        assert(start.after_all(opening) == start.after(opening.last()));
        assert(tagged_parts(tags).take(0) =~= Seq::<CompletedPartView>::empty());
        assert(plan.bytes_in(0) == 0) by {
            assert(0 * plan.chunk_size == 0) by (nonlinear_arith);
        }
        assert(start.after(opening.last()) == goal);
    } else {
        let fewer = (taken - 1) as nat;
        lemma_parts_in_order(plan, container, object_key, session_id, tags, fewer);
        let before = with_parts_taken(plan, container, object_key, session_id, tags, fewer);
        assert(events.drop_last() =~= opening + part_events(tags).take(fewer as int));
        assert(events.last() == part_events(tags)[fewer as int]);
        assert(before.completed.len() == fewer);
        let next = before.after(events.last());
        assert(start.after_all(events) == next);
        assert(next.completed =~= tagged_parts(tags).take(taken as int));
        assert(next == goal);
    }
}

/// An upload in which every request succeeds ends done, with every byte
/// counted, and its commit request lists exactly the parts of the plan:
/// part `i + 1` with the tag that the store gave for it, in this order.
pub proof fn lemma_full_run_commits_every_part(
    plan: PlanView,
    container: Seq<char>,
    object_key: Seq<char>,
    session_id: Seq<char>,
    tags: Seq<Seq<char>>,
)
    requires
        plan.valid(),
        plan.fits(),
        tags.len() == plan.part_count,
    ensures
        ({
            let end = DriverView::start(plan, container, object_key).after_all(
                full_run(session_id, tags),
            );
            &&& end.phase == Phase::Done
            &&& end.pending() == Action::Done
            &&& end.bytes_done == plan.total_size
            &&& end.completed == tagged_parts(tags)
            &&& end.completed.len() == plan.part_count
            &&& covers_exactly(end.completed, plan.part_count)
            &&& end.commit_request().session_id == session_id
            &&& end.commit_request().parts == tagged_parts(tags)
        }),
{
    let start = DriverView::start(plan, container, object_key);
    let opening = seq![EventView::SessionOpened { session_id }];
    let closing = seq![EventView::Committed];
    lemma_parts_in_order(plan, container, object_key, session_id, tags, plan.part_count);
    assert(part_events(tags).take(plan.part_count as int) =~= part_events(tags));
    assert(tagged_parts(tags).take(plan.part_count as int) =~= tagged_parts(tags));
    lemma_run_in_two(start, opening + part_events(tags), closing);
    let sent = start.after_all(opening + part_events(tags));
    assert(closing.drop_last() =~= Seq::<EventView>::empty());
    assert(sent.after_all(closing.drop_last()) == sent);
    assert(sent.after_all(closing) == sent.after(EventView::Committed));
    lemma_numbered_in_order_covers(tagged_parts(tags));
}

/// When the store refuses part `taken + 1` after it has taken the parts
/// before it, the upload fails with that part's number, whatever is reported
/// afterwards: no further part and no commit is asked for.
pub proof fn lemma_failure_stops_the_run(
    plan: PlanView,
    container: Seq<char>,
    object_key: Seq<char>,
    session_id: Seq<char>,
    tags: Seq<Seq<char>>,
    taken: nat,
    afterwards: Seq<EventView>,
)
    requires
        plan.valid(),
        plan.fits(),
        tags.len() == plan.part_count,
        taken < plan.part_count,
    ensures
        ({
            let end = DriverView::start(plan, container, object_key).after_all(
                seq![EventView::SessionOpened { session_id }] + part_events(tags).take(
                    taken as int,
                ) + seq![EventView::PartFailed { part_number: taken + 1 }] + afterwards,
            );
            &&& end.phase == Phase::Failed
            &&& end.pending() == Action::Abort(
                UploadError::PartUpload { part_number: (taken + 1) as u32 },
            )
            &&& end.completed == tagged_parts(tags).take(taken as int)
            &&& end.has_session(true)
        }),
{
    let start = DriverView::start(plan, container, object_key);
    let sent = seq![EventView::SessionOpened { session_id }] + part_events(tags).take(taken as int);
    let refusal = seq![EventView::PartFailed { part_number: taken + 1 }];
    lemma_parts_in_order(plan, container, object_key, session_id, tags, taken);
    let held = start.after_all(sent);
    lemma_run_in_two(start, sent, refusal);
    assert(refusal.drop_last() =~= Seq::<EventView>::empty());
    assert(held.after_all(refusal.drop_last()) == held);
    let failed = held.after_all(refusal);
    assert(failed == held.after(EventView::PartFailed { part_number: taken + 1 }));
    lemma_run_in_two(start, sent + refusal, afterwards);
    lemma_end_is_final(failed, afterwards);
}

} // verus!
