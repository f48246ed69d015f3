use crate::error::UploadError;
use crate::plan::UploadPlan;
use vstd::prelude::*;
use vstd::set_lib::*;

verus! {

/// The mathematical content of a [`CompletedPart`].
pub struct CompletedPartView {
    pub part_number: nat,
    pub integrity_tag: Seq<char>,
}

/// What the store handed back for one uploaded part: the part's number and
/// the tag that the commit has to quote for it.
#[derive(Clone, Debug, PartialEq, Eq)]
pub struct CompletedPart {
    pub part_number: u32,
    pub integrity_tag: String,
}

impl View for CompletedPart {
    type V = CompletedPartView;

    open spec fn view(&self) -> CompletedPartView {
        CompletedPartView {
            part_number: self.part_number as nat,
            integrity_tag: self.integrity_tag@,
        }
    }
}

impl DeepView for CompletedPart {
    type V = CompletedPartView;

    open spec fn deep_view(&self) -> CompletedPartView {
        self@
    }
}

/// The part numbers of a list of parts, in the order of the list.
pub open spec fn part_numbers(parts: Seq<CompletedPartView>) -> Seq<int> {
    parts.map_values(|p: CompletedPartView| p.part_number as int)
}

/// The numbers of `parts` are `1..=part_count`, each exactly once.
pub open spec fn covers_exactly(parts: Seq<CompletedPartView>, part_count: nat) -> bool {
    &&& part_numbers(parts).no_duplicates()
    &&& part_numbers(parts).to_set() == set_int_range(1, part_count as int + 1)
}

/// `ordered` lists elements of `parts` by part number: number 1 first, no gap.
pub open spec fn in_part_order(
    ordered: Seq<CompletedPartView>,
    parts: Seq<CompletedPartView>,
) -> bool {
    &&& ordered.len() == parts.len()
    &&& forall|i: int| 0 <= i < ordered.len() ==> (#[trigger] ordered[i]).part_number == i + 1
    &&& forall|i: int| 0 <= i < ordered.len() ==> parts.contains(#[trigger] ordered[i])
}

/// The mathematical content of an [`UploadSession`].
pub struct SessionView {
    pub session_id: Seq<char>,
    pub container: Seq<char>,
    pub object_key: Seq<char>,
    pub open: bool,
}

/// One multipart upload in progress on the store. It is opened once and used
/// up by one commit or one abort; a session that is used up stays so.
#[derive(Debug)]
pub struct UploadSession {
    session_id: String,
    container: String,
    object_key: String,
    open: bool,
}

impl View for UploadSession {
    type V = SessionView;

    closed spec fn view(&self) -> SessionView {
        SessionView {
            session_id: self.session_id@,
            container: self.container@,
            object_key: self.object_key@,
            open: self.open,
        }
    }
}

/// The mathematical content of a [`CommitRequest`].
pub struct CommitRequestView {
    pub session_id: Seq<char>,
    pub container: Seq<char>,
    pub object_key: Seq<char>,
    pub parts: Seq<CompletedPartView>,
}

/// The request that commits a session: the session's token, the destination,
/// and the parts by ascending number.
#[derive(Debug)]
pub struct CommitRequest {
    pub session_id: String,
    pub container: String,
    pub object_key: String,
    pub parts: Vec<CompletedPart>,
}

impl View for CommitRequest {
    type V = CommitRequestView;

    open spec fn view(&self) -> CommitRequestView {
        CommitRequestView {
            session_id: self.session_id@,
            container: self.container@,
            object_key: self.object_key@,
            parts: self.parts.deep_view(),
        }
    }
}

/// Whether a commit of `parts` on `session` goes through, and why not.
pub open spec fn finalize_outcome(
    session: SessionView,
    part_count: nat,
    parts: Seq<CompletedPartView>,
) -> Result<(), UploadError> {
    if !session.open {
        Err(UploadError::Session)
    } else if !covers_exactly(parts, part_count) {
        Err(UploadError::IncompleteUpload)
    } else {
        Ok(())
    }
}

/// A list that covers `1..=part_count` has `part_count` entries.
pub proof fn lemma_cover_has_length(parts: Seq<CompletedPartView>, part_count: nat)
    requires
        covers_exactly(parts, part_count),
    ensures
        parts.len() == part_count,
{
    let numbers = part_numbers(parts);
    numbers.unique_seq_to_set();
    lemma_int_range(1, part_count as int + 1);
}

/// `part_count` parts with distinct numbers from `1..=part_count` leave no
/// number out.
pub proof fn lemma_distinct_numbers_cover(parts: Seq<CompletedPartView>, part_count: nat)
    requires
        parts.len() == part_count,
        forall|i: int| 0 <= i < parts.len() ==> 1 <= (#[trigger] parts[i]).part_number <= part_count,
        forall|i: int, j: int|
            0 <= i < j < parts.len() ==> (#[trigger] parts[i]).part_number != (
            #[trigger] parts[j]).part_number,
    ensures
        covers_exactly(parts, part_count),
{
    let numbers = part_numbers(parts);
    let range = set_int_range(1, part_count as int + 1);
    assert(numbers.no_duplicates()) by {
        assert forall|i: int, j: int|
            0 <= i < numbers.len() && 0 <= j < numbers.len() && i != j implies numbers[i]
            != numbers[j] by {
            if i < j {
                assert(parts[i].part_number != parts[j].part_number);
            } else {
                assert(parts[j].part_number != parts[i].part_number);
            }
        }
    }
    numbers.unique_seq_to_set();
    lemma_int_range(1, part_count as int + 1);
    assert(numbers.to_set().subset_of(range)) by {
        assert forall|x: int| numbers.to_set().contains(x) implies range.contains(x) by {
            let i = choose|i: int| 0 <= i < numbers.len() && numbers[i] == x;
            assert(1 <= parts[i].part_number <= part_count);
        }
    }
    lemma_len_subset(numbers.to_set(), range);
    lemma_subset_equality(numbers.to_set(), range);
}

/// Parts that come in the order of their numbers, from 1 on without a gap,
/// cover exactly as many numbers as there are parts.
pub proof fn lemma_numbered_in_order_covers(parts: Seq<CompletedPartView>)
    requires
        forall|i: int| 0 <= i < parts.len() ==> (#[trigger] parts[i]).part_number == i + 1,
    ensures
        covers_exactly(parts, parts.len()),
{
    lemma_distinct_numbers_cover(parts, parts.len());
}

/// A complete set of parts has one ordering by part number only.
pub proof fn lemma_part_order_is_unique(
    parts: Seq<CompletedPartView>,
    first: Seq<CompletedPartView>,
    second: Seq<CompletedPartView>,
)
    requires
        part_numbers(parts).no_duplicates(),
        in_part_order(first, parts),
        in_part_order(second, parts),
    ensures
        first == second,
{
    let numbers = part_numbers(parts);
    assert forall|i: int| 0 <= i < first.len() implies first[i] == second[i] by {
        assert(parts.contains(first[i]));
        assert(parts.contains(second[i]));
        let a = choose|a: int| 0 <= a < parts.len() && parts[a] == first[i];
        let b = choose|b: int| 0 <= b < parts.len() && parts[b] == second[i];
        assert(numbers[a] == i + 1);
        assert(numbers[b] == i + 1);
    }
    assert(first =~= second);
}

/// Parts that already come in the order of their numbers are listed as they
/// came.
pub proof fn lemma_ordered_parts_are_kept(
    parts: Seq<CompletedPartView>,
    ordered: Seq<CompletedPartView>,
)
    requires
        forall|i: int| 0 <= i < parts.len() ==> (#[trigger] parts[i]).part_number == i + 1,
        in_part_order(ordered, parts),
    ensures
        ordered == parts,
{
    assert forall|i: int| 0 <= i < ordered.len() implies ordered[i] == parts[i] by {
        assert(parts.contains(ordered[i]));
        let a = choose|a: int| 0 <= a < parts.len() && parts[a] == ordered[i];
        assert(parts[a].part_number == a + 1);
    }
    assert(ordered =~= parts);
}

impl UploadSession {
    /// The session that the store opened under the token `session_id` for the
    /// object `object_key` in `container`.
    pub fn new(session_id: String, container: String, object_key: String) -> (session:
        UploadSession)
        ensures
            session@ == (SessionView {
                session_id: session_id@,
                container: container@,
                object_key: object_key@,
                open: true,
            }),
    {
        UploadSession { session_id, container, object_key, open: true }
    }

    /// The token under which the store knows the session.
    pub fn session_id(&self) -> (id: &str)
        ensures
            id@ == self@.session_id,
    {
        self.session_id.as_str()
    }

    /// The container that the object goes to.
    pub fn container(&self) -> (name: &str)
        ensures
            name@ == self@.container,
    {
        self.container.as_str()
    }

    /// The key of the object in its container.
    pub fn object_key(&self) -> (key: &str)
        ensures
            key@ == self@.object_key,
    {
        self.object_key.as_str()
    }

    /// Whether the session can still be committed or aborted.
    pub fn is_open(&self) -> (open: bool)
        ensures
            open == self@.open,
    {
        self.open
    }

    /// Gives the session up without a commit. Fails with
    /// [`UploadError::Session`] on a session that is used up already.
    pub fn abort(&mut self) -> (result: Result<(), UploadError>)
        ensures
            final(self)@ == (SessionView { open: false, ..old(self)@ }),
            old(self)@.open ==> result == Ok::<(), UploadError>(()),
            !old(self)@.open ==> result == Err::<(), UploadError>(UploadError::Session),
    {
        if self.open {
            self.open = false;
            Ok(())
        } else {
            Err(UploadError::Session)
        }
    }

    /// Uses the session up for the commit of `parts`, which may come in any
    /// order, and returns the request to send: the parts by ascending number.
    ///
    /// Fails with [`UploadError::Session`] if the session is used up already,
    /// and with [`UploadError::IncompleteUpload`] unless the numbers of
    /// `parts` are those of the plan, each exactly once. A failed call leaves
    /// the session as it was.
    #[verifier::loop_isolation(false)]
    pub fn finalize(&mut self, plan: &UploadPlan, parts: Vec<CompletedPart>) -> (result: Result<
        CommitRequest,
        UploadError,
    >)
        ensures
            match result {
                Ok(request) => {
                    &&& finalize_outcome(old(self)@, plan@.part_count, parts.deep_view()) is Ok
                    &&& final(self)@ == (SessionView { open: false, ..old(self)@ })
                    &&& request@.session_id == old(self)@.session_id
                    &&& request@.container == old(self)@.container
                    &&& request@.object_key == old(self)@.object_key
                    &&& in_part_order(request@.parts, parts.deep_view())
                },
                Err(e) => {
                    &&& finalize_outcome(old(self)@, plan@.part_count, parts.deep_view()) == Err::<
                        (),
                        UploadError,
                    >(e)
                    &&& final(self)@ == old(self)@
                },
            },
    {
        if !self.open {
            return Err(UploadError::Session);
        }
        let count: u32 = plan.part_count();
        let ghost given = parts.deep_view();
        if parts.len() != count as usize {
            proof {
                if covers_exactly(given, count as nat) {
                    lemma_cover_has_length(given, count as nat);
                }
            }
            return Err(UploadError::IncompleteUpload);
        }
        let mut slots: Vec<Option<CompletedPart>> = Vec::new();
        let mut made: u32 = 0;
        while made < count
            invariant
                made <= count,
                slots.len() == made,
                forall|j: int| 0 <= j < made ==> (#[trigger] slots[j]) is None,
            decreases count - made,
        {
            slots.push(None);
            made = made + 1;
        }
        // `owner[j]` is the place in `parts` of the part that sits in slot `j`.
        let ghost mut owner: Seq<int> = Seq::new(count as nat, |j: int| 0int);
        let mut rest = parts;
        while rest.len() > 0
            invariant
                given.len() == count,
                slots.len() == count,
                owner.len() == count,
                rest.len() <= count,
                forall|i: int| 0 <= i < rest.len() ==> (#[trigger] rest[i])@ == given[i],
                forall|j: int|
                    0 <= j < count && (#[trigger] slots[j]) is Some ==> {
                        &&& rest.len() <= owner[j] < count
                        &&& slots[j]->Some_0@ == given[owner[j]]
                        &&& given[owner[j]].part_number == j + 1
                    },
                forall|i: int|
                    rest.len() <= i < count ==> {
                        &&& 1 <= (#[trigger] given[i]).part_number <= count
                        &&& slots[given[i].part_number - 1] is Some
                        &&& owner[given[i].part_number - 1] == i
                    },
            decreases rest.len(),
        {
            let ghost at = rest.len() - 1;
            let part = rest.pop().unwrap();
            assert(part@ == given[at]);
            let number: u32 = part.part_number;
            if number < 1 || number > count {
                proof {
                    let numbers = part_numbers(given);
                    assert(numbers[at] == number);
                    assert(numbers.to_set().contains(number as int));
                    assert(!set_int_range(1, count as int + 1).contains(number as int));
                }
                return Err(UploadError::IncompleteUpload);
            }
            let slot: usize = (number - 1) as usize;
            if slots[slot].is_some() {
                proof {
                    let numbers = part_numbers(given);
                    let other = owner[slot as int];
                    assert(numbers[at] == number);
                    assert(numbers[other] == number);
                    assert(other != at);
                }
                return Err(UploadError::IncompleteUpload);
            }
            slots.set(slot, Some(part));
            proof {
                owner = owner.update(slot as int, at);
            }
        }
        proof {
            assert forall|i: int, j: int| 0 <= i < j < given.len() implies (#[trigger] given[i]).part_number
                != (#[trigger] given[j]).part_number by {
                assert(owner[given[i].part_number - 1] == i);
                assert(owner[given[j].part_number - 1] == j);
            }
            lemma_distinct_numbers_cover(given, count as nat);
            let numbers = part_numbers(given);
            assert forall|j: int| 0 <= j < count implies {
                &&& (#[trigger] slots[j]) is Some
                &&& given.contains(slots[j]->Some_0@)
                &&& slots[j]->Some_0@.part_number == j + 1
            } by {
                assert(set_int_range(1, count as int + 1).contains(j + 1));
                assert(numbers.to_set().contains(j + 1));
                let i = choose|i: int| 0 <= i < numbers.len() && numbers[i] == j + 1;
                assert(given[i].part_number == j + 1);
                assert(slots[j]->Some_0@ == given[owner[j]]);
            }
        }
        let mut ordered: Vec<CompletedPart> = Vec::new();
        let mut next: u32 = 0;
        while next < count
            invariant
                next <= count,
                slots.len() == count,
                ordered.len() == next,
                forall|j: int| next <= j < count ==> (#[trigger] slots[j]) is Some,
                forall|j: int|
                    next <= j < count ==> given.contains((#[trigger] slots[j])->Some_0@),
                forall|j: int|
                    next <= j < count ==> (#[trigger] slots[j])->Some_0@.part_number == j + 1,
                forall|j: int| 0 <= j < next ==> given.contains((#[trigger] ordered[j])@),
                forall|j: int| 0 <= j < next ==> (#[trigger] ordered[j])@.part_number == j + 1,
            decreases count - next,
        {
            let ghost listed = ordered@;
            let mut taken: Option<CompletedPart> = None;
            assert(slots[next as int] is Some);
            slots.set_and_swap(next as usize, &mut taken);
            ordered.push(taken.unwrap());
            assert forall|j: int| 0 <= j <= next implies given.contains((#[trigger] ordered[j])@)
                && ordered[j]@.part_number == j + 1 by {
                if j < next {
                    assert(ordered[j] == listed[j]);
                }
            }
            next = next + 1;
        }
        self.open = false;
        let request = CommitRequest {
            session_id: self.session_id.clone(),
            container: self.container.clone(),
            object_key: self.object_key.clone(),
            parts: ordered,
        };
        proof {
            let listed = request@.parts;
            assert forall|i: int| 0 <= i < listed.len() implies given.contains(
                #[trigger] listed[i],
            ) && listed[i].part_number == i + 1 by {
                assert(listed[i] == ordered[i]@);
            }
        }
        Ok(request)
    }
}

} // verus!
