use crate::error::UploadError;
use vstd::prelude::*;

verus! {

/// Default size of a part in bytes: 5 MiB, the least that most stores accept
/// for any part but the last.
pub const CHUNK_SIZE: u64 = 1024 * 1024 * 5;

/// Default ceiling on the number of parts of one upload.
pub const MAX_PARTS: u32 = 10000;

/// Number of parts that a file of `total_size` bytes needs when no part
/// exceeds `chunk_size` bytes: the quotient, rounded up.
pub open spec fn part_count_for(total_size: nat, chunk_size: nat) -> nat
    recommends
        chunk_size > 0,
{
    ((total_size + chunk_size - 1) / (chunk_size as int)) as nat
}

/// Size of the last part: what is left after all the full-size parts before it.
pub open spec fn last_part_size_for(total_size: nat, chunk_size: nat) -> nat
    recommends
        chunk_size > 0,
        total_size > 0,
{
    (total_size - (part_count_for(total_size, chunk_size) - 1) * chunk_size) as nat
}

/// The mathematical content of an [`UploadPlan`].
pub struct PlanView {
    pub total_size: nat,
    pub chunk_size: nat,
    pub part_count: nat,
    pub last_part_size: nat,
}

impl PlanView {
    /// The parts cover the file exactly: all but the last have `chunk_size`
    /// bytes, and the last is neither empty nor larger than the others.
    pub open spec fn valid(self) -> bool {
        &&& self.part_count >= 1
        &&& (self.part_count - 1) * self.chunk_size + self.last_part_size == self.total_size
        &&& 0 < self.last_part_size <= self.chunk_size
    }

    /// Where the part with the 0-based `index` starts in the file.
    pub open spec fn part_offset(self, index: nat) -> nat {
        index * self.chunk_size
    }

    /// How many bytes the part with the 0-based `index` holds.
    pub open spec fn part_length(self, index: nat) -> nat {
        if index + 1 == self.part_count {
            self.last_part_size
        } else {
            self.chunk_size
        }
    }

    /// The part with the 0-based `index`: it is numbered `index + 1`.
    pub open spec fn part(self, index: nat) -> PartDescriptor {
        PartDescriptor {
            part_number: (index + 1) as u32,
            offset: self.part_offset(index) as u64,
            length: self.part_length(index) as u64,
        }
    }

    /// How many bytes lie in the first `count` parts.
    pub open spec fn bytes_in(self, count: nat) -> nat {
        if count >= self.part_count {
            self.total_size
        } else {
            count * self.chunk_size
        }
    }

    /// The sizes fit the machine's integers: the file's size 64 bits, the
    /// number of parts 32 bits.
    pub open spec fn fits(self) -> bool {
        self.total_size <= u64::MAX && self.part_count <= u32::MAX
    }
}

/// What planning yields for a file of `total_size` bytes.
pub open spec fn plan_outcome(total_size: nat, chunk_size: nat, max_parts: nat) -> Result<
    PlanView,
    UploadError,
>
    recommends
        chunk_size > 0,
{
    if total_size == 0 {
        Err(UploadError::EmptyFile)
    } else if part_count_for(total_size, chunk_size) > max_parts {
        Err(UploadError::TooManyParts)
    } else {
        Ok(
            PlanView {
                total_size,
                chunk_size,
                part_count: part_count_for(total_size, chunk_size),
                last_part_size: last_part_size_for(total_size, chunk_size),
            },
        )
    }
}

/// The division of one file into parts. Made once, from the file's size, and
/// never changed.
#[derive(Clone, Copy, Debug)]
pub struct UploadPlan {
    total_size: u64,
    chunk_size: u64,
    part_count: u32,
    last_part_size: u64,
}

impl View for UploadPlan {
    type V = PlanView;

    closed spec fn view(&self) -> PlanView {
        PlanView {
            total_size: self.total_size as nat,
            chunk_size: self.chunk_size as nat,
            part_count: self.part_count as nat,
            last_part_size: self.last_part_size as nat,
        }
    }
}

/// One part of a plan: its 1-based number and the byte range it holds.
#[derive(Clone, Copy, Debug, PartialEq, Eq, Structural)]
pub struct PartDescriptor {
    pub part_number: u32,
    pub offset: u64,
    pub length: u64,
}

/// Quotient and remainder determine the rounded-up quotient and the last part.
proof fn lemma_split(total_size: nat, chunk_size: nat)
    requires
        chunk_size > 0,
        total_size > 0,
    ensures
        total_size % chunk_size == 0 ==> part_count_for(total_size, chunk_size) == total_size
            / chunk_size && last_part_size_for(total_size, chunk_size) == chunk_size,
        total_size % chunk_size != 0 ==> part_count_for(total_size, chunk_size) == total_size
            / chunk_size + 1 && last_part_size_for(total_size, chunk_size) == total_size
            % chunk_size,
        part_count_for(total_size, chunk_size) >= 1,
        (part_count_for(total_size, chunk_size) - 1) * chunk_size + last_part_size_for(
            total_size,
            chunk_size,
        ) == total_size,
        0 < last_part_size_for(total_size, chunk_size) <= chunk_size,
{
    let t = total_size as int;
    let c = chunk_size as int;
    let q = t / c;
    let r = t % c;
    assert(t == c * q + r && 0 <= r < c && q >= 0) by (nonlinear_arith)
        requires
            c > 0,
            t > 0,
            q == t / c,
            r == t % c,
    ;
    if r == 0 {
        assert((t + c - 1) / c == q) by (nonlinear_arith)
            requires
                c > 0,
                t == c * q,
        ;
        assert((q - 1) * c == t - c) by (nonlinear_arith)
            requires
                t == c * q,
        ;
        assert(q >= 1) by (nonlinear_arith)
            requires
                c > 0,
                t > 0,
                t == c * q,
        ;
    } else {
        assert((t + c - 1) / c == q + 1) by (nonlinear_arith)
            requires
                c > 0,
                t == c * q + r,
                0 < r < c,
        ;
        assert((q + 1 - 1) * c == t - r) by (nonlinear_arith)
            requires
                t == c * q + r,
        ;
    }
}

impl UploadPlan {
    #[verifier::type_invariant]
    pub open spec fn inv(&self) -> bool {
        self@.valid() && self@.fits()
    }

    /// Size of the whole file in bytes.
    pub fn total_size(&self) -> (size: u64)
        ensures
            size == self@.total_size,
    {
        self.total_size
    }

    /// Size in bytes of every part but the last.
    pub fn chunk_size(&self) -> (size: u64)
        ensures
            size == self@.chunk_size,
    {
        self.chunk_size
    }

    /// Number of parts, at least one.
    pub fn part_count(&self) -> (count: u32)
        ensures
            count == self@.part_count,
            count >= 1,
    {
        proof {
            use_type_invariant(self);
        }
        self.part_count
    }

    /// Size in bytes of the last part.
    pub fn last_part_size(&self) -> (size: u64)
        ensures
            size == self@.last_part_size,
    {
        self.last_part_size
    }

    /// The part with the 0-based `index`, numbered `index + 1`; `None` past
    /// the last part.
    pub fn part(&self, index: u32) -> (part: Option<PartDescriptor>)
        ensures
            index >= self@.part_count ==> part is None,
            index < self@.part_count ==> part == Some(self@.part(index as nat)),
    {
        proof {
            use_type_invariant(self);
        }
        if index >= self.part_count {
            return None;
        }
        proof {
            lemma_parts_tile(self@, index as nat);
            lemma_part_within_file(self@, index as nat);
        }
        let length: u64 = if index == self.part_count - 1 {
            self.last_part_size
        } else {
            self.chunk_size
        };
        let offset: u64 = (index as u64) * self.chunk_size;
        Some(PartDescriptor { part_number: index + 1, offset, length })
    }
}

/// Plans the upload of a file of `total_size` bytes in parts of `chunk_size`
/// bytes, for a store that takes at most `max_parts` parts.
pub fn plan_with_limit(total_size: u64, chunk_size: u64, max_parts: u32) -> (result: Result<
    UploadPlan,
    UploadError,
>)
    requires
        chunk_size > 0,
    ensures
        match result {
            Ok(p) => plan_outcome(total_size as nat, chunk_size as nat, max_parts as nat) == Ok::<
                PlanView,
                UploadError,
            >(p@),
            Err(e) => plan_outcome(total_size as nat, chunk_size as nat, max_parts as nat) == Err::<
                PlanView,
                UploadError,
            >(e),
        },
{
    if total_size == 0 {
        return Err(UploadError::EmptyFile);
    }
    proof {
        lemma_split(total_size as nat, chunk_size as nat);
    }
    let full: u64 = total_size / chunk_size;
    let rest: u64 = total_size % chunk_size;
    if rest == 0 {
        if full > max_parts as u64 {
            Err(UploadError::TooManyParts)
        } else {
            Ok(
                UploadPlan {
                    total_size,
                    chunk_size,
                    part_count: full as u32,
                    last_part_size: chunk_size,
                },
            )
        }
    } else {
        if full >= max_parts as u64 {
            Err(UploadError::TooManyParts)
        } else {
            Ok(
                UploadPlan {
                    total_size,
                    chunk_size,
                    part_count: (full + 1) as u32,
                    last_part_size: rest,
                },
            )
        }
    }
}

/// Plans the upload of a file of `total_size` bytes in parts of `chunk_size`
/// bytes, under the default ceiling of [`MAX_PARTS`] parts.
pub fn plan(total_size: u64, chunk_size: u64) -> (result: Result<UploadPlan, UploadError>)
    requires
        chunk_size > 0,
    ensures
        match result {
            Ok(p) => plan_outcome(total_size as nat, chunk_size as nat, MAX_PARTS as nat) == Ok::<
                PlanView,
                UploadError,
            >(p@),
            Err(e) => plan_outcome(total_size as nat, chunk_size as nat, MAX_PARTS as nat) == Err::<
                PlanView,
                UploadError,
            >(e),
        },
{
    plan_with_limit(total_size, chunk_size, MAX_PARTS)
}

/// A non-empty file that fits under the ceiling gets a plan, and the parts of
/// that plan add up to the file: all but the last hold `chunk_size` bytes, the
/// last holds at least one byte and at most `chunk_size`.
pub proof fn lemma_plan_adds_up(total_size: nat, chunk_size: nat, max_parts: nat)
    requires
        total_size > 0,
        chunk_size > 0,
        part_count_for(total_size, chunk_size) <= max_parts,
    ensures
        plan_outcome(total_size, chunk_size, max_parts) is Ok,
        ({
            let p = plan_outcome(total_size, chunk_size, max_parts)->Ok_0;
            &&& p.total_size == total_size
            &&& p.chunk_size == chunk_size
            &&& 1 <= p.part_count <= max_parts
            &&& (p.part_count - 1) * chunk_size + p.last_part_size == total_size
            &&& 0 < p.last_part_size <= chunk_size
        }),
{
    lemma_split(total_size, chunk_size);
}

/// An empty file is never planned, whatever the chunk size and the ceiling.
pub proof fn lemma_empty_file_rejected(chunk_size: nat, max_parts: nat)
    ensures
        plan_outcome(0, chunk_size, max_parts) == Err::<PlanView, UploadError>(
            UploadError::EmptyFile,
        ),
{
}

/// A file of exactly one full part more than the ceiling allows is refused.
pub proof fn lemma_one_part_too_many(chunk_size: nat, max_parts: nat)
    requires
        chunk_size > 0,
    ensures
        plan_outcome(chunk_size * (max_parts + 1), chunk_size, max_parts) == Err::<
            PlanView,
            UploadError,
        >(UploadError::TooManyParts),
{
    let total = chunk_size * (max_parts + 1);
    assert(total > 0 && total % chunk_size == 0 && total / chunk_size == max_parts + 1)
        by (nonlinear_arith)
        requires
            chunk_size > 0,
            total == chunk_size * (max_parts + 1),
    ;
    lemma_split(total, chunk_size);
}

/// The invariant of a plan leaves no choice: the number of parts and the size
/// of the last one follow from the file's size and the chunk size.
pub proof fn lemma_valid_plan_is_unique(p: PlanView)
    requires
        p.valid(),
    ensures
        p.total_size > 0,
        p.part_count == part_count_for(p.total_size, p.chunk_size),
        p.last_part_size == last_part_size_for(p.total_size, p.chunk_size),
{
    let c = p.chunk_size as int;
    let n = p.part_count as int;
    let l = p.last_part_size as int;
    let t = p.total_size as int;
    assert((t + c - 1) / c == n) by (nonlinear_arith)
        requires
            n >= 1,
            (n - 1) * c + l == t,
            0 < l <= c,
    ;
    assert((n - 1) * c >= 0) by (nonlinear_arith)
        requires
            n >= 1,
            c > 0,
    ;
}

/// The parts of a plan lie end to end: each part begins at a multiple of the
/// chunk size, the next begins where it ends, and the last ends with the file.
pub proof fn lemma_parts_tile(p: PlanView, index: nat)
    requires
        p.valid(),
        index < p.part_count,
    ensures
        p.part_length(index) > 0,
        index + 1 < p.part_count ==> p.part_offset(index) + p.part_length(index) == p.part_offset(
            index + 1,
        ),
        index + 1 == p.part_count ==> p.part_offset(index) + p.part_length(index) == p.total_size,
{
    assert((index + 1) * p.chunk_size == index * p.chunk_size + p.chunk_size) by (nonlinear_arith);
}

/// No part reaches past the end of the file.
pub proof fn lemma_part_within_file(p: PlanView, index: nat)
    requires
        p.valid(),
        index < p.part_count,
    ensures
        p.part_offset(index) + p.part_length(index) <= p.total_size,
{
    let c = p.chunk_size as int;
    let n = p.part_count as int;
    let i = index as int;
    if i + 1 < n {
        assert(i * c + c <= (n - 1) * c) by (nonlinear_arith)
            requires
                0 <= i,
                i + 1 <= n - 1,
                c > 0,
        ;
    }
}

} // verus!
