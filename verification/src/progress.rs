use vstd::prelude::*;

verus! {

/// The mathematical content of a [`ProgressState`].
pub struct ProgressView {
    pub bytes_done: nat,
    pub total_size: nat,
}

/// How much of a file has been uploaded. The count of bytes done only grows
/// and never passes the size of the file.
#[derive(Clone, Copy, Debug)]
pub struct ProgressState {
    bytes_done: u64,
    total_size: u64,
}

impl View for ProgressState {
    type V = ProgressView;

    closed spec fn view(&self) -> ProgressView {
        ProgressView { bytes_done: self.bytes_done as nat, total_size: self.total_size as nat }
    }
}

impl ProgressState {
    #[verifier::type_invariant]
    pub open spec fn inv(&self) -> bool {
        self@.bytes_done <= self@.total_size
    }

    /// Progress of an upload of `total_size` bytes of which none is done yet.
    pub fn new(total_size: u64) -> (state: ProgressState)
        ensures
            state@ == (ProgressView { bytes_done: 0, total_size: total_size as nat }),
    {
        ProgressState { bytes_done: 0, total_size }
    }

    /// Bytes uploaded so far.
    pub fn bytes_done(&self) -> (done: u64)
        ensures
            done == self@.bytes_done,
            done <= self@.total_size,
    {
        proof {
            use_type_invariant(self);
        }
        self.bytes_done
    }

    /// Size of the file in bytes.
    pub fn total_size(&self) -> (size: u64)
        ensures
            size == self@.total_size,
    {
        self.total_size
    }

    /// Whether every byte is done.
    pub fn is_complete(&self) -> (complete: bool)
        ensures
            complete == (self@.bytes_done == self@.total_size),
    {
        self.bytes_done == self.total_size
    }

    /// Counts `length` more bytes as done. The count stops at the size of the
    /// file, so it never shrinks and never passes the total.
    pub fn advance(&mut self, length: u64)
        ensures
            final(self)@.total_size == old(self)@.total_size,
            final(self)@.bytes_done == vstd::math::min(
                old(self)@.bytes_done + length,
                old(self)@.total_size as int,
            ),
            old(self)@.bytes_done <= final(self)@.bytes_done <= final(self)@.total_size,
    {
        proof {
            use_type_invariant(&*self);
        }
        let left: u64 = self.total_size - self.bytes_done;
        if length <= left {
            self.bytes_done = self.bytes_done + length;
        } else {
            self.bytes_done = self.total_size;
        }
    }
}

} // verus!
