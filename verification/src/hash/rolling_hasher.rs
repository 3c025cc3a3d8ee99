use vstd::prelude::*;

verus! {

/// The number of complete windows of width `k` in a sequence of `len`
/// elements: `len - k + 1` when `k <= len`, and none otherwise.
pub open spec fn window_count(len: nat, k: nat) -> nat {
    if k <= len {
        (len - k + 1) as nat
    } else {
        0
    }
}

/// A hash over a fixed-size sliding window of bytes that can be updated in
/// constant time as the window slides one position forward.
///
/// The hash family of an instance is pinned by `spec_hash`: both the
/// from-scratch computation (`hash_window`) and the incremental update
/// (`roll`) return exactly `spec_hash` of the window they describe, which
/// is what makes the two strategies interchangeable. `window` is the ghost
/// content of the window the hasher currently stands on.
pub trait RollingHasher: Sized {
    spec fn wf(&self) -> bool;

    /// The fixed window width of this instance.
    spec fn spec_window_size(&self) -> nat;

    /// The hash value this instance assigns to a window, as a pure
    /// function of the window's bytes.
    spec fn spec_hash(&self, window: Seq<u8>) -> u64;

    /// The bytes of the window the hasher currently stands on; empty
    /// before the first `hash_window` and after `reset`.
    spec fn window(&self) -> Seq<u8>;

    fn window_size(&self) -> (r: usize)
        requires
            self.wf(),
        ensures
            r == self.spec_window_size(),
    ;

    /// Hash a complete window from scratch and stand on it.
    fn hash_window(&mut self, window: &[u8]) -> (r: u64)
        requires
            old(self).wf(),
            window@.len() == old(self).spec_window_size(),
        ensures
            final(self).wf(),
            final(self).spec_window_size() == old(self).spec_window_size(),
            forall|w: Seq<u8>| #[trigger] final(self).spec_hash(w) == old(self).spec_hash(w),
            final(self).window() == window@,
            r == old(self).spec_hash(window@),
    ;

    /// Slide the window one position forward: `leaving` is its current
    /// first byte, `entering` the byte that follows it on the right.
    fn roll(&mut self, leaving: u8, entering: u8) -> (r: u64)
        requires
            old(self).wf(),
            old(self).window().len() == old(self).spec_window_size(),
            old(self).spec_window_size() >= 1,
            old(self).window()[0] == leaving,
        ensures
            final(self).wf(),
            final(self).spec_window_size() == old(self).spec_window_size(),
            forall|w: Seq<u8>| #[trigger] final(self).spec_hash(w) == old(self).spec_hash(w),
            final(self).window() == old(self).window().drop_first().push(entering),
            r == old(self).spec_hash(old(self).window().drop_first().push(entering)),
    ;

    /// Forget the current window, as if the hasher were newly created.
    fn reset(&mut self)
        requires
            old(self).wf(),
        ensures
            final(self).wf(),
            final(self).spec_window_size() == old(self).spec_window_size(),
            forall|w: Seq<u8>| #[trigger] final(self).spec_hash(w) == old(self).spec_hash(w),
            final(self).window() == Seq::<u8>::empty(),
    ;
}

/// Walks a byte slice left to right, producing `(start, hash)` for every
/// complete window: the first window is hashed from scratch, every later
/// one by a constant-time roll.
pub struct RollingHashIter<'a, H: RollingHasher> {
    data: &'a [u8],
    hasher: H,
    pos: usize,
    k: usize,
    initialized: bool,
}

impl<'a, H: RollingHasher> RollingHashIter<'a, H> {
    pub closed spec fn wf(&self) -> bool {
        &&& self.hasher.wf()
        &&& self.k == self.hasher.spec_window_size()
        &&& self.k >= 1
        &&& (self.initialized ==> self.k <= self.pos <= self.data@.len()
            && self.hasher.window() == self.data@.subrange(
            self.pos - self.k,
            self.pos as int,
        ))
    }

    /// The bytes being walked.
    pub closed spec fn data_view(&self) -> Seq<u8> {
        self.data@
    }

    /// The window width.
    pub closed spec fn window_len(&self) -> nat {
        self.k as nat
    }

    /// The hash family of the underlying hasher.
    pub closed spec fn spec_hash(&self, w: Seq<u8>) -> u64 {
        self.hasher.spec_hash(w)
    }

    /// How many window hashes have been produced so far.
    pub closed spec fn emitted(&self) -> nat {
        if self.initialized {
            (self.pos - self.k + 1) as nat
        } else {
            0
        }
    }

    /// How many window hashes this walk produces in total.
    pub open spec fn total(&self) -> nat {
        window_count(self.data_view().len(), self.window_len())
    }

    pub fn new(data: &'a [u8], hasher: H) -> (r: Self)
        requires
            hasher.wf(),
            hasher.spec_window_size() >= 1,
        ensures
            r.wf(),
            r.emitted() == 0,
            r.data_view() == data@,
            r.window_len() == hasher.spec_window_size(),
            forall|w: Seq<u8>| #[trigger] r.spec_hash(w) == hasher.spec_hash(w),
    {
        let k = hasher.window_size();
        Self { data, hasher, pos: 0, k, initialized: false }
    }

    /// Produce the next `(window start, window hash)` pair, or `None` once
    /// every complete window has been hashed.
    pub fn next(&mut self) -> (r: Option<(usize, u64)>)
        requires
            old(self).wf(),
        ensures
            final(self).wf(),
            final(self).data_view() == old(self).data_view(),
            final(self).window_len() == old(self).window_len(),
            forall|w: Seq<u8>| #[trigger] final(self).spec_hash(w) == old(self).spec_hash(w),
            old(self).emitted() < old(self).total() ==> {
                &&& final(self).emitted() == old(self).emitted() + 1
                &&& r == Some(
                    (
                        old(self).emitted() as usize,
                        old(self).spec_hash(
                            old(self).data_view().subrange(
                                old(self).emitted() as int,
                                old(self).emitted() + old(self).window_len() as int,
                            ),
                        ),
                    ),
                )
            },
            old(self).emitted() >= old(self).total() ==> r == None::<(usize, u64)>
                && final(self).emitted() == old(self).emitted(),
    {
        if !self.initialized {
            // cold start
            if self.data.len() < self.k {
                return None;
            }
            let hash = self.hasher.hash_window(&self.data[0..self.k]);
            self.pos = self.k;
            self.initialized = true;
            return Some((0, hash));
        }
        // rolling
        if self.pos >= self.data.len() {
            return None;
        }
        let leaving = self.data[self.pos - self.k];
        let entering = self.data[self.pos];
        let start = self.pos - self.k + 1;
        proof {
            assert(old(self).hasher.window()[0] == self.data@.subrange(
                self.pos - self.k,
                self.pos as int,
            )[0]);
        }
        let hash = self.hasher.roll(leaving, entering);
        self.pos = self.pos + 1;
        proof {
            assert(self.hasher.window() =~= self.data@.subrange(
                self.pos - self.k,
                self.pos as int,
            ));
            assert(old(self).hasher.window().drop_first().push(entering) =~= old(
                self,
            ).data_view().subrange(start as int, start + self.k));
        }
        Some((start, hash))
    }
}

} // verus!
