//! What identifies a video: its size in bytes and fingerprints of its first
//! frames (at most five).

use std::collections::hash_map::DefaultHasher;
use std::hash::Hasher;
use vstd::prelude::*;
use vstd::std_specs::hash::DefaultHasherAdditionalSpecFns;
use crate::hashing::{in_order, native_little_endian, ne_bytes, ordered, write_ne};

verus! {

/// How many frames are fingerprinted at most.
pub const FRAME_SLOTS: usize = 5;

/// How many bytes at the start of a frame's data its fingerprint covers.
pub const FRAME_PREFIX: usize = 96;

/// The writes that fingerprint a frame: the first 96 bytes of its data in six
/// blocks of 16, each block read as a big-endian `u128` and written in the
/// target's native order (`little` on a little-endian target), that is with its
/// bytes reversed on a little-endian target and as they are otherwise.
pub open spec fn frame_hash_input(data: Seq<u8>, little: bool) -> Seq<Seq<u8>> {
    Seq::new(6, |k: int| in_order(data.subrange(16 * k, 16 * k + 16), !little))
}

/// The facts of a video: its size, how many frames were fingerprinted, and the
/// five fingerprint slots.
pub type MovFacts = (u64, nat, Seq<u64>);

/// The bytes that `hash` feeds to the hasher: the fingerprints taken so far, each
/// as eight bytes in the target's native order.
pub open spec fn mov_hash_input(f: MovFacts, little: bool) -> Seq<Seq<u8>> {
    Seq::new(f.1, |i: int| ne_bytes(f.2[i] as nat, 8, little))
}

/// Two videos are taken as the same when their sizes and their numbers of
/// fingerprinted frames agree; the fingerprints are not compared.
pub open spec fn mov_same(a: MovFacts, b: MovFacts) -> bool {
    a.0 == b.0 && a.1 == b.1
}

/// What identifies a video.
pub struct FileDataMov {
    size: u64,
    frame_hashes_size: usize,
    frame_hashes: [u64; 5],
}

impl View for FileDataMov {
    type V = MovFacts;

    closed spec fn view(&self) -> MovFacts {
        (self.size, self.frame_hashes_size as nat, self.frame_hashes@)
    }
}

impl FileDataMov {
    #[verifier::type_invariant]
    spec fn inv(self) -> bool {
        self.frame_hashes_size <= 5
    }

    /// A video of `size` bytes of which no frame has been fingerprinted yet.
    pub fn new(size: u64) -> (r: FileDataMov)
        ensures
            r@.0 == size,
            r@.1 == 0,
            r@.2 == seq![0u64, 0, 0, 0, 0],
    {
        let r = FileDataMov { size, frame_hashes_size: 0, frame_hashes: [0u64; 5] };
        assert(r.frame_hashes@ =~= seq![0u64, 0, 0, 0, 0]);
        r
    }

    /// The fingerprint of a frame whose data are `data`: the hasher's result after
    /// the writes `frame_hash_input(data, little)`, `little` telling the target's
    /// byte order.
    pub fn compute_frame(&mut self, data: &[u8]) -> (r: u64)
        requires
            data@.len() >= 96,
        ensures
            final(self)@ == old(self)@,
            exists|little: bool| r == DefaultHasher::spec_finish(frame_hash_input(data@, little)),
    {
        let little = native_little_endian();
        let mut hasher: DefaultHasher = DefaultHasher::new();
        let mut k: usize = 0;
        while k < 6
            invariant
                k <= 6,
                data@.len() >= 96,
                hasher@ == frame_hash_input(data@, little).take(k as int),
            decreases 6 - k,
        {
            let index: usize = 16 * k;
            let mut chunk: Vec<u8> = Vec::new();
            let mut j: usize = 0;
            while j < 16
                invariant
                    j <= 16,
                    k < 6,
                    index == 16 * k,
                    data@.len() >= 96,
                    chunk@ == data@.subrange(index as int, index + j),
                decreases 16 - j,
            {
                chunk.push(data[index + j]);
                j = j + 1;
                assert(chunk@ =~= data@.subrange(index as int, index + j));
            }
            let block = ordered(chunk, !little);
            let ghost before = hasher@;
            hasher.write(block.as_slice());
            assert(block@ == frame_hash_input(data@, little)[k as int]);
            assert(frame_hash_input(data@, little).take(k + 1) =~= before.push(block@));
            k = k + 1;
        }
        assert(frame_hash_input(data@, little).take(6) =~= frame_hash_input(data@, little));
        hasher.finish()
    }

    /// Whether another frame is to be fingerprinted: fewer than five have been.
    pub fn needs_frames(&self) -> (r: bool)
        ensures
            r == (self@.1 < 5),
            self@.1 <= 5,
            self@.2.len() == 5,
    {
        proof {
            use_type_invariant(self);
        }
        self.frame_hashes_size < FRAME_SLOTS
    }

    /// Fingerprints the next frame, whose data are `data`, into the next slot.
    pub fn add_frame(&mut self, data: &[u8])
        requires
            old(self)@.1 < 5,
            data@.len() >= 96,
        ensures
            final(self)@.0 == old(self)@.0,
            final(self)@.1 == old(self)@.1 + 1,
            exists|little: bool|
                final(self)@.2 == old(self)@.2.update(
                    old(self)@.1 as int,
                    DefaultHasher::spec_finish(#[trigger] frame_hash_input(data@, little)),
                ),
    {
        let h = self.compute_frame(data);
        let slot = self.frame_hashes_size % FRAME_SLOTS;
        self.frame_hashes[slot] = h;
        self.frame_hashes_size = self.frame_hashes_size + 1;
    }

    /// Feeds the fingerprints taken so far to `state`, in order.
    pub fn hash(&self, state: &mut DefaultHasher)
        ensures
            exists|little: bool| final(state)@ == old(state)@ + mov_hash_input(self@, little),
            self@.1 <= 5,
    {
        proof {
            use_type_invariant(self);
        }
        let ghost start = state@;
        let little = native_little_endian();
        let mut i: usize = 0;
        while i < self.frame_hashes_size
            invariant
                i <= self.frame_hashes_size <= 5,
                state@ == start + mov_hash_input(self@, little).take(i as int),
            decreases self.frame_hashes_size - i,
        {
            let ghost before = state@;
            write_ne(state, self.frame_hashes[i], 8, little);
            assert(mov_hash_input(self@, little).take(i + 1) =~= mov_hash_input(self@, little).take(i as int).push(
                mov_hash_input(self@, little)[i as int],
            ));
            i = i + 1;
        }
        assert(mov_hash_input(self@, little).take(i as int) =~= mov_hash_input(self@, little));
    }

    pub closed spec fn spec_eq(&self, other: &Self) -> bool {
        mov_same(self@, other@)
    }

    /// `==` holds and the fingerprints taken so far agree.
    pub open spec fn same_record_spec(&self, other: &Self) -> bool {
        mov_same(self@, other@) && self@.2.take(self@.1 as int) == other@.2.take(other@.1 as int)
    }

    pub proof fn lemma_same_record_equivalence(a: &Self, b: &Self, c: &Self)
        ensures
            a.same_record_spec(a),
            a.same_record_spec(b) ==> b.same_record_spec(a),
            a.same_record_spec(b) && b.same_record_spec(c) ==> a.same_record_spec(c),
    {
    }

    /// Whether `==` holds and the fingerprints taken so far agree.
    pub fn same_record(&self, other: &Self) -> (r: bool)
        ensures
            r == self.same_record_spec(other),
    {
        proof {
            use_type_invariant(self);
            use_type_invariant(other);
        }
        if !(self == other) {
            return false;
        }
        let mut i: usize = 0;
        while i < self.frame_hashes_size
            invariant
                i <= self.frame_hashes_size <= 5,
                self.frame_hashes_size == other.frame_hashes_size,
                forall|j: int| 0 <= j < i ==> self.frame_hashes@[j] == other.frame_hashes@[j],
            decreases self.frame_hashes_size - i,
        {
            if self.frame_hashes[i] != other.frame_hashes[i] {
                assert(self@.2.take(self@.1 as int)[i as int] != other@.2.take(other@.1 as int)[i as int]);
                return false;
            }
            i = i + 1;
        }
        assert(self@.2.take(self@.1 as int) =~= other@.2.take(other@.1 as int));
        true
    }
}

impl PartialEq for FileDataMov {
    fn eq(&self, other: &Self) -> (r: bool) {
        let same_size = self.size == other.size;
        if self.frame_hashes_size != other.frame_hashes_size {
            return false;
        }
        same_size
    }
}

impl vstd::std_specs::cmp::PartialEqSpecImpl for FileDataMov {
    open spec fn obeys_eq_spec() -> bool {
        true
    }

    open spec fn eq_spec(&self, other: &FileDataMov) -> bool {
        self.spec_eq(other)
    }
}

impl Eq for FileDataMov {
}

/// A video has five fingerprint slots.
pub proof fn lemma_five_slots(m: FileDataMov)
    ensures
        m@.2.len() == 5,
{
    vstd::array::array_len_matches_n(&m.frame_hashes);
}

/// `==` on videos compares the size and the number of fingerprinted frames, and
/// not the fingerprints; it is an equivalence relation.
pub proof fn lemma_mov_eq(a: FileDataMov, b: FileDataMov, c: FileDataMov)
    ensures
        a.spec_eq(&b) <==> (a@.0 == b@.0 && a@.1 == b@.1),
        a.spec_eq(&a),
        a.spec_eq(&b) ==> b.spec_eq(&a),
        a.spec_eq(&b) && b.spec_eq(&c) ==> a.spec_eq(&c),
{
}

/// Videos that are `==` feed the same bytes to the hasher as soon as the
/// fingerprints taken agree too (the hash covers the fingerprints, `==` does not).
pub proof fn lemma_mov_eq_hash(a: FileDataMov, b: FileDataMov)
    requires
        a@.1 <= 5,
        b@.1 <= 5,
        a.spec_eq(&b),
        a@.2.take(a@.1 as int) == b@.2.take(b@.1 as int),
    ensures
        forall|little: bool| mov_hash_input(a@, little) == mov_hash_input(b@, little),
{
    assert(a@.2.len() == 5 && b@.2.len() == 5) by {
        vstd::array::array_len_matches_n(&a.frame_hashes);
        vstd::array::array_len_matches_n(&b.frame_hashes);
    }
    assert forall|i: int| 0 <= i < a@.1 implies a@.2[i] == b@.2[i] by {
        assert(a@.2.take(a@.1 as int)[i] == b@.2.take(b@.1 as int)[i]);
        assert(a@.2.take(a@.1 as int)[i] == a@.2[i]);
        assert(b@.2.take(b@.1 as int)[i] == b@.2[i]);
    }
    assert forall|little: bool| mov_hash_input(a@, little) == mov_hash_input(b@, little) by {
        assert(mov_hash_input(a@, little) =~= mov_hash_input(b@, little));
    }
}

/// A frame's fingerprint depends on the first 96 bytes of its data only.
pub proof fn lemma_frame_prefix(d1: Seq<u8>, d2: Seq<u8>)
    requires
        d1.len() >= 96,
        d2.len() >= 96,
        d1.take(96) == d2.take(96),
    ensures
        forall|little: bool| frame_hash_input(d1, little) == frame_hash_input(d2, little),
{
    assert forall|k: int| 0 <= k < 6 implies #[trigger] d1.subrange(16 * k, 16 * k + 16)
        == d2.subrange(16 * k, 16 * k + 16) by {
        assert(d1.subrange(16 * k, 16 * k + 16) =~= d1.take(96).subrange(16 * k, 16 * k + 16));
        assert(d2.subrange(16 * k, 16 * k + 16) =~= d2.take(96).subrange(16 * k, 16 * k + 16));
    }
    assert forall|little: bool| frame_hash_input(d1, little) == frame_hash_input(d2, little) by {
        assert forall|k: int| 0 <= k < 6 implies #[trigger] frame_hash_input(d1, little)[k]
            == frame_hash_input(d2, little)[k] by {
            assert(d1.subrange(16 * k, 16 * k + 16) == d2.subrange(16 * k, 16 * k + 16));
        }
        assert(frame_hash_input(d1, little) =~= frame_hash_input(d2, little));
    }
}

/// Two videos are the same record exactly when they have the same size, the
/// same number of fingerprinted frames, and the same fingerprints for those
/// frames; in particular videos of different sizes are never the same record,
/// and the same record implies `==`.
pub proof fn lemma_same_record_same_video(a: FileDataMov, b: FileDataMov)
    ensures
        a.same_record_spec(&b) <==> (a@.0 == b@.0 && a@.1 == b@.1 && a@.2.take(a@.1 as int)
            == b@.2.take(b@.1 as int)),
        a.same_record_spec(&b) ==> a.spec_eq(&b),
        a@.0 != b@.0 ==> !a.same_record_spec(&b),
{
    lemma_mov_eq(a, b, b);
}

} // verus!
