//! A scan of PNG files that reports a file as a copy when an earlier file had the
//! same contents. Files whose size was already met are passed over unread.

use std::collections::HashSet;
use vstd::prelude::*;
use crate::digest::{png_key, sha512_of};
use crate::groups::GroupKey;

verus! {

/// The sizes met so far, and the digests of the files read so far. The digests
/// are kept in a `Vec` (a `HashSet` keyed by byte vectors has no model here),
/// with the invariant that no digest occurs twice.
pub struct PngScan {
    sizes: HashSet<u64>,
    digests: Vec<Vec<u8>>,
}

impl View for PngScan {
    type V = (Set<u64>, Seq<Seq<u8>>);

    closed spec fn view(&self) -> (Set<u64>, Seq<Seq<u8>>) {
        (self.sizes@, self.digests@.map_values(|d: Vec<u8>| d@))
    }
}

impl PngScan {
    /// No digest is remembered twice.
    #[verifier::type_invariant]
    closed spec fn digests_distinct(self) -> bool {
        self.digests@.map_values(|d: Vec<u8>| d@).no_duplicates()
    }

    pub fn new() -> (r: PngScan)
        ensures
            r@.0 == Set::<u64>::empty(),
            r@.1 == Seq::<Seq<u8>>::empty(),
    {
        let r = PngScan { sizes: HashSet::new(), digests: Vec::new() };
        assert(r@.1 =~= Seq::<Seq<u8>>::empty());
        r
    }

    /// Whether a file of this size was met before; the size is remembered.
    pub fn size_seen(&mut self, size: u64) -> (seen: bool)
        ensures
            seen == old(self)@.0.contains(size),
            final(self)@.0 == old(self)@.0.insert(size),
            final(self)@.1 == old(self)@.1,
    {
        proof {
            use_type_invariant(&*self);
        }
        let mut sizes: HashSet<u64> = HashSet::new();
        std::mem::swap(&mut sizes, &mut self.sizes);
        let inserted = sizes.insert(size);
        self.sizes = sizes;
        !inserted
    }

    /// Whether a file with the same contents (the same SHA-512 digest) was read
    /// before; the digest is remembered.
    pub fn contents_seen(&mut self, data: &[u8]) -> (seen: bool)
        ensures
            old(self)@.1.no_duplicates(),
            final(self)@.1.no_duplicates(),
            seen == old(self)@.1.contains(sha512_of(data@)),
            final(self)@.1 == (if seen {
                old(self)@.1
            } else {
                old(self)@.1.push(sha512_of(data@))
            }),
            final(self)@.0 == old(self)@.0,
    {
        proof {
            use_type_invariant(&*self);
        }
        let digest = png_key(data);
        let mut i: usize = 0;
        while i < self.digests.len()
            invariant
                i <= self.digests@.len(),
                self@ == old(self)@,
                old(self)@.1.no_duplicates(),
                digest@ == sha512_of(data@),
                forall|j: int| 0 <= j < i ==> self@.1[j] != digest@,
            decreases self.digests@.len() - i,
        {
            if self.digests[i].key_matches(&digest) {
                assert(old(self)@.1[i as int] == digest@);
                return true;
            }
            i = i + 1;
        }
        let mut digests: Vec<Vec<u8>> = Vec::new();
        std::mem::swap(&mut digests, &mut self.digests);
        digests.push(digest);
        assert(digests@.map_values(|d: Vec<u8>| d@) =~= old(self)@.1.push(sha512_of(data@)));
        self.digests = digests;
        false
    }
}

} // verus!
