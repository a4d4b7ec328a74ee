//! Files grouped by a content key: each group holds the paths, in the order they
//! were added, of the files whose keys match the group's key.

use vstd::prelude::*;
use vstd::multiset::Multiset;
use crate::file_data_img::FileDataImg;
use crate::file_data_mov::FileDataMov;

verus! {

/// A key by which files are grouped. `same_key` must be an equivalence relation.
pub trait GroupKey: Sized {
    spec fn same_key(&self, other: &Self) -> bool;

    proof fn lemma_same_key_reflexive(a: &Self)
        ensures
            a.same_key(a),
    ;

    proof fn lemma_same_key_symmetric(a: &Self, b: &Self)
        ensures
            a.same_key(b) == b.same_key(a),
    ;

    proof fn lemma_same_key_transitive(a: &Self, b: &Self, c: &Self)
        requires
            a.same_key(b),
            b.same_key(c),
        ensures
            a.same_key(c),
    ;

    fn key_matches(&self, other: &Self) -> (r: bool)
        ensures
            r == self.same_key(other),
    ;
}

/// A content digest: keys match when the bytes are equal.
impl GroupKey for Vec<u8> {
    open spec fn same_key(&self, other: &Self) -> bool {
        self@ == other@
    }

    proof fn lemma_same_key_reflexive(a: &Self) {
    }

    proof fn lemma_same_key_symmetric(a: &Self, b: &Self) {
    }

    proof fn lemma_same_key_transitive(a: &Self, b: &Self, c: &Self) {
    }

    fn key_matches(&self, other: &Self) -> (r: bool)
        ensures
            r == (self@ == other@),
    {
        if self.len() != other.len() {
            return false;
        }
        let mut i: usize = 0;
        while i < self.len()
            invariant
                i <= self@.len(),
                self@.len() == other@.len(),
                forall|j: int| 0 <= j < i ==> self@[j] == other@[j],
            decreases self@.len() - i,
        {
            if self[i] != other[i] {
                return false;
            }
            i = i + 1;
        }
        assert(self@ =~= other@);
        true
    }
}

/// Digest keys match exactly when the digests are the same byte sequence: two
/// files share a PNG group only if their whole digests are equal, and keys that
/// differ in any byte, or in length, never match.
pub proof fn lemma_digest_keys_match_when_equal(a: Vec<u8>, b: Vec<u8>, i: int)
    ensures
        a.same_key(&b) <==> a@ == b@,
        0 <= i < a@.len() && 0 <= i < b@.len() && a@[i] != b@[i] ==> !a.same_key(&b),
        a@.len() != b@.len() ==> !a.same_key(&b),
{
}

/// Photos: keys match when every fact agrees (`==` and the bytes that `hash` feeds
/// both agree).
impl GroupKey for FileDataImg {
    open spec fn same_key(&self, other: &Self) -> bool {
        self@ == other@
    }

    proof fn lemma_same_key_reflexive(a: &Self) {
    }

    proof fn lemma_same_key_symmetric(a: &Self, b: &Self) {
    }

    proof fn lemma_same_key_transitive(a: &Self, b: &Self, c: &Self) {
    }

    fn key_matches(&self, other: &Self) -> (r: bool) {
        self.same_record(other)
    }
}

/// Videos: keys match when `==` holds and the fingerprints that `hash` feeds
/// agree.
impl GroupKey for FileDataMov {
    open spec fn same_key(&self, other: &Self) -> bool {
        self.same_record_spec(other)
    }

    proof fn lemma_same_key_reflexive(a: &Self) {
        FileDataMov::lemma_same_record_equivalence(a, a, a);
    }

    proof fn lemma_same_key_symmetric(a: &Self, b: &Self) {
        FileDataMov::lemma_same_record_equivalence(a, b, b);
        FileDataMov::lemma_same_record_equivalence(b, a, a);
    }

    proof fn lemma_same_key_transitive(a: &Self, b: &Self, c: &Self) {
        FileDataMov::lemma_same_record_equivalence(a, b, c);
    }

    fn key_matches(&self, other: &Self) -> (r: bool) {
        self.same_record(other)
    }
}

/// The index of the group whose key matches `key`, if there is one.
pub open spec fn group_index<K: GroupKey>(groups: Seq<(K, Seq<Seq<char>>)>, key: K) -> Option<int> {
    if exists|i: int| 0 <= i < groups.len() && groups[i].0.same_key(&key) {
        Some(choose|i: int| 0 <= i < groups.len() && groups[i].0.same_key(&key))
    } else {
        None
    }
}

/// No two groups have matching keys.
pub open spec fn keys_distinct<K: GroupKey>(groups: Seq<(K, Seq<Seq<char>>)>) -> bool {
    forall|i: int, j: int|
        0 <= i < groups.len() && 0 <= j < groups.len() && i != j ==> !(
        #[trigger] groups[i]).0.same_key(&(#[trigger] groups[j]).0)
}

/// The groups after a file with `key` at `path` has been added.
pub open spec fn groups_after_add<K: GroupKey>(
    groups: Seq<(K, Seq<Seq<char>>)>,
    key: K,
    path: Seq<char>,
) -> Seq<(K, Seq<Seq<char>>)> {
    match group_index(groups, key) {
        Some(i) => groups.update(i, (groups[i].0, groups[i].1.push(path))),
        None => groups.push((key, seq![path])),
    }
}

/// Files grouped by key. The groups are kept in two `Vec`s, in the order their
/// keys were first met: the keys (byte digests, photos, videos) are not of a kind
/// that vstd's model of `HashMap` covers, so the invariant that no two keys match
/// is kept here (`wf`).
pub struct FileGroups<K> {
    keys: Vec<K>,
    members: Vec<Vec<String>>,
}

impl<K: GroupKey> View for FileGroups<K> {
    type V = Seq<(K, Seq<Seq<char>>)>;

    closed spec fn view(&self) -> Seq<(K, Seq<Seq<char>>)> {
        Seq::new(
            self.keys@.len(),
            |i: int| (self.keys@[i], self.members@[i]@.map_values(|s: String| s@)),
        )
    }
}

impl<K: GroupKey> FileGroups<K> {
    /// The groups are well formed: no two of them have matching keys, and none is
    /// empty.
    pub closed spec fn wf(&self) -> bool {
        &&& self.keys@.len() == self.members@.len()
        &&& keys_distinct(self@)
        &&& forall|g: int| 0 <= g < self@.len() ==> (#[trigger] self@[g]).1.len() > 0
    }

    /// Well-formed groups have no two keys that match, and no group is empty.
    pub proof fn lemma_wf_keys_distinct(&self)
        requires
            self.wf(),
        ensures
            keys_distinct(self@),
            forall|g: int| 0 <= g < self@.len() ==> (#[trigger] self@[g]).1.len() > 0,
    {
    }

    pub fn new() -> (r: FileGroups<K>)
        ensures
            r.wf(),
            r@ == Seq::<(K, Seq<Seq<char>>)>::empty(),
    {
        let r = FileGroups { keys: Vec::new(), members: Vec::new() };
        assert(r@ =~= Seq::<(K, Seq<Seq<char>>)>::empty());
        r
    }

    pub fn len(&self) -> (r: usize)
        requires
            self.wf(),
        ensures
            r == self@.len(),
    {
        self.keys.len()
    }

    pub fn key(&self, i: usize) -> (r: &K)
        requires
            self.wf(),
            i < self@.len(),
        ensures
            *r == self@[i as int].0,
    {
        &self.keys[i]
    }

    /// The paths of group `i`, in the order they were added.
    pub fn members(&self, i: usize) -> (r: &Vec<String>)
        requires
            self.wf(),
            i < self@.len(),
        ensures
            r@.map_values(|s: String| s@) == self@[i as int].1,
    {
        &self.members[i]
    }

    /// Adds the file at `path` whose key is `key`: to the group whose key matches,
    /// or to a new group at the end.
    pub fn add(&mut self, key: K, path: String)
        requires
            old(self).wf(),
        ensures
            final(self).wf(),
            final(self)@ == groups_after_add(old(self)@, key, path@),
    {
        let ghost old_view = self@;
        let n = self.keys.len();
        let mut i: usize = 0;
        while i < n
            invariant
                n == self.keys@.len(),
                self.wf(),
                self@ == old_view,
                old_view == old(self)@,
                i <= n,
                forall|j: int| 0 <= j < i ==> !(#[trigger] self.keys@[j]).same_key(&key),
            decreases n - i,
        {
            if self.keys[i].key_matches(&key) {
                proof {
                    assert(self@[i as int].0 == self.keys@[i as int]);
                    let c = choose|c: int| 0 <= c < old_view.len() && old_view[c].0.same_key(&key);
                    if c != i {
                        K::lemma_same_key_symmetric(&old_view[c].0, &key);
                        K::lemma_same_key_transitive(&old_view[i as int].0, &key, &old_view[c].0);
                        assert(!old_view[i as int].0.same_key(&old_view[c].0));
                    }
                    assert(group_index(old_view, key) == Some(i as int));
                }
                self.members[i].push(path);
                proof {
                    assert(self@ =~= old_view.update(
                        i as int,
                        (old_view[i as int].0, old_view[i as int].1.push(path@)),
                    )) by {
                        assert(self.members@[i as int]@.map_values(|s: String| s@) =~= old_view[i as int].1.push(path@));
                    }
                    assert(group_index(old_view, key) == Some(i as int));
                    assert(self@ == groups_after_add(old_view, key, path@));
                }
                return;
            }
            i = i + 1;
        }
        proof {
            assert forall|j: int| 0 <= j < old_view.len() implies !old_view[j].0.same_key(&key) by {
                assert(old_view[j].0 == self.keys@[j]);
            }
            assert(group_index(old_view, key) is None);
        }
        self.keys.push(key);
        let mut group: Vec<String> = Vec::new();
        group.push(path);
        self.members.push(group);
        proof {
            assert(self@ =~= old_view.push((key, seq![path@]))) by {
                let last = self@.len() - 1;
                assert(self.members@[last]@.map_values(|s: String| s@) =~= seq![path@]);
            }
            assert forall|a: int, b: int|
                0 <= a < self@.len() && 0 <= b < self@.len() && a != b implies !(
                #[trigger] self@[a]).0.same_key(&(#[trigger] self@[b]).0) by {
                if a == old_view.len() {
                    K::lemma_same_key_symmetric(&key, &old_view[b].0);
                } else if b == old_view.len() {
                } else {
                }
            }
        }
    }
}

/// Adding a file puts its path last in the one group whose key matches its key
/// (a new group at the end where none does), leaves every other group as it was,
/// and keeps the keys of distinct groups from matching.
pub proof fn lemma_add_files_by_key<K: GroupKey>(
    groups: Seq<(K, Seq<Seq<char>>)>,
    key: K,
    path: Seq<char>,
)
    requires
        keys_distinct(groups),
    ensures
        ({
            let after = groups_after_add(groups, key, path);
            &&& keys_distinct(after)
            &&& group_index(after, key) is Some
            &&& after[group_index(after, key).unwrap()].0.same_key(&key)
            &&& after[group_index(after, key).unwrap()].1 == (if group_index(groups, key) is Some {
                groups[group_index(after, key).unwrap()].1
            } else {
                Seq::<Seq<char>>::empty()
            }).push(path)
            &&& forall|i: int|
                0 <= i < groups.len() && i != group_index(after, key).unwrap() ==> after[i]
                    == groups[i]
        }),
{
    let after = groups_after_add(groups, key, path);
    match group_index(groups, key) {
        Some(i) => {
            assert(0 <= i < groups.len() && groups[i].0.same_key(&key));
            assert(after[i].0.same_key(&key));
            assert(group_index(after, key) is Some);
            let j = group_index(after, key).unwrap();
            if j != i {
                assert(after[j].0 == groups[j].0);
                K::lemma_same_key_symmetric(&groups[j].0, &key);
                K::lemma_same_key_transitive(&groups[i].0, &key, &groups[j].0);
            }
            assert forall|a: int, b: int|
                0 <= a < after.len() && 0 <= b < after.len() && a != b implies !(
                #[trigger] after[a]).0.same_key(&(#[trigger] after[b]).0) by {
                assert(after[a].0 == groups[a].0);
                assert(after[b].0 == groups[b].0);
            }
        },
        None => {
            let n = groups.len() as int;
            assert(after[n].0 == key);
            K::lemma_same_key_reflexive(&key);
            assert(after[n].0.same_key(&key));
            let j = group_index(after, key).unwrap();
            if j != n {
                assert(after[j] == groups[j]);
            }
            assert(after[n].1 =~= Seq::<Seq<char>>::empty().push(path));
            assert forall|a: int, b: int|
                0 <= a < after.len() && 0 <= b < after.len() && a != b implies !(
                #[trigger] after[a]).0.same_key(&(#[trigger] after[b]).0) by {
                if a == n {
                    K::lemma_same_key_symmetric(&key, &groups[b].0);
                    assert(after[b] == groups[b]);
                } else if b == n {
                    assert(after[a] == groups[a]);
                } else {
                    assert(after[a] == groups[a]);
                    assert(after[b] == groups[b]);
                }
            }
        },
    }
}

/// The groups after the files `entries` (key and path) have been added in order
/// to the groups `start`.
pub open spec fn groups_after_adding<K: GroupKey>(
    start: Seq<(K, Seq<Seq<char>>)>,
    entries: Seq<(K, Seq<char>)>,
) -> Seq<(K, Seq<Seq<char>>)>
    decreases entries.len(),
{
    if entries.len() == 0 {
        start
    } else {
        groups_after_add(
            groups_after_adding(start, entries.drop_last()),
            entries.last().0,
            entries.last().1,
        )
    }
}

proof fn lemma_group_index_unique<K: GroupKey>(groups: Seq<(K, Seq<Seq<char>>)>, key: K, a: int)
    requires
        keys_distinct(groups),
        0 <= a < groups.len(),
        groups[a].0.same_key(&key),
    ensures
        group_index(groups, key) == Some(a),
{
    let b = group_index(groups, key).unwrap();
    assert(0 <= b < groups.len() && groups[b].0.same_key(&key));
    if a != b {
        K::lemma_same_key_symmetric(&groups[b].0, &key);
        K::lemma_same_key_transitive(&groups[a].0, &key, &groups[b].0);
    }
}

/// Once a key has a group, adding a file keeps that group where it is, with its
/// key and its paths.
proof fn lemma_add_keeps_group<K: GroupKey>(
    groups: Seq<(K, Seq<Seq<char>>)>,
    key: K,
    path: Seq<char>,
    other: K,
    p: Seq<char>,
)
    requires
        keys_distinct(groups),
        group_index(groups, other) is Some,
        groups[group_index(groups, other).unwrap()].1.contains(p),
    ensures
        group_index(groups_after_add(groups, key, path), other) == group_index(groups, other),
        groups_after_add(groups, key, path)[group_index(groups, other).unwrap()].1.contains(p),
{
    let after = groups_after_add(groups, key, path);
    let x = group_index(groups, other).unwrap();
    assert(0 <= x < groups.len() && groups[x].0.same_key(&other));
    lemma_add_files_by_key(groups, key, path);
    assert(after[x].0 == groups[x].0);
    lemma_group_index_unique(after, other, x);
    let k = choose|k: int| 0 <= k < groups[x].1.len() && groups[x].1[k] == p;
    if after[x].1 != groups[x].1 {
        assert(after[x].1 == groups[x].1.push(path));
        assert(after[x].1[k] == p);
    }
}

proof fn lemma_groups_after_adding_distinct<K: GroupKey>(
    start: Seq<(K, Seq<Seq<char>>)>,
    entries: Seq<(K, Seq<char>)>,
)
    requires
        keys_distinct(start),
    ensures
        keys_distinct(groups_after_adding(start, entries)),
    decreases entries.len(),
{
    if entries.len() > 0 {
        lemma_groups_after_adding_distinct(start, entries.drop_last());
        lemma_add_files_by_key(
            groups_after_adding(start, entries.drop_last()),
            entries.last().0,
            entries.last().1,
        );
    }
}

proof fn lemma_entry_has_group<K: GroupKey>(
    start: Seq<(K, Seq<Seq<char>>)>,
    entries: Seq<(K, Seq<char>)>,
    i: int,
)
    requires
        keys_distinct(start),
        0 <= i < entries.len(),
    ensures
        group_index(groups_after_adding(start, entries), entries[i].0) is Some,
        groups_after_adding(start, entries)[group_index(
            groups_after_adding(start, entries),
            entries[i].0,
        ).unwrap()].1.contains(entries[i].1),
    decreases entries.len(),
{
    let prev = entries.drop_last();
    lemma_groups_after_adding_distinct(start, prev);
    let before = groups_after_adding(start, prev);
    let after = groups_after_adding(start, entries);
    assert(after == groups_after_add(before, entries.last().0, entries.last().1));
    if i == entries.len() - 1 {
        lemma_add_files_by_key(before, entries[i].0, entries[i].1);
        let x = group_index(after, entries[i].0).unwrap();
        let members = after[x].1;
        assert(members[members.len() - 1] == entries[i].1);
    } else {
        lemma_entry_has_group(start, prev, i);
        assert(prev[i] == entries[i]);
        lemma_add_keeps_group(before, entries.last().0, entries.last().1, entries[i].0, entries[i].1);
    }
}

/// Files are grouped by key: after any sequence of additions to well-formed
/// groups, every added file's path is in the group of its key, and two added
/// files share a group exactly when their keys match.
pub proof fn lemma_grouped_by_key<K: GroupKey>(
    start: Seq<(K, Seq<Seq<char>>)>,
    entries: Seq<(K, Seq<char>)>,
    i: int,
    j: int,
)
    requires
        keys_distinct(start),
        0 <= i < entries.len(),
        0 <= j < entries.len(),
    ensures
        keys_distinct(groups_after_adding(start, entries)),
        group_index(groups_after_adding(start, entries), entries[i].0) is Some,
        groups_after_adding(start, entries)[group_index(
            groups_after_adding(start, entries),
            entries[i].0,
        ).unwrap()].1.contains(entries[i].1),
        (group_index(groups_after_adding(start, entries), entries[i].0) == group_index(
            groups_after_adding(start, entries),
            entries[j].0,
        )) <==> entries[i].0.same_key(&entries[j].0),
{
    let all = groups_after_adding(start, entries);
    lemma_groups_after_adding_distinct(start, entries);
    lemma_entry_has_group(start, entries, i);
    lemma_entry_has_group(start, entries, j);
    let xi = group_index(all, entries[i].0).unwrap();
    let xj = group_index(all, entries[j].0).unwrap();
    assert(0 <= xi < all.len() && all[xi].0.same_key(&entries[i].0));
    assert(0 <= xj < all.len() && all[xj].0.same_key(&entries[j].0));
    if entries[i].0.same_key(&entries[j].0) {
        K::lemma_same_key_transitive(&all[xi].0, &entries[i].0, &entries[j].0);
        lemma_group_index_unique(all, entries[j].0, xi);
    }
    if xi == xj {
        K::lemma_same_key_symmetric(&all[xi].0, &entries[i].0);
        K::lemma_same_key_transitive(&entries[i].0, &all[xi].0, &entries[j].0);
    }
}

/// All paths held by the groups, counted with multiplicity.
pub open spec fn members_multiset<K>(groups: Seq<(K, Seq<Seq<char>>)>) -> Multiset<Seq<char>>
    decreases groups.len(),
{
    if groups.len() == 0 {
        Multiset::empty()
    } else {
        members_multiset(groups.drop_last()).add(groups.last().1.to_multiset())
    }
}

/// The paths of the added files, in order.
pub open spec fn entry_paths<K>(entries: Seq<(K, Seq<char>)>) -> Seq<Seq<char>> {
    entries.map_values(|e: (K, Seq<char>)| e.1)
}

proof fn lemma_members_update<K>(
    groups: Seq<(K, Seq<Seq<char>>)>,
    i: int,
    key: K,
    path: Seq<char>,
)
    requires
        0 <= i < groups.len(),
    ensures
        members_multiset(groups.update(i, (key, groups[i].1.push(path)))) =~= members_multiset(
            groups,
        ).insert(path),
    decreases groups.len(),
{
    broadcast use vstd::seq_lib::group_to_multiset_ensures;

    let after = groups.update(i, (key, groups[i].1.push(path)));
    if i == groups.len() - 1 {
        assert(after.drop_last() =~= groups.drop_last());
        assert(groups[i].1.push(path).to_multiset() =~= groups[i].1.to_multiset().insert(path));
    } else {
        lemma_members_update(groups.drop_last(), i, key, path);
        assert(after.drop_last() =~= groups.drop_last().update(i, (key, groups[i].1.push(path))));
        assert(after.last() == groups.last());
    }
}

proof fn lemma_members_after_add<K: GroupKey>(
    groups: Seq<(K, Seq<Seq<char>>)>,
    key: K,
    path: Seq<char>,
)
    ensures
        members_multiset(groups_after_add(groups, key, path)) =~= members_multiset(groups).insert(
            path,
        ),
        forall|g: int|
            0 <= g < groups.len() && groups[g].1.len() > 0 ==> #[trigger] groups_after_add(
                groups,
                key,
                path,
            )[g].1.len() > 0,
{
    broadcast use vstd::seq_lib::group_to_multiset_ensures;

    match group_index(groups, key) {
        Some(i) => {
            assert(0 <= i < groups.len() && groups[i].0.same_key(&key));
            lemma_members_update(groups, i, groups[i].0, path);
        },
        None => {
            let after = groups.push((key, seq![path]));
            assert(after.drop_last() =~= groups);
            assert(seq![path] =~= Seq::<Seq<char>>::empty().push(path));
            assert(Seq::<Seq<char>>::empty().to_multiset() =~= Multiset::empty()) by {
                assert(Seq::<Seq<char>>::empty().to_multiset().len() == 0);
            }
        },
    }
}

/// Adding files to groups none of which is empty leaves no group empty, and the
/// groups then hold the paths they held before and the added paths, each as
/// often as it was added, and no other path.
pub proof fn lemma_each_path_once<K: GroupKey>(
    start: Seq<(K, Seq<Seq<char>>)>,
    entries: Seq<(K, Seq<char>)>,
)
    requires
        forall|g: int| 0 <= g < start.len() ==> (#[trigger] start[g]).1.len() > 0,
    ensures
        forall|g: int|
            0 <= g < groups_after_adding(start, entries).len() ==> (#[trigger] groups_after_adding(
                start,
                entries,
            )[g]).1.len() > 0,
        members_multiset(groups_after_adding(start, entries)) =~= members_multiset(start).add(
            entry_paths(entries).to_multiset(),
        ),
    decreases entries.len(),
{
    broadcast use vstd::seq_lib::group_to_multiset_ensures;

    if entries.len() == 0 {
        assert(entry_paths(entries) =~= Seq::<Seq<char>>::empty());
        assert(Seq::<Seq<char>>::empty().to_multiset() =~= Multiset::empty()) by {
            assert(Seq::<Seq<char>>::empty().to_multiset().len() == 0);
        }
    } else {
        let prev = entries.drop_last();
        let before = groups_after_adding(start, prev);
        let last = entries.last();
        lemma_each_path_once(start, prev);
        lemma_members_after_add(before, last.0, last.1);
        assert(entry_paths(entries) =~= entry_paths(prev).push(last.1));
        let after = groups_after_adding(start, entries);
        assert(after == groups_after_add(before, last.0, last.1));
        assert forall|g: int| 0 <= g < after.len() implies (#[trigger] after[g]).1.len() > 0 by {
            if g < before.len() {
                assert(before[g].1.len() > 0);
            } else {
                assert(group_index(before, last.0) is None);
                assert(after[g].1 == seq![last.1]);
            }
        }
    }
}

/// Where the added paths are all different and none of them was in a group
/// before, each occurs exactly once across all groups afterwards.
pub proof fn lemma_distinct_paths_once<K: GroupKey>(
    start: Seq<(K, Seq<Seq<char>>)>,
    entries: Seq<(K, Seq<char>)>,
    i: int,
)
    requires
        forall|g: int| 0 <= g < start.len() ==> (#[trigger] start[g]).1.len() > 0,
        entry_paths(entries).no_duplicates(),
        0 <= i < entries.len(),
        members_multiset(start).count(entries[i].1) == 0,
    ensures
        members_multiset(groups_after_adding(start, entries)).count(entries[i].1) == 1,
{
    broadcast use vstd::seq_lib::group_to_multiset_ensures;

    lemma_each_path_once(start, entries);
    let paths = entry_paths(entries);
    paths.lemma_multiset_has_no_duplicates();
    assert(paths[i] == entries[i].1);
    assert(paths.contains(entries[i].1));
}

} // verus!
