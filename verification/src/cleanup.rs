//! Which copies of duplicate files are removed. A folder may be declared
//! fragile: where a duplicate is found, the copy in the fragile folder is removed
//! rather than the copy seen first.

use vstd::prelude::*;
use vstd::multiset::Multiset;
use crate::groups::{FileGroups, GroupKey};
use crate::text::{utf8, SLASH};

verus! {

broadcast use vstd::seq_lib::group_to_multiset_ensures;

/// The texts of a sequence of strings.
pub open spec fn texts(v: Seq<String>) -> Seq<Seq<char>> {
    v.map_values(|s: String| s@)
}

/// The path `file` lies in the folder `folder`: the folder's path is a prefix of
/// the file's, ending at a `/`.
pub open spec fn in_folder(file: Seq<u8>, folder: Seq<u8>) -> bool {
    &&& folder.len() <= file.len()
    &&& file.take(folder.len() as int) == folder
    &&& ((folder.len() > 0 && folder.last() == SLASH) || (folder.len() < file.len()
        && file[folder.len() as int] == SLASH))
}

/// The file lies in one of the fragile folders.
pub open spec fn fragile(file: Seq<char>, folders: Seq<Seq<char>>) -> bool {
    exists|k: int| 0 <= k < folders.len() && in_folder(utf8(file), utf8(#[trigger] folders[k]))
}

/// Duplicates are dealt with one at a time, in the order they were found, against
/// the copy kept so far. The new copy is removed when it lies in a fragile folder
/// and the kept one does not; otherwise the copy seen first (the kept one) is
/// removed and the new copy is kept. `survivor` is the index of the copy that is
/// kept in the end.
pub open spec fn survivor(files: Seq<Seq<char>>, folders: Seq<Seq<char>>) -> int
    decreases files.len(),
{
    if files.len() <= 1 {
        0
    } else {
        let s = survivor(files.drop_last(), folders);
        if fragile(files.last(), folders) && !fragile(files[s], folders) {
            s
        } else {
            files.len() - 1
        }
    }
}

/// The copies removed from one group of duplicates, in the order they are removed.
pub open spec fn removed(files: Seq<Seq<char>>, folders: Seq<Seq<char>>) -> Seq<Seq<char>>
    decreases files.len(),
{
    if files.len() <= 1 {
        seq![]
    } else {
        let s = survivor(files.drop_last(), folders);
        let rest = removed(files.drop_last(), folders);
        if fragile(files.last(), folders) && !fragile(files[s], folders) {
            rest.push(files.last())
        } else {
            rest.push(files[s])
        }
    }
}

/// The copies removed from all groups, group by group.
pub open spec fn removal_plan(groups: Seq<Seq<Seq<char>>>, folders: Seq<Seq<char>>) -> Seq<
    Seq<char>,
>
    decreases groups.len(),
{
    if groups.len() == 0 {
        seq![]
    } else {
        removal_plan(groups.drop_last(), folders) + removed(groups.last(), folders)
    }
}

/// How many copies beyond the first the groups hold: a group of n files has
/// n - 1 copies too many.
pub open spec fn extra_copies(groups: Seq<Seq<Seq<char>>>) -> int
    decreases groups.len(),
{
    if groups.len() == 0 {
        0
    } else {
        extra_copies(groups.drop_last()) + groups.last().len() - 1
    }
}

/// Whatever the fragile folders are (none at all included), the plan removes
/// from every group all copies but one: as many paths as the groups hold copies
/// beyond the first.
pub proof fn lemma_plan_removes_all_but_one(groups: Seq<Seq<Seq<char>>>, folders: Seq<Seq<char>>)
    requires
        forall|g: int| 0 <= g < groups.len() ==> (#[trigger] groups[g]).len() >= 1,
    ensures
        removal_plan(groups, folders).len() == extra_copies(groups),
    decreases groups.len(),
{
    if groups.len() > 0 {
        let p = groups.drop_last();
        assert forall|g: int| 0 <= g < p.len() implies (#[trigger] p[g]).len() >= 1 by {
            assert(p[g] == groups[g]);
        }
        lemma_plan_removes_all_but_one(p, folders);
        lemma_one_copy_kept(groups.last(), folders);
    }
}

/// A group found after others adds its own removals after theirs and changes
/// nothing of theirs, whatever the fragile folders are.
pub proof fn lemma_plan_group_by_group(
    groups: Seq<Seq<Seq<char>>>,
    more: Seq<Seq<char>>,
    folders: Seq<Seq<char>>,
)
    ensures
        removal_plan(groups.push(more), folders) == removal_plan(groups, folders) + removed(
            more,
            folders,
        ),
{
    assert(groups.push(more).drop_last() =~= groups);
}

/// Whether the path `file` lies in the folder `folder`.
pub fn lies_in(file: &str, folder: &str) -> (r: bool)
    ensures
        r == in_folder(utf8(file@), utf8(folder@)),
{
    let f = file.as_bytes();
    let d = folder.as_bytes();
    if d.len() > f.len() {
        return false;
    }
    let mut i: usize = 0;
    while i < d.len()
        invariant
            i <= d@.len() <= f@.len(),
            f@ == utf8(file@),
            d@ == utf8(folder@),
            forall|j: int| 0 <= j < i ==> f@[j] == d@[j],
        decreases d@.len() - i,
    {
        if f[i] != d[i] {
            assert(f@.take(d@.len() as int)[i as int] != d@[i as int]);
            return false;
        }
        i = i + 1;
    }
    assert(f@.take(d@.len() as int) =~= d@);
    (d.len() > 0 && d[d.len() - 1] == SLASH) || (d.len() < f.len() && f[d.len()] == SLASH)
}

/// Whether the file lies in one of the fragile folders.
pub fn in_fragile_folder(file: &String, folders: &Vec<String>) -> (r: bool)
    ensures
        r == fragile(file@, texts(folders@)),
{
    let ghost fv = texts(folders@);
    let mut k: usize = 0;
    while k < folders.len()
        invariant
            k <= folders@.len(),
            fv == texts(folders@),
            forall|j: int| 0 <= j < k ==> !in_folder(utf8(file@), utf8(#[trigger] fv[j])),
        decreases folders@.len() - k,
    {
        if lies_in(file.as_str(), folders[k].as_str()) {
            assert(in_folder(utf8(file@), utf8(fv[k as int])));
            return true;
        }
        k = k + 1;
    }
    false
}

/// The copies to remove from one group of duplicates (see `survivor`).
pub fn group_removals(files: &Vec<String>, folders: &Vec<String>) -> (r: Vec<String>)
    ensures
        texts(r@) == removed(texts(files@), texts(folders@)),
{
    let ghost fv = texts(files@);
    let ghost dv = texts(folders@);
    let n = files.len();
    let mut out: Vec<String> = Vec::new();
    if n <= 1 {
        assert(texts(out@) =~= Seq::<Seq<char>>::empty());
        return out;
    }
    let mut s: usize = 0;
    let mut i: usize = 1;
    assert(texts(out@) =~= removed(fv.take(1), dv));
    while i < n
        invariant
            1 <= i <= n,
            n == files@.len(),
            fv == texts(files@),
            dv == texts(folders@),
            s < i,
            s == survivor(fv.take(i as int), dv),
            texts(out@) == removed(fv.take(i as int), dv),
        decreases n - i,
    {
        let ghost prefix = fv.take(i + 1);
        assert(prefix.drop_last() =~= fv.take(i as int));
        assert(prefix.last() == fv[i as int]);
        assert(prefix[s as int] == fv[s as int]);
        let new_fragile = in_fragile_folder(&files[i], folders);
        let kept_fragile = in_fragile_folder(&files[s], folders);
        let ghost before = out@;
        if new_fragile && !kept_fragile {
            out.push(files[i].clone());
        } else {
            out.push(files[s].clone());
            s = i;
        }
        assert(texts(out@) =~= texts(before).push(texts(out@).last()));
        i = i + 1;
    }
    assert(fv.take(n as int) =~= fv);
    out
}

/// The copies to remove from every group of duplicates, group by group; groups of
/// one file lose nothing.
pub fn fragile_folder_check<K: GroupKey>(fragile_folders: &Vec<String>, groups: &FileGroups<K>) -> (r: Vec<String>)
    requires
        groups.wf(),
    ensures
        texts(r@) == removal_plan(groups@.map_values(|g: (K, Seq<Seq<char>>)| g.1), texts(fragile_folders@)),
        r@.len() == extra_copies(groups@.map_values(|g: (K, Seq<Seq<char>>)| g.1)),
{
    let ghost gv = groups@.map_values(|g: (K, Seq<Seq<char>>)| g.1);
    let ghost dv = texts(fragile_folders@);
    let mut out: Vec<String> = Vec::new();
    let n = groups.len();
    let mut g: usize = 0;
    assert(texts(out@) =~= removal_plan(gv.take(0), dv));
    while g < n
        invariant
            g <= n,
            n == groups@.len(),
            groups.wf(),
            gv == groups@.map_values(|g: (K, Seq<Seq<char>>)| g.1),
            dv == texts(fragile_folders@),
            texts(out@) == removal_plan(gv.take(g as int), dv),
        decreases n - g,
    {
        let members = groups.members(g);
        let mut removals = group_removals(members, fragile_folders);
        let ghost before = out@;
        let ghost extra = removals@;
        out.append(&mut removals);
        assert(gv.take(g + 1).drop_last() =~= gv.take(g as int));
        assert(gv.take(g + 1).last() == texts(members@));
        assert(texts(out@) =~= texts(before) + texts(extra));
        g = g + 1;
    }
    assert(gv.take(n as int) =~= gv);
    proof {
        groups.lemma_wf_keys_distinct();
        assert forall|k: int| 0 <= k < gv.len() implies (#[trigger] gv[k]).len() >= 1 by {
            assert(gv[k] == groups@[k].1);
        }
        lemma_plan_removes_all_but_one(gv, dv);
        assert(texts(out@).len() == out@.len());
    }
    out
}

/// Of a group of n duplicates (n at least one) exactly one copy is kept: n - 1
/// copies are removed, and the kept copy with the removed ones are exactly the
/// group's copies.
pub proof fn lemma_one_copy_kept(files: Seq<Seq<char>>, folders: Seq<Seq<char>>)
    requires
        files.len() >= 1,
    ensures
        0 <= survivor(files, folders) < files.len(),
        removed(files, folders).len() == files.len() - 1,
        removed(files, folders).to_multiset().insert(files[survivor(files, folders)])
            == files.to_multiset(),
    decreases files.len(),
{
    if files.len() == 1 {
        let e = Seq::<Seq<char>>::empty();
        assert(files =~= e.push(files[0]));
        assert(removed(files, folders) =~= e);
        assert(e.to_multiset() =~= Multiset::empty()) by {
            assert(e.to_multiset().len() == 0);
        }
    } else {
        let p = files.drop_last();
        lemma_one_copy_kept(p, folders);
        let s = survivor(p, folders);
        assert(files =~= p.push(files.last()));
        let rest = removed(p, folders);
        if fragile(files.last(), folders) && !fragile(files[s], folders) {
            assert(rest.push(files.last()).to_multiset() =~= rest.to_multiset().insert(files.last()));
            assert(files[s] == p[s]);
        } else {
            assert(rest.push(files[s]).to_multiset() =~= rest.to_multiset().insert(files[s]));
            assert(files[s] == p[s]);
        }
    }
}

/// The kept copy lies outside every fragile folder whenever some copy of the
/// group does: copies in fragile folders are removed first.
pub proof fn lemma_kept_copy_not_fragile(files: Seq<Seq<char>>, folders: Seq<Seq<char>>)
    requires
        files.len() >= 1,
    ensures
        !fragile(files[survivor(files, folders)], folders) <==> exists|i: int|
            0 <= i < files.len() && !fragile(#[trigger] files[i], folders),
    decreases files.len(),
{
    if files.len() > 1 {
        let p = files.drop_last();
        lemma_kept_copy_not_fragile(p, folders);
        lemma_one_copy_kept(p, folders);
        let s = survivor(p, folders);
        assert(files[s] == p[s]);
        if exists|i: int| 0 <= i < p.len() && !fragile(#[trigger] p[i], folders) {
            let i = choose|i: int| 0 <= i < p.len() && !fragile(#[trigger] p[i], folders);
            assert(files[i] == p[i]);
        }
        if exists|i: int| 0 <= i < files.len() && !fragile(#[trigger] files[i], folders) {
            let i = choose|i: int| 0 <= i < files.len() && !fragile(#[trigger] files[i], folders);
            if i < p.len() {
                assert(p[i] == files[i]);
            }
        }
    }
}

/// Where no copy lies in a fragile folder, the copy found last is kept and every
/// earlier one is removed: each time, the copy seen first goes.
pub proof fn lemma_without_fragile_last_kept(files: Seq<Seq<char>>, folders: Seq<Seq<char>>)
    requires
        files.len() >= 1,
        forall|i: int| 0 <= i < files.len() ==> !fragile(#[trigger] files[i], folders),
    ensures
        survivor(files, folders) == files.len() - 1,
        removed(files, folders) == files.take(files.len() - 1),
    decreases files.len(),
{
    if files.len() > 1 {
        let p = files.drop_last();
        assert forall|i: int| 0 <= i < p.len() implies !fragile(#[trigger] p[i], folders) by {
            assert(p[i] == files[i]);
        }
        lemma_without_fragile_last_kept(p, folders);
        assert(files.take(files.len() - 1) =~= p.take(p.len() - 1).push(files[p.len() - 1]));
    } else {
        assert(files.take(0) =~= Seq::<Seq<char>>::empty());
    }
}

} // verus!
