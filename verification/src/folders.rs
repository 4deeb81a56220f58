//! The folders the local library scans, each as the components of its canonical path: a
//! folder that is one already listed, or holds one or lies inside one, is refused, since
//! scanning both would count the tracks they share twice.

use vstd::prelude::*;

use crate::feed::texts_view;
use crate::track::same_text;

verus! {

/// A folder as the plain values of its components.
pub open spec fn folder_view(folder: Vec<String>) -> Seq<Seq<char>> {
    texts_view(folder@)
}

/// Folders as plain values.
pub open spec fn folders_view(folders: Seq<Vec<String>>) -> Seq<Seq<Seq<char>>> {
    folders.map_values(|folder: Vec<String>| folder_view(folder))
}

/// Whether the components of `whole` begin with all those of `part`: `part` is `whole` or
/// holds it.
pub open spec fn within(part: Seq<Seq<char>>, whole: Seq<Seq<char>>) -> bool {
    part.len() <= whole.len() && whole.take(part.len() as int) == part
}

/// Whether two folders are the same, or one holds the other.
pub open spec fn overlaps_spec(a: Seq<Seq<char>>, b: Seq<Seq<char>>) -> bool {
    within(a, b) || within(b, a)
}

/// Whether a folder overlaps one of the folders.
pub open spec fn clashes(folders: Seq<Seq<Seq<char>>>, folder: Seq<Seq<char>>) -> bool {
    exists|k: int| 0 <= k < folders.len() && overlaps_spec(#[trigger] folders[k], folder)
}

/// The folders after `paths` are added in turn: each one that overlaps none listed so far
/// joins last, the others are refused.
pub open spec fn added(folders: Seq<Seq<Seq<char>>>, paths: Seq<Seq<Seq<char>>>) -> Seq<Seq<Seq<char>>>
    decreases paths.len(),
{
    if paths.len() == 0 {
        folders
    } else {
        let before = added(folders, paths.drop_last());
        if clashes(before, paths.last()) {
            before
        } else {
            before.push(paths.last())
        }
    }
}

/// Whether no two of the folders overlap.
pub open spec fn apart(folders: Seq<Seq<Seq<char>>>) -> bool {
    forall|i: int, j: int|
        0 <= i < j < folders.len() ==> !overlaps_spec(#[trigger] folders[i], #[trigger] folders[j])
}

/// Whether the components of `whole` begin with all those of `part`.
fn holds(part: &Vec<String>, whole: &Vec<String>) -> (r: bool)
    ensures
        r == within(folder_view(*part), folder_view(*whole)),
{
    if part.len() > whole.len() {
        return false;
    }
    let ghost p = folder_view(*part);
    let ghost w = folder_view(*whole);
    let mut i: usize = 0;
    while i < part.len()
        invariant
            i <= part@.len(),
            part@.len() <= whole@.len(),
            p == folder_view(*part),
            w == folder_view(*whole),
            forall|j: int| 0 <= j < i ==> #[trigger] p[j] == w[j],
        decreases part@.len() - i,
    {
        if !same_text(&part[i], &whole[i]) {
            assert(w.take(p.len() as int)[i as int] != p[i as int]);
            return false;
        }
        i = i + 1;
    }
    assert(w.take(p.len() as int) =~= p);
    true
}

/// Whether two folders are the same, or one holds the other.
pub fn overlaps(a: &Vec<String>, b: &Vec<String>) -> (r: bool)
    ensures
        r == overlaps_spec(folder_view(*a), folder_view(*b)),
{
    holds(a, b) || holds(b, a)
}

/// Whether a folder overlaps one of the folders.
fn clash(folders: &Vec<Vec<String>>, folder: &Vec<String>) -> (r: bool)
    ensures
        r == clashes(folders_view(folders@), folder_view(*folder)),
{
    let ghost all = folders_view(folders@);
    let mut k: usize = 0;
    while k < folders.len()
        invariant
            k <= folders@.len(),
            all == folders_view(folders@),
            forall|j: int| 0 <= j < k ==> !overlaps_spec(#[trigger] all[j], folder_view(*folder)),
        decreases folders@.len() - k,
    {
        if overlaps(&folders[k], folder) {
            assert(overlaps_spec(all[k as int], folder_view(*folder)));
            return true;
        }
        k = k + 1;
    }
    false
}

/// A copy of a folder, component for component.
fn copy_folder(folder: &Vec<String>) -> (r: Vec<String>)
    ensures
        folder_view(r) == folder_view(*folder),
{
    let mut out: Vec<String> = Vec::new();
    let mut i: usize = 0;
    while i < folder.len()
        invariant
            i <= folder@.len(),
            texts_view(out@) == texts_view(folder@).subrange(0, i as int),
        decreases folder@.len() - i,
    {
        let ghost was = out@;
        out.push(folder[i].clone());
        assert(out@ =~= was.push(folder@[i as int]));
        assert(texts_view(out@) =~= texts_view(was).push(folder@[i as int]@));
        assert(texts_view(out@) =~= texts_view(folder@).subrange(0, i + 1));
        i = i + 1;
    }
    assert(texts_view(folder@).subrange(0, i as int) =~= texts_view(folder@));
    out
}

/// Adds folders to the list in turn, each that overlaps none listed so far last. Answers with
/// the new list, or nothing when every folder was refused.
pub fn add_folders(folders: &Vec<Vec<String>>, paths: Vec<Vec<String>>) -> (r: Option<Vec<Vec<String>>>)
    ensures
        ({
            let after = added(folders_view(folders@), folders_view(paths@));
            match r {
                Some(list) => after.len() > folders@.len() && folders_view(list@) == after,
                None => after.len() == folders@.len(),
            }
        }),
{
    let ghost base = folders_view(folders@);
    let ghost wanted = folders_view(paths@);
    let mut list: Vec<Vec<String>> = Vec::new();
    let mut i: usize = 0;
    while i < folders.len()
        invariant
            i <= folders@.len(),
            base == folders_view(folders@),
            folders_view(list@) == base.subrange(0, i as int),
        decreases folders@.len() - i,
    {
        let ghost was = list@;
        list.push(copy_folder(&folders[i]));
        assert(folders_view(list@) =~= folders_view(was).push(folder_view(folders@[i as int])));
        assert(folders_view(list@) =~= base.subrange(0, i + 1));
        i = i + 1;
    }
    assert(base.subrange(0, i as int) =~= base);
    let mut j: usize = 0;
    assert(wanted.subrange(0, 0) =~= Seq::<Seq<Seq<char>>>::empty());
    while j < paths.len()
        invariant
            j <= paths@.len(),
            wanted == folders_view(paths@),
            folders_view(list@) == added(base, wanted.subrange(0, j as int)),
        decreases paths@.len() - j,
    {
        proof {
            assert(wanted.subrange(0, j + 1).drop_last() =~= wanted.subrange(0, j as int));
            assert(wanted.subrange(0, j + 1).last() == folder_view(paths@[j as int]));
        }
        if !clash(&list, &paths[j]) {
            let ghost was = list@;
            list.push(copy_folder(&paths[j]));
            assert(folders_view(list@) =~= folders_view(was).push(folder_view(paths@[j as int])));
        }
        j = j + 1;
    }
    assert(wanted.subrange(0, j as int) =~= wanted);
    proof {
        lemma_added_grows(base, wanted);
    }
    if list.len() == folders.len() {
        None
    } else {
        Some(list)
    }
}

/// Adding folders only ever adds to the list.
pub proof fn lemma_added_grows(folders: Seq<Seq<Seq<char>>>, paths: Seq<Seq<Seq<char>>>)
    ensures
        added(folders, paths).len() >= folders.len(),
        added(folders, paths).take(folders.len() as int) == folders,
    decreases paths.len(),
{
    if paths.len() > 0 {
        lemma_added_grows(folders, paths.drop_last());
        let before = added(folders, paths.drop_last());
        if !clashes(before, paths.last()) {
            assert(before.push(paths.last()).take(folders.len() as int) =~= before.take(
                folders.len() as int,
            ));
        }
    } else {
        assert(folders.take(folders.len() as int) =~= folders);
    }
}

/// No two folders of the list overlap, when none did before the others were added.
pub proof fn lemma_added_apart(folders: Seq<Seq<Seq<char>>>, paths: Seq<Seq<Seq<char>>>)
    requires
        apart(folders),
    ensures
        apart(added(folders, paths)),
    decreases paths.len(),
{
    if paths.len() > 0 {
        lemma_added_apart(folders, paths.drop_last());
        let before = added(folders, paths.drop_last());
        let folder = paths.last();
        if !clashes(before, folder) {
            let after = before.push(folder);
            assert forall|i: int, j: int| 0 <= i < j < after.len() implies !overlaps_spec(
                #[trigger] after[i],
                #[trigger] after[j],
            ) by {
                if j == before.len() {
                    assert(after[i] == before[i]);
                    if overlaps_spec(before[i], folder) {
                        assert(clashes(before, folder));
                    }
                } else {
                    assert(after[i] == before[i] && after[j] == before[j]);
                }
            }
        }
    }
}

/// Takes a folder off the list. Answers with the new list, or nothing when it was not listed.
pub fn remove_folder(folders: &Vec<Vec<String>>, path: &Vec<String>) -> (r: Option<Vec<Vec<String>>>)
    ensures
        ({
            let after = folders_view(folders@).filter(|folder: Seq<Seq<char>>| folder != folder_view(*path));
            match r {
                Some(list) => after.len() < folders@.len() && folders_view(list@) == after,
                None => after.len() == folders@.len(),
            }
        }),
{
    let ghost all = folders_view(folders@);
    let ghost gone = folder_view(*path);
    let mut list: Vec<Vec<String>> = Vec::new();
    let mut i: usize = 0;
    while i < folders.len()
        invariant
            i <= folders@.len(),
            all == folders_view(folders@),
            gone == folder_view(*path),
            folders_view(list@) == all.subrange(0, i as int).filter(|folder: Seq<Seq<char>>| folder != gone),
            list@.len() <= i,
        decreases folders@.len() - i,
    {
        proof {
            assert(all.subrange(0, i + 1).drop_last() =~= all.subrange(0, i as int));
            assert(all.subrange(0, i + 1).last() == folder_view(folders@[i as int]));
        }
        reveal(Seq::filter);
        let same = holds(&folders[i], path) && holds(path, &folders[i]);
        proof {
            let here = folder_view(folders@[i as int]);
            if same {
                assert(here =~= gone);
            } else if here == gone {
                assert(here.take(here.len() as int) =~= here);
            }
        }
        if !same {
            let ghost was = list@;
            list.push(copy_folder(&folders[i]));
            assert(folders_view(list@) =~= folders_view(was).push(folder_view(folders@[i as int])));
        }
        i = i + 1;
    }
    assert(all.subrange(0, i as int) =~= all);
    if list.len() == folders.len() {
        None
    } else {
        Some(list)
    }
}

} // verus!
