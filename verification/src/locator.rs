//! Finding the root of the synchronised folder that holds the working
//! directory.
//!
//! A directory is the root of a synchronised folder if it holds the marker
//! directory `.stfolder`. Directories are given by the names that lead to them
//! from the root of the file system, and the caller says for the working
//! directory and for each directory above it whether it holds the marker.

use vstd::prelude::*;

verus! {

/// The name of the directory that marks the root of a synchronised folder.
pub fn marker_name() -> (name: &'static str)
    ensures
        name@ == ".stfolder"@,
{
    ".stfolder"
}

/// A synchronised folder and the place of the working directory in it.
#[derive(Debug)]
pub struct SyncFolder {
    /// The names that lead from the root of the file system to the root of the
    /// folder.
    pub root: Vec<String>,
    /// The names that lead from the root of the folder to the working
    /// directory: the path of the working directory as it reads with the root
    /// of the folder in place of the root of the file system.
    pub prefix: Vec<String>,
}

/// The working directory is not inside of a synchronised folder.
#[derive(Debug)]
pub struct NotInFolder;

/// Whether the directory `up` levels above the working directory holds the
/// marker. The working directory itself is at level 0. A level for which
/// `marked` holds nothing has no marker.
pub open spec fn marked_at(marked: Seq<bool>, up: int) -> bool {
    0 <= up < marked.len() && marked[up]
}

/// Whether the working directory, `depth` names below the root of the file
/// system, is inside of a synchronised folder: it holds the marker, or a
/// directory above it does.
pub open spec fn is_inside(marked: Seq<bool>, depth: int) -> bool {
    exists|up: int| 0 <= up <= depth && marked_at(marked, up)
}

/// Whether the directory `up` levels above the working directory is the
/// nearest one that holds the marker.
pub open spec fn is_nearest(marked: Seq<bool>, depth: int, up: int) -> bool {
    &&& 0 <= up <= depth
    &&& marked_at(marked, up)
    &&& forall|k: int| 0 <= k < up ==> !marked_at(marked, k)
}

/// The number of levels from the working directory up to the nearest
/// directory that holds the marker, where there is one.
pub open spec fn levels_up(marked: Seq<bool>, depth: int) -> int {
    choose|up: int| is_nearest(marked, depth, up)
}

/// The names that lead to the root of the synchronised folder that holds the
/// working directory `cwd`, where there is one.
pub open spec fn root_of(cwd: Seq<Seq<char>>, marked: Seq<bool>) -> Seq<Seq<char>> {
    cwd.take(cwd.len() - levels_up(marked, cwd.len() as int))
}

/// The names that lead from the root of the synchronised folder to the
/// working directory `cwd`, where there is such a folder.
pub open spec fn prefix_of(cwd: Seq<Seq<char>>, marked: Seq<bool>) -> Seq<Seq<char>> {
    cwd.skip(cwd.len() - levels_up(marked, cwd.len() as int))
}

/// Whether `folder` is the synchronised folder that holds the working
/// directory `cwd`.
pub open spec fn is_folder_of(folder: SyncFolder, cwd: Seq<Seq<char>>, marked: Seq<bool>) -> bool {
    &&& is_inside(marked, cwd.len() as int)
    &&& folder.root.deep_view() == root_of(cwd, marked)
    &&& folder.prefix.deep_view() == prefix_of(cwd, marked)
}

/// There is one nearest directory that holds the marker, if there is any
/// directory that holds it.
pub proof fn lemma_nearest(marked: Seq<bool>, depth: int, up: int)
    requires
        is_nearest(marked, depth, up),
    ensures
        levels_up(marked, depth) == up,
        is_inside(marked, depth),
{
    let other = levels_up(marked, depth);
    assert(is_nearest(marked, depth, other));
    if other < up {
        assert(marked_at(marked, other));
    } else if up < other {
        assert(marked_at(marked, up));
    }
}

/// The root and the prefix of the synchronised folder, one behind the other,
/// are the working directory, and the root holds the marker while no directory
/// between it and the working directory does.
pub proof fn lemma_folder(cwd: Seq<Seq<char>>, marked: Seq<bool>)
    requires
        is_inside(marked, cwd.len() as int),
    ensures
        is_nearest(marked, cwd.len() as int, levels_up(marked, cwd.len() as int)),
        prefix_of(cwd, marked).len() == levels_up(marked, cwd.len() as int),
        root_of(cwd, marked) + prefix_of(cwd, marked) == cwd,
{
    let depth = cwd.len() as int;
    let some = choose|up: int| 0 <= up <= depth && marked_at(marked, up);
    lemma_first_marked(marked, depth, some);
    let up = levels_up(marked, depth);
    assert(cwd.take(depth - up) + cwd.skip(depth - up) =~= cwd);
}

/// Below a directory that holds the marker there is a nearest one that does.
proof fn lemma_first_marked(marked: Seq<bool>, depth: int, up: int)
    requires
        0 <= up <= depth,
        marked_at(marked, up),
    ensures
        exists|near: int| is_nearest(marked, depth, near),
    decreases up,
{
    if forall|k: int| 0 <= k < up ==> !marked_at(marked, k) {
        assert(is_nearest(marked, depth, up));
    } else {
        let k = choose|k: int| 0 <= k < up && marked_at(marked, k);
        lemma_first_marked(marked, depth, k);
    }
}

/// Finds the synchronised folder that holds the working directory.
///
/// `cwd` holds the names that lead from the root of the file system to the
/// working directory. `marked[up]` says whether the directory `up` levels above
/// the working directory holds the marker, `marked[0]` speaking of the working
/// directory itself and `marked[cwd.len()]` of the root of the file system.
///
/// The folder found is the nearest directory that holds the marker, the
/// working directory itself included. Its root and its prefix, one behind the
/// other, are the working directory. If no directory up to the root of the
/// file system holds the marker, there is none to find.
pub fn find_syncthing_dir(cwd: &Vec<String>, marked: &Vec<bool>) -> (r: Result<
    SyncFolder,
    NotInFolder,
>)
    ensures
        r is Ok <==> is_inside(marked@, cwd.len() as int),
        r matches Ok(folder) ==> {
            &&& is_folder_of(folder, cwd.deep_view(), marked@)
            &&& is_nearest(marked@, cwd.len() as int, folder.prefix.len() as int)
            &&& folder.root.deep_view() + folder.prefix.deep_view() == cwd.deep_view()
        },
{
    let depth: usize = cwd.len();
    let mut up: usize = 0;
    loop
        invariant
            up <= depth == cwd.len(),
            forall|k: int| 0 <= k < up ==> !marked_at(marked@, k),
        decreases depth - up,
    {
        if up < marked.len() && marked[up] {
            let cut: usize = depth - up;
            let mut root: Vec<String> = Vec::new();
            let mut prefix: Vec<String> = Vec::new();
            let mut i: usize = 0;
            while i < cut
                invariant
                    i <= cut <= cwd.len(),
                    root.deep_view() == cwd.deep_view().take(i as int),
                decreases cut - i,
            {
                let ghost before = root.deep_view();
                root.push(cwd[i].clone());
                proof {
                    assert(root.deep_view() =~= before.push(cwd@[i as int]@));
                    assert(cwd.deep_view().take(i + 1) =~= before.push(cwd@[i as int]@));
                }
                i += 1;
            }
            while i < depth
                invariant
                    cut <= i <= depth == cwd.len(),
                    prefix.deep_view() == cwd.deep_view().subrange(cut as int, i as int),
                decreases depth - i,
            {
                let ghost before = prefix.deep_view();
                prefix.push(cwd[i].clone());
                proof {
                    assert(prefix.deep_view() =~= before.push(cwd@[i as int]@));
                    assert(cwd.deep_view().subrange(cut as int, i + 1) =~= before.push(
                        cwd@[i as int]@,
                    ));
                }
                i += 1;
            }
            proof {
                assert(prefix.deep_view().len() == depth - cut);
                assert(cwd.deep_view().subrange(cut as int, depth as int) =~= cwd.deep_view().skip(
                    cut as int,
                ));
                assert(cwd.deep_view().take(cut as int) + cwd.deep_view().skip(cut as int)
                    =~= cwd.deep_view());
                assert(marked_at(marked@, up as int));
                lemma_nearest(marked@, depth as int, up as int);
            }
            return Ok(SyncFolder { root, prefix });
        }
        if up == depth {
            proof {
                assert forall|k: int| 0 <= k <= depth implies !marked_at(marked@, k) by {
                    if k == up {
                    }
                }
            }
            return Err(NotInFolder);
        }
        up += 1;
    }
}

} // verus!
