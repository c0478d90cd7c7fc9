use vstd::prelude::*;
use vstd::multiset::Multiset;
use rayon::iter::IntoParallelRefIterator;
use rayon::iter::ParallelIterator;
use crate::error::EnumerationFailure;
use crate::error::EnumerationFailureV;
use crate::filesystem::clone_folder;
use crate::filesystem::clone_files;
use crate::filesystem::folder_v;
use crate::filesystem::folders_v;
use crate::filesystem::files_v;
use crate::filesystem::lemma_folders_v;
use crate::filesystem::lemma_folders_v_concat;
use crate::filesystem::File;
use crate::filesystem::FileV;
use crate::filesystem::Folder;
use crate::filesystem::FolderV;

verus! {

// ------------------------------------------------------------------
// Everything in a tree, as multisets: flattening discards hierarchy and
// order, so its outcome is stated without either.
// ------------------------------------------------------------------

/// Every file node anywhere in the tree.
pub open spec fn all_files_ms(f: FolderV) -> Multiset<FileV>
    decreases f,
{
    f.subfiles.to_multiset().add(all_files_ms_each(f.subfolders))
}

pub open spec fn all_files_ms_each(s: Seq<FolderV>) -> Multiset<FileV>
    decreases s,
{
    if s.len() == 0 {
        Multiset::empty()
    } else {
        all_files_ms_each(s.drop_last()).add(all_files_ms(s.last()))
    }
}

/// Every folder node anywhere in the tree, each still carrying its own
/// subtree, the root included.
pub open spec fn all_folders_ms(f: FolderV) -> Multiset<FolderV>
    decreases f,
{
    Multiset::singleton(f).add(all_folders_ms_each(f.subfolders))
}

pub open spec fn all_folders_ms_each(s: Seq<FolderV>) -> Multiset<FolderV>
    decreases s,
{
    if s.len() == 0 {
        Multiset::empty()
    } else {
        all_folders_ms_each(s.drop_last()).add(all_folders_ms(s.last()))
    }
}

/// How many file nodes a full manual traversal of the tree visits.
pub open spec fn count_files(f: FolderV) -> nat
    decreases f,
{
    f.subfiles.len() + count_files_each(f.subfolders)
}

pub open spec fn count_files_each(s: Seq<FolderV>) -> nat
    decreases s,
{
    if s.len() == 0 {
        0
    } else {
        count_files_each(s.drop_last()) + count_files(s.last())
    }
}

/// How many folder nodes a full manual traversal of the tree visits, the
/// root included.
pub open spec fn count_folders(f: FolderV) -> nat
    decreases f,
{
    1 + count_folders_each(f.subfolders)
}

pub open spec fn count_folders_each(s: Seq<FolderV>) -> nat
    decreases s,
{
    if s.len() == 0 {
        0
    } else {
        count_folders_each(s.drop_last()) + count_folders(s.last())
    }
}

/// Flattening preserves cardinality: the flat collections hold exactly as
/// many files and folders as a full traversal of the tree counts.
pub proof fn lemma_flatten_counts(f: FolderV)
    ensures
        all_files_ms(f).len() == count_files(f),
        all_folders_ms(f).len() == count_folders(f),
    decreases f,
{
    broadcast use vstd::seq_lib::group_to_multiset_ensures;

    lemma_flatten_counts_each(f.subfolders);
}

pub proof fn lemma_flatten_counts_each(s: Seq<FolderV>)
    ensures
        all_files_ms_each(s).len() == count_files_each(s),
        all_folders_ms_each(s).len() == count_folders_each(s),
    decreases s,
{
    if s.len() > 0 {
        lemma_flatten_counts_each(s.drop_last());
        lemma_flatten_counts(s.last());
    }
}

/// Relies on rayon's parallel iterators: `par_iter().map(..).collect()`
/// over a `Vec` yields a `Vec` of the same length holding, at each index,
/// the closure's result for the input at that index. The closure only calls
/// the library's own `collect_tree`, whose contract gives each pair's
/// multisets.
#[verifier::external_body]
fn par_collect_subtrees(folders: &Vec<Folder>) -> (r: Vec<(Vec<Folder>, Vec<File>)>)
    ensures
        r@.len() == folders@.len(),
        forall|i: int|
            0 <= i < folders@.len() ==> {
                &&& folders_v(#[trigger] r@[i].0@).to_multiset() == all_folders_ms(
                    folder_v(folders@[i]),
                )
                &&& files_v(r@[i].1@).to_multiset() == all_files_ms(folder_v(folders@[i]))
            },
{
    folders.par_iter().map(|f| collect_tree(f)).collect()
}

/// Collects copies of every folder node and every file node of the tree.
/// Each direct subtree is processed independently — they are disjoint, so
/// the fan-out needs no synchronization — and the results are concatenated.
pub fn collect_tree(folder: &Folder) -> (r: (Vec<Folder>, Vec<File>))
    ensures
        folders_v(r.0@).to_multiset() == all_folders_ms(folder@),
        files_v(r.1@).to_multiset() == all_files_ms(folder@),
{
    broadcast use vstd::seq_lib::group_to_multiset_ensures;

    let ghost fv = folder@;
    let ghost subs = folders_v(folder.subfolders@);
    proof {
        lemma_folders_v(folder.subfolders@);
    }
    let n = folder.subfolders.len();
    let mut rest = par_collect_subtrees(&folder.subfolders);
    let mut all_folders: Vec<Folder> = Vec::new();
    all_folders.push(clone_folder(folder));
    let mut all_files: Vec<File> = clone_files(&folder.subfiles);
    proof {
        lemma_folders_v(all_folders@);
        assert(folders_v(all_folders@) =~= seq![fv]);
        vstd::seq_lib::lemma_multiset_commutative(Seq::<FolderV>::empty(), seq![fv]);
        assert(folders_v(all_folders@).to_multiset() =~= Multiset::singleton(fv).add(
            all_folders_ms_each(subs.take(0)),
        ));
        assert(files_v(all_files@).to_multiset() =~= fv.subfiles.to_multiset().add(
            all_files_ms_each(subs.take(0)),
        ));
    }
    while rest.len() > 0
        invariant
            rest@.len() <= n,
            n == subs.len(),
            forall|i: int|
                0 <= i < rest@.len() ==> {
                    &&& folders_v(#[trigger] rest@[i].0@).to_multiset() == all_folders_ms(
                        subs[n - rest@.len() + i],
                    )
                    &&& files_v(rest@[i].1@).to_multiset() == all_files_ms(
                        subs[n - rest@.len() + i],
                    )
                },
            folders_v(all_folders@).to_multiset() == Multiset::singleton(fv).add(
                all_folders_ms_each(subs.take(n - rest@.len())),
            ),
            files_v(all_files@).to_multiset() == fv.subfiles.to_multiset().add(
                all_files_ms_each(subs.take(n - rest@.len())),
            ),
        decreases rest@.len(),
    {
        let ghost k = n - rest@.len();
        let (mut fs, mut fls) = rest.remove(0);
        let ghost af0 = all_folders@;
        let ghost al0 = all_files@;
        let ghost fs0 = fs@;
        let ghost fls0 = fls@;
        all_folders.append(&mut fs);
        all_files.append(&mut fls);
        proof {
            assert(subs.take(k + 1).drop_last() =~= subs.take(k));
            assert(subs.take(k + 1).last() == subs[k]);
            lemma_folders_v_concat(af0, fs0);
            vstd::seq_lib::lemma_multiset_commutative(folders_v(af0), folders_v(fs0));
            vstd::seq_lib::lemma_multiset_commutative(files_v(al0), files_v(fls0));
            assert(files_v(al0 + fls0) =~= files_v(al0) + files_v(fls0));
            assert(folders_v(all_folders@).to_multiset() =~= Multiset::singleton(fv).add(
                all_folders_ms_each(subs.take(k + 1)),
            ));
            assert(files_v(all_files@).to_multiset() =~= fv.subfiles.to_multiset().add(
                all_files_ms_each(subs.take(k + 1)),
            ));
        }
    }
    proof {
        assert(subs.take(n as int) =~= subs);
    }
    (all_folders, all_files)
}

/// Collapses a folder tree into a single synthetic folder whose children
/// are all files and all folders found anywhere in the subtree. The
/// original root's own name, path, size and flags are preserved on the
/// synthetic node; the collections carry no meaningful order.
pub fn flatten_folder(folder: &Folder) -> (r: Folder)
    ensures
        r@.subfolders.to_multiset() == all_folders_ms(folder@),
        r@.subfiles.to_multiset() == all_files_ms(folder@),
        r@.name == folder@.name,
        r@.path == folder@.path,
        r@.size == folder@.size,
        r@.percentage_of_root == folder@.percentage_of_root,
        r@.disk == folder@.disk,
        r@.traversed == folder@.traversed,
        r@.warning == folder@.warning,
{
    let (folders, files) = collect_tree(folder);
    Folder {
        name: folder.name.clone(),
        path: folder.path.clone(),
        size: folder.size,
        percentage_of_root: folder.percentage_of_root,
        disk: folder.disk,
        traversed: folder.traversed,
        warning: folder.warning,
        subfiles: files,
        subfolders: folders,
    }
}

/// An unordered list of every file in the tree.
pub fn get_all_files(folder: &Folder) -> (r: Vec<File>)
    ensures
        files_v(r@).to_multiset() == all_files_ms(folder@),
{
    let collected = collect_tree(folder);
    collected.1
}

/// An unordered list of every folder in the tree, the given folder
/// included.
pub fn get_all_folders(folder: &Folder) -> (r: Vec<Folder>)
    ensures
        folders_v(r@).to_multiset() == all_folders_ms(folder@),
{
    let collected = collect_tree(folder);
    collected.0
}

// ------------------------------------------------------------------
// Empty folders: a three-way answer.
// ------------------------------------------------------------------

/// What asking for a tree's empty folders can yield. `Unknown` is not the
/// same thing as an empty list: an untraversed folder's emptiness simply
/// cannot be determined yet.
#[derive(Debug)]
pub enum EmptyFolders {
    /// The folder has not been traversed, so nothing is known.
    Unknown,
    /// The folder is traversed and no descendant folder is empty.
    NoneFound,
    /// The empty descendant folders, in traversal order.
    Found(Vec<Folder>),
}

/// A folder counts as empty when it was traversed and has no direct
/// children at all, neither subfolders nor files.
pub open spec fn is_empty_folder(f: FolderV) -> bool {
    f.traversed && f.subfolders.len() == 0 && f.subfiles.len() == 0
}

/// The empty folders at or below `f`, in traversal order.
pub open spec fn empties_below(f: FolderV) -> Seq<FolderV>
    decreases f,
{
    (if is_empty_folder(f) {
        seq![f]
    } else {
        Seq::empty()
    }) + empties_of_each(f.subfolders)
}

pub open spec fn empties_of_each(s: Seq<FolderV>) -> Seq<FolderV>
    decreases s,
{
    if s.len() == 0 {
        Seq::empty()
    } else {
        empties_of_each(s.drop_last()) + empties_below(s.last())
    }
}

/// The empty folders strictly below `f`.
pub open spec fn empties_of(f: FolderV) -> Seq<FolderV> {
    empties_of_each(f.subfolders)
}

fn collect_empty_folders(folder: &Folder) -> (r: Vec<Folder>)
    ensures
        folders_v(r@) == empties_below(folder@),
    decreases *folder,
{
    let ghost fv = folder@;
    let mut r: Vec<Folder> = Vec::new();
    if folder.traversed && folder.subfolders.len() == 0 && folder.subfiles.len() == 0 {
        r.push(clone_folder(folder));
    }
    proof {
        lemma_folders_v(folder.subfolders@);
        lemma_folders_v(r@);
        if is_empty_folder(fv) {
            assert(folders_v(r@) =~= seq![fv]);
        } else {
            assert(folders_v(r@) =~= Seq::<FolderV>::empty());
        }
    }
    let ghost own = folders_v(r@);
    let ghost subs = folders_v(folder.subfolders@);
    let n = folder.subfolders.len();
    let mut i: usize = 0;
    while i < n
        invariant
            0 <= i <= n,
            n == folder.subfolders.len(),
            fv == folder@,
            own == (if is_empty_folder(fv) {
                seq![fv]
            } else {
                Seq::<FolderV>::empty()
            }),
            subs == folders_v(folder.subfolders@),
            n == subs.len(),
            folders_v(r@) == own + empties_of_each(subs.take(i as int)),
        decreases n - i,
    {
        let mut sub_r = collect_empty_folders(&folder.subfolders[i]);
        let ghost r0 = r@;
        let ghost sub0 = sub_r@;
        r.append(&mut sub_r);
        proof {
            lemma_folders_v(folder.subfolders@);
            assert(subs.take(i as int + 1).drop_last() =~= subs.take(i as int));
            lemma_folders_v_concat(r0, sub0);
        }
        i = i + 1;
    }
    proof {
        assert(subs.take(n as int) =~= subs);
        assert(folders_v(r@) =~= empties_below(fv));
    }
    r
}

/// The empty folders strictly below `folder`, as a three-way answer:
/// `Unknown` when `folder` itself has not been traversed — never an empty
/// list in that case — `NoneFound` when it was traversed and no descendant
/// qualifies, and otherwise the list of all empty descendant folders.
pub fn get_empty_folders(folder: &Folder) -> (r: EmptyFolders)
    ensures
        !folder@.traversed ==> r is Unknown,
        folder@.traversed && empties_of(folder@).len() == 0 ==> r is NoneFound,
        folder@.traversed && empties_of(folder@).len() > 0 ==> (r matches EmptyFolders::Found(v)
            && folders_v(v@) == empties_of(folder@)),
{
    if !folder.traversed {
        return EmptyFolders::Unknown;
    }
    let ghost fv = folder@;
    let ghost subs = folders_v(folder.subfolders@);
    let mut found: Vec<Folder> = Vec::new();
    proof {
        lemma_folders_v(folder.subfolders@);
        assert(folders_v(found@) =~= empties_of_each(subs.take(0)));
    }
    let n = folder.subfolders.len();
    let mut i: usize = 0;
    while i < n
        invariant
            0 <= i <= n,
            n == folder.subfolders.len(),
            fv == folder@,
            subs == folders_v(folder.subfolders@),
            n == subs.len(),
            folders_v(found@) == empties_of_each(subs.take(i as int)),
        decreases n - i,
    {
        let mut sub_r = collect_empty_folders(&folder.subfolders[i]);
        let ghost f0 = found@;
        let ghost sub0 = sub_r@;
        found.append(&mut sub_r);
        proof {
            lemma_folders_v(folder.subfolders@);
            assert(subs.take(i as int + 1).drop_last() =~= subs.take(i as int));
            lemma_folders_v_concat(f0, sub0);
        }
        i = i + 1;
    }
    proof {
        assert(subs.take(n as int) =~= subs);
        lemma_folders_v(found@);
    }
    if found.len() == 0 {
        EmptyFolders::NoneFound
    } else {
        EmptyFolders::Found(found)
    }
}

// ------------------------------------------------------------------
// Bulk traversal marking.
// ------------------------------------------------------------------

/// The tree with every folder's traversal flag set to `t`.
pub open spec fn spec_mark(f: FolderV, t: bool) -> FolderV
    decreases f,
{
    FolderV { traversed: t, subfolders: spec_mark_each(f.subfolders, t), ..f }
}

pub open spec fn spec_mark_each(s: Seq<FolderV>, t: bool) -> Seq<FolderV>
    decreases s,
{
    if s.len() == 0 {
        Seq::empty()
    } else {
        spec_mark_each(s.drop_last(), t).push(spec_mark(s.last(), t))
    }
}

proof fn lemma_mark_each(s: Seq<FolderV>, t: bool)
    ensures
        spec_mark_each(s, t).len() == s.len(),
        forall|i: int| 0 <= i < s.len() ==> spec_mark_each(s, t)[i] == spec_mark(s[i], t),
    decreases s,
{
    if s.len() > 0 {
        lemma_mark_each(s.drop_last(), t);
        assert(forall|i: int| 0 <= i < s.len() - 1 ==> s.drop_last()[i] == s[i]);
    }
}

fn mark_tree(folder: &Folder, t: bool) -> (r: Folder)
    ensures
        r@ == spec_mark(folder@, t),
    decreases *folder,
{
    let ghost fv = folder@;
    let mut subs: Vec<Folder> = Vec::new();
    let n = folder.subfolders.len();
    let mut i: usize = 0;
    while i < n
        invariant
            0 <= i <= n,
            n == folder.subfolders.len(),
            fv == folder@,
            subs@.len() == i,
            forall|k: int| 0 <= k < i ==> folder_v(#[trigger] subs@[k]) == spec_mark(
                folders_v(folder.subfolders@)[k],
                t,
            ),
        decreases n - i,
    {
        proof {
            lemma_folders_v(folder.subfolders@);
        }
        subs.push(mark_tree(&folder.subfolders[i], t));
        i = i + 1;
    }
    let r = Folder {
        name: folder.name.clone(),
        path: folder.path.clone(),
        size: folder.size,
        percentage_of_root: folder.percentage_of_root,
        disk: folder.disk,
        traversed: t,
        warning: folder.warning,
        subfiles: clone_files(&folder.subfiles),
        subfolders: subs,
    };
    proof {
        lemma_folders_v(folder.subfolders@);
        lemma_folders_v(r.subfolders@);
        lemma_mark_each(fv.subfolders, t);
        assert(folders_v(r.subfolders@) =~= spec_mark_each(fv.subfolders, t));
        assert(r@ =~= spec_mark(fv, t));
    }
    r
}

/// Marks the folder and every descendant folder as traversed.
pub fn mark_traversed(folder: &Folder) -> (r: Folder)
    ensures
        r@ == spec_mark(folder@, true),
{
    mark_tree(folder, true)
}

/// Marks the folder and every descendant folder as not traversed — used to
/// bulk-invalidate a subtree before forcing a re-scan.
pub fn mark_not_traversed(folder: &Folder) -> (r: Folder)
    ensures
        r@ == spec_mark(folder@, false),
{
    mark_tree(folder, false)
}

// ------------------------------------------------------------------
// Collected enumeration failures.
// ------------------------------------------------------------------

pub open spec fn failures_v(s: Seq<EnumerationFailure>) -> Seq<EnumerationFailureV> {
    s.map_values(|x: EnumerationFailure| x@)
}

/// The per-node warnings recorded anywhere in the tree, in traversal
/// order.
pub open spec fn spec_failures_below(f: FolderV) -> Seq<EnumerationFailureV>
    decreases f,
{
    (match f.warning {
        Some(k) => seq![EnumerationFailureV { path: f.path, cause: k }],
        None => Seq::empty(),
    }) + spec_failures_of_each(f.subfolders)
}

pub open spec fn spec_failures_of_each(s: Seq<FolderV>) -> Seq<EnumerationFailureV>
    decreases s,
{
    if s.len() == 0 {
        Seq::empty()
    } else {
        spec_failures_of_each(s.drop_last()) + spec_failures_below(s.last())
    }
}

/// Every enumeration failure recorded in the tree: the paths that could
/// not be listed, each with its cause.
pub fn enumeration_failures(folder: &Folder) -> (r: Vec<EnumerationFailure>)
    ensures
        failures_v(r@) == spec_failures_below(folder@),
    decreases *folder,
{
    let ghost fv = folder@;
    let mut r: Vec<EnumerationFailure> = Vec::new();
    match folder.warning {
        Some(k) => {
            r.push(EnumerationFailure { path: folder.path.clone(), cause: k });
        },
        None => {
        },
    }
    let ghost own = failures_v(r@);
    proof {
        match fv.warning {
            Some(k) => {
                assert(own =~= seq![EnumerationFailureV { path: fv.path, cause: k }]);
            },
            None => {
                assert(own =~= Seq::<EnumerationFailureV>::empty());
            },
        }
    }
    let ghost subs = folders_v(folder.subfolders@);
    proof {
        lemma_folders_v(folder.subfolders@);
        assert(failures_v(r@) =~= own + spec_failures_of_each(subs.take(0)));
    }
    let n = folder.subfolders.len();
    let mut i: usize = 0;
    while i < n
        invariant
            0 <= i <= n,
            n == folder.subfolders.len(),
            fv == folder@,
            own == (match fv.warning {
                Some(k) => seq![EnumerationFailureV { path: fv.path, cause: k }],
                None => Seq::<EnumerationFailureV>::empty(),
            }),
            subs == folders_v(folder.subfolders@),
            n == subs.len(),
            failures_v(r@) == own + spec_failures_of_each(subs.take(i as int)),
        decreases n - i,
    {
        proof {
            lemma_folders_v(folder.subfolders@);
        }
        let mut sub_r = enumeration_failures(&folder.subfolders[i]);
        let ghost r0 = r@;
        let ghost sub0 = sub_r@;
        r.append(&mut sub_r);
        proof {
            assert(subs.take(i as int + 1).drop_last() =~= subs.take(i as int));
            assert(failures_v(r0 + sub0) =~= failures_v(r0) + failures_v(sub0));
            assert(failures_v(r@) =~= own + spec_failures_of_each(subs.take(i as int + 1)));
        }
        i = i + 1;
    }
    proof {
        lemma_folders_v(folder.subfolders@);
        assert(subs.take(n as int) =~= subs);
        assert(failures_v(r@) =~= spec_failures_below(fv));
    }
    r
}

} // verus!
