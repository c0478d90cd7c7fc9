use vstd::prelude::*;
use vstd::string::StrSliceExecFns;
use crate::error::DirErrorKind;
use crate::error::FileSystemError;
use crate::filesystem::clone_file;
use crate::filesystem::clone_folder;
use crate::filesystem::clone_files;
use crate::filesystem::clone_folders;
use crate::filesystem::lemma_files_v_push;
use crate::filesystem::lemma_files_v_update;
use crate::filesystem::lemma_folders_v_update;
use crate::filesystem::folder_v;
use crate::filesystem::folders_v;
use crate::filesystem::files_v;
use crate::filesystem::lemma_folders_v;
use crate::filesystem::lemma_folders_v_push;
use crate::filesystem::spec_new_file;
use crate::filesystem::spec_new_folder;
use crate::filesystem::File;
use crate::filesystem::FileV;
use crate::filesystem::Folder;
use crate::filesystem::FolderV;

verus! {

/// One immediate child of a directory, as the directory collaborator reports
/// it: its path, whether it is itself a directory, and its size in bytes
/// when it is a file (0 when the size is unavailable).
#[derive(Clone, Debug)]
pub struct FsEntry {
    pub path: String,
    pub is_dir: bool,
    pub size: u64,
}

/// Mathematical image of an `FsEntry`.
#[verifier::ext_equal]
pub struct FsEntryV {
    pub path: Seq<char>,
    pub is_dir: bool,
    pub size: u64,
}

impl View for FsEntry {
    type V = FsEntryV;

    open spec fn view(&self) -> FsEntryV {
        FsEntryV { path: self.path@, is_dir: self.is_dir, size: self.size }
    }
}

pub open spec fn entries_v(s: Seq<FsEntry>) -> Seq<FsEntryV> {
    s.map_values(|e: FsEntry| e@)
}

/// What one call of the directory collaborator produced for one path:
/// either that path's immediate children, or why they could not be listed.
#[derive(Debug)]
pub struct DirListing {
    pub path: String,
    pub outcome: Result<Vec<FsEntry>, DirErrorKind>,
}

pub open spec fn outcome_v(o: Result<Vec<FsEntry>, DirErrorKind>) -> Result<
    Seq<FsEntryV>,
    DirErrorKind,
> {
    match o {
        Ok(v) => Ok(entries_v(v@)),
        Err(k) => Err(k),
    }
}

/// Mathematical image of a `DirListing`.
#[verifier::ext_equal]
pub struct DirListingV {
    pub path: Seq<char>,
    pub outcome: Result<Seq<FsEntryV>, DirErrorKind>,
}

impl View for DirListing {
    type V = DirListingV;

    open spec fn view(&self) -> DirListingV {
        DirListingV { path: self.path@, outcome: outcome_v(self.outcome) }
    }
}

pub open spec fn listings_v(s: Seq<DirListing>) -> Seq<DirListingV> {
    s.map_values(|l: DirListing| l@)
}

/// The outcome recorded for `p`: the first listing whose path is `p`, or
/// `NotFound` when no listing covers `p`. A path that the collaborator was
/// never asked about reads as an enumeration failure, so a scan degrades
/// gracefully instead of stopping.
pub open spec fn spec_listing_for(ls: Seq<DirListingV>, p: Seq<char>) -> Result<
    Seq<FsEntryV>,
    DirErrorKind,
>
    decreases ls.len(),
{
    if ls.len() == 0 {
        Err(DirErrorKind::NotFound)
    } else if ls[0].path == p {
        ls[0].outcome
    } else {
        spec_listing_for(ls.drop_first(), p)
    }
}

proof fn lemma_listing_for_skip(ls: Seq<DirListingV>, p: Seq<char>, i: int)
    requires
        0 <= i <= ls.len(),
        forall|t: int| 0 <= t < i ==> ls[t].path != p,
    ensures
        spec_listing_for(ls, p) == spec_listing_for(ls.skip(i), p),
    decreases i,
{
    if i > 0 {
        assert(ls.drop_first().skip(i - 1) =~= ls.skip(i));
        lemma_listing_for_skip(ls.drop_first(), p, i - 1);
    } else {
        assert(ls.skip(0) =~= ls);
    }
}

/// The first listing for `path`, if any.
pub fn find_listing<'a>(listings: &'a Vec<DirListing>, path: &String) -> (r: Option<
    &'a DirListing,
>)
    ensures
        match r {
            Some(l) => spec_listing_for(listings_v(listings@), path@) == l@.outcome,
            None => spec_listing_for(listings_v(listings@), path@) == Err::<
                Seq<FsEntryV>,
                DirErrorKind,
            >(DirErrorKind::NotFound),
        },
{
    let ghost lsv = listings_v(listings@);
    let n = listings.len();
    let mut i: usize = 0;
    while i < n
        invariant
            0 <= i <= n,
            n == listings.len(),
            lsv == listings_v(listings@),
            forall|t: int| 0 <= t < i ==> lsv[t].path != path@,
        decreases n - i,
    {
        if listings[i].path == *path {
            proof {
                lemma_listing_for_skip(lsv, path@, i as int);
                assert(lsv.skip(i as int)[0] == lsv[i as int]);
                assert(lsv.skip(i as int).len() > 0);
            }
            return Some(&listings[i]);
        }
        i = i + 1;
    }
    proof {
        lemma_listing_for_skip(lsv, path@, n as int);
        assert(lsv.skip(n as int) =~= Seq::<DirListingV>::empty());
    }
    None
}

// ------------------------------------------------------------------
// Populating one folder from a listing.
// ------------------------------------------------------------------

/// The untraversed child folder that a directory entry becomes.
pub open spec fn child_folder_of(e: FsEntryV) -> FolderV {
    spec_new_folder(e.path, false)
}

/// The file node that a file entry becomes.
pub open spec fn child_file_of(e: FsEntryV) -> FileV {
    spec_new_file(e.path, e.size)
}

/// The child folders that a listing's directory entries contribute, in
/// listing order.
pub open spec fn dir_children_of(es: Seq<FsEntryV>) -> Seq<FolderV>
    decreases es.len(),
{
    if es.len() == 0 {
        Seq::empty()
    } else {
        dir_children_of(es.drop_last()) + (if es.last().is_dir {
            seq![child_folder_of(es.last())]
        } else {
            Seq::empty()
        })
    }
}

/// The file nodes that a listing's file entries contribute, in listing
/// order.
pub open spec fn file_children_of(es: Seq<FsEntryV>) -> Seq<FileV>
    decreases es.len(),
{
    if es.len() == 0 {
        Seq::empty()
    } else {
        file_children_of(es.drop_last()) + (if !es.last().is_dir {
            seq![child_file_of(es.last())]
        } else {
            Seq::empty()
        })
    }
}

/// What populating a folder from one enumeration outcome yields: the folder
/// is marked traversed either way; on success its children grow by the
/// listed entries and any stale warning is cleared; on failure its children
/// stay and the failure is recorded as the folder's warning.
pub open spec fn spec_populate(f: FolderV, outcome: Result<Seq<FsEntryV>, DirErrorKind>) -> FolderV {
    match outcome {
        Ok(es) => FolderV {
            traversed: true,
            warning: None,
            subfiles: f.subfiles + file_children_of(es),
            subfolders: f.subfolders + dir_children_of(es),
            ..f
        },
        Err(k) => FolderV { traversed: true, warning: Some(k), ..f },
    }
}

/// Fills one level of `folder` from the outcome of enumerating its path.
/// The folder comes back traversed even when the enumeration failed: the
/// failure is recorded as its warning, never raised.
pub fn populate_folder(folder: Folder, outcome: &Result<Vec<FsEntry>, DirErrorKind>) -> (r: Folder)
    ensures
        r@ == spec_populate(folder@, outcome_v(*outcome)),
{
    let ghost f0 = folder@;
    let mut folder = folder;
    folder.traversed = true;
    match outcome {
        Ok(entries) => {
            folder.warning = None;
            let ghost es = entries_v(entries@);
            let n = entries.len();
            let mut i: usize = 0;
            while i < n
                invariant
                    0 <= i <= n,
                    n == entries.len(),
                    es == entries_v(entries@),
                    folder.name@ == f0.name,
                    folder.path@ == f0.path,
                    folder.size == f0.size,
                    folder.percentage_of_root == f0.percentage_of_root,
                    folder.disk == f0.disk,
                    folder.traversed == true,
                    folder.warning is None,
                    files_v(folder.subfiles@) == f0.subfiles + file_children_of(
                        es.take(i as int),
                    ),
                    folders_v(folder.subfolders@) == f0.subfolders + dir_children_of(
                        es.take(i as int),
                    ),
                decreases n - i,
            {
                proof {
                    assert(es.take(i as int + 1).drop_last() =~= es.take(i as int));
                    assert(es[i as int] == entries@[i as int]@);
                }
                let entry = &entries[i];
                if entry.is_dir {
                    let ghost subs0 = folder.subfolders@;
                    folder.subfolders.push(Folder::new(entry.path.clone()));
                    proof {
                        lemma_folders_v_push(subs0, folder.subfolders@.last());
                        assert(folders_v(folder.subfolders@) =~= f0.subfolders + dir_children_of(
                            es.take(i as int + 1),
                        ));
                    }
                } else {
                    let mut file = File::new(entry.path.clone());
                    file.size = entry.size;
                    proof {
                        assert(file@ =~= child_file_of(es[i as int]));
                    }
                    let ghost files0 = folder.subfiles@;
                    folder.subfiles.push(file);
                    proof {
                        lemma_files_v_push(files0, folder.subfiles@.last());
                        assert(files_v(folder.subfiles@) =~= f0.subfiles + file_children_of(
                            es.take(i as int + 1),
                        ));
                    }
                }
                i = i + 1;
            }
            proof {
                assert(es.take(n as int) =~= es);
                assert(folder@ =~= spec_populate(f0, outcome_v(*outcome)));
            }
            folder
        },
        Err(k) => {
            folder.warning = Some(*k);
            proof {
                assert(folder@ =~= spec_populate(f0, outcome_v(*outcome)));
            }
            folder
        },
    }
}

// ------------------------------------------------------------------
// Starting and deepening a tree.
// ------------------------------------------------------------------

/// A path with no parent component: the root of a filesystem.
pub open spec fn is_root_path(p: Seq<char>) -> bool {
    p.len() == 1 && p[0] == '/'
}

/// Whether `path` names a filesystem root, and so becomes a disk.
pub fn is_disk(path: &str) -> (r: bool)
    ensures
        r == is_root_path(path@),
{
    path.unicode_len() == 1 && path.get_char(0) == '/'
}

/// Starts a tree at `start_path` from the outcome of enumerating it: the
/// folder is a disk exactly when the path is a filesystem root, and comes
/// back populated one level deep. When the starting path itself cannot be
/// enumerated no partial tree is produced: the scan fails with
/// `RootUnreachable`.
pub fn start_folder_tree(start_path: String, listing: &Result<Vec<FsEntry>, DirErrorKind>) -> (r:
    Result<Folder, FileSystemError>)
    ensures
        match r {
            Ok(f) => listing is Ok && f@ == spec_populate(
                spec_new_folder(start_path@, is_root_path(start_path@)),
                outcome_v(*listing),
            ),
            Err(e) => e == FileSystemError::RootUnreachable && listing is Err,
        },
{
    if listing.is_err() {
        return Err(FileSystemError::RootUnreachable);
    }
    let folder = if is_disk(start_path.as_str()) {
        Folder::new_disk(start_path)
    } else {
        Folder::new(start_path)
    };
    Ok(populate_folder(folder, listing))
}

/// One level of growth everywhere: every untraversed folder of the tree is
/// populated from its listing; traversed folders are kept and their subtrees
/// unfolded in turn.
pub open spec fn spec_unfold(f: FolderV, ls: Seq<DirListingV>) -> FolderV
    decreases f,
{
    if !f.traversed {
        spec_populate(f, spec_listing_for(ls, f.path))
    } else {
        FolderV { subfolders: spec_unfold_each(f.subfolders, ls), ..f }
    }
}

pub open spec fn spec_unfold_each(s: Seq<FolderV>, ls: Seq<DirListingV>) -> Seq<FolderV>
    decreases s,
{
    if s.len() == 0 {
        Seq::empty()
    } else {
        spec_unfold_each(s.drop_last(), ls).push(spec_unfold(s.last(), ls))
    }
}

/// Unfolds a folder tree by a single level, taking each untraversed
/// folder's children from `listings`.
pub fn unfold_folder(folder: &Folder, listings: &Vec<DirListing>) -> (r: Folder)
    ensures
        r@ == spec_unfold(folder@, listings_v(listings@)),
    decreases *folder,
{
    let ghost lsv = listings_v(listings@);
    if !folder.traversed {
        let copy = clone_folder(folder);
        match find_listing(listings, &folder.path) {
            Some(listing) => populate_folder(copy, &listing.outcome),
            None => {
                let missing: Result<Vec<FsEntry>, DirErrorKind> = Err(DirErrorKind::NotFound);
                populate_folder(copy, &missing)
            },
        }
    } else {
        let ghost fsubs = folders_v(folder.subfolders@);
        let mut subs: Vec<Folder> = Vec::new();
        let n = folder.subfolders.len();
        let mut i: usize = 0;
        while i < n
            invariant
                0 <= i <= n,
                n == folder.subfolders.len(),
                fsubs == folders_v(folder.subfolders@),
                lsv == listings_v(listings@),
                folders_v(subs@) == spec_unfold_each(fsubs.take(i as int), lsv),
            decreases n - i,
        {
            proof {
                lemma_folders_v(folder.subfolders@);
                assert(fsubs.take(i as int + 1).drop_last() =~= fsubs.take(i as int));
            }
            let ghost subs0 = subs@;
            subs.push(unfold_folder(&folder.subfolders[i], listings));
            proof {
                lemma_folders_v_push(subs0, subs@.last());
            }
            i = i + 1;
        }
        let r = Folder {
            name: folder.name.clone(),
            path: folder.path.clone(),
            size: folder.size,
            percentage_of_root: folder.percentage_of_root,
            disk: folder.disk,
            traversed: folder.traversed,
            warning: folder.warning,
            subfiles: clone_files(&folder.subfiles),
            subfolders: subs,
        };
        proof {
            lemma_folders_v(folder.subfolders@);
            assert(fsubs.take(n as int) =~= fsubs);
            assert(r@ =~= spec_unfold(folder@, lsv));
        }
        r
    }
}

/// `levels` rounds of unfolding.
pub open spec fn spec_grow(f: FolderV, levels: nat, ls: Seq<DirListingV>) -> FolderV
    decreases levels,
{
    if levels == 0 {
        f
    } else {
        spec_grow(spec_unfold(f, ls), (levels - 1) as nat, ls)
    }
}

/// Grows a folder tree breadth-first by `levels` levels: each round
/// populates the whole untraversed frontier from `listings` before the next
/// round descends further. Growing by zero levels returns the tree
/// unchanged; growing a traversed tree leaves every folder within `levels`
/// of the root traversed.
pub fn grow_folder_tree(folder: Folder, levels: u32, listings: &Vec<DirListing>) -> (r: Folder)
    ensures
        r@ == spec_grow(folder@, levels as nat, listings_v(listings@)),
        folder@.traversed ==> traversed_to_depth(r@, levels as nat),
    decreases levels,
{
    let ghost fv = folder@;
    let ghost lsv = listings_v(listings@);
    let r = match levels {
        0 => folder,
        _ => {
            let unfolded = unfold_folder(&folder, listings);
            grow_folder_tree(unfolded, levels - 1, listings)
        },
    };
    proof {
        if fv.traversed {
            lemma_grow_traversed(fv, lsv, levels as nat);
        }
        assert(r@ == spec_grow(fv, levels as nat, lsv));
    }
    r
}

// ------------------------------------------------------------------
// How far growth reaches.
// ------------------------------------------------------------------

/// Every folder within tree-distance `d` of the root is traversed.
pub open spec fn traversed_to_depth(f: FolderV, d: nat) -> bool
    decreases f,
{
    f.traversed && (d > 0 ==> forall|i: int|
        0 <= i < f.subfolders.len() ==> traversed_to_depth(
            #[trigger] f.subfolders[i],
            (d - 1) as nat,
        ))
}

/// Growing by zero levels is the identity.
pub proof fn lemma_grow_zero(f: FolderV, ls: Seq<DirListingV>)
    ensures
        spec_grow(f, 0, ls) == f,
{
}

/// Whatever the listings say, an unfolded tree's root is traversed: an
/// untraversed root is populated, successfully or not.
proof fn lemma_unfold_traversed(f: FolderV, ls: Seq<DirListingV>)
    ensures
        spec_unfold(f, ls).traversed,
{
}

proof fn lemma_unfold_each_index(s: Seq<FolderV>, ls: Seq<DirListingV>)
    ensures
        spec_unfold_each(s, ls).len() == s.len(),
        forall|i: int| 0 <= i < s.len() ==> spec_unfold_each(s, ls)[i] == spec_unfold(s[i], ls),
    decreases s,
{
    if s.len() > 0 {
        lemma_unfold_each_index(s.drop_last(), ls);
        assert(forall|i: int| 0 <= i < s.len() - 1 ==> s.drop_last()[i] == s[i]);
    }
}

/// One round of unfolding pushes the traversed frontier one level deeper.
proof fn lemma_unfold_deepens(f: FolderV, ls: Seq<DirListingV>, k: nat)
    requires
        traversed_to_depth(f, k),
    ensures
        traversed_to_depth(spec_unfold(f, ls), (k + 1) as nat),
    decreases f,
{
    lemma_unfold_each_index(f.subfolders, ls);
    let g = spec_unfold(f, ls);
    assert forall|i: int| 0 <= i < g.subfolders.len() implies traversed_to_depth(
        #[trigger] g.subfolders[i],
        k,
    ) by {
        if k == 0 {
            lemma_unfold_traversed(f.subfolders[i], ls);
        } else {
            assert(traversed_to_depth(f.subfolders[i], (k - 1) as nat));
            lemma_unfold_deepens(f.subfolders[i], ls, (k - 1) as nat);
        }
    }
}

proof fn lemma_grow_deepens(f: FolderV, ls: Seq<DirListingV>, k: nat, d: nat)
    requires
        traversed_to_depth(f, k),
    ensures
        traversed_to_depth(spec_grow(f, d, ls), (k + d) as nat),
    decreases d,
{
    if d > 0 {
        lemma_unfold_deepens(f, ls, k);
        lemma_grow_deepens(spec_unfold(f, ls), ls, (k + 1) as nat, (d - 1) as nat);
    }
}

/// Growing a traversed tree by `d` levels leaves every folder within
/// distance `d` of the root traversed — even where an enumeration failed,
/// since a failed folder is still marked traversed, just with fewer
/// children.
pub proof fn lemma_grow_traversed(f: FolderV, ls: Seq<DirListingV>, d: nat)
    requires
        f.traversed,
    ensures
        traversed_to_depth(spec_grow(f, d, ls), d),
{
    assert(traversed_to_depth(f, 0));
    lemma_grow_deepens(f, ls, 0, d);
}

/// Growth composes: growing by `a` levels and then by `b` is growing by
/// `a + b`.
pub proof fn lemma_grow_compose(f: FolderV, a: nat, b: nat, ls: Seq<DirListingV>)
    ensures
        spec_grow(spec_grow(f, a, ls), b, ls) == spec_grow(f, (a + b) as nat, ls),
    decreases a,
{
    if a > 0 {
        lemma_grow_compose(spec_unfold(f, ls), (a - 1) as nat, b, ls);
    }
}

// ------------------------------------------------------------------
// Merging a separately-grown subtree back into a main tree.
// ------------------------------------------------------------------

/// Whether the tree rooted at `f` has a node whose path is `p`.
pub open spec fn contains_path(f: FolderV, p: Seq<char>) -> bool
    decreases f,
{
    f.path == p || exists|i: int|
        0 <= i < f.subfolders.len() && contains_path(#[trigger] f.subfolders[i], p)
}

/// First index whose file has path `p`, or -1.
pub open spec fn file_index_of(s: Seq<FileV>, p: Seq<char>) -> int
    decreases s.len(),
{
    if s.len() == 0 {
        -1
    } else if s[0].path == p {
        0
    } else if file_index_of(s.drop_first(), p) == -1 {
        -1
    } else {
        file_index_of(s.drop_first(), p) + 1
    }
}

/// First index whose folder has path `p`, or -1.
pub open spec fn folder_index_of(s: Seq<FolderV>, p: Seq<char>) -> int
    decreases s.len(),
{
    if s.len() == 0 {
        -1
    } else if s[0].path == p {
        0
    } else if folder_index_of(s.drop_first(), p) == -1 {
        -1
    } else {
        folder_index_of(s.drop_first(), p) + 1
    }
}

/// First index whose folder's tree contains a node at path `p`, or -1.
pub open spec fn folder_index_containing(s: Seq<FolderV>, p: Seq<char>) -> int
    decreases s.len(),
{
    if s.len() == 0 {
        -1
    } else if contains_path(s[0], p) {
        0
    } else if folder_index_containing(s.drop_first(), p) == -1 {
        -1
    } else {
        folder_index_containing(s.drop_first(), p) + 1
    }
}

pub proof fn lemma_file_index_of(s: Seq<FileV>, p: Seq<char>)
    ensures
        file_index_of(s, p) == -1 ==> forall|t: int| 0 <= t < s.len() ==> s[t].path != p,
        file_index_of(s, p) != -1 ==> 0 <= file_index_of(s, p) < s.len() && s[file_index_of(
            s,
            p,
        )].path == p && forall|t: int| 0 <= t < file_index_of(s, p) ==> s[t].path != p,
    decreases s.len(),
{
    if s.len() > 0 && s[0].path != p {
        lemma_file_index_of(s.drop_first(), p);
        assert(forall|t: int| 0 < t < s.len() ==> s[t] == s.drop_first()[t - 1]);
    }
}

pub proof fn lemma_folder_index_of(s: Seq<FolderV>, p: Seq<char>)
    ensures
        folder_index_of(s, p) == -1 ==> forall|t: int| 0 <= t < s.len() ==> s[t].path != p,
        folder_index_of(s, p) != -1 ==> 0 <= folder_index_of(s, p) < s.len() && s[folder_index_of(
            s,
            p,
        )].path == p && forall|t: int| 0 <= t < folder_index_of(s, p) ==> s[t].path != p,
    decreases s.len(),
{
    if s.len() > 0 && s[0].path != p {
        lemma_folder_index_of(s.drop_first(), p);
        assert(forall|t: int| 0 < t < s.len() ==> s[t] == s.drop_first()[t - 1]);
    }
}

pub proof fn lemma_folder_index_containing(s: Seq<FolderV>, p: Seq<char>)
    ensures
        folder_index_containing(s, p) == -1 ==> forall|t: int|
            0 <= t < s.len() ==> !contains_path(s[t], p),
        folder_index_containing(s, p) != -1 ==> 0 <= folder_index_containing(s, p) < s.len()
            && contains_path(s[folder_index_containing(s, p)], p) && forall|t: int|
            0 <= t < folder_index_containing(s, p) ==> !contains_path(s[t], p),
    decreases s.len(),
{
    if s.len() > 0 && !contains_path(s[0], p) {
        lemma_folder_index_containing(s.drop_first(), p);
        assert(forall|t: int| 0 < t < s.len() ==> s[t] == s.drop_first()[t - 1]);
    }
}

/// One file of the subtree folded into the main list: appended when its
/// path is new, replacing the main copy only under `overwrite`.
pub open spec fn merge_one_file(ms: Seq<FileV>, x: FileV, overwrite: bool) -> Seq<FileV> {
    let j = file_index_of(ms, x.path);
    if 0 <= j < ms.len() {
        if overwrite {
            ms.update(j, x)
        } else {
            ms
        }
    } else {
        ms.push(x)
    }
}

/// The subtree's files folded into the main list, in order.
pub open spec fn merge_files(ms: Seq<FileV>, ss: Seq<FileV>, overwrite: bool) -> Seq<FileV>
    decreases ss.len(),
{
    if ss.len() == 0 {
        ms
    } else {
        merge_files(merge_one_file(ms, ss[0], overwrite), ss.drop_first(), overwrite)
    }
}

/// One subfolder of the subtree folded into the main list: merged into the
/// main child sharing its path, or appended when its path is new.
pub open spec fn merge_one_folder(ms: Seq<FolderV>, s: FolderV, overwrite: bool) -> Seq<FolderV>
    decreases s, ms,
{
    let j = folder_index_of(ms, s.path);
    if 0 <= j < ms.len() {
        ms.update(j, spec_merge(ms[j], s, overwrite))
    } else {
        ms.push(s)
    }
}

/// The subtree's subfolders folded into the main list, in order.
pub open spec fn merge_subfolders(ms: Seq<FolderV>, ss: Seq<FolderV>, overwrite: bool) -> Seq<
    FolderV,
>
    decreases ss, ms,
{
    if ss.len() == 0 {
        ms
    } else {
        merge_subfolders(merge_one_folder(ms, ss[0], overwrite), ss.drop_first(), overwrite)
    }
}

/// The main children with the subtree merged into the first child whose
/// tree contains the subtree's path; unchanged when none does.
pub open spec fn merge_search(ms: Seq<FolderV>, sub: FolderV, overwrite: bool) -> Seq<FolderV>
    decreases sub, ms,
{
    let j = folder_index_containing(ms, sub.path);
    if 0 <= j < ms.len() {
        ms.update(j, spec_merge(ms[j], sub, overwrite))
    } else {
        ms
    }
}

/// The merge of `sub` into `main`. At the node sharing `sub`'s path,
/// children are replaced wholesale by `sub`'s under `overwrite`, else
/// unioned by path identity; anywhere above it, only the child on the path
/// to that node changes. When `main`'s tree has no node at `sub`'s path the
/// result is `main` itself.
///
/// Scan state at the matched node: under `overwrite` the traversal flag and
/// warning come from `sub` along with its children; under a union the node
/// counts as traversed when either side was, and keeps `main`'s warning if
/// it has one.
pub open spec fn spec_merge(main: FolderV, sub: FolderV, overwrite: bool) -> FolderV
    decreases sub, main,
{
    if main.path == sub.path {
        if overwrite {
            FolderV {
                traversed: sub.traversed,
                warning: sub.warning,
                subfiles: sub.subfiles,
                subfolders: sub.subfolders,
                ..main
            }
        } else {
            FolderV {
                traversed: main.traversed || sub.traversed,
                warning: if main.warning is Some {
                    main.warning
                } else {
                    sub.warning
                },
                subfiles: merge_files(main.subfiles, sub.subfiles, overwrite),
                subfolders: merge_subfolders(main.subfolders, sub.subfolders, overwrite),
                ..main
            }
        }
    } else {
        FolderV { subfolders: merge_search(main.subfolders, sub, overwrite), ..main }
    }
}

/// First index in `v` whose folder sits at `path`.
fn find_folder_by_path(v: &Vec<Folder>, path: &String) -> (r: Option<usize>)
    ensures
        match r {
            Some(j) => j as int == folder_index_of(folders_v(v@), path@),
            None => folder_index_of(folders_v(v@), path@) == -1,
        },
{
    let ghost sv = folders_v(v@);
    let n = v.len();
    let mut j: usize = 0;
    while j < n
        invariant
            0 <= j <= n,
            n == v.len(),
            sv == folders_v(v@),
            forall|t: int| 0 <= t < j ==> sv[t].path != path@,
        decreases n - j,
    {
        proof {
            lemma_folders_v(v@);
        }
        if v[j].path == *path {
            proof {
                assert(sv[j as int] == folder_v(v@[j as int]));
                assert(sv[j as int].path == path@);
                lemma_folder_index_of(sv, path@);
                let r = folder_index_of(sv, path@);
                assert(r != -1);
                assert(j < r ==> sv[j as int].path != path@);
                assert(0 <= r < j ==> sv[r].path != path@);
            }
            return Some(j);
        }
        j = j + 1;
    }
    proof {
        lemma_folders_v(v@);
        lemma_folder_index_of(sv, path@);
    }
    None
}

/// First index in `v` whose file sits at `path`.
fn find_file_by_path(v: &Vec<File>, path: &String) -> (r: Option<usize>)
    ensures
        match r {
            Some(j) => j as int == file_index_of(files_v(v@), path@),
            None => file_index_of(files_v(v@), path@) == -1,
        },
{
    let ghost sv = files_v(v@);
    let n = v.len();
    let mut j: usize = 0;
    while j < n
        invariant
            0 <= j <= n,
            n == v.len(),
            sv == files_v(v@),
            forall|t: int| 0 <= t < j ==> sv[t].path != path@,
        decreases n - j,
    {
        if v[j].path == *path {
            proof {
                assert(sv[j as int] == v@[j as int]@);
                assert(sv[j as int].path == path@);
                lemma_file_index_of(sv, path@);
                let r = file_index_of(sv, path@);
                assert(r != -1);
                assert(j < r ==> sv[j as int].path != path@);
                assert(0 <= r < j ==> sv[r].path != path@);
            }
            return Some(j);
        }
        j = j + 1;
    }
    proof {
        lemma_file_index_of(sv, path@);
    }
    None
}

/// The subtree's files folded into a copy of the main list.
fn merge_files_exec(ms: &Vec<File>, ss: &Vec<File>, overwrite: bool) -> (r: Vec<File>)
    ensures
        files_v(r@) == merge_files(files_v(ms@), files_v(ss@), overwrite),
{
    let ghost msv = files_v(ms@);
    let ghost ssv = files_v(ss@);
    let mut acc = clone_files(ms);
    proof {
        assert(ssv.skip(0) =~= ssv);
    }
    let n = ss.len();
    let mut k: usize = 0;
    while k < n
        invariant
            0 <= k <= n,
            n == ss.len(),
            msv == files_v(ms@),
            ssv == files_v(ss@),
            merge_files(msv, ssv, overwrite) == merge_files(
                files_v(acc@),
                ssv.skip(k as int),
                overwrite,
            ),
        decreases n - k,
    {
        let ghost acc0 = files_v(acc@);
        proof {
            assert(ssv.skip(k as int)[0] == ssv[k as int]);
            assert(ssv.skip(k as int).drop_first() =~= ssv.skip(k as int + 1));
            assert(ssv[k as int] == ss@[k as int]@);
        }
        match find_file_by_path(&acc, &ss[k].path) {
            Some(j) => {
                proof {
                    lemma_file_index_of(acc0, ssv[k as int].path);
                }
                if overwrite {
                    let ghost accs = acc@;
                    acc.set(j, clone_file(&ss[k]));
                    proof {
                        lemma_files_v_update(accs, j as int, ss@[k as int]);
                    }
                }
            },
            None => {
                let ghost accs = acc@;
                acc.push(clone_file(&ss[k]));
                proof {
                    lemma_files_v_push(accs, acc@.last());
                }
            },
        }
        k = k + 1;
    }
    proof {
        assert(ssv.skip(n as int) =~= Seq::<FileV>::empty());
    }
    acc
}

/// The subtree's subfolders folded into a copy of the main list, merging
/// children that share a path.
fn merge_subfolders_exec(ms: &Vec<Folder>, ss: &Vec<Folder>, overwrite: bool) -> (r: Vec<Folder>)
    ensures
        folders_v(r@) == merge_subfolders(folders_v(ms@), folders_v(ss@), overwrite),
    decreases *ss, *ms,
{
    let ghost msv = folders_v(ms@);
    let ghost ssv = folders_v(ss@);
    let mut acc = clone_folders(ms);
    proof {
        lemma_folders_v(ss@);
        assert(ssv.skip(0) =~= ssv);
    }
    let n = ss.len();
    let mut k: usize = 0;
    while k < n
        invariant
            0 <= k <= n,
            n == ss.len(),
            msv == folders_v(ms@),
            ssv == folders_v(ss@),
            ssv.len() == n,
            merge_subfolders(msv, ssv, overwrite) == merge_subfolders(
                folders_v(acc@),
                ssv.skip(k as int),
                overwrite,
            ),
        decreases n - k,
    {
        let ghost acc0 = folders_v(acc@);
        proof {
            lemma_folders_v(ss@);
            assert(ssv.skip(k as int)[0] == ssv[k as int]);
            assert(ssv.skip(k as int).drop_first() =~= ssv.skip(k as int + 1));
            assert(ssv[k as int] == folder_v(ss@[k as int]));
        }
        match find_folder_by_path(&acc, &ss[k].path) {
            Some(j) => {
                proof {
                    lemma_folder_index_of(acc0, ssv[k as int].path);
                    lemma_folders_v(acc@);
                    assert(acc0[j as int] == folder_v(acc@[j as int]));
                    assert(acc0[j as int].path == ssv[k as int].path);
                }
                match merge_step(&acc[j], &ss[k], overwrite) {
                    Some(m) => {
                        let ghost accs = acc@;
                        proof {
                            lemma_folders_v(accs);
                        }
                        acc.set(j, m);
                        proof {
                            lemma_folders_v_update(accs, j as int, acc@[j as int]);
                        }
                    },
                    None => {
                        // The child shares the subtree's path, so the merge
                        // cannot miss.
                        proof {
                            lemma_folders_v(acc@);
                            assert(false);
                        }
                    },
                }
            },
            None => {
                let ghost accs = acc@;
                acc.push(clone_folder(&ss[k]));
                proof {
                    lemma_folders_v_push(accs, acc@.last());
                }
            },
        }
        proof {
            assert(folders_v(acc@) == merge_one_folder(acc0, ssv[k as int], overwrite));
            assert(merge_subfolders(acc0, ssv.skip(k as int), overwrite) == merge_subfolders(
                merge_one_folder(acc0, ssv[k as int], overwrite),
                ssv.skip(k as int + 1),
                overwrite,
            ));
        }
        k = k + 1;
    }
    proof {
        assert(ssv.skip(n as int) =~= Seq::<FolderV>::empty());
    }
    acc
}

/// The merge of `*sub` into a copy of `*main`, or `None` when `main`'s tree
/// has no node at `sub`'s path.
fn merge_step(main: &Folder, sub: &Folder, overwrite: bool) -> (r: Option<Folder>)
    ensures
        contains_path(main@, sub@.path) ==> r is Some && r->Some_0@ == spec_merge(
            main@,
            sub@,
            overwrite,
        ),
        !contains_path(main@, sub@.path) ==> r is None,
    decreases *sub, *main,
{
    let ghost mv = main@;
    let ghost sv = sub@;
    if main.path == sub.path {
        let merged = if overwrite {
            Folder {
                name: main.name.clone(),
                path: main.path.clone(),
                size: main.size,
                percentage_of_root: main.percentage_of_root,
                disk: main.disk,
                traversed: sub.traversed,
                warning: sub.warning,
                subfiles: clone_files(&sub.subfiles),
                subfolders: clone_folders(&sub.subfolders),
            }
        } else {
            Folder {
                name: main.name.clone(),
                path: main.path.clone(),
                size: main.size,
                percentage_of_root: main.percentage_of_root,
                disk: main.disk,
                traversed: main.traversed || sub.traversed,
                warning: if main.warning.is_some() {
                    main.warning
                } else {
                    sub.warning
                },
                subfiles: merge_files_exec(&main.subfiles, &sub.subfiles, overwrite),
                subfolders: merge_subfolders_exec(&main.subfolders, &sub.subfolders, overwrite),
            }
        };
        proof {
            assert(merged@ =~= spec_merge(mv, sv, overwrite));
        }
        Some(merged)
    } else {
        let n = main.subfolders.len();
        let mut j: usize = 0;
        while j < n
            invariant
                0 <= j <= n,
                n == main.subfolders.len(),
                mv == main@,
                sv == sub@,
                mv.path != sv.path,
                forall|t: int|
                    0 <= t < j ==> !contains_path(#[trigger] folders_v(main.subfolders@)[t], sv.path),
            decreases n - j,
        {
            proof {
                lemma_folders_v(main.subfolders@);
            }
            match merge_step(&main.subfolders[j], sub, overwrite) {
                Some(m) => {
                    let mut subs = clone_folders(&main.subfolders);
                    let ghost subs0 = subs@;
                    proof {
                        lemma_folders_v(subs0);
                    }
                    subs.set(j, m);
                    let r = Folder {
                        name: main.name.clone(),
                        path: main.path.clone(),
                        size: main.size,
                        percentage_of_root: main.percentage_of_root,
                        disk: main.disk,
                        traversed: main.traversed,
                        warning: main.warning,
                        subfiles: clone_files(&main.subfiles),
                        subfolders: subs,
                    };
                    proof {
                        lemma_folders_v(main.subfolders@);
                        lemma_folders_v_update(subs0, j as int, subs@[j as int]);
                        assert(contains_path(folders_v(main.subfolders@)[j as int], sv.path));
                        lemma_folder_index_containing(folders_v(main.subfolders@), sv.path);
                        let fi = folder_index_containing(folders_v(main.subfolders@), sv.path);
                        assert(fi != -1);
                        assert(j < fi ==> contains_path(
                            folders_v(main.subfolders@)[j as int],
                            sv.path,
                        ));
                        assert(0 <= fi < j ==> !contains_path(
                            folders_v(main.subfolders@)[fi],
                            sv.path,
                        ));
                        assert(fi == j);
                        assert(contains_path(mv, sv.path));
                        assert(r@ =~= spec_merge(mv, sv, overwrite));
                    }
                    return Some(r);
                },
                None => {
                },
            }
            j = j + 1;
        }
        proof {
            lemma_folders_v(main.subfolders@);
            assert(!contains_path(mv, sv.path));
        }
        None
    }
}

/// Merges two folder trees. `sub_folder` must stand for the same logical
/// folder as some node of `main_folder`'s tree, matched by path identity;
/// there its children either overwrite the main tree's or are unioned with
/// them by path. When no node of the main tree matches, the merge fails
/// with `FolderNotFound` and the main tree, which is only borrowed, is left
/// untouched.
pub fn merge_folder_tree(main_folder: &Folder, sub_folder: &Folder, overwrite: bool) -> (r: Result<
    Folder,
    FileSystemError,
>)
    ensures
        contains_path(main_folder@, sub_folder@.path) ==> r is Ok && r->Ok_0@ == spec_merge(
            main_folder@,
            sub_folder@,
            overwrite,
        ),
        !contains_path(main_folder@, sub_folder@.path) ==> r == Result::<
            Folder,
            FileSystemError,
        >::Err(FileSystemError::FolderNotFound),
{
    match merge_step(main_folder, sub_folder, overwrite) {
        Some(merged) => Ok(merged),
        None => Err(FileSystemError::FolderNotFound),
    }
}

// ------------------------------------------------------------------
// Merging what is already present changes nothing.
// ------------------------------------------------------------------

/// The node of `f`'s tree at path `p`: `f` itself, or the find in the
/// first subfolder whose tree contains `p`.
pub open spec fn find_subtree(f: FolderV, p: Seq<char>) -> Option<FolderV>
    decreases f,
{
    if f.path == p {
        Some(f)
    } else {
        let j = folder_index_containing(f.subfolders, p);
        if 0 <= j < f.subfolders.len() {
            find_subtree(f.subfolders[j], p)
        } else {
            None
        }
    }
}

/// No two sibling folders and no two sibling files share a path, anywhere
/// in the tree: the path-uniqueness invariant the merger relies on.
pub open spec fn sibling_paths_unique(f: FolderV) -> bool
    decreases f,
{
    (forall|i: int, j: int|
        0 <= i < j < f.subfolders.len() ==> f.subfolders[i].path != f.subfolders[j].path) && (
    forall|i: int, j: int|
        0 <= i < j < f.subfiles.len() ==> f.subfiles[i].path != f.subfiles[j].path) && (forall|
        i: int,
    |
        0 <= i < f.subfolders.len() ==> sibling_paths_unique(#[trigger] f.subfolders[i]))
}

/// Folding in files whose paths are all present already, without
/// overwrite, changes nothing.
proof fn lemma_merge_files_noop(fs: Seq<FileV>, ss: Seq<FileV>)
    requires
        forall|k: int| 0 <= k < ss.len() ==> file_index_of(fs, #[trigger] ss[k].path) != -1,
    ensures
        merge_files(fs, ss, false) == fs,
    decreases ss.len(),
{
    if ss.len() > 0 {
        lemma_file_index_of(fs, ss[0].path);
        assert(forall|k: int| 0 <= k < ss.len() - 1 ==> ss.drop_first()[k] == ss[k + 1]);
        lemma_merge_files_noop(fs, ss.drop_first());
    }
}

/// Folding a tree's own subfolder suffix back into the full list changes
/// nothing, when sibling paths are unique.
proof fn lemma_merge_subfolders_self(ms: Seq<FolderV>, off: int)
    requires
        0 <= off <= ms.len(),
        forall|i: int, j: int| 0 <= i < j < ms.len() ==> ms[i].path != ms[j].path,
        forall|i: int| 0 <= i < ms.len() ==> sibling_paths_unique(#[trigger] ms[i]),
    ensures
        merge_subfolders(ms, ms.skip(off), false) == ms,
    decreases ms, ms.len() - off + 1,
{
    if off < ms.len() {
        assert(ms.skip(off)[0] == ms[off]);
        assert(ms.skip(off).drop_first() =~= ms.skip(off + 1));
        lemma_folder_index_of(ms, ms[off].path);
        let j = folder_index_of(ms, ms[off].path);
        assert(j != -1);
        assert(j < off ==> ms[j].path != ms[off].path);
        assert(off < j ==> ms[off].path != ms[j].path);
        assert(j == off);
        lemma_merge_self(ms[off]);
        assert(ms.update(off, ms[off]) =~= ms);
        assert(merge_one_folder(ms, ms.skip(off)[0], false) =~= ms);
        assert(merge_subfolders(ms, ms.skip(off), false) == merge_subfolders(
            merge_one_folder(ms, ms.skip(off)[0], false),
            ms.skip(off).drop_first(),
            false,
        ));
        lemma_merge_subfolders_self(ms, off + 1);
    } else {
        assert(ms.skip(off) =~= Seq::<FolderV>::empty());
    }
}

/// Merging a tree into itself, without overwrite, is the identity — the
/// heart of the merge's idempotence.
pub proof fn lemma_merge_self(f: FolderV)
    requires
        sibling_paths_unique(f),
    ensures
        spec_merge(f, f, false) == f,
    decreases f, 0int,
{
    assert forall|k: int| 0 <= k < f.subfiles.len() implies file_index_of(
        f.subfiles,
        #[trigger] f.subfiles[k].path,
    ) != -1 by {
        lemma_file_index_of(f.subfiles, f.subfiles[k].path);
    }
    lemma_merge_files_noop(f.subfiles, f.subfiles);
    assert(f.subfolders.skip(0) =~= f.subfolders);
    lemma_merge_subfolders_self(f.subfolders, 0);
    assert(spec_merge(f, f, false) =~= f);
}

/// Merging a subtree that already stands, unchanged, at its path in the
/// main tree returns the main tree itself: no node is duplicated or lost.
/// Sibling paths must be unique, as the data model requires.
pub proof fn lemma_merge_idempotent(main: FolderV, sub: FolderV)
    requires
        sibling_paths_unique(main),
        find_subtree(main, sub.path) == Some(sub),
    ensures
        spec_merge(main, sub, false) == main,
    decreases main,
{
    if main.path == sub.path {
        assert(sub == main);
        lemma_merge_self(main);
    } else {
        let j = folder_index_containing(main.subfolders, sub.path);
        assert(0 <= j < main.subfolders.len());
        lemma_merge_idempotent(main.subfolders[j], sub);
        assert(main.subfolders.update(j, main.subfolders[j]) =~= main.subfolders);
        assert(spec_merge(main, sub, false) =~= main);
    }
}

// ------------------------------------------------------------------
// Completeness.
// ------------------------------------------------------------------

/// A tree is complete when the folder and, recursively, every subfolder
/// have been traversed.
pub open spec fn spec_complete(f: FolderV) -> bool
    decreases f,
{
    f.traversed && forall|i: int|
        0 <= i < f.subfolders.len() ==> spec_complete(#[trigger] f.subfolders[i])
}

/// Whether every folder of the tree has been traversed; used to decide
/// whether further background deepening is needed.
pub fn file_tree_complete(folder: &Folder) -> (r: bool)
    ensures
        r == spec_complete(folder@),
    decreases *folder,
{
    if !folder.traversed {
        return false;
    }
    let n = folder.subfolders.len();
    let mut i: usize = 0;
    while i < n
        invariant
            0 <= i <= n,
            n == folder.subfolders.len(),
            forall|j: int| 0 <= j < i ==> spec_complete(#[trigger] folder@.subfolders[j]),
        decreases n - i,
    {
        proof {
            lemma_folders_v(folder.subfolders@);
        }
        if !file_tree_complete(&folder.subfolders[i]) {
            proof {
                assert(folder@.subfolders[i as int] == folder_v(folder.subfolders@[i as int]));
                assert(!spec_complete(folder@));
            }
            return false;
        }
        i = i + 1;
    }
    proof {
        lemma_folders_v(folder.subfolders@);
    }
    true
}

} // verus!
