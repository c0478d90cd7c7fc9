use vstd::prelude::*;
use crate::filesystem::clone_files;
use crate::filesystem::folder_v;
use crate::filesystem::folders_v;
use crate::filesystem::files_v;
use crate::filesystem::lemma_folders_v;
use crate::filesystem::sum_file_sizes;
use crate::filesystem::sum_folder_sizes;
use crate::filesystem::File;
use crate::filesystem::FileV;
use crate::filesystem::Folder;
use crate::filesystem::FolderV;
use crate::filesystem::Percentage;

verus! {

// ------------------------------------------------------------------
// Bottom-up size aggregation.
// ------------------------------------------------------------------

/// The total number of bytes in files anywhere in the tree: what every
/// folder size derives from.
pub open spec fn total_file_size(f: FolderV) -> int
    decreases f,
{
    sum_file_sizes(f.subfiles) + total_file_size_each(f.subfolders)
}

pub open spec fn total_file_size_each(s: Seq<FolderV>) -> int
    decreases s,
{
    if s.len() == 0 {
        0
    } else {
        total_file_size_each(s.drop_last()) + total_file_size(s.last())
    }
}

pub proof fn lemma_total_file_size_nonneg(f: FolderV)
    ensures
        0 <= total_file_size(f),
    decreases f,
{
    crate::filesystem::lemma_sum_file_sizes_nonneg(f.subfiles);
    lemma_total_file_size_each_nonneg(f.subfolders);
}

pub proof fn lemma_total_file_size_each_nonneg(s: Seq<FolderV>)
    ensures
        0 <= total_file_size_each(s),
    decreases s,
{
    if s.len() > 0 {
        lemma_total_file_size_each_nonneg(s.drop_last());
        lemma_total_file_size_nonneg(s.last());
    }
}

/// Every tree in a list contributes at most the whole list's total.
pub proof fn lemma_total_file_size_each_bound(s: Seq<FolderV>, i: int)
    requires
        0 <= i < s.len(),
    ensures
        total_file_size(s[i]) <= total_file_size_each(s),
    decreases s.len(),
{
    if i == s.len() - 1 {
        lemma_total_file_size_each_nonneg(s.drop_last());
    } else {
        assert(s.drop_last()[i] == s[i]);
        lemma_total_file_size_each_bound(s.drop_last(), i);
        lemma_total_file_size_nonneg(s.last());
    }
}

/// The tree with every folder's size recomputed bottom-up: a folder's size
/// becomes the sum of its files' sizes plus its aggregated subfolders'
/// sizes. Nothing but sizes changes.
pub open spec fn spec_aggregate(f: FolderV) -> FolderV
    decreases f,
{
    let subs = spec_aggregate_each(f.subfolders);
    FolderV {
        size: (sum_file_sizes(f.subfiles) + sum_folder_sizes(subs)) as u64,
        subfolders: subs,
        ..f
    }
}

pub open spec fn spec_aggregate_each(s: Seq<FolderV>) -> Seq<FolderV>
    decreases s,
{
    if s.len() == 0 {
        Seq::empty()
    } else {
        spec_aggregate_each(s.drop_last()).push(spec_aggregate(s.last()))
    }
}

pub proof fn lemma_aggregate_each(s: Seq<FolderV>)
    ensures
        spec_aggregate_each(s).len() == s.len(),
        forall|i: int| 0 <= i < s.len() ==> spec_aggregate_each(s)[i] == spec_aggregate(s[i]),
    decreases s,
{
    if s.len() > 0 {
        lemma_aggregate_each(s.drop_last());
        assert(forall|i: int| 0 <= i < s.len() - 1 ==> s.drop_last()[i] == s[i]);
    }
}

/// When the tree's total fits in a `u64`, an aggregated folder's size is
/// exactly the total size of the files below it.
pub proof fn lemma_aggregate_size(f: FolderV)
    requires
        total_file_size(f) <= u64::MAX,
    ensures
        spec_aggregate(f).size as int == total_file_size(f),
    decreases f,
{
    crate::filesystem::lemma_sum_file_sizes_nonneg(f.subfiles);
    lemma_total_file_size_each_nonneg(f.subfolders);
    lemma_aggregate_size_each(f.subfolders);
}

pub proof fn lemma_aggregate_size_each(s: Seq<FolderV>)
    requires
        total_file_size_each(s) <= u64::MAX,
    ensures
        sum_folder_sizes(spec_aggregate_each(s)) == total_file_size_each(s),
    decreases s,
{
    if s.len() > 0 {
        lemma_total_file_size_each_nonneg(s.drop_last());
        lemma_total_file_size_nonneg(s.last());
        lemma_aggregate_size_each(s.drop_last());
        lemma_aggregate_size(s.last());
        assert(spec_aggregate_each(s).drop_last() =~= spec_aggregate_each(s.drop_last()));
    }
}

/// The shape every aggregated tree has: each folder's size equals the sum
/// of its files' sizes plus its subfolders' sizes, recursively.
pub open spec fn sizes_aggregated(f: FolderV) -> bool
    decreases f,
{
    f.size as int == sum_file_sizes(f.subfiles) + sum_folder_sizes(f.subfolders) && forall|i: int|
        0 <= i < f.subfolders.len() ==> sizes_aggregated(#[trigger] f.subfolders[i])
}

/// After `aggregate`, every folder's size equals the sum of its files'
/// sizes plus its subfolders' sizes — for any tree whose file total fits
/// the machine word.
pub proof fn lemma_aggregate_sizes(f: FolderV)
    requires
        total_file_size(f) <= u64::MAX,
    ensures
        sizes_aggregated(spec_aggregate(f)),
    decreases f,
{
    crate::filesystem::lemma_sum_file_sizes_nonneg(f.subfiles);
    lemma_total_file_size_each_nonneg(f.subfolders);
    lemma_aggregate_size(f);
    lemma_aggregate_size_each(f.subfolders);
    lemma_aggregate_each(f.subfolders);
    assert forall|i: int| 0 <= i < spec_aggregate(f).subfolders.len() implies sizes_aggregated(
        #[trigger] spec_aggregate(f).subfolders[i],
    ) by {
        crate::filesystem::lemma_sum_file_sizes_nonneg(f.subfiles);
        lemma_total_file_size_each_bound(f.subfolders, i);
        lemma_total_file_size_nonneg(f.subfolders[i]);
        lemma_aggregate_sizes(f.subfolders[i]);
    }
}

/// Aggregation is idempotent: re-running it on an aggregated tree changes
/// nothing.
pub proof fn lemma_aggregate_idempotent(f: FolderV)
    ensures
        spec_aggregate(spec_aggregate(f)) == spec_aggregate(f),
    decreases f,
{
    lemma_aggregate_each(f.subfolders);
    lemma_aggregate_each(spec_aggregate(f).subfolders);
    assert forall|i: int| 0 <= i < f.subfolders.len() implies spec_aggregate_each(
        spec_aggregate(f).subfolders,
    )[i] == spec_aggregate_each(f.subfolders)[i] by {
        lemma_aggregate_idempotent(f.subfolders[i]);
    }
    assert(spec_aggregate_each(spec_aggregate(f).subfolders) =~= spec_aggregate_each(f.subfolders));
    assert(spec_aggregate(spec_aggregate(f)) =~= spec_aggregate(f));
}

/// Recomputes every folder size bottom-up from file sizes. Idempotent, and
/// total: a partially scanned tree is aggregated over whatever children are
/// known.
pub fn aggregate(folder: &Folder) -> (r: Folder)
    requires
        total_file_size(folder@) <= u64::MAX,
    ensures
        r@ == spec_aggregate(folder@),
    decreases *folder,
{
    let ghost fv = folder@;
    let mut subs: Vec<Folder> = Vec::new();
    let n = folder.subfolders.len();
    let mut i: usize = 0;
    while i < n
        invariant
            0 <= i <= n,
            n == folder.subfolders.len(),
            fv == folder@,
            total_file_size(fv) <= u64::MAX,
            subs@.len() == i,
            forall|k: int| 0 <= k < i ==> folder_v(#[trigger] subs@[k]) == spec_aggregate(
                folders_v(folder.subfolders@)[k],
            ),
        decreases n - i,
    {
        proof {
            lemma_folders_v(folder.subfolders@);
            lemma_total_file_size_each_bound(folders_v(folder.subfolders@), i as int);
            crate::filesystem::lemma_sum_file_sizes_nonneg(fv.subfiles);
        }
        subs.push(aggregate(&folder.subfolders[i]));
        i = i + 1;
    }
    let mut r = Folder {
        name: folder.name.clone(),
        path: folder.path.clone(),
        size: folder.size,
        percentage_of_root: folder.percentage_of_root,
        disk: folder.disk,
        traversed: folder.traversed,
        warning: folder.warning,
        subfiles: clone_files(&folder.subfiles),
        subfolders: subs,
    };
    proof {
        lemma_folders_v(folder.subfolders@);
        lemma_folders_v(r.subfolders@);
        lemma_aggregate_each(fv.subfolders);
        assert(folders_v(r.subfolders@) =~= spec_aggregate_each(fv.subfolders));
        crate::filesystem::lemma_sum_file_sizes_nonneg(fv.subfiles);
        lemma_total_file_size_each_nonneg(fv.subfolders);
        lemma_aggregate_size_each(fv.subfolders);
    }
    r.update_size();
    proof {
        assert(r@ =~= spec_aggregate(fv));
    }
    r
}

// ------------------------------------------------------------------
// Top-down shares of the root.
// ------------------------------------------------------------------

/// The tree with every node's share set to its size over `whole`.
pub open spec fn spec_spread(f: FolderV, whole: u64) -> FolderV
    decreases f,
{
    FolderV {
        percentage_of_root: Percentage { part: f.size, whole },
        subfiles: spread_files(f.subfiles, whole),
        subfolders: spec_spread_each(f.subfolders, whole),
        ..f
    }
}

pub open spec fn spread_files(s: Seq<FileV>, whole: u64) -> Seq<FileV> {
    s.map_values(
        |x: FileV| FileV { percentage_of_root: Percentage { part: x.size, whole }, ..x },
    )
}

pub open spec fn spec_spread_each(s: Seq<FolderV>, whole: u64) -> Seq<FolderV>
    decreases s,
{
    if s.len() == 0 {
        Seq::empty()
    } else {
        spec_spread_each(s.drop_last(), whole).push(spec_spread(s.last(), whole))
    }
}

pub proof fn lemma_spread_each(s: Seq<FolderV>, whole: u64)
    ensures
        spec_spread_each(s, whole).len() == s.len(),
        forall|i: int| 0 <= i < s.len() ==> spec_spread_each(s, whole)[i] == spec_spread(
            s[i],
            whole,
        ),
    decreases s,
{
    if s.len() > 0 {
        lemma_spread_each(s.drop_last(), whole);
        assert(forall|i: int| 0 <= i < s.len() - 1 ==> s.drop_last()[i] == s[i]);
    }
}

/// Assigns every node of the tree its share of a root of `root_size` bytes:
/// `size / root_size`, as an exact ratio. A zero `root_size` never fails:
/// such shares simply read as zero.
pub fn spread_percentage(folder: &Folder, root_size: u64) -> (r: Folder)
    ensures
        r@ == spec_spread(folder@, root_size),
    decreases *folder,
{
    let ghost fv = folder@;
    let mut subs: Vec<Folder> = Vec::new();
    let n = folder.subfolders.len();
    let mut i: usize = 0;
    while i < n
        invariant
            0 <= i <= n,
            n == folder.subfolders.len(),
            fv == folder@,
            subs@.len() == i,
            forall|k: int| 0 <= k < i ==> folder_v(#[trigger] subs@[k]) == spec_spread(
                folders_v(folder.subfolders@)[k],
                root_size,
            ),
        decreases n - i,
    {
        proof {
            lemma_folders_v(folder.subfolders@);
        }
        subs.push(spread_percentage(&folder.subfolders[i], root_size));
        i = i + 1;
    }
    let mut files: Vec<File> = Vec::new();
    let m = folder.subfiles.len();
    let mut j: usize = 0;
    while j < m
        invariant
            0 <= j <= m,
            m == folder.subfiles.len(),
            fv == folder@,
            files@.len() == j,
            forall|k: int| 0 <= k < j ==> (#[trigger] files@[k])@ == spread_files(
                files_v(folder.subfiles@),
                root_size,
            )[k],
        decreases m - j,
    {
        let source = &folder.subfiles[j];
        let file = File {
            name: source.name.clone(),
            extn: source.extn.clone(),
            path: source.path.clone(),
            size: source.size,
            percentage_of_root: Percentage::new(source.size, root_size),
        };
        files.push(file);
        j = j + 1;
    }
    let r = Folder {
        name: folder.name.clone(),
        path: folder.path.clone(),
        size: folder.size,
        percentage_of_root: Percentage::new(folder.size, root_size),
        disk: folder.disk,
        traversed: folder.traversed,
        warning: folder.warning,
        subfiles: files,
        subfolders: subs,
    };
    proof {
        lemma_folders_v(folder.subfolders@);
        lemma_folders_v(r.subfolders@);
        lemma_spread_each(fv.subfolders, root_size);
        assert(folders_v(r.subfolders@) =~= spec_spread_each(fv.subfolders, root_size));
        assert(files_v(r.subfiles@) =~= spread_files(fv.subfiles, root_size));
        assert(r@ =~= spec_spread(fv, root_size));
    }
    r
}

// ------------------------------------------------------------------
// Shares of siblings add up.
// ------------------------------------------------------------------

pub open spec fn sum_file_shares(s: Seq<FileV>) -> int
    decreases s.len(),
{
    if s.len() == 0 {
        0
    } else {
        sum_file_shares(s.drop_last()) + s.last().percentage_of_root.part
    }
}

pub open spec fn sum_folder_shares(s: Seq<FolderV>) -> int
    decreases s.len(),
{
    if s.len() == 0 {
        0
    } else {
        sum_folder_shares(s.drop_last()) + s.last().percentage_of_root.part
    }
}

/// Every folder's direct children — files and subfolders together — carry
/// shares of a common whole that add up exactly to the folder's own share.
pub open spec fn shares_consistent(f: FolderV, whole: u64) -> bool
    decreases f,
{
    f.percentage_of_root.whole == whole && sum_file_shares(f.subfiles) + sum_folder_shares(
        f.subfolders,
    ) == f.percentage_of_root.part as int && forall|i: int|
        0 <= i < f.subfolders.len() ==> shares_consistent(#[trigger] f.subfolders[i], whole)
}

proof fn lemma_spread_file_shares(s: Seq<FileV>, whole: u64)
    ensures
        sum_file_shares(spread_files(s, whole)) == sum_file_sizes(s),
    decreases s.len(),
{
    if s.len() > 0 {
        assert(spread_files(s, whole).drop_last() =~= spread_files(s.drop_last(), whole));
        lemma_spread_file_shares(s.drop_last(), whole);
    }
}

proof fn lemma_spread_folder_shares(s: Seq<FolderV>, whole: u64)
    ensures
        sum_folder_shares(spec_spread_each(s, whole)) == sum_folder_sizes(s),
    decreases s.len(),
{
    if s.len() > 0 {
        lemma_spread_each(s, whole);
        assert(spec_spread_each(s, whole).drop_last() =~= spec_spread_each(s.drop_last(), whole));
        lemma_spread_folder_shares(s.drop_last(), whole);
    }
}

/// After aggregating and spreading, the shares of the direct children under
/// any folder of the tree sum exactly to that folder's own share — the
/// ratios are exact, so no tolerance is needed.
pub proof fn lemma_sibling_shares(f: FolderV, root_size: u64)
    requires
        sizes_aggregated(f),
    ensures
        shares_consistent(spec_spread(f, root_size), root_size),
    decreases f,
{
    lemma_spread_file_shares(f.subfiles, root_size);
    lemma_spread_folder_shares(f.subfolders, root_size);
    lemma_spread_each(f.subfolders, root_size);
    assert forall|i: int| 0 <= i < spec_spread(f, root_size).subfolders.len() implies
        shares_consistent(#[trigger] spec_spread(f, root_size).subfolders[i], root_size) by {
        lemma_sibling_shares(f.subfolders[i], root_size);
    }
}

/// A whole tree's share of itself: 100 percent when it has any bytes, zero
/// when the root size is zero.
pub proof fn lemma_root_share(f: FolderV)
    ensures
        f.size > 0 ==> spec_spread(f, f.size).percentage_of_root.spec_hundredths() == 10000,
        spec_spread(f, 0).percentage_of_root.spec_hundredths() == 0,
{
    if f.size > 0 {
        let s = f.size as int;
        vstd::arithmetic::div_mod::lemma_div_multiples_vanish_fancy(10000, s / 2, s);
        assert(s * 10000 == 10000 * s) by (nonlinear_arith);
    }
}

} // verus!
