use vstd::prelude::*;
use vstd::string::StrSliceExecFns;
use vstd::string::StringExecFns;
use crate::error::DirErrorKind;
use crate::error::FileSystemError;

verus! {

pub const KB: u64 = 1024;

pub const MB: u64 = 1024 * 1024;

pub const GB: u64 = 1024 * 1024 * 1024;

pub const TB: u64 = 1024 * 1024 * 1024 * 1024;

/// A node's share of the scanned root, kept as the exact ratio
/// `100 * part / whole` so that shares of siblings add without rounding
/// error. `whole == 0` stands for "undefined", and such a share reads as
/// zero, never as an error.
#[derive(Clone, Copy, Debug, PartialEq, Eq, Structural)]
pub struct Percentage {
    pub part: u64,
    pub whole: u64,
}

impl Percentage {
    /// The share that an unaggregated node carries: zero of an unknown whole.
    pub open spec fn spec_zero() -> Percentage {
        Percentage { part: 0, whole: 0 }
    }

    /// The share in hundredths of a percent, rounded to nearest (half up);
    /// zero when the whole is zero.
    pub open spec fn spec_hundredths(self) -> int {
        if self.whole == 0 {
            0
        } else {
            (self.part * 10000 + self.whole / 2) / (self.whole as int)
        }
    }

    pub fn zero() -> (r: Percentage)
        ensures
            r == Percentage::spec_zero(),
    {
        Percentage { part: 0, whole: 0 }
    }

    pub fn new(part: u64, whole: u64) -> (r: Percentage)
        ensures
            r == (Percentage { part, whole }),
    {
        Percentage { part, whole }
    }

    /// The share in hundredths of a percent, e.g. 1667 for one sixth.
    pub fn hundredths(&self) -> (r: u64)
        requires
            self.part <= self.whole,
        ensures
            r as int == self.spec_hundredths(),
    {
        if self.whole == 0 {
            0
        } else {
            let p = self.part as u128;
            let w = self.whole as u128;
            let q = (p * 10000 + w / 2) / w;
            proof {
                assert(p * 10000 + w / 2 <= w * 10000 + w / 2) by (nonlinear_arith)
                    requires
                        p <= w,
                ;
                assert(w * 10000 + w / 2 <= w * 10001) by (nonlinear_arith)
                    requires
                        w >= 1,
                ;
                vstd::arithmetic::div_mod::lemma_div_is_ordered(
                    (p * 10000 + w / 2) as int,
                    (w * 10001) as int,
                    w as int,
                );
                vstd::arithmetic::div_mod::lemma_div_multiples_vanish(10001, w as int);
            }
            q as u64
        }
    }
}

/// A file node: a leaf of the tree, with its size taken from metadata.
#[derive(Clone, Debug)]
pub struct File {
    pub name: String,
    pub extn: String,
    pub path: String,
    pub size: u64,
    pub percentage_of_root: Percentage,
}

/// A folder node, either a plain folder or a disk root. Children are known
/// only once the folder has been traversed; an enumeration failure leaves the
/// folder traversed with partial children and a per-node warning.
#[derive(Debug)]
pub struct Folder {
    pub name: String,
    pub path: String,
    pub size: u64,
    pub percentage_of_root: Percentage,
    pub disk: bool,
    pub traversed: bool,
    pub warning: Option<DirErrorKind>,
    pub subfiles: Vec<File>,
    pub subfolders: Vec<Folder>,
}

/// The root of everything scanned on one machine: a set of disk roots.
#[derive(Debug)]
pub struct Computer {
    pub name: String,
    pub disks: Vec<Folder>,
    pub total_size: u64,
}

/// Mathematical image of a `File`.
#[verifier::ext_equal]
pub struct FileV {
    pub name: Seq<char>,
    pub extn: Seq<char>,
    pub path: Seq<char>,
    pub size: u64,
    pub percentage_of_root: Percentage,
}

/// Mathematical image of a `Folder`: the same tree over `Seq` instead of
/// `Vec`. Contracts speak of these values.
#[verifier::ext_equal]
pub struct FolderV {
    pub name: Seq<char>,
    pub path: Seq<char>,
    pub size: u64,
    pub percentage_of_root: Percentage,
    pub disk: bool,
    pub traversed: bool,
    pub warning: Option<DirErrorKind>,
    pub subfiles: Seq<FileV>,
    pub subfolders: Seq<FolderV>,
}

/// Mathematical image of a `Computer`.
#[verifier::ext_equal]
pub struct ComputerV {
    pub name: Seq<char>,
    pub disks: Seq<FolderV>,
    pub total_size: u64,
}

impl View for File {
    type V = FileV;

    open spec fn view(&self) -> FileV {
        FileV {
            name: self.name@,
            extn: self.extn@,
            path: self.path@,
            size: self.size,
            percentage_of_root: self.percentage_of_root,
        }
    }
}

pub open spec fn files_v(s: Seq<File>) -> Seq<FileV> {
    s.map_values(|x: File| x@)
}

pub open spec fn folders_v(s: Seq<Folder>) -> Seq<FolderV>
    decreases s,
{
    if s.len() == 0 {
        Seq::empty()
    } else {
        seq![folder_v(s[0])] + folders_v(s.drop_first())
    }
}

pub open spec fn folder_v(f: Folder) -> FolderV
    decreases f,
{
    FolderV {
        name: f.name@,
        path: f.path@,
        size: f.size,
        percentage_of_root: f.percentage_of_root,
        disk: f.disk,
        traversed: f.traversed,
        warning: f.warning,
        subfiles: files_v(f.subfiles@),
        subfolders: folders_v(f.subfolders@),
    }
}

impl View for Folder {
    type V = FolderV;

    open spec fn view(&self) -> FolderV {
        folder_v(*self)
    }
}

impl View for Computer {
    type V = ComputerV;

    open spec fn view(&self) -> ComputerV {
        ComputerV { name: self.name@, disks: folders_v(self.disks@), total_size: self.total_size }
    }
}

/// `folders_v` maps the sequence pointwise.
pub broadcast proof fn lemma_folders_v(s: Seq<Folder>)
    ensures
        #![trigger folders_v(s)]
        folders_v(s).len() == s.len(),
        forall|i: int| 0 <= i < s.len() ==> folders_v(s)[i] == folder_v(s[i]),
    decreases s,
{
    if s.len() > 0 {
        lemma_folders_v(s.drop_first());
    }
}

/// Appending a file appends its image.
pub proof fn lemma_files_v_push(s: Seq<File>, x: File)
    ensures
        files_v(s.push(x)) == files_v(s).push(x@),
{
    assert(files_v(s.push(x)) =~= files_v(s).push(x@));
}

/// Updating one file updates its image.
pub proof fn lemma_files_v_update(s: Seq<File>, j: int, x: File)
    requires
        0 <= j < s.len(),
    ensures
        files_v(s.update(j, x)) == files_v(s).update(j, x@),
{
    assert(files_v(s.update(j, x)) =~= files_v(s).update(j, x@));
}

/// Updating one folder updates its image.
pub proof fn lemma_folders_v_update(s: Seq<Folder>, j: int, x: Folder)
    requires
        0 <= j < s.len(),
    ensures
        folders_v(s.update(j, x)) == folders_v(s).update(j, folder_v(x)),
{
    lemma_folders_v(s);
    lemma_folders_v(s.update(j, x));
    assert(folders_v(s.update(j, x)) =~= folders_v(s).update(j, folder_v(x)));
}

/// Appending a folder appends its image.
pub broadcast proof fn lemma_folders_v_push(s: Seq<Folder>, x: Folder)
    ensures
        #[trigger] folders_v(s.push(x)) == folders_v(s).push(folder_v(x)),
    decreases s,
{
    broadcast use lemma_folders_v;

    if s.len() == 0 {
        assert(s.push(x)[0] == x);
        assert(folders_v(s.push(x)) =~= folders_v(s).push(folder_v(x)));
    } else {
        assert(s.push(x).drop_first() =~= s.drop_first().push(x));
        lemma_folders_v_push(s.drop_first(), x);
        assert(folders_v(s.push(x)) =~= folders_v(s).push(folder_v(x)));
    }
}

/// Concatenation maps through `folders_v`.
pub broadcast proof fn lemma_folders_v_concat(s1: Seq<Folder>, s2: Seq<Folder>)
    ensures
        #[trigger] folders_v(s1 + s2) == folders_v(s1) + folders_v(s2),
{
    broadcast use lemma_folders_v;

    assert(folders_v(s1 + s2) =~= folders_v(s1) + folders_v(s2));
}

/// Sequences of folders whose images agree pointwise have the same image.
pub proof fn lemma_folders_v_pointwise(s1: Seq<Folder>, s2: Seq<Folder>)
    requires
        s1.len() == s2.len(),
        forall|i: int| 0 <= i < s1.len() ==> folder_v(s1[i]) == folder_v(s2[i]),
    ensures
        folders_v(s1) == folders_v(s2),
{
    broadcast use lemma_folders_v;

    assert(folders_v(s1) =~= folders_v(s2));
}

// ------------------------------------------------------------------
// Deriving a node's display name and extension from its path.
// ------------------------------------------------------------------

/// Index of the last occurrence of `sep` in `p`, or -1 if `sep` does not
/// occur.
pub open spec fn last_sep_index(p: Seq<char>, sep: char) -> int
    decreases p.len(),
{
    if p.len() == 0 {
        -1
    } else if p.last() == sep {
        p.len() - 1
    } else {
        last_sep_index(p.drop_last(), sep)
    }
}

pub broadcast proof fn lemma_last_sep_index_bounds(p: Seq<char>, sep: char)
    ensures
        -1 <= #[trigger] last_sep_index(p, sep) < p.len(),
    decreases p.len(),
{
    if p.len() > 0 && p.last() != sep {
        lemma_last_sep_index_bounds(p.drop_last(), sep);
    }
}

/// Characters at or after position `m` that are not `sep` do not move the
/// last-separator index.
proof fn lemma_last_sep_index_ignores_suffix(p: Seq<char>, sep: char, m: int)
    requires
        0 <= m <= p.len(),
        forall|j: int| m <= j < p.len() ==> p[j] != sep,
    ensures
        last_sep_index(p, sep) == last_sep_index(p.take(m), sep),
    decreases p.len(),
{
    if m == p.len() {
        assert(p.take(m) =~= p);
    } else {
        assert(p.last() != sep);
        assert(p.drop_last().take(m) =~= p.take(m));
        lemma_last_sep_index_ignores_suffix(p.drop_last(), sep, m);
    }
}

/// The final component of a path: everything after the last `/`, or the
/// whole path if it has no `/`.
pub open spec fn spec_name_of(p: Seq<char>) -> Seq<char> {
    p.subrange(last_sep_index(p, '/') + 1, p.len() as int)
}

/// The extension of a path's final component: everything after the last `.`
/// of the name, or empty if the name has no `.` past its first character.
pub open spec fn spec_extn_of(p: Seq<char>) -> Seq<char> {
    let nm = spec_name_of(p);
    let d = last_sep_index(nm, '.');
    if d <= 0 {
        Seq::empty()
    } else {
        nm.subrange(d + 1, nm.len() as int)
    }
}

/// First position after the last occurrence of `sep`, or 0 if `sep` does not
/// occur.
fn start_after_last(s: &str, sep: char) -> (r: usize)
    ensures
        r as int == last_sep_index(s@, sep) + 1,
{
    broadcast use lemma_last_sep_index_bounds;

    let n = s.unicode_len();
    let mut i: usize = n;
    while i > 0
        invariant
            0 <= i <= n,
            n as int == s@.len(),
            forall|j: int| i <= j < n ==> s@[j] != sep,
        decreases i,
    {
        if s.get_char(i - 1) == sep {
            proof {
                lemma_last_sep_index_ignores_suffix(s@, sep, i as int);
                assert(s@.take(i as int).last() == s@[i - 1]);
            }
            return i;
        }
        i -= 1;
    }
    proof {
        lemma_last_sep_index_ignores_suffix(s@, sep, 0);
    }
    0
}

/// The display name of the node at `path`.
pub fn name_from_path(path: &str) -> (r: String)
    ensures
        r@ == spec_name_of(path@),
{
    broadcast use lemma_last_sep_index_bounds;

    let n = path.unicode_len();
    let start = start_after_last(path, '/');
    path.substring_char(start, n).to_owned()
}

/// The extension of the node at `path`.
pub fn extn_from_path(path: &str) -> (r: String)
    ensures
        r@ == spec_extn_of(path@),
{
    broadcast use lemma_last_sep_index_bounds;

    let name = name_from_path(path);
    let m = name.as_str().unicode_len();
    let d = start_after_last(name.as_str(), '.');
    if d >= 2 {
        name.as_str().substring_char(d, m).to_owned()
    } else {
        String::new()
    }
}

/// The image of a freshly constructed, untraversed folder at `path`.
pub open spec fn spec_new_folder(path: Seq<char>, disk: bool) -> FolderV {
    FolderV {
        name: spec_name_of(path),
        path: path,
        size: 0,
        percentage_of_root: Percentage::spec_zero(),
        disk: disk,
        traversed: false,
        warning: None,
        subfiles: Seq::empty(),
        subfolders: Seq::empty(),
    }
}

/// The image of a freshly constructed file node at `path` whose size is
/// `size`.
pub open spec fn spec_new_file(path: Seq<char>, size: u64) -> FileV {
    FileV {
        name: spec_name_of(path),
        extn: spec_extn_of(path),
        path: path,
        size: size,
        percentage_of_root: Percentage::spec_zero(),
    }
}

// ------------------------------------------------------------------
// Common behaviour of files and folders.
// ------------------------------------------------------------------

/// What every node of the tree offers: a name, a path, a size in bytes and a
/// share of the root.
pub trait FileSystemEntity {
    spec fn entity_name(&self) -> Seq<char>;

    spec fn entity_path(&self) -> Seq<char>;

    spec fn entity_size(&self) -> u64;

    spec fn entity_percentage(&self) -> Percentage;

    fn name(&self) -> (r: &String)
        ensures
            r@ == self.entity_name(),
    ;

    fn path(&self) -> (r: &String)
        ensures
            r@ == self.entity_path(),
    ;

    fn size(&self) -> (r: u64)
        ensures
            r == self.entity_size(),
    ;

    fn percentage_of_root(&self) -> (r: Percentage)
        ensures
            r == self.entity_percentage(),
    ;
}

impl FileSystemEntity for File {
    open spec fn entity_name(&self) -> Seq<char> {
        self.name@
    }

    open spec fn entity_path(&self) -> Seq<char> {
        self.path@
    }

    open spec fn entity_size(&self) -> u64 {
        self.size
    }

    open spec fn entity_percentage(&self) -> Percentage {
        self.percentage_of_root
    }

    fn name(&self) -> (r: &String) {
        &self.name
    }

    fn path(&self) -> (r: &String) {
        &self.path
    }

    fn size(&self) -> (r: u64) {
        self.size
    }

    fn percentage_of_root(&self) -> (r: Percentage) {
        self.percentage_of_root
    }
}

impl FileSystemEntity for Folder {
    open spec fn entity_name(&self) -> Seq<char> {
        self.name@
    }

    open spec fn entity_path(&self) -> Seq<char> {
        self.path@
    }

    open spec fn entity_size(&self) -> u64 {
        self.size
    }

    open spec fn entity_percentage(&self) -> Percentage {
        self.percentage_of_root
    }

    fn name(&self) -> (r: &String) {
        &self.name
    }

    fn path(&self) -> (r: &String) {
        &self.path
    }

    fn size(&self) -> (r: u64) {
        self.size
    }

    fn percentage_of_root(&self) -> (r: Percentage) {
        self.percentage_of_root
    }
}

impl File {
    /// A new file node at `path`: name and extension derived from the path,
    /// size zero until metadata fills it in.
    pub fn new(path: String) -> (r: File)
        ensures
            r@ == spec_new_file(path@, 0),
    {
        let name = name_from_path(path.as_str());
        let extn = extn_from_path(path.as_str());
        File { name, extn, path, size: 0, percentage_of_root: Percentage::zero() }
    }
}

impl Folder {
    /// A new, untraversed folder at `path` with no known children.
    pub fn new(path: String) -> (r: Folder)
        ensures
            r@ == spec_new_folder(path@, false),
    {
        let name = name_from_path(path.as_str());
        Folder {
            name,
            path,
            size: 0,
            percentage_of_root: Percentage::zero(),
            disk: false,
            traversed: false,
            warning: None,
            subfiles: Vec::new(),
            subfolders: Vec::new(),
        }
    }

    /// A new, untraversed folder at `path` that is a filesystem root.
    pub fn new_disk(path: String) -> (r: Folder)
        ensures
            r@ == spec_new_folder(path@, true),
    {
        let mut folder = Folder::new(path);
        folder.disk = true;
        proof {
            assert(folder@ =~= spec_new_folder(folder.path@, true));
        }
        folder
    }

    /// Appends a file to this folder's immediate children.
    pub fn add_file(&mut self, file: File)
        ensures
            final(self)@ == (FolderV { subfiles: old(self)@.subfiles.push(file@), ..old(self)@ }),
    {
        self.subfiles.push(file);
        proof {
            assert(files_v(self.subfiles@) =~= old(self)@.subfiles.push(file@));
            assert(final(self)@ =~= (FolderV {
                subfiles: old(self)@.subfiles.push(file@),
                ..old(self)@
            }));
        }
    }

    /// Appends a subfolder to this folder's immediate children.
    pub fn add_folder(&mut self, folder: Folder)
        ensures
            final(self)@ == (FolderV {
                subfolders: old(self)@.subfolders.push(folder@),
                ..old(self)@
            }),
    {
        let ghost pushed = folder@;
        let ghost subs0 = self.subfolders@;
        self.subfolders.push(folder);
        proof {
            lemma_folders_v_push(subs0, self.subfolders@.last());
            assert(self.subfolders@ == subs0.push(self.subfolders@.last()));
            assert(final(self)@ =~= (FolderV {
                subfolders: old(self)@.subfolders.push(pushed),
                ..old(self)@
            }));
        }
    }
}

// ------------------------------------------------------------------
// Sums of child sizes.
// ------------------------------------------------------------------

pub open spec fn sum_file_sizes(s: Seq<FileV>) -> int
    decreases s.len(),
{
    if s.len() == 0 {
        0
    } else {
        sum_file_sizes(s.drop_last()) + s.last().size
    }
}

pub open spec fn sum_folder_sizes(s: Seq<FolderV>) -> int
    decreases s.len(),
{
    if s.len() == 0 {
        0
    } else {
        sum_folder_sizes(s.drop_last()) + s.last().size
    }
}

pub broadcast proof fn lemma_sum_file_sizes_nonneg(s: Seq<FileV>)
    ensures
        0 <= #[trigger] sum_file_sizes(s),
    decreases s.len(),
{
    if s.len() > 0 {
        lemma_sum_file_sizes_nonneg(s.drop_last());
    }
}

pub broadcast proof fn lemma_sum_folder_sizes_nonneg(s: Seq<FolderV>)
    ensures
        0 <= #[trigger] sum_folder_sizes(s),
    decreases s.len(),
{
    if s.len() > 0 {
        lemma_sum_folder_sizes_nonneg(s.drop_last());
    }
}

pub proof fn lemma_sum_file_sizes_take(s: Seq<FileV>, i: int)
    requires
        0 <= i < s.len(),
    ensures
        sum_file_sizes(s.take(i + 1)) == sum_file_sizes(s.take(i)) + s[i].size,
{
    assert(s.take(i + 1).drop_last() =~= s.take(i));
    assert(s.take(i + 1).last() == s[i]);
}

pub proof fn lemma_sum_folder_sizes_take(s: Seq<FolderV>, i: int)
    requires
        0 <= i < s.len(),
    ensures
        sum_folder_sizes(s.take(i + 1)) == sum_folder_sizes(s.take(i)) + s[i].size,
{
    assert(s.take(i + 1).drop_last() =~= s.take(i));
    assert(s.take(i + 1).last() == s[i]);
}

/// A prefix sum never exceeds the full sum.
pub proof fn lemma_sum_file_sizes_prefix(s: Seq<FileV>, i: int)
    requires
        0 <= i <= s.len(),
    ensures
        sum_file_sizes(s.take(i)) <= sum_file_sizes(s),
    decreases s.len() - i,
{
    if i == s.len() {
        assert(s.take(i) =~= s);
    } else {
        lemma_sum_file_sizes_take(s, i);
        lemma_sum_file_sizes_prefix(s, i + 1);
    }
}

pub proof fn lemma_sum_folder_sizes_prefix(s: Seq<FolderV>, i: int)
    requires
        0 <= i <= s.len(),
    ensures
        sum_folder_sizes(s.take(i)) <= sum_folder_sizes(s),
    decreases s.len() - i,
{
    if i == s.len() {
        assert(s.take(i) =~= s);
    } else {
        lemma_sum_folder_sizes_take(s, i);
        lemma_sum_folder_sizes_prefix(s, i + 1);
    }
}

impl Folder {
    /// Sets this folder's size to the sum of its immediate files' sizes plus
    /// its immediate subfolders' sizes; nothing else changes.
    pub fn update_size(&mut self)
        requires
            sum_file_sizes(old(self)@.subfiles) + sum_folder_sizes(old(self)@.subfolders)
                <= u64::MAX,
        ensures
            final(self)@ == (FolderV {
                size: (sum_file_sizes(old(self)@.subfiles) + sum_folder_sizes(
                    old(self)@.subfolders,
                )) as u64,
                ..old(self)@
            }),
    {
        let ghost fs = self@.subfiles;
        let ghost ds = self@.subfolders;
        let mut total: u64 = 0;
        let nf = self.subfiles.len();
        let mut i: usize = 0;
        while i < nf
            invariant
                0 <= i <= nf,
                nf == self.subfiles.len(),
                fs == files_v(self.subfiles@),
                ds == folders_v(self.subfolders@),
                sum_file_sizes(fs) + sum_folder_sizes(ds) <= u64::MAX,
                total as int == sum_file_sizes(fs.take(i as int)),
            decreases nf - i,
        {
            proof {
                lemma_sum_folder_sizes_nonneg(ds);
                lemma_sum_file_sizes_take(fs, i as int);
                lemma_sum_file_sizes_prefix(fs, i as int + 1);
                assert(fs[i as int] == self.subfiles@[i as int]@);
            }
            total = total + self.subfiles[i].size;
            i = i + 1;
        }
        proof {
            assert(fs.take(nf as int) =~= fs);
        }
        let nd = self.subfolders.len();
        let mut j: usize = 0;
        while j < nd
            invariant
                0 <= j <= nd,
                nd == self.subfolders.len(),
                fs == files_v(self.subfiles@),
                ds == folders_v(self.subfolders@),
                sum_file_sizes(fs) + sum_folder_sizes(ds) <= u64::MAX,
                total as int == sum_file_sizes(fs) + sum_folder_sizes(ds.take(j as int)),
            decreases nd - j,
        {
            proof {
                lemma_folders_v(self.subfolders@);
                lemma_sum_file_sizes_nonneg(fs);
                lemma_sum_folder_sizes_take(ds, j as int);
                lemma_sum_folder_sizes_prefix(ds, j as int + 1);
                assert(ds[j as int] == self.subfolders@[j as int]@);
            }
            total = total + self.subfolders[j].size;
            j = j + 1;
        }
        proof {
            lemma_folders_v(self.subfolders@);
            assert(ds.take(nd as int) =~= ds);
        }
        self.size = total;
        proof {
            assert(final(self)@ =~= (FolderV { size: total, ..old(self)@ }));
        }
    }
}

impl Computer {
    /// A new computer with no disks.
    pub fn new(name: String) -> (r: Computer)
        ensures
            r@.name == name@,
            r@.disks == Seq::<FolderV>::empty(),
            r@.total_size == 0,
    {
        Computer { name, disks: Vec::new(), total_size: 0 }
    }

    /// Registers a disk root. Fails with `NotADisk`, changing nothing, when
    /// the folder is not marked as a filesystem root.
    pub fn add_disk(&mut self, disk: Folder) -> (r: Result<(), FileSystemError>)
        requires
            disk@.disk ==> old(self).total_size + disk.size <= u64::MAX,
        ensures
            disk@.disk ==> r is Ok && final(self)@ == (ComputerV {
                disks: old(self)@.disks.push(disk@),
                total_size: (old(self).total_size + disk.size) as u64,
                ..old(self)@
            }),
            !disk@.disk ==> r == Result::<(), FileSystemError>::Err(FileSystemError::NotADisk)
                && final(self)@ == old(self)@,
    {
        if disk.disk {
            let ghost pushed = disk@;
            let ghost disks0 = self.disks@;
            self.total_size = self.total_size + disk.size;
            self.disks.push(disk);
            proof {
                lemma_folders_v_push(disks0, self.disks@.last());
                assert(self.disks@ == disks0.push(self.disks@.last()));
                assert(final(self)@ =~= (ComputerV {
                    disks: old(self)@.disks.push(pushed),
                    total_size: self.total_size,
                    ..old(self)@
                }));
            }
            Ok(())
        } else {
            Err(FileSystemError::NotADisk)
        }
    }
}

// ------------------------------------------------------------------
// Exact copies of nodes and trees.
// ------------------------------------------------------------------

/// An exact copy of a file node.
pub fn clone_file(f: &File) -> (r: File)
    ensures
        r == *f,
{
    File {
        name: f.name.clone(),
        extn: f.extn.clone(),
        path: f.path.clone(),
        size: f.size,
        percentage_of_root: f.percentage_of_root,
    }
}

/// An exact copy of a list of file nodes.
pub fn clone_files(v: &Vec<File>) -> (r: Vec<File>)
    ensures
        r@ == v@,
{
    let mut r: Vec<File> = Vec::new();
    let n = v.len();
    let mut i: usize = 0;
    while i < n
        invariant
            0 <= i <= n,
            n == v.len(),
            r@ =~= v@.take(i as int),
        decreases n - i,
    {
        r.push(clone_file(&v[i]));
        i = i + 1;
    }
    proof {
        assert(v@.take(n as int) =~= v@);
    }
    r
}

/// A copy of a whole folder tree, equal to the original in every field of
/// every node.
pub fn clone_folder(f: &Folder) -> (r: Folder)
    ensures
        r@ == f@,
    decreases *f,
{
    let mut subs: Vec<Folder> = Vec::new();
    let n = f.subfolders.len();
    let mut i: usize = 0;
    while i < n
        invariant
            0 <= i <= n,
            n == f.subfolders.len(),
            subs@.len() == i,
            forall|k: int| 0 <= k < i ==> folder_v(#[trigger] subs@[k]) == folder_v(
                f.subfolders@[k],
            ),
        decreases n - i,
    {
        subs.push(clone_folder(&f.subfolders[i]));
        i = i + 1;
    }
    proof {
        lemma_folders_v_pointwise(subs@, f.subfolders@);
    }
    let r = Folder {
        name: f.name.clone(),
        path: f.path.clone(),
        size: f.size,
        percentage_of_root: f.percentage_of_root,
        disk: f.disk,
        traversed: f.traversed,
        warning: f.warning,
        subfiles: clone_files(&f.subfiles),
        subfolders: subs,
    };
    proof {
        assert(r@ =~= f@);
    }
    r
}

/// An exact copy of a list of folder trees: the images agree.
pub fn clone_folders(v: &Vec<Folder>) -> (r: Vec<Folder>)
    ensures
        folders_v(r@) == folders_v(v@),
{
    let mut r: Vec<Folder> = Vec::new();
    let n = v.len();
    let mut i: usize = 0;
    while i < n
        invariant
            0 <= i <= n,
            n == v.len(),
            r@.len() == i,
            forall|k: int| 0 <= k < i ==> folder_v(#[trigger] r@[k]) == folder_v(v@[k]),
        decreases n - i,
    {
        r.push(clone_folder(&v[i]));
        i = i + 1;
    }
    proof {
        lemma_folders_v_pointwise(r@, v@);
    }
    r
}

// ------------------------------------------------------------------
// Human-readable byte sizes.
// ------------------------------------------------------------------

pub open spec fn dec_digit(d: int) -> char {
    if d == 0 {
        '0'
    } else if d == 1 {
        '1'
    } else if d == 2 {
        '2'
    } else if d == 3 {
        '3'
    } else if d == 4 {
        '4'
    } else if d == 5 {
        '5'
    } else if d == 6 {
        '6'
    } else if d == 7 {
        '7'
    } else if d == 8 {
        '8'
    } else {
        '9'
    }
}

/// The decimal digits of `n`, most significant first.
pub open spec fn spec_u64_digits(n: int) -> Seq<char>
    decreases n,
{
    if n < 10 {
        seq![dec_digit(n)]
    } else {
        spec_u64_digits(n / 10).push(dec_digit(n % 10))
    }
}

/// `q` hundredths rendered as a decimal number with two digits after the
/// point.
pub open spec fn spec_decimal_string(q: int) -> Seq<char> {
    spec_u64_digits(q / 100).push('.').push(dec_digit((q % 100) / 10)).push(
        dec_digit((q % 100) % 10),
    )
}

/// `100 * size / unit`, rounded to nearest (half up).
pub open spec fn spec_scaled_hundredths(size: int, unit: int) -> int {
    (size * 100 + unit / 2) / unit
}

/// What `format_size` returns: the size scaled to the largest unit whose
/// threshold it reaches, with two decimals, or a raw byte count.
pub open spec fn spec_format_size(size: u64) -> Seq<char> {
    if size >= TB + 10 * GB {
        spec_decimal_string(spec_scaled_hundredths(size as int, TB as int)) + " TB"@
    } else if size >= GB + 10 * MB {
        spec_decimal_string(spec_scaled_hundredths(size as int, GB as int)) + " GB"@
    } else if size >= MB + 10 * KB {
        spec_decimal_string(spec_scaled_hundredths(size as int, MB as int)) + " MB"@
    } else if size >= KB + 100 {
        spec_decimal_string(spec_scaled_hundredths(size as int, KB as int)) + " KB"@
    } else {
        spec_u64_digits(size as int) + " bytes"@
    }
}

fn digit_str(d: u64) -> (r: &'static str)
    requires
        d < 10,
    ensures
        r@ == seq![dec_digit(d as int)],
{
    let r: &'static str = if d == 0 {
        "0"
    } else if d == 1 {
        "1"
    } else if d == 2 {
        "2"
    } else if d == 3 {
        "3"
    } else if d == 4 {
        "4"
    } else if d == 5 {
        "5"
    } else if d == 6 {
        "6"
    } else if d == 7 {
        "7"
    } else if d == 8 {
        "8"
    } else {
        "9"
    };
    proof {
        reveal_strlit("0");
        reveal_strlit("1");
        reveal_strlit("2");
        reveal_strlit("3");
        reveal_strlit("4");
        reveal_strlit("5");
        reveal_strlit("6");
        reveal_strlit("7");
        reveal_strlit("8");
        reveal_strlit("9");
        assert(r@ =~= seq![dec_digit(d as int)]);
    }
    r
}

/// `n` in decimal.
pub fn u64_to_string(n: u64) -> (r: String)
    ensures
        r@ == spec_u64_digits(n as int),
    decreases n,
{
    if n < 10 {
        digit_str(n).to_owned()
    } else {
        let mut s = u64_to_string(n / 10);
        s.append(digit_str(n % 10));
        proof {
            assert(s@ =~= spec_u64_digits(n as int));
        }
        s
    }
}

fn scaled_string(size: u64, unit: u64, suffix: &'static str) -> (r: String)
    requires
        unit >= 1024,
    ensures
        r@ == spec_decimal_string(spec_scaled_hundredths(size as int, unit as int)) + suffix@,
{
    let p = size as u128;
    let w = unit as u128;
    let q128 = (p * 100 + w / 2) / w;
    proof {
        assert(p * 100 + w / 2 <= 0xffff_ffff_ffff_ffffu128 * 100 + w / 2) by (nonlinear_arith)
            requires
                p <= 0xffff_ffff_ffff_ffffu128,
        ;
        vstd::arithmetic::div_mod::lemma_div_is_ordered(
            (p * 100 + w / 2) as int,
            (0xffff_ffff_ffff_ffffu128 * 100 + w / 2) as int,
            w as int,
        );
        assert(0xffff_ffff_ffff_ffffu128 * 100 + w / 2 <= w * 0xffff_ffff_ffff_ffff) by (
        nonlinear_arith)
            requires
                w >= 1024,
        ;
        vstd::arithmetic::div_mod::lemma_div_is_ordered(
            (0xffff_ffff_ffff_ffffu128 * 100 + w / 2) as int,
            (w * 0xffff_ffff_ffff_ffff) as int,
            w as int,
        );
        vstd::arithmetic::div_mod::lemma_div_multiples_vanish(0xffff_ffff_ffff_ffff, w as int);
    }
    let q = q128 as u64;
    let whole = q / 100;
    let frac = q % 100;
    let mut s = u64_to_string(whole);
    s.append(".");
    s.append(digit_str(frac / 10));
    s.append(digit_str(frac % 10));
    s.append(suffix);
    proof {
        reveal_strlit(".");
        assert(s@ =~= spec_decimal_string(spec_scaled_hundredths(size as int, unit as int))
            + suffix@);
    }
    s
}

/// Renders a byte count with binary-multiple units: at least one TiB plus
/// ten GiB reads in TB, and so on down the scale; small counts read as raw
/// bytes.
pub fn format_size(size: u64) -> (r: String)
    ensures
        r@ == spec_format_size(size),
{
    if size >= TB + 10 * GB {
        scaled_string(size, TB, " TB")
    } else if size >= GB + 10 * MB {
        scaled_string(size, GB, " GB")
    } else if size >= MB + 10 * KB {
        scaled_string(size, MB, " MB")
    } else if size >= KB + 100 {
        scaled_string(size, KB, " KB")
    } else {
        let mut s = u64_to_string(size);
        s.append(" bytes");
        s
    }
}

} // verus!
