//! Moving a folder branch to another library: paths relative to a library.

use crate::text::{chars_eq, chars_of, concat, lower_ascii, lower_ascii_seq, slice_of, starts_with, starts_with_chars, string_of};
use vstd::prelude::*;

verus! {

/// Progress of a branch move.
#[derive(Debug, Clone, Default)]
pub struct OffloadProgress {
    pub done: usize,
    pub total: usize,
    pub bytes_done: u64,
    pub bytes_total: u64,
}

/// What a branch move carried.
#[derive(Debug, Clone, Default)]
pub struct Offloaded {
    pub folders: usize,
    pub files: usize,
    pub bytes: u64,
    /// Files copied whose source could not be removed; not zero means a person must look.
    pub undeleted: usize,
}

/// Size of a folder branch.
#[derive(Debug, Clone)]
pub struct FolderSize {
    pub folders: usize,
    pub files: usize,
    pub bytes: u64,
}

/// `p` with `prefix` and then one `'/'` removed from its front, if both are there.
pub open spec fn strip_dir_prefix(prefix: Seq<char>, p: Seq<char>) -> Option<Seq<char>> {
    if starts_with(p, prefix) && p.len() > prefix.len() && p[prefix.len() as int] == '/' {
        Some(p.subrange(prefix.len() as int + 1, p.len() as int))
    } else {
        None
    }
}

pub fn strip_dir_prefix_chars(prefix: &[char], p: &[char]) -> (r: Option<Vec<char>>)
    ensures
        match r {
            Some(v) => strip_dir_prefix(prefix@, p@) == Some(v@),
            None => strip_dir_prefix(prefix@, p@) is None,
        },
{
    if starts_with_chars(p, prefix) && p.len() > prefix.len() && p[prefix.len()] == '/' {
        Some(slice_of(p, prefix.len() + 1, p.len()))
    } else {
        None
    }
}

/// A volume-relative path made relative to a library at `lib_rel` on that volume.
pub open spec fn under_library_of(lib_rel: Seq<char>, vol_rel: Seq<char>) -> Option<Seq<char>> {
    if lib_rel.len() == 0 {
        Some(vol_rel)
    } else {
        strip_dir_prefix(lib_rel, vol_rel)
    }
}

/// Strips the library prefix from a volume-relative path; `None` when the
/// path is the library itself or lies outside it.
pub fn under_library(lib_rel: &str, vol_rel: &str) -> (r: Option<String>)
    ensures
        match r {
            Some(v) => under_library_of(lib_rel@, vol_rel@) == Some(v@),
            None => under_library_of(lib_rel@, vol_rel@) is None,
        },
{
    let l = chars_of(lib_rel);
    let v = chars_of(vol_rel);
    if l.len() == 0 {
        return Some(string_of(v.as_slice()));
    }
    match strip_dir_prefix_chars(l.as_slice(), v.as_slice()) {
        Some(r) => Some(string_of(r.as_slice())),
        None => None,
    }
}


/// A folder row as the size of a branch reads it.
#[derive(Debug, Clone)]
pub struct BranchFolder {
    pub id: i64,
    pub library_id: i64,
    /// Relative to its volume.
    pub rel_path: String,
}

/// A file row as the size of a branch reads it.
#[derive(Debug, Clone, Copy, PartialEq, Eq, Structural)]
pub struct BranchFile {
    pub folder_id: i64,
    pub size: i64,
    pub trashed: bool,
}

/// Whether folder `r` is `root` or lies below it, as the catalogue's query
/// matches it: the same path, or a path that starts with `root/` compared
/// with ASCII letters in either case.
pub open spec fn in_branch(root: Seq<char>, r: Seq<char>) -> bool {
    r == root || (r.len() >= root.len() + 1 && lower_ascii_seq(r.subrange(0, root.len() + 1int))
        == lower_ascii_seq(root + "/"@))
}

fn in_branch_chars(root: &[char], r: &[char]) -> (b: bool)
    ensures
        b == in_branch(root@, r@),
{
    if chars_eq(r, root) {
        return true;
    }
    if r.len() <= root.len() {
        return false;
    }
    let head = slice_of(r, 0, root.len() + 1);
    let slash = chars_of("/");
    let pre = concat(root, slash.as_slice());
    let a = lower_ascii(head.as_slice());
    let b = lower_ascii(pre.as_slice());
    chars_eq(a.as_slice(), b.as_slice())
}

/// The folders of a branch: those of the same library at or below it.
pub open spec fn branch_of(folders: Seq<BranchFolder>, f: BranchFolder) -> Seq<BranchFolder> {
    folders.filter(|g: BranchFolder| g.library_id == f.library_id && in_branch(f.rel_path@, g.rel_path@))
}

/// The ids of the folders of a branch.
pub open spec fn branch_ids(folders: Seq<BranchFolder>, f: BranchFolder) -> Seq<i64> {
    branch_of(folders, f).map_values(|g: BranchFolder| g.id)
}

/// Whether a file lies in one of the folders and is not in the trash.
pub open spec fn in_folders(branch: Seq<i64>, x: BranchFile) -> bool {
    !x.trashed && exists|k: int| 0 <= k < branch.len() && branch[k] == x.folder_id
}

/// Count of the first `n` files that lie in the branch.
pub open spec fn branch_files(branch: Seq<i64>, files: Seq<BranchFile>, n: int) -> int
    decreases n,
{
    if n <= 0 {
        0
    } else {
        branch_files(branch, files, n - 1) + if in_folders(branch, files[n - 1]) {
            1int
        } else {
            0int
        }
    }
}

/// Total size of the first `n` files that lie in the branch.
pub open spec fn branch_bytes(branch: Seq<i64>, files: Seq<BranchFile>, n: int) -> int
    decreases n,
{
    if n <= 0 {
        0
    } else {
        branch_bytes(branch, files, n - 1) + if in_folders(branch, files[n - 1]) {
            files[n - 1].size as int
        } else {
            0int
        }
    }
}

/// The size of the branch rooted at a folder: how many folders it has, and
/// how many files outside the trash with how many bytes; all zero for an
/// unknown folder. `None` when a running total of the sizes leaves `i64`.
pub open spec fn folder_size_holds(folders: Seq<BranchFolder>, files: Seq<BranchFile>, folder_id: i64, r: Option<FolderSize>) -> bool {
    if !(exists|k: int| 0 <= k < folders.len() && folders[k].id == folder_id) {
        r matches Some(s) && s.folders == 0 && s.files == 0 && s.bytes == 0
    } else {
        let k = choose|k: int| 0 <= k < folders.len() && folders[k].id == folder_id && forall|m: int| 0 <= m < k ==> folders[m].id != folder_id;
        let branch = branch_ids(folders, folders[k]);
        let fits = forall|n: int| 0 <= n <= files.len() ==> i64::MIN <= #[trigger] branch_bytes(branch, files, n) <= i64::MAX;
        match r {
            Some(s) => fits && s.folders == branch_of(folders, folders[k]).len() && s.files == branch_files(branch, files, files.len() as int)
                && s.bytes == branch_bytes(branch, files, files.len() as int) as u64,
            None => !fits,
        }
    }
}

proof fn lemma_branch_files_bounds(branch: Seq<i64>, files: Seq<BranchFile>, n: int)
    requires
        0 <= n,
    ensures
        0 <= branch_files(branch, files, n) <= n,
    decreases n,
{
    if n > 0 {
        lemma_branch_files_bounds(branch, files, n - 1);
    }
}

/// The size of the branch rooted at folder `folder_id`, from the folder and
/// file rows of the catalogue.
pub fn folder_size(folders: &[BranchFolder], files: &[BranchFile], folder_id: i64) -> (r: Option<FolderSize>)
    ensures
        folder_size_holds(folders@, files@, folder_id, r),
{
    let mut found: Option<usize> = None;
    let mut k: usize = 0;
    while k < folders.len()
        invariant
            k <= folders@.len(),
            found is None ==> forall|m: int| 0 <= m < k ==> folders@[m].id != folder_id,
            found matches Some(j) ==> j < folders@.len() && folders@[j as int].id == folder_id && forall|m: int|
                0 <= m < j ==> folders@[m].id != folder_id,
        decreases folders.len() - k,
    {
        if found.is_none() && folders[k].id == folder_id {
            found = Some(k);
        }
        k = k + 1;
    }
    let j = match found {
        None => {
            return Some(FolderSize { folders: 0, files: 0, bytes: 0 });
        },
        Some(j) => j,
    };
    let ghost kk = choose|k: int| 0 <= k < folders@.len() && folders@[k].id == folder_id && forall|m: int| 0 <= m < k ==> folders@[m].id != folder_id;
    proof {
        if kk < j {
        } else if kk > j {
        }
        assert(kk == j);
    }
    let root = chars_of(folders[j].rel_path.as_str());
    let lib = folders[j].library_id;
    let ghost f = folders@[j as int];
    let mut branch: Vec<i64> = Vec::new();
    let ghost pred = |g: BranchFolder| g.library_id == f.library_id && in_branch(f.rel_path@, g.rel_path@);
    let mut i: usize = 0;
    while i < folders.len()
        invariant
            i <= folders@.len(),
            root@ == f.rel_path@,
            lib == f.library_id,
            pred == |g: BranchFolder| g.library_id == f.library_id && in_branch(f.rel_path@, g.rel_path@),
            branch@ == folders@.subrange(0, i as int).filter(pred).map_values(|g: BranchFolder| g.id),
        decreases folders.len() - i,
    {
        let g = &folders[i];
        let gc = chars_of(g.rel_path.as_str());
        let keep = g.library_id == lib && in_branch_chars(root.as_slice(), gc.as_slice());
        proof {
            reveal(Seq::filter);
            assert(folders@.subrange(0, i + 1).drop_last() =~= folders@.subrange(0, i as int));
            assert(folders@.subrange(0, i + 1).last() == folders@[i as int]);
        }
        let ghost before = folders@.subrange(0, i as int).filter(pred);
        if keep {
            branch.push(g.id);
            proof {
                assert(folders@.subrange(0, i + 1).filter(pred) == before.push(folders@[i as int]));
                assert(branch@ =~= before.push(folders@[i as int]).map_values(|g: BranchFolder| g.id));
            }
        } else {
            assert(folders@.subrange(0, i + 1).filter(pred) == before);
        }
        i = i + 1;
    }
    assert(folders@.subrange(0, folders@.len() as int) =~= folders@);
    assert(branch@ == branch_ids(folders@, f));
    let ghost br = branch@;
    let mut count: usize = 0;
    let mut bytes: i64 = 0;
    let mut n: usize = 0;
    while n < files.len()
        invariant
            n <= files@.len(),
            br == branch@,
            br == branch_ids(folders@, folders@[kk]),
            branch@.len() == branch_of(folders@, folders@[kk]).len(),
            kk == choose|k: int| 0 <= k < folders@.len() && folders@[k].id == folder_id && forall|m: int| 0 <= m < k ==> folders@[m].id != folder_id,
            0 <= kk < folders@.len() && folders@[kk].id == folder_id,
            count == branch_files(br, files@, n as int),
            bytes == branch_bytes(br, files@, n as int),
            forall|m: int| 0 <= m <= n ==> i64::MIN <= #[trigger] branch_bytes(br, files@, m) <= i64::MAX,
        decreases files.len() - n,
    {
        proof {
            lemma_branch_files_bounds(br, files@, n as int);
        }
        let x = files[n];
        let mut inside = false;
        if !x.trashed {
            let mut q: usize = 0;
            while q < branch.len()
                invariant
                    q <= branch@.len(),
                    inside == exists|m: int| 0 <= m < q && branch@[m] == x.folder_id,
                decreases branch.len() - q,
            {
                if branch[q] == x.folder_id {
                    inside = true;
                }
                q = q + 1;
            }
        }
        assert(inside == in_folders(br, x));
        if inside {
            match bytes.checked_add(x.size) {
                Some(b) => {
                    bytes = b;
                },
                None => {
                    assert(branch_bytes(br, files@, n + 1) == bytes + x.size);
                    return None;
                },
            }
            count = count + 1;
        }
        n = n + 1;
        assert forall|m: int| 0 <= m <= n implies i64::MIN <= #[trigger] branch_bytes(br, files@, m) <= i64::MAX by {
            if m == n {
            }
        }
    }
    Some(FolderSize { folders: branch.len(), files: count, bytes: bytes as u64 })
}

/// Why a branch cannot move to another library.
#[derive(Debug, Clone, Copy, PartialEq, Eq, Structural)]
pub enum OffloadRefusal {
    /// The destination is the library the branch is in.
    SameLibrary,
    /// A disk of either library is not connected.
    NotConnected,
    /// The folder chosen is the library itself, or lies outside it.
    LibraryItself,
}

impl OffloadRefusal {
    /// The reason as shown.
    pub fn message(&self) -> (r: String)
        ensures
            r@ == offload_message_of(*self),
    {
        match self {
            OffloadRefusal::SameLibrary => string_of(chars_of("같은 라이브러리입니다").as_slice()),
            OffloadRefusal::NotConnected => string_of(chars_of("디스크가 연결되어 있지 않습니다").as_slice()),
            OffloadRefusal::LibraryItself => string_of(
                chars_of("라이브러리 자체는 옮길 수 없습니다 — 안의 폴더를 고르세요").as_slice(),
            ),
        }
    }
}

pub open spec fn offload_message_of(r: OffloadRefusal) -> Seq<char> {
    match r {
        OffloadRefusal::SameLibrary => "같은 라이브러리입니다"@,
        OffloadRefusal::NotConnected => "디스크가 연결되어 있지 않습니다"@,
        OffloadRefusal::LibraryItself => "라이브러리 자체는 옮길 수 없습니다 — 안의 폴더를 고르세요"@,
    }
}

/// The branch's path below its library, or why it cannot move: checked in
/// the order same library, disks connected, a folder inside the library.
pub open spec fn offload_check_of(
    src_library: i64,
    dst_library: i64,
    connected: bool,
    src_lib_rel: Seq<char>,
    folder_rel: Seq<char>,
) -> Result<Seq<char>, OffloadRefusal> {
    if src_library == dst_library {
        Err(OffloadRefusal::SameLibrary)
    } else if !connected {
        Err(OffloadRefusal::NotConnected)
    } else {
        match under_library_of(src_lib_rel, folder_rel) {
            Some(sub) => if sub.len() > 0 {
                Ok(sub)
            } else {
                Err(OffloadRefusal::LibraryItself)
            },
            None => Err(OffloadRefusal::LibraryItself),
        }
    }
}

pub fn offload_check(
    src_library: i64,
    dst_library: i64,
    connected: bool,
    src_lib_rel: &str,
    folder_rel: &str,
) -> (r: Result<String, OffloadRefusal>)
    ensures
        match r {
            Ok(s) => offload_check_of(src_library, dst_library, connected, src_lib_rel@, folder_rel@) == Ok::<
                Seq<char>,
                OffloadRefusal,
            >(s@),
            Err(e) => offload_check_of(src_library, dst_library, connected, src_lib_rel@, folder_rel@) == Err::<
                Seq<char>,
                OffloadRefusal,
            >(e),
        },
{
    if src_library == dst_library {
        return Err(OffloadRefusal::SameLibrary);
    }
    if !connected {
        return Err(OffloadRefusal::NotConnected);
    }
    match under_library(src_lib_rel, folder_rel) {
        Some(sub) => {
            if chars_of(sub.as_str()).len() > 0 {
                Ok(sub)
            } else {
                Err(OffloadRefusal::LibraryItself)
            }
        },
        None => Err(OffloadRefusal::LibraryItself),
    }
}

/// Where a folder row of a moved branch points afterwards: the same place
/// below the destination library as below the source library.
pub open spec fn moved_rel_of(src_lib_rel: Seq<char>, dst_lib_rel: Seq<char>, vol_rel: Seq<char>) -> Seq<char> {
    let s = match under_library_of(src_lib_rel, vol_rel) {
        Some(s) => s,
        None => Seq::empty(),
    };
    if dst_lib_rel.len() == 0 {
        s
    } else if s.len() == 0 {
        dst_lib_rel
    } else {
        dst_lib_rel + "/"@ + s
    }
}

pub fn moved_rel(src_lib_rel: &str, dst_lib_rel: &str, vol_rel: &str) -> (r: String)
    ensures
        r@ == moved_rel_of(src_lib_rel@, dst_lib_rel@, vol_rel@),
{
    let s = match under_library(src_lib_rel, vol_rel) {
        Some(s) => chars_of(s.as_str()),
        None => Vec::new(),
    };
    let d = chars_of(dst_lib_rel);
    if d.len() == 0 {
        string_of(s.as_slice())
    } else if s.len() == 0 {
        string_of(d.as_slice())
    } else {
        let a = concat(d.as_slice(), chars_of("/").as_slice());
        string_of(concat(a.as_slice(), s.as_slice()).as_slice())
    }
}

} // verus!
