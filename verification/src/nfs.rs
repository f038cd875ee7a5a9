//! The NFS loopback server: its mount handle, and what its read-only
//! adapter decides when it answers NFS requests from the virtual
//! filesystem (paths of `.`/`..` and children, read windows, directory
//! pages and file attributes).
use vstd::prelude::*;
use crate::stub::{trim_end_char, trim_end_chars};
use crate::cli_util::occurs_at;
use crate::stub::{lines_of, text_lines};
use crate::text::{
    chars_of, dec_string, format_u64, last_index_of, lemma_last_index_of, push_chars, push_str_chars, rfind_char,
    starts_with_at, string_of, sub_chars,
};

verus! {

/// A running NFS loopback mount.
#[derive(Debug, Clone)]
pub struct NfsMount {
    /// The port the NFS server is listening on
    pub port: u16,
    /// The mountpoint path
    pub mountpoint: String,
}

impl NfsMount {
    /// Whether unmounting goes on to a lazy unmount (`umount -l`): only when
    /// the plain `umount` failed, and only on Linux.
    pub fn needs_lazy_unmount(plain_unmount_succeeded: bool, on_linux: bool) -> (r: bool)
        ensures
            r == (!plain_unmount_succeeded && on_linux),
    {
        !plain_unmount_succeeded && on_linux
    }
}

// ── Paths ────────────────────────────────────────────────────────────────────

/// The path that `..` names from `path`: the root for the root, else what
/// comes before the last `/` (the root where that is empty), and the root
/// for a path with no `/`.
pub open spec fn parent_path_spec(path: Seq<char>) -> Seq<char> {
    if path == "/"@ {
        "/"@
    } else {
        match last_index_of(path, '/') {
            Some(i) => if i == 0 {
                "/"@
            } else {
                path.take(i)
            },
            None => "/"@,
        }
    }
}

/// The path that `..` names from the directory at `path`.
pub fn parent_path(path: &str) -> (r: String)
    ensures
        r@ == parent_path_spec(path@),
{
    let p = chars_of(path);
    proof {
        reveal_strlit("/");
        lemma_last_index_of(p@, '/');
    }
    match rfind_char(p.as_slice(), '/') {
        Some(i) => {
            if i == 0 {
                "/".to_owned()
            } else {
                let head = sub_chars(p.as_slice(), 0, i);
                assert(head@ =~= path@.take(i as int));
                assert(path@ != "/"@) by {
                    if path@ == "/"@ {
                        assert(path@.len() == 1);
                    }
                }
                string_of(head.as_slice())
            }
        },
        None => "/".to_owned(),
    }
}

/// The path of entry `name` of the directory at `dir`.
pub open spec fn child_path_spec(dir: Seq<char>, name: Seq<char>) -> Seq<char> {
    if dir == "/"@ {
        "/"@ + name
    } else {
        trim_end_char(dir, '/') + "/"@ + name
    }
}

/// The path of entry `name` of the directory at `dir`.
pub fn child_path(dir: &str, name: &str) -> (r: String)
    ensures
        r@ == child_path_spec(dir@, name@),
{
    let d = chars_of(dir);
    let root = chars_of("/");
    let mut r = if crate::text::chars_eq(d.as_slice(), root.as_slice()) {
        String::new()
    } else {
        string_of(trim_end_chars(d.as_slice(), '/').as_slice())
    };
    push_str_chars(&mut r, "/");
    push_str_chars(&mut r, name);
    proof {
        reveal_strlit("/");
    }
    r
}

// ── Reads ────────────────────────────────────────────────────────────────────

/// What a read of `count` bytes at `offset` gives from a file's content,
/// and whether it reaches the end.
pub open spec fn read_window_spec(data: Seq<u8>, offset: int, count: int) -> (Seq<u8>, bool) {
    if offset >= data.len() {
        (seq![], true)
    } else {
        let end = if offset + count < data.len() {
            offset + count
        } else {
            data.len() as int
        };
        (data.subrange(offset, end), end >= data.len())
    }
}

/// The bytes that a read of `count` bytes at `offset` gives, and whether
/// the read reaches the end of the file.
pub fn read_window(data: &[u8], offset: u64, count: u32) -> (r: (Vec<u8>, bool))
    ensures
        r.0@ == read_window_spec(data@, offset as int, count as int).0,
        r.1 == read_window_spec(data@, offset as int, count as int).1,
{
    if offset >= data.len() as u64 {
        return (Vec::new(), true);
    }
    let start = offset as usize;
    let room = data.len() - start;
    let end = if (count as u64) < room as u64 { start + count as usize } else { data.len() };
    let mut out: Vec<u8> = Vec::new();
    let mut i = start;
    while i < end
        invariant
            start <= i <= end <= data@.len(),
            out@ == data@.subrange(start as int, i as int),
        decreases end - i,
    {
        out.push(data[i]);
        assert(out@ =~= data@.subrange(start as int, i + 1));
        i = i + 1;
    }
    (out, end >= data.len())
}

// ── Directory pages ──────────────────────────────────────────────────────────

/// Where a directory page begins: at the start where no entry is named to
/// start after, else after the first entry with that id (past the end
/// where none has it).
pub open spec fn page_start(ids: Seq<u64>, start_after: u64) -> int {
    if start_after == 0 {
        0
    } else if exists|k: int| 0 <= k < ids.len() && ids[k] == start_after {
        (choose|k: int| 0 <= k < ids.len() && ids[k] == start_after && forall|j: int| 0 <= j < k ==> ids[j] != start_after) + 1
    } else {
        ids.len() as int
    }
}

/// The page from entry `j` on, with `taken` already in it: entries that
/// have attributes are taken until `max` are; an entry met with the page
/// already full ends it early.
pub open spec fn page_from(usable: Seq<bool>, j: int, taken: Seq<int>, max: nat) -> (Seq<int>, bool)
    decreases usable.len() - j,
{
    if j >= usable.len() || j < 0 {
        (taken, true)
    } else if taken.len() >= max {
        (taken, false)
    } else if usable[j] {
        page_from(usable, j + 1, taken.push(j), max)
    } else {
        page_from(usable, j + 1, taken, max)
    }
}

/// One page of a directory listing: the positions of the entries it
/// holds, and whether it is the last page. `ids` are the entries' file
/// ids in listing order, `usable[i]` whether entry `i` has attributes.
pub fn readdir_page(ids: &[u64], usable: &[bool], start_after: u64, max_entries: usize) -> (r: (Vec<usize>, bool))
    requires
        ids@.len() == usable@.len(),
    ensures
        ({
            let p = page_from(usable@, page_start(ids@, start_after), seq![], max_entries as nat);
            &&& r.0@.len() == p.0.len()
            &&& forall|k: int| 0 <= k < r.0@.len() ==> r.0@[k] as int == #[trigger] p.0[k]
            &&& r.1 == p.1
        }),
{
    let mut j: usize = 0;
    if start_after != 0 {
        while j < ids.len()
            invariant
                j <= ids@.len(),
                forall|k: int| 0 <= k < j ==> ids@[k] != start_after,
            ensures
                j <= ids@.len(),
                forall|k: int| 0 <= k < j ==> ids@[k] != start_after,
                j < ids@.len() ==> ids@[j as int] == start_after,
            decreases ids@.len() - j,
        {
            if ids[j] == start_after {
                break;
            }
            j = j + 1;
        }
        proof {
            if j < ids@.len() {
                assert(ids@[j as int] == start_after);
                let c = choose|k: int| 0 <= k < ids@.len() && ids@[k] == start_after && forall|i: int| 0 <= i < k ==> ids@[i] != start_after;
                assert(0 <= j < ids@.len() && ids@[j as int] == start_after && forall|i: int| 0 <= i < j ==> ids@[i] != start_after);
                if c < j {
                } else if c > j {
                    assert(ids@[j as int] != start_after);
                }
            }
        }
        if j < ids.len() {
            j = j + 1;
        }
    }
    assert(j as int == page_start(ids@, start_after));
    let mut out: Vec<usize> = Vec::new();
    let ghost out_view: Seq<int> = seq![];
    let ghost target = page_from(usable@, j as int, seq![], max_entries as nat);
    while j < ids.len()
        invariant
            j <= ids@.len(),
            ids@.len() == usable@.len(),
            out@.len() == out_view.len(),
            forall|k: int| 0 <= k < out@.len() ==> out@[k] as int == #[trigger] out_view[k],
            out@.len() <= max_entries,
            page_from(usable@, j as int, out_view, max_entries as nat) == target,
            target == page_from(usable@, page_start(ids@, start_after), seq![], max_entries as nat),
        decreases ids@.len() - j,
    {
        if out.len() >= max_entries {
            assert(page_from(usable@, j as int, out_view, max_entries as nat) == (out_view, false));
            return (out, false);
        }
        if usable[j] {
            out.push(j);
            proof {
                out_view = out_view.push(j as int);
            }
        }
        j = j + 1;
    }
    (out, true)
}

// ── Attributes ───────────────────────────────────────────────────────────────

/// The kind of a file of the virtual filesystem.
#[derive(Debug, Clone, Copy, PartialEq, Eq, Structural)]
pub enum VfsFileKind {
    RegularFile,
    Directory,
    Symlink,
}

/// A time since the Unix epoch.
#[derive(Debug, Clone, Copy, PartialEq, Eq, Structural)]
pub struct EpochTime {
    pub secs: u64,
    pub nanos: u32,
}

/// The attributes that the virtual filesystem gives for a file; each time
/// is `None` where it lies before the epoch.
#[derive(Debug, Clone, Copy, PartialEq, Eq, Structural)]
pub struct VfsAttributes {
    pub kind: VfsFileKind,
    pub perm: u16,
    pub nlink: u32,
    pub uid: u32,
    pub gid: u32,
    pub size: u64,
    pub blocks: u64,
    pub atime: Option<EpochTime>,
    pub mtime: Option<EpochTime>,
    pub ctime: Option<EpochTime>,
}

/// An NFSv3 time.
#[derive(Debug, Clone, Copy, PartialEq, Eq, Structural)]
pub struct NfsTime {
    pub seconds: u32,
    pub nseconds: u32,
}

/// NFSv3 file attributes (`fattr3`), as the adapter fills them: no device
/// numbers and file system id 0.
#[derive(Debug, Clone, Copy, PartialEq, Eq, Structural)]
pub struct NfsAttributes {
    pub kind: VfsFileKind,
    pub mode: u32,
    pub nlink: u32,
    pub uid: u32,
    pub gid: u32,
    pub size: u64,
    pub used: u64,
    pub fsid: u64,
    pub fileid: u64,
    pub atime: NfsTime,
    pub mtime: NfsTime,
    pub ctime: NfsTime,
}

/// The NFS time of a time since the epoch: its seconds cut to 32 bits, and
/// zero for a time before the epoch.
pub open spec fn nfs_time_spec(t: Option<EpochTime>) -> NfsTime {
    match t {
        Some(e) => NfsTime { seconds: e.secs as u32, nseconds: e.nanos },
        None => NfsTime { seconds: 0, nseconds: 0 },
    }
}

/// The NFS time of a time since the epoch.
pub fn nfs_time(t: Option<EpochTime>) -> (r: NfsTime)
    ensures
        r == nfs_time_spec(t),
{
    match t {
        Some(e) => NfsTime { seconds: e.secs as u32, nseconds: e.nanos },
        None => NfsTime { seconds: 0, nseconds: 0 },
    }
}

/// The NFS attributes of file `id`: the permission bits as its mode, and
/// its blocks of 512 bytes as the space it uses.
pub fn to_fattr3(id: u64, attr: &VfsAttributes) -> (r: NfsAttributes)
    requires
        attr.blocks * 512 <= u64::MAX,
    ensures
        r.kind == attr.kind,
        r.mode == attr.perm as u32,
        r.nlink == attr.nlink,
        r.uid == attr.uid,
        r.gid == attr.gid,
        r.size == attr.size,
        r.used == attr.blocks * 512,
        r.fsid == 0,
        r.fileid == id,
        r.atime == nfs_time_spec(attr.atime),
        r.mtime == nfs_time_spec(attr.mtime),
        r.ctime == nfs_time_spec(attr.ctime),
{
    NfsAttributes {
        kind: attr.kind,
        mode: attr.perm as u32,
        nlink: attr.nlink,
        uid: attr.uid,
        gid: attr.gid,
        size: attr.size,
        used: attr.blocks * 512,
        fsid: 0,
        fileid: id,
        atime: nfs_time(attr.atime),
        mtime: nfs_time(attr.mtime),
        ctime: nfs_time(attr.ctime),
    }
}

// ── Mounting ─────────────────────────────────────────────────────────────────

/// `pat` occurs somewhere in `s` (`str::contains`).
pub open spec fn contains_text(s: Seq<char>, pat: Seq<char>) -> bool {
    exists|k: int| occurs_at(s, pat, k)
}

fn contains_chars(s: &[char], pat: &[char]) -> (r: bool)
    ensures
        r == contains_text(s@, pat@),
{
    if pat.len() > s.len() {
        proof {
            if contains_text(s@, pat@) {
                let j = choose|j: int| occurs_at(s@, pat@, j);
            }
        }
        return false;
    }
    let last = s.len() - pat.len();
    let mut k: usize = 0;
    loop
        invariant
            last == s@.len() - pat@.len(),
            pat@.len() <= s@.len(),
            k <= last,
            forall|j: int| 0 <= j < k ==> !occurs_at(s@, pat@, j),
        decreases last - k,
    {
        let hit = starts_with_at(s, k, pat);
        assert(s@.subrange(k as int, s@.len() as int).subrange(0, pat@.len() as int) =~= s@.subrange(
            k as int,
            k + pat@.len(),
        ));
        if hit {
            assert(occurs_at(s@, pat@, k as int));
            return true;
        }
        if k == last {
            proof {
                if contains_text(s@, pat@) {
                    let j = choose|j: int| occurs_at(s@, pat@, j);
                    assert(j <= k);
                }
            }
            return false;
        }
        k = k + 1;
    }
}

/// `mount` output lists `mountpoint` as an NFS mount: some line names both
/// the mountpoint and `nfs`.
pub open spec fn listed_as_nfs_mount_spec(output: Seq<char>, mountpoint: Seq<char>) -> bool {
    exists|i: int|
        0 <= i < text_lines(output).len() && contains_text(#[trigger] text_lines(output)[i], mountpoint)
            && contains_text(text_lines(output)[i], "nfs"@)
}

/// Whether the output of `mount` shows `mountpoint` as an NFS mount.
pub fn listed_as_nfs_mount(output: &str, mountpoint: &str) -> (r: bool)
    ensures
        r == listed_as_nfs_mount_spec(output@, mountpoint@),
{
    proof {
        reveal_strlit("nfs");
    }
    let ls = lines_of(chars_of(output).as_slice());
    let mp = chars_of(mountpoint);
    let nfs = chars_of("nfs");
    let mut i: usize = 0;
    while i < ls.len()
        invariant
            ls@.len() == text_lines(output@).len(),
            forall|j: int| 0 <= j < ls@.len() ==> #[trigger] ls@[j]@ == text_lines(output@)[j],
            mp@ == mountpoint@,
            nfs@ == "nfs"@,
            i <= ls@.len(),
            forall|j: int|
                0 <= j < i ==> !(contains_text(#[trigger] text_lines(output@)[j], mountpoint@) && contains_text(
                    text_lines(output@)[j],
                    "nfs"@,
                )),
        decreases ls@.len() - i,
    {
        assert(ls@[i as int]@ == text_lines(output@)[i as int]);
        if contains_chars(ls[i].as_slice(), mp.as_slice()) && contains_chars(ls[i].as_slice(), nfs.as_slice()) {
            return true;
        }
        i = i + 1;
    }
    false
}

/// The options of the loopback NFS mount on port `port`: `mount_nfs`'s on
/// macOS, `mount -t nfs`'s elsewhere.
pub open spec fn nfs_mount_options_spec(port: u16, macos: bool) -> Seq<char> {
    (if macos {
        "tcp,vers=3,resvport,locallocks,port="@
    } else {
        "tcp,vers=3,noacl,nolock,port="@
    }) + dec_string(port as nat)
}

/// The mount options for the loopback NFS server on `port`.
pub fn nfs_mount_options(port: u16, macos: bool) -> (r: String)
    ensures
        r@ == nfs_mount_options_spec(port, macos),
{
    let mut r = if macos {
        "tcp,vers=3,resvport,locallocks,port=".to_owned()
    } else {
        "tcp,vers=3,noacl,nolock,port=".to_owned()
    };
    push_chars(&mut r, format_u64(port as u64).as_slice());
    r
}

} // verus!
