//! Directory listings of the FUSE driver: which slots a listing resumed at
//! a kernel offset holds (`.` at offset 1, `..` at 2, then the entries from
//! 3 on), and how long the kernel may cache what it is told.
use vstd::prelude::*;

verus! {

/// How long the kernel may cache file attributes, in seconds.
pub const ATTR_TTL_SECS: u64 = 5;

/// How long the kernel may cache directory entries, in seconds (shorter,
/// so that files synced from elsewhere appear within about a second).
pub const DIR_TTL_SECS: u64 = 1;

/// What a slot of a directory listing shows.
#[derive(Debug, Clone, Copy, PartialEq, Eq, Structural)]
pub enum DirSlot {
    /// The directory itself.
    Dot,
    /// Its parent.
    DotDot,
    /// The entry at this position of the directory's contents.
    Entry(usize),
}

/// A slot of a directory listing and the offset the kernel resumes after.
#[derive(Debug, Clone, Copy, PartialEq, Eq, Structural)]
pub struct ListedSlot {
    pub slot: DirSlot,
    pub offset: i64,
}

/// The position of the first entry that a listing resumed at `offset`
/// shows: entry `i` sits at offset `3 + i` and is shown when that exceeds
/// `offset`.
pub open spec fn first_shown(offset: int, count: int) -> int {
    if offset - 2 <= 0 {
        0
    } else if offset - 2 >= count {
        count
    } else {
        offset - 2
    }
}

/// The slots of a listing of a directory with `count` entries resumed at
/// `offset`: `.` where it starts from the beginning, `..` where it starts
/// at or before `.`, then each entry whose offset exceeds `offset`.
pub open spec fn listing(offset: int, count: int) -> Seq<ListedSlot> {
    let dot: Seq<ListedSlot> = if offset == 0 {
        seq![ListedSlot { slot: DirSlot::Dot, offset: 1 }]
    } else {
        seq![]
    };
    let dotdot: Seq<ListedSlot> = if offset <= 1 {
        seq![ListedSlot { slot: DirSlot::DotDot, offset: 2 }]
    } else {
        seq![]
    };
    let first = first_shown(offset, count);
    dot + dotdot + Seq::new(
        (count - first) as nat,
        |k: int| ListedSlot { slot: DirSlot::Entry((first + k) as usize), offset: (3 + first + k) as i64 },
    )
}

/// The slots of a listing of a directory with `count` entries, resumed
/// after kernel offset `offset`.
pub fn dir_listing(offset: i64, count: usize) -> (r: Vec<ListedSlot>)
    requires
        count + 3 <= i64::MAX,
    ensures
        r@ == listing(offset as int, count as int),
{
    let mut out: Vec<ListedSlot> = Vec::new();
    if offset == 0 {
        out.push(ListedSlot { slot: DirSlot::Dot, offset: 1 });
    }
    if offset <= 1 {
        out.push(ListedSlot { slot: DirSlot::DotDot, offset: 2 });
    }
    let ghost head = out@;
    let ghost first = first_shown(offset as int, count as int);
    let mut i: usize = 0;
    let mut next_offset: i64 = 3;
    while i < count
        invariant
            i <= count,
            count + 3 <= i64::MAX,
            next_offset == 3 + i,
            first == first_shown(offset as int, count as int),
            out@ == head + Seq::new(
                (if i <= first { 0 } else { i - first }) as nat,
                |k: int| ListedSlot { slot: DirSlot::Entry((first + k) as usize), offset: (3 + first + k) as i64 },
            ),
        decreases count - i,
    {
        if next_offset > offset {
            let ghost before = out@;
            out.push(ListedSlot { slot: DirSlot::Entry(i), offset: next_offset });
            assert(i >= first);
            assert(out@ =~= head + Seq::new(
                (i + 1 - first) as nat,
                |k: int| ListedSlot { slot: DirSlot::Entry((first + k) as usize), offset: (3 + first + k) as i64 },
            ));
        } else {
            assert(i < first);
        }
        next_offset = next_offset + 1;
        i = i + 1;
    }
    proof {
        let tail = Seq::new(
            (count - first) as nat,
            |k: int| ListedSlot { slot: DirSlot::Entry((first + k) as usize), offset: (3 + first + k) as i64 },
        );
        assert(out@ =~= head + tail);
        assert(head =~= (if offset == 0 {
            seq![ListedSlot { slot: DirSlot::Dot, offset: 1 }]
        } else {
            seq![]
        }) + (if offset <= 1 {
            seq![ListedSlot { slot: DirSlot::DotDot, offset: 2 }]
        } else {
            seq![]
        }));
    }
    out
}

/// How long the kernel may cache the attributes of a listed entry:
/// directories briefly, files longer.
pub fn entry_attr_ttl_secs(is_directory: bool) -> (r: u64)
    ensures
        r == (if is_directory { DIR_TTL_SECS } else { ATTR_TTL_SECS }),
{
    if is_directory {
        DIR_TTL_SECS
    } else {
        ATTR_TTL_SECS
    }
}

} // verus!
