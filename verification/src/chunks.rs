//! Content-defined chunking with FastCDC.
//!
//! Files are split into variable-size chunks whose boundaries depend on the
//! content, so that inserting bytes near the start of a file leaves later
//! boundaries in place. Each chunk is addressed by its BLAKE3 hash.
//!
//! Chunk size targets:
//!   - Default (small files): min 2KB, avg 4KB, max 16KB
//!   - Generic index/binary files (.idx, .bin, .git/index): min 32KB,
//!     avg 64KB, max 256KB
//!   - Large sequential files (.pack, .rev, .git/objects/pack/*.idx,
//!     .git/objects/pack/tmp_pack_*, .iso, .img): min 1MB, avg 4MB, max 16MB
use vstd::prelude::*;
use crate::hash::{blake3_digest, hash_bytes, StreamHash};
use crate::paths::{
    extension, extension_of, file_name, file_name_of, is_named_part, lemma_path_parts_concat, lemma_path_parts_name, parts_of,
    path_parts,
};
use crate::text::{chars_eq, chars_of, has_prefix, last_index_of, lemma_last_index_of, starts_with_at};

verus! {

// ── Chunk sizes ──────────────────────────────────────────────────────────────

/// Chunk size configuration.
#[derive(Debug, Clone, Copy, PartialEq, Eq, Structural)]
pub struct ChunkSizes {
    pub min_size: u32,
    pub avg_size: u32,
    pub max_size: u32,
}

impl ChunkSizes {
    /// Default for most files (small-file optimized): 2KB / 4KB / 16KB.
    pub open spec fn small_spec() -> ChunkSizes {
        ChunkSizes { min_size: 2048, avg_size: 4096, max_size: 16384 }
    }

    /// For generic index and binary files: 32KB / 64KB / 256KB.
    pub open spec fn pack_spec() -> ChunkSizes {
        ChunkSizes { min_size: 32768, avg_size: 65536, max_size: 262144 }
    }

    /// For large sequential artifacts (Git packs and their indexes, disk
    /// images), where the number of remote objects dominates: 1MB / 4MB / 16MB.
    pub open spec fn large_sequential_spec() -> ChunkSizes {
        ChunkSizes { min_size: 1048576, avg_size: 4194304, max_size: 16777216 }
    }

    /// The sizes for most files: 2KB / 4KB / 16KB.
    pub fn small() -> (r: ChunkSizes)
        ensures
            r == Self::small_spec(),
    {
        ChunkSizes { min_size: 2048, avg_size: 4096, max_size: 16384 }
    }

    /// The sizes for index and binary files: 32KB / 64KB / 256KB.
    pub fn pack() -> (r: ChunkSizes)
        ensures
            r == Self::pack_spec(),
    {
        ChunkSizes { min_size: 32768, avg_size: 65536, max_size: 262144 }
    }

    /// The sizes for large sequential files: 1MB / 4MB / 16MB.
    pub fn large_sequential() -> (r: ChunkSizes)
        ensures
            r == Self::large_sequential_spec(),
    {
        ChunkSizes { min_size: 1048576, avg_size: 4194304, max_size: 16777216 }
    }

    /// Whether FastCDC chunks with these sizes without panicking: its
    /// constructor asserts each size in its range, 64 <= min <= 1MB,
    /// 256 <= avg <= 4MB and 1KB <= max <= 16MB, and it asks nothing of their
    /// order; but with an average above the maximum, `cut_gear` indexes the
    /// data up to the average while only the maximum is known to be there,
    /// and reads past its end on a rest longer than the maximum and shorter
    /// than the average. So the average is also at most the maximum.
    pub open spec fn accepted(self) -> bool {
        &&& 64 <= self.min_size <= 1048576
        &&& 256 <= self.avg_size <= 4194304
        &&& 1024 <= self.max_size <= 16777216
        &&& self.avg_size <= self.max_size
    }

    /// Chunk sizes chosen from the path of a file.
    pub fn for_path(path: &str) -> (r: ChunkSizes)
        ensures
            r == sizes_for_path(path@),
            r.accepted(),
    {
        let s = chars_of(path);
        let parts = parts_of(s.as_slice());
        assert(parts_of_path(parts@, path@));
        if is_git_index(&parts, Ghost(path@)) {
            return Self::pack();
        }
        let pack_dir = is_git_pack_dir(&parts, Ghost(path@));
        if is_git_temp_pack(s.as_slice(), pack_dir) {
            return Self::large_sequential();
        }
        match extension_of(s.as_slice()) {
            None => Self::small(),
            Some(e) => {
                let e = e.as_slice();
                proof {
                    assert(['i', 'd', 'x']@ =~= seq!['i', 'd', 'x']);
                    assert(['p', 'a', 'c', 'k']@ =~= seq!['p', 'a', 'c', 'k']);
                    assert(['r', 'e', 'v']@ =~= seq!['r', 'e', 'v']);
                    assert(['i', 's', 'o']@ =~= seq!['i', 's', 'o']);
                    assert(['i', 'm', 'g']@ =~= seq!['i', 'm', 'g']);
                    assert(['b', 'i', 'n']@ =~= seq!['b', 'i', 'n']);
                }
                if chars_eq(e, &['i', 'd', 'x']) && pack_dir {
                    Self::large_sequential()
                } else if chars_eq(e, &['p', 'a', 'c', 'k']) || chars_eq(e, &['r', 'e', 'v']) || chars_eq(
                    e,
                    &['i', 's', 'o'],
                ) || chars_eq(e, &['i', 'm', 'g']) {
                    Self::large_sequential()
                } else if chars_eq(e, &['i', 'd', 'x']) || chars_eq(e, &['b', 'i', 'n']) {
                    Self::pack()
                } else {
                    Self::small()
                }
            },
        }
    }
}

const TMP_PACK_PREFIX: [char; 9] = ['t', 'm', 'p', '_', 'p', 'a', 'c', 'k', '_'];

/// `tmp_pack_`, the name Git gives a pack file while it is written.
pub open spec fn tmp_pack_prefix() -> Seq<char> {
    seq!['t', 'm', 'p', '_', 'p', 'a', 'c', 'k', '_']
}

/// The parts at `i` are `.git`, `objects`, `pack` in a row.
pub open spec fn pack_dir_at(parts: Seq<Seq<char>>, i: int) -> bool {
    &&& parts[i] == seq!['.', 'g', 'i', 't']
    &&& parts[i + 1] == seq!['o', 'b', 'j', 'e', 'c', 't', 's']
    &&& parts[i + 2] == seq!['p', 'a', 'c', 'k']
}

/// The path passes through `.git/objects/pack`.
pub open spec fn in_git_pack_dir(path: Seq<char>) -> bool {
    exists|i: int| 0 <= i && i + 3 <= path_parts(path).len() && #[trigger] pack_dir_at(path_parts(path), i)
}

/// The path ends with `.git/index`.
pub open spec fn is_git_index_path(path: Seq<char>) -> bool {
    let p = path_parts(path);
    p.len() >= 2 && p[p.len() - 2] == seq!['.', 'g', 'i', 't'] && p[p.len() - 1] == seq!['i', 'n', 'd', 'e', 'x']
}

/// A temporary pack file: inside `.git/objects/pack`, named `tmp_pack_*`.
pub open spec fn is_git_temp_pack_path(path: Seq<char>) -> bool {
    in_git_pack_dir(path) && match file_name(path) {
        Some(n) => has_prefix(n, tmp_pack_prefix()),
        None => false,
    }
}

/// The chunk sizes for a file at `path`.
pub open spec fn sizes_for_path(path: Seq<char>) -> ChunkSizes {
    if is_git_index_path(path) {
        ChunkSizes::pack_spec()
    } else if is_git_temp_pack_path(path) {
        ChunkSizes::large_sequential_spec()
    } else {
        match extension(path) {
            Some(e) => {
                if e == seq!['i', 'd', 'x'] && in_git_pack_dir(path) {
                    ChunkSizes::large_sequential_spec()
                } else if e == seq!['p', 'a', 'c', 'k'] || e == seq!['r', 'e', 'v'] || e == seq!['i', 's', 'o']
                    || e == seq!['i', 'm', 'g'] {
                    ChunkSizes::large_sequential_spec()
                } else if e == seq!['i', 'd', 'x'] || e == seq!['b', 'i', 'n'] {
                    ChunkSizes::pack_spec()
                } else {
                    ChunkSizes::small_spec()
                }
            },
            None => ChunkSizes::small_spec(),
        }
    }
}

/// `parts` holds the parts of the path `s`.
pub open spec fn parts_of_path(parts: Seq<Vec<char>>, s: Seq<char>) -> bool {
    parts.len() == path_parts(s).len() && forall|i: int| 0 <= i < parts.len() ==> #[trigger] parts[i]@ == path_parts(s)[i]
}

fn is_git_pack_dir(parts: &Vec<Vec<char>>, Ghost(s): Ghost<Seq<char>>) -> (b: bool)
    requires
        parts_of_path(parts@, s),
    ensures
        b == in_git_pack_dir(s),
{
    proof {
        assert(['.', 'g', 'i', 't']@ =~= seq!['.', 'g', 'i', 't']);
        assert(['o', 'b', 'j', 'e', 'c', 't', 's']@ =~= seq!['o', 'b', 'j', 'e', 'c', 't', 's']);
        assert(['p', 'a', 'c', 'k']@ =~= seq!['p', 'a', 'c', 'k']);
    }
    let ghost ps = path_parts(s);
    let n = parts.len();
    if n < 3 {
        proof {
            if in_git_pack_dir(s) {
                let j = choose|j: int| 0 <= j && j + 3 <= ps.len() && #[trigger] pack_dir_at(ps, j);
            }
        }
        return false;
    }
    let mut i: usize = 0;
    while i < n - 2
        invariant
            n == parts@.len(),
            n >= 3,
            i <= n - 2,
            parts_of_path(parts@, s),
            ps == path_parts(s),
            forall|j: int| 0 <= j < i ==> !#[trigger] pack_dir_at(ps, j),
        decreases n - i,
    {
        let hit = chars_eq(parts[i].as_slice(), &['.', 'g', 'i', 't']) && chars_eq(
            parts[i + 1].as_slice(),
            &['o', 'b', 'j', 'e', 'c', 't', 's'],
        ) && chars_eq(parts[i + 2].as_slice(), &['p', 'a', 'c', 'k']);
        proof {
            assert(parts@[i as int]@ == ps[i as int]);
            assert(parts@[i + 1]@ == ps[i + 1]);
            assert(parts@[i + 2]@ == ps[i + 2]);
        }
        if hit {
            assert(pack_dir_at(ps, i as int));
            return true;
        }
        assert(!pack_dir_at(ps, i as int));
        i = i + 1;
    }
    proof {
        if in_git_pack_dir(s) {
            let j = choose|j: int| 0 <= j && j + 3 <= ps.len() && #[trigger] pack_dir_at(ps, j);
            assert(!pack_dir_at(ps, j));
        }
    }
    false
}

/// Whether the file at `path` is a temporary Git pack, given whether the path
/// passes through `.git/objects/pack`.
fn is_git_temp_pack(path: &[char], pack_dir: bool) -> (b: bool)
    requires
        pack_dir == in_git_pack_dir(path@),
    ensures
        b == is_git_temp_pack_path(path@),
{
    if !pack_dir {
        return false;
    }
    match file_name_of(path) {
        Some(n) => {
            let hit = starts_with_at(n.as_slice(), 0, &TMP_PACK_PREFIX);
            proof {
                assert(TMP_PACK_PREFIX@ =~= tmp_pack_prefix());
                assert(n@.subrange(0, n@.len() as int) =~= n@);
            }
            hit
        },
        None => false,
    }
}

fn is_git_index(parts: &Vec<Vec<char>>, Ghost(s): Ghost<Seq<char>>) -> (b: bool)
    requires
        parts_of_path(parts@, s),
    ensures
        b == is_git_index_path(s),
{
    proof {
        assert(['.', 'g', 'i', 't']@ =~= seq!['.', 'g', 'i', 't']);
        assert(['i', 'n', 'd', 'e', 'x']@ =~= seq!['i', 'n', 'd', 'e', 'x']);
    }
    let n = parts.len();
    if n < 2 {
        return false;
    }
    proof {
        assert(parts@[n - 2]@ == path_parts(s)[n - 2]);
        assert(parts@[n - 1]@ == path_parts(s)[n - 1]);
    }
    chars_eq(parts[n - 2].as_slice(), &['.', 'g', 'i', 't']) && chars_eq(
        parts[n - 1].as_slice(),
        &['i', 'n', 'd', 'e', 'x'],
    )
}

/// A file whose path ends with the parts `.git`, `index`, whatever parts
/// come before them, is chunked with the index and pack sizes, 32KB / 64KB
/// / 256KB.
pub proof fn lemma_git_index_uses_pack_sizes(path: Seq<char>)
    requires
        path_parts(path).len() >= 2,
        path_parts(path)[path_parts(path).len() - 2] == seq!['.', 'g', 'i', 't'],
        path_parts(path)[path_parts(path).len() - 1] == seq!['i', 'n', 'd', 'e', 'x'],
    ensures
        sizes_for_path(path) == (ChunkSizes { min_size: 32768, avg_size: 65536, max_size: 262144 }),
{
}

/// The Git index file of a repository in any directory `dir`
/// (`dir/.git/index`) is chunked with the index and pack sizes.
pub proof fn lemma_git_index_in_any_dir(dir: Seq<char>)
    ensures
        sizes_for_path(dir + seq!['/', '.', 'g', 'i', 't', '/', 'i', 'n', 'd', 'e', 'x'])
            == (ChunkSizes { min_size: 32768, avg_size: 65536, max_size: 262144 }),
{
    let git = seq!['.', 'g', 'i', 't'];
    let index = seq!['i', 'n', 'd', 'e', 'x'];
    let a = dir + seq!['/'] + git;
    let path = dir + seq!['/', '.', 'g', 'i', 't', '/', 'i', 'n', 'd', 'e', 'x'];
    assert(path =~= a + seq!['/'] + index);
    lemma_path_parts_concat(a, index);
    lemma_path_parts_concat(dir, git);
    assert(git != seq!['.']) by {
        assert(git.len() != 1);
    }
    assert(index != seq!['.']) by {
        assert(index.len() != 1);
    }
    lemma_path_parts_name(git);
    lemma_path_parts_name(index);
    let p = path_parts(path);
    assert(p =~= path_parts(dir) + seq![git] + seq![index]);
    lemma_git_index_uses_pack_sizes(path);
}

/// A file named `index` whose directory is not `.git` (under any directory
/// `dir`) is not taken for a Git index: having no extension, it is chunked
/// with the small sizes.
pub proof fn lemma_other_index_uses_small_sizes(dir: Seq<char>, parent: Seq<char>)
    requires
        is_named_part(parent),
        forall|j: int| 0 <= j < parent.len() ==> parent[j] != '/',
        parent != seq!['.', 'g', 'i', 't'],
    ensures
        sizes_for_path(dir + seq!['/'] + parent + seq!['/', 'i', 'n', 'd', 'e', 'x'])
            == (ChunkSizes { min_size: 2048, avg_size: 4096, max_size: 16384 }),
{
    let index = seq!['i', 'n', 'd', 'e', 'x'];
    let a = dir + seq!['/'] + parent;
    let path = dir + seq!['/'] + parent + seq!['/', 'i', 'n', 'd', 'e', 'x'];
    assert(path =~= a + seq!['/'] + index);
    lemma_path_parts_concat(a, index);
    lemma_path_parts_concat(dir, parent);
    assert(index != seq!['.']) by {
        assert(index.len() != 1);
    }
    lemma_path_parts_name(parent);
    lemma_path_parts_name(index);
    let p = path_parts(path);
    assert(p =~= path_parts(dir) + seq![parent] + seq![index]);
    assert(!is_git_index_path(path));
    assert(index != seq!['.', '.']) by {
        assert(index.len() != 2);
    }
    assert(file_name(path) == Some(index));
    assert(!has_prefix(index, tmp_pack_prefix()));
    lemma_last_index_of(index, '.');
    assert(last_index_of(index, '.') is None) by {
        if let Some(i) = last_index_of(index, '.') {
            assert(index[i] == '.');
        }
    }
    assert(extension(path) is None);
}

// ── Chunking ─────────────────────────────────────────────────────────────────

/// What FastCDC (`fastcdc::v2020::FastCDC`) gives for `data` and the three
/// sizes: the lengths of the chunks in order.
pub uninterp spec fn fastcdc_lengths(data: Seq<u8>, min_size: u32, avg_size: u32, max_size: u32) -> Seq<usize>;

/// The sum of `lens`.
pub open spec fn sum_lengths(lens: Seq<usize>) -> nat
    decreases lens.len(),
{
    if lens.len() == 0 {
        0
    } else {
        sum_lengths(lens.drop_last()) + lens.last() as nat
    }
}

/// The least length FastCDC gives a chunk that is not the last: its cut
/// search starts at `min_size / 2` byte pairs, so `min_size` rounded down to
/// an even number, unless `max_size` is smaller, where it cuts at
/// `max_size`.
pub open spec fn least_inner_length(min_size: u32, max_size: u32) -> int {
    if min_size <= max_size {
        min_size - min_size % 2
    } else {
        max_size as int
    }
}

/// The chunk lengths that `fastcdc::v2020::FastCDC` yields for `data`. Its
/// iterator starts each chunk where the last ended, at the cut point that
/// `cut_gear` finds; that cut point lies after the chunk's start and no
/// further than the end of the data, so each length is at least 1 and the
/// lengths add up to the length of the data. A rest of at most `min_size`
/// bytes is taken whole, so only the last chunk can be such a rest. Of a
/// longer rest, `cut_gear` searches at most `max_size` bytes, starting at
/// `min_size / 2` byte pairs: every chunk but the last is at most
/// `max_size` and at least `least_inner_length`, and the last is at most
/// `max_size` or, taken whole, at most `min_size`. Which cut points it
/// finds is named, not stated.
#[verifier::external_body]
fn fastcdc_chunk_lengths(data: &[u8], min_size: u32, avg_size: u32, max_size: u32) -> (r: Vec<usize>)
    requires
        (ChunkSizes { min_size, avg_size, max_size }).accepted(),
    ensures
        r@ == fastcdc_lengths(data@, min_size, avg_size, max_size),
        forall|i: int| 0 <= i < r@.len() ==> r@[i] > 0,
        forall|i: int| 0 <= i < r@.len() ==> r@[i] <= max_size || (i == r@.len() - 1 && r@[i] <= min_size),
        forall|i: int|
            0 <= i < r@.len() - 1 ==> least_inner_length(min_size, max_size) <= #[trigger] r@[i] <= max_size,
        sum_lengths(r@) == data@.len(),
{
    fastcdc::v2020::FastCDC::new(data, min_size, avg_size, max_size).map(|c| c.length).collect()
}

/// A single content-defined chunk.
#[derive(Debug, Clone)]
pub struct Chunk {
    /// Byte offset within the source file
    pub offset: u64,
    /// Chunk length in bytes
    pub length: usize,
    /// BLAKE3 hash of this chunk's data
    pub hash: crate::hash::Hash,
}

/// The chunks that chunking `data` gives: `lens` laid end to end from the
/// start, each with the hash of its bytes.
pub open spec fn chunks_match(data: Seq<u8>, lens: Seq<usize>, chunks: Seq<Chunk>) -> bool {
    &&& chunks.len() == lens.len()
    &&& forall|i: int|
        0 <= i < chunks.len() ==> {
            &&& (#[trigger] chunks[i]).length == lens[i]
            &&& chunks[i].offset == sum_lengths(lens.take(i))
            &&& chunks[i].hash@ == blake3_digest(
                data.subrange(sum_lengths(lens.take(i)) as int, sum_lengths(lens.take(i + 1)) as int),
            )
        }
}

pub proof fn lemma_sum_take_step(lens: Seq<usize>, i: int)
    requires
        0 <= i < lens.len(),
    ensures
        sum_lengths(lens.take(i + 1)) == sum_lengths(lens.take(i)) + lens[i],
{
    assert(lens.take(i + 1).drop_last() =~= lens.take(i));
}

proof fn lemma_sum_take_le(lens: Seq<usize>, i: int)
    requires
        0 <= i <= lens.len(),
    ensures
        sum_lengths(lens.take(i)) <= sum_lengths(lens),
    decreases lens.len() - i,
{
    if i < lens.len() {
        lemma_sum_take_step(lens, i);
        lemma_sum_take_le(lens, i + 1);
    } else {
        assert(lens.take(i) =~= lens);
    }
}

/// Splits `data` into content-defined chunks with FastCDC. Empty data gives
/// no chunks. The caller can upload each chunk on its own, deduplicating by
/// hash.
pub fn chunk_data(data: &[u8], sizes: ChunkSizes) -> (r: Vec<Chunk>)
    requires
        data@.len() == 0 || sizes.accepted(),
    ensures
        data@.len() == 0 ==> r@.len() == 0,
        data@.len() > 0 ==> chunks_match(
            data@,
            fastcdc_lengths(data@, sizes.min_size, sizes.avg_size, sizes.max_size),
            r@,
        ),
        r@.len() > 0 ==> r@[0].offset == 0,
        forall|i: int| 0 < i < r@.len() ==> #[trigger] r@[i].offset == r@[i - 1].offset + r@[i - 1].length,
        forall|i: int| 0 <= i < r@.len() ==> #[trigger] r@[i].length > 0,
        forall|i: int|
            0 <= i < r@.len() ==> #[trigger] r@[i].length <= sizes.max_size || (i == r@.len() - 1
                && r@[i].length <= sizes.min_size),
        forall|i: int|
            0 <= i < r@.len() - 1 ==> least_inner_length(sizes.min_size, sizes.max_size)
                <= #[trigger] r@[i].length <= sizes.max_size,
        sum_lengths(r@.map_values(|c: Chunk| c.length)) == data@.len(),
{
    if data.len() == 0 {
        return Vec::new();
    }
    let lens = fastcdc_chunk_lengths(data, sizes.min_size, sizes.avg_size, sizes.max_size);
    let mut out: Vec<Chunk> = Vec::new();
    let mut offset: usize = 0;
    let mut i: usize = 0;
    let dl = data.len();
    while i < lens.len()
        invariant
            dl == data@.len(),
            i <= lens@.len(),
            lens@ == fastcdc_lengths(data@, sizes.min_size, sizes.avg_size, sizes.max_size),
            sum_lengths(lens@) == data@.len(),
            offset == sum_lengths(lens@.take(i as int)),
            out@.len() == i,
            forall|k: int|
                0 <= k < i ==> {
                    &&& (#[trigger] out@[k]).length == lens@[k]
                    &&& out@[k].offset == sum_lengths(lens@.take(k))
                    &&& out@[k].hash@ == blake3_digest(
                        data@.subrange(sum_lengths(lens@.take(k)) as int, sum_lengths(lens@.take(k + 1)) as int),
                    )
                },
        decreases lens@.len() - i,
    {
        let len = lens[i];
        proof {
            lemma_sum_take_step(lens@, i as int);
            lemma_sum_take_le(lens@, i as int + 1);
        }
        assert(offset + len <= dl);
        let end = offset + len;
        let piece = vstd::slice::slice_subrange(data, offset, end);
        let h = hash_bytes(piece);
        out.push(Chunk { offset: offset as u64, length: len, hash: h });
        offset = end;
        i = i + 1;
    }
    proof {
        let lens_s = lens@;
        if out@.len() > 0 {
            assert(lens_s.take(0) =~= Seq::<usize>::empty());
        }
        assert forall|k: int| 0 < k < out@.len() implies #[trigger] out@[k].offset == out@[k - 1].offset
            + out@[k - 1].length by {
            lemma_sum_take_step(lens_s, k - 1);
        }
        assert(out@.map_values(|c: Chunk| c.length) =~= lens_s);
    }
    out
}

/// Chunks a byte slice with explicit sizes.
pub fn chunk_slice(data: &[u8], sizes: ChunkSizes) -> (r: Vec<Chunk>)
    requires
        data@.len() == 0 || sizes.accepted(),
    ensures
        data@.len() == 0 ==> r@.len() == 0,
        data@.len() > 0 ==> chunks_match(
            data@,
            fastcdc_lengths(data@, sizes.min_size, sizes.avg_size, sizes.max_size),
            r@,
        ),
        r@.len() > 0 ==> r@[0].offset == 0,
        forall|i: int| 0 < i < r@.len() ==> #[trigger] r@[i].offset == r@[i - 1].offset + r@[i - 1].length,
        forall|i: int| 0 <= i < r@.len() ==> #[trigger] r@[i].length > 0,
        forall|i: int|
            0 <= i < r@.len() ==> #[trigger] r@[i].length <= sizes.max_size || (i == r@.len() - 1
                && r@[i].length <= sizes.min_size),
        forall|i: int|
            0 <= i < r@.len() - 1 ==> least_inner_length(sizes.min_size, sizes.max_size)
                <= #[trigger] r@[i].length <= sizes.max_size,
        sum_lengths(r@.map_values(|c: Chunk| c.length)) == data@.len(),
{
    chunk_data(data, sizes)
}

/// A chunk carrying its own data, as the streaming chunker yields it.
#[derive(Debug, Clone)]
pub struct ChunkWithData {
    /// Byte offset within the source file
    pub offset: u64,
    /// Owned chunk bytes
    pub data: Vec<u8>,
    /// BLAKE3 hash of this chunk's data
    pub hash: crate::hash::Hash,
}

impl ChunkWithData {
    /// A chunk of `data` found at `offset`, with its hash.
    pub fn new(offset: u64, data: Vec<u8>) -> (r: ChunkWithData)
        ensures
            r.offset == offset,
            r.data@ == data@,
            r.hash@ == blake3_digest(data@),
    {
        let hash = hash_bytes(data.as_slice());
        ChunkWithData { offset, data, hash }
    }
}

/// What the streaming chunker gathers of a file without keeping its bytes:
/// each chunk's offset, length and hash, and the hash of all the bytes seen.
pub struct ChunkMetadata {
    chunks: Vec<Chunk>,
    file: StreamHash,
}

impl ChunkMetadata {
    /// The chunks recorded so far, in order.
    pub closed spec fn recorded(&self) -> Seq<Chunk> {
        self.chunks@
    }

    /// All the bytes of the chunks seen so far, in order.
    pub closed spec fn streamed(&self) -> Seq<u8> {
        self.file.input()
    }

    /// Nothing seen yet.
    pub fn new() -> (r: ChunkMetadata)
        ensures
            r.recorded() == Seq::<Chunk>::empty(),
            r.streamed() == Seq::<u8>::empty(),
    {
        ChunkMetadata { chunks: Vec::new(), file: StreamHash::new() }
    }

    /// Records the next chunk, `data` found at `offset`.
    pub fn add(&mut self, offset: u64, data: &[u8])
        ensures
            final(self).streamed() == old(self).streamed() + data@,
            final(self).recorded().len() == old(self).recorded().len() + 1,
            final(self).recorded().take(old(self).recorded().len() as int) == old(self).recorded(),
            final(self).recorded().last().offset == offset,
            final(self).recorded().last().length == data@.len(),
            final(self).recorded().last().hash@ == blake3_digest(data@),
    {
        let hash = hash_bytes(data);
        self.chunks.push(Chunk { offset, length: data.len(), hash });
        self.file.update(data);
        assert(self.chunks@.take(old(self).chunks@.len() as int) =~= old(self).chunks@);
    }

    /// The chunks recorded, and the hash of all the bytes seen.
    pub fn finish(self) -> (r: (Vec<Chunk>, crate::hash::Hash))
        ensures
            r.0@ == self.recorded(),
            r.1@ == blake3_digest(self.streamed()),
    {
        let h = self.file.finalize();
        (self.chunks, h)
    }
}

} // verus!
