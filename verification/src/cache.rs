//! The disk cache of hydrated file content: where an entry lives, which key
//! a manifest path gives, and which entries go when the cache is over its
//! capacity.
//!
//! Layout: `{cache_dir}/{key[0..2]}/{key}` (two-level sharding). Reading and
//! writing the files is left to the caller; the cache decides the paths and
//! the order of eviction. Content that is not cached is hydrated from the
//! chunks that a newline-separated manifest lists.
use vstd::prelude::*;
use crate::stub::{lines_of, text_lines};
use crate::text::{chars_of, string_of, last_index_of, lemma_last_index_of, rfind_char, sub_chars};

verus! {

// ── Paths ────────────────────────────────────────────────────────────────────

/// The number of bytes that UTF-8 takes for `c`.
pub open spec fn utf8_len(c: char) -> nat {
    if (c as u32) < 0x80 {
        1
    } else if (c as u32) < 0x800 {
        2
    } else if (c as u32) < 0x10000 {
        3
    } else {
        4
    }
}

/// The shard directory of `key`: its first two bytes (`&key[..2]`) when it
/// has two or more, `xx` otherwise. `None` where the second byte ends
/// inside a character, on which slicing would panic.
pub open spec fn shard_prefix(key: Seq<char>) -> Option<Seq<char>> {
    if key.len() == 0 {
        Some(seq!['x', 'x'])
    } else if utf8_len(key[0]) == 1 {
        if key.len() == 1 {
            Some(seq!['x', 'x'])
        } else if utf8_len(key[1]) == 1 {
            Some(key.subrange(0, 2))
        } else {
            None
        }
    } else if utf8_len(key[0]) == 2 {
        Some(seq![key[0]])
    } else {
        None
    }
}

/// `Path::join` on Unix: an absolute `p` replaces `base`; otherwise a `/`
/// is put between them unless `base` is empty or already ends with one.
pub open spec fn join_path(base: Seq<char>, p: Seq<char>) -> Seq<char> {
    if p.len() > 0 && p[0] == '/' {
        p
    } else if base.len() > 0 && base.last() != '/' {
        base + seq!['/'] + p
    } else {
        base + p
    }
}

/// The key that a manifest path gives: its last `/`-separated piece.
pub open spec fn key_of_manifest_path(path: Seq<char>) -> Seq<char> {
    match last_index_of(path, '/') {
        None => path,
        Some(i) => path.subrange(i + 1, path.len() as int),
    }
}

fn join_into(base: &[char], p: &[char]) -> (r: Vec<char>)
    ensures
        r@ == join_path(base@, p@),
{
    let mut r: Vec<char> = Vec::new();
    if p.len() > 0 && p[0] == '/' {
        let mut i: usize = 0;
        while i < p.len()
            invariant
                i <= p@.len(),
                r@ == p@.take(i as int),
            decreases p@.len() - i,
        {
            r.push(p[i]);
            assert(p@.take(i + 1) =~= p@.take(i as int).push(p@[i as int]));
            i = i + 1;
        }
        assert(p@.take(p@.len() as int) =~= p@);
        return r;
    }
    let mut i: usize = 0;
    while i < base.len()
        invariant
            i <= base@.len(),
            r@ == base@.take(i as int),
        decreases base@.len() - i,
    {
        r.push(base[i]);
        assert(base@.take(i + 1) =~= base@.take(i as int).push(base@[i as int]));
        i = i + 1;
    }
    assert(base@.take(base@.len() as int) =~= base@);
    let ghost head = r@;
    if base.len() > 0 && base[base.len() - 1] != '/' {
        r.push('/');
    }
    let ghost mid = r@;
    let mut j: usize = 0;
    while j < p.len()
        invariant
            j <= p@.len(),
            r@ == mid + p@.take(j as int),
        decreases p@.len() - j,
    {
        r.push(p[j]);
        assert(p@.take(j + 1) =~= p@.take(j as int).push(p@[j as int]));
        assert(mid + p@.take(j + 1) =~= (mid + p@.take(j as int)).push(p@[j as int]));
        j = j + 1;
    }
    assert(p@.take(p@.len() as int) =~= p@);
    r
}

/// `cache_key_for_path`: the key that a manifest path (`{prefix}/manifests/{hash}`)
/// gives, its last component.
pub fn cache_key_for_path(manifest_path: &str) -> (r: String)
    ensures
        r@ == key_of_manifest_path(manifest_path@),
{
    let s = chars_of(manifest_path);
    proof {
        lemma_last_index_of(s@, '/');
    }
    let sl = s.as_slice();
    match rfind_char(sl, '/') {
        None => string_of(sl),
        Some(i) => {
            let n = sl.len();
            assert(i < n);
            let tail = sub_chars(sl, i + 1, n);
            string_of(tail.as_slice())
        },
    }
}

// ── The cache ────────────────────────────────────────────────────────────────

/// A disk cache rooted at a directory, with a capacity in bytes.
pub struct DiskCache {
    dir: String,
    max_bytes: u64,
}

impl DiskCache {
    /// The cache directory.
    pub closed spec fn dir_spec(&self) -> Seq<char> {
        self.dir@
    }

    /// The capacity in bytes.
    pub closed spec fn max_bytes_spec(&self) -> u64 {
        self.max_bytes
    }

    /// A cache at `dir` holding up to `max_bytes` bytes.
    pub fn new(dir: String, max_bytes: u64) -> (r: Self)
        ensures
            r.dir_spec() == dir@,
            r.max_bytes_spec() == max_bytes,
    {
        DiskCache { dir, max_bytes }
    }

    /// The cache directory.
    pub fn dir(&self) -> (r: &str)
        ensures
            r@ == self.dir_spec(),
    {
        self.dir.as_str()
    }

    /// The capacity in bytes.
    pub fn max_bytes(&self) -> (r: u64)
        ensures
            r == self.max_bytes_spec(),
    {
        self.max_bytes
    }

    /// The file that holds the entry for `key`:
    /// `{dir}/{shard}/{key}`, joined as `Path::join` joins.
    pub fn path_for(&self, key: &str) -> (r: String)
        requires
            shard_prefix(key@) is Some,
        ensures
            r@ == join_path(join_path(self.dir_spec(), shard_prefix(key@)->0), key@),
    {
        let k = chars_of(key);
        let mut prefix: Vec<char> = Vec::new();
        if k.len() == 0 || ((k[0] as u32) < 0x80 && k.len() == 1) {
            prefix.push('x');
            prefix.push('x');
            assert(prefix@ =~= seq!['x', 'x']);
        } else if (k[0] as u32) < 0x80 {
            prefix.push(k[0]);
            prefix.push(k[1]);
            assert(prefix@ =~= k@.subrange(0, 2));
        } else {
            prefix.push(k[0]);
            assert(prefix@ =~= seq![k@[0]]);
        }
        let d = chars_of(self.dir.as_str());
        let shard = join_into(d.as_slice(), prefix.as_slice());
        let full = join_into(shard.as_slice(), k.as_slice());
        string_of(full.as_slice())
    }
}

// ── Eviction ─────────────────────────────────────────────────────────────────

/// The sum of the sizes of `files` (each a size in bytes and a modification
/// time).
pub open spec fn total_size(files: Seq<(u64, u128)>) -> nat
    decreases files.len(),
{
    if files.len() == 0 {
        0
    } else {
        total_size(files.drop_last()) + files.last().0 as nat
    }
}

/// Whether entry `a` goes before entry `b` in eviction order: older
/// modification time first, and among equal times the one listed first
/// (a stable sort by time).
pub open spec fn evicted_before(files: Seq<(u64, u128)>, a: int, b: int) -> bool {
    files[a].1 < files[b].1 || (files[a].1 == files[b].1 && a < b)
}

/// `del` lists entries of `files` in eviction order, each once, and every
/// entry it leaves out comes after all that it lists.
pub open spec fn eviction_prefix(files: Seq<(u64, u128)>, del: Seq<usize>) -> bool {
    &&& forall|i: int| 0 <= i < del.len() ==> del[i] < files.len()
    &&& forall|i: int, j: int| 0 <= i < j < del.len() ==> evicted_before(files, del[i] as int, del[j] as int)
    &&& forall|i: int, x: int|
        0 <= i < del.len() && 0 <= x < files.len() && !del.contains(x as usize) ==> evicted_before(
            files,
            del[i] as int,
            x,
        )
}

/// The byte count left after deleting the entries of `del` in turn from a
/// cache holding `start` bytes, never going below zero.
pub open spec fn remaining_after(files: Seq<(u64, u128)>, start: nat, del: Seq<usize>) -> nat
    decreases del.len(),
{
    if del.len() == 0 {
        start
    } else {
        let before = remaining_after(files, start, del.drop_last());
        let size = files[del.last() as int].0 as nat;
        if before >= size {
            (before - size) as nat
        } else {
            0
        }
    }
}

/// Chooses which cached files to delete so that the cache fits in
/// `max_bytes`: the oldest first (a stable order by modification time),
/// stopping as soon as the bytes left are within the capacity. `files`
/// lists each cached file's size and modification time; the result lists
/// indices into it, in the order of deletion.
pub fn eviction_plan(files: &[(u64, u128)], max_bytes: u64) -> (del: Vec<usize>)
    requires
        total_size(files@) <= u64::MAX,
    ensures
        eviction_prefix(files@, del@),
        remaining_after(files@, total_size(files@), del@) <= max_bytes || del@.len() == files@.len(),
        del@.len() == 0 || remaining_after(files@, total_size(files@), del@.drop_last()) > max_bytes,
{
    let n = files.len();
    let mut total: u64 = 0;
    let mut i: usize = 0;
    while i < n
        invariant
            n == files@.len(),
            i <= n,
            total == total_size(files@.take(i as int)),
            total_size(files@) <= u64::MAX,
        decreases n - i,
    {
        assert(files@.take(i + 1).drop_last() =~= files@.take(i as int));
        proof {
            lemma_total_size_prefix(files@, i as int + 1);
        }
        total = total + files[i].0;
        i = i + 1;
    }
    assert(files@.take(n as int) =~= files@);
    let ghost all = total as nat;
    let mut taken: Vec<bool> = Vec::new();
    let mut k: usize = 0;
    while k < n
        invariant
            n == files@.len(),
            k <= n,
            taken@.len() == k,
            forall|x: int| 0 <= x < k ==> !taken@[x],
        decreases n - k,
    {
        taken.push(false);
        k = k + 1;
    }
    let mut del: Vec<usize> = Vec::new();
    while total > max_bytes && del.len() < n
        invariant
            n == files@.len(),
            taken@.len() == n,
            eviction_prefix(files@, del@),
            forall|x: int| 0 <= x < n ==> (taken@[x] <==> del@.contains(x as usize)),
            total == remaining_after(files@, all, del@),
            all == total_size(files@),
            del@.len() == 0 || remaining_after(files@, all, del@.drop_last()) > max_bytes,
            del@.len() <= n,
        decreases n - del@.len(),
    {
        // The oldest entry not yet chosen.
        let mut best: usize = n;
        let mut x: usize = 0;
        while x < n
            invariant
                n == files@.len(),
                taken@.len() == n,
                x <= n,
                best == n || (best < x && !taken@[best as int]),
                best < n ==> forall|y: int|
                    0 <= y < x && !taken@[y] && y != best ==> evicted_before(files@, best as int, y),
                best == n ==> forall|y: int| 0 <= y < x ==> taken@[y],
            decreases n - x,
        {
            if !taken[x] {
                if best == n || files[x].1 < files[best].1 {
                    best = x;
                }
            }
            x = x + 1;
        }
        if best == n {
            // Every entry is chosen already, which a list shorter than the
            // entries cannot hold.
            proof {
                assert forall|y: int| 0 <= y < n implies #[trigger] del@.contains(y as usize) by {
                    assert(taken@[y]);
                }
                lemma_covering_len(del@, n);
            }
            assert(false);
            return del;
        }
        let ghost old_del = del@;
        let ghost old_taken = taken@;
        proof {
            assert(!old_del.contains(best));
        }
        del.push(best);
        taken.set(best, true);
        assert(del@.drop_last() =~= old_del);
        let size = files[best].0;
        total = if total >= size { total - size } else { 0 };
        proof {
            assert(del@[old_del.len() as int] == best);
            assert forall|i: int, j: int| 0 <= i < j < del@.len() implies evicted_before(
                files@,
                del@[i] as int,
                del@[j] as int,
            ) by {
                if j == old_del.len() {
                    assert(!old_del.contains(best));
                    assert(del@[i] == old_del[i]);
                } else {
                    assert(del@[i] == old_del[i] && del@[j] == old_del[j]);
                }
            }
            assert forall|i: int, y: int|
                0 <= i < del@.len() && 0 <= y < files@.len() && !del@.contains(y as usize) implies evicted_before(
                files@,
                del@[i] as int,
                y,
            ) by {
                assert(y as usize != best);
                if old_del.contains(y as usize) {
                    let w = choose|w: int| 0 <= w < old_del.len() && old_del[w] == y as usize;
                    assert(del@[w] == y as usize);
                }
                assert(!old_taken[y]);
                if i < old_del.len() {
                    assert(del@[i] == old_del[i]);
                }
            }
            assert forall|y: int| 0 <= y < n implies (taken@[y] <==> del@.contains(y as usize)) by {
                if y == best as int {
                    assert(del@[old_del.len() as int] == best);
                } else if old_del.contains(y as usize) {
                    let w = choose|w: int| 0 <= w < old_del.len() && old_del[w] == y as usize;
                    assert(del@[w] == y as usize);
                } else {
                    if del@.contains(y as usize) {
                        let w = choose|w: int| 0 <= w < del@.len() && del@[w] == y as usize;
                        if w < old_del.len() {
                            assert(old_del[w] == y as usize);
                        }
                    }
                }
            }
        }
    }
    del
}

proof fn lemma_total_size_prefix(files: Seq<(u64, u128)>, i: int)
    requires
        0 <= i <= files.len(),
    ensures
        total_size(files.take(i)) <= total_size(files),
    decreases files.len() - i,
{
    if i < files.len() {
        lemma_total_size_prefix(files, i + 1);
        assert(files.take(i + 1).drop_last() =~= files.take(i));
    } else {
        assert(files.take(i) =~= files);
    }
}

/// A list that contains every index below `n` has at least `n` entries.
proof fn lemma_covering_len(del: Seq<usize>, n: usize)
    requires
        forall|y: int| 0 <= y < n ==> #[trigger] del.contains(y as usize),
    ensures
        del.len() >= n,
{
    let m = del.map_values(|v: usize| v as int);
    let range = vstd::set_lib::set_int_range(0, n as int);
    vstd::set_lib::lemma_int_range(0, n as int);
    m.lemma_cardinality_of_set();
    assert(range.subset_of(m.to_set())) by {
        assert forall|y: int| range.contains(y) implies m.to_set().contains(y) by {
            assert(del.contains(y as usize));
            let w = choose|w: int| 0 <= w < del.len() && del[w] == y as usize;
            assert(m[w] == y);
        }
    }
    vstd::seq_lib::seq_to_set_is_finite(m);
    vstd::set_lib::lemma_len_subset(range, m.to_set());
}

// ── Hydration ────────────────────────────────────────────────────────────────

/// The non-empty lines of a manifest, in order.
pub open spec fn listed_hashes(lines: Seq<Seq<char>>) -> Seq<Seq<char>>
    decreases lines.len(),
{
    if lines.len() == 0 {
        seq![]
    } else if lines.last().len() == 0 {
        listed_hashes(lines.drop_last())
    } else {
        listed_hashes(lines.drop_last()).push(lines.last())
    }
}

/// The chunk hashes that a newline-separated manifest lists (its non-empty
/// lines); `None` for a manifest that lists none.
pub fn manifest_chunk_hashes(text: &str) -> (r: Option<Vec<String>>)
    ensures
        listed_hashes(text_lines(text@)).len() == 0 <==> r is None,
        r matches Some(v) ==> v@.len() == listed_hashes(text_lines(text@)).len() && forall|i: int|
            0 <= i < v@.len() ==> (#[trigger] v@[i])@ == listed_hashes(text_lines(text@))[i],
{
    let ls = lines_of(chars_of(text).as_slice());
    let ghost all = text_lines(text@);
    let mut out: Vec<String> = Vec::new();
    let mut i: usize = 0;
    assert(all.take(0) =~= Seq::<Seq<char>>::empty());
    while i < ls.len()
        invariant
            i <= ls@.len(),
            ls@.len() == all.len(),
            all == text_lines(text@),
            forall|k: int| 0 <= k < ls@.len() ==> #[trigger] ls@[k]@ == all[k],
            out@.len() == listed_hashes(all.take(i as int)).len(),
            forall|k: int| 0 <= k < out@.len() ==> (#[trigger] out@[k])@ == listed_hashes(all.take(i as int))[k],
        decreases ls@.len() - i,
    {
        assert(all.take(i + 1).drop_last() =~= all.take(i as int));
        assert(all.take(i + 1).last() == all[i as int]);
        if ls[i].len() > 0 {
            out.push(string_of(ls[i].as_slice()));
        }
        i = i + 1;
    }
    assert(all.take(i as int) =~= all);
    if out.len() == 0 {
        None
    } else {
        Some(out)
    }
}

} // verus!
