//! Seekable zstd compression using independent frames.
//!
//! A single zstd stream must be decompressed from its start to reach any
//! offset. For random-access reads the data is split into frames of a fixed
//! uncompressed size, each compressed on its own, and a seek table records
//! where each frame lies. The seek table travels in chunk metadata, not in
//! the blob.
use vstd::prelude::*;

verus! {

/// Default frame size: 1MB uncompressed per frame.
pub const DEFAULT_FRAME_SIZE: usize = 1048576;

#[verifier::external_type_specification]
#[verifier::external_body]
pub struct ExIoError(std::io::Error);

/// What `zstd::encode_all` gives for `data` at `level`: one zstd frame.
pub uninterp spec fn zstd_compressed(data: Seq<u8>, level: i32) -> Seq<u8>;

/// What `zstd::decode_all` gives for the bytes `frame`.
pub uninterp spec fn zstd_decompressed(frame: Seq<u8>) -> Seq<u8>;

/// `zstd::encode_all` on a byte slice: the zstd frame for `data`. It does
/// not fail: the compression level is clamped to zstd's range
/// (`ZSTD_cParam_clampBounds`), no dictionary is loaded, and reading a
/// slice and writing a `Vec` do not fail.
#[verifier::external_body]
fn zstd_encode(data: &[u8], level: i32) -> (r: Result<Vec<u8>, std::io::Error>)
    ensures
        r is Ok,
        r matches Ok(v) ==> v@ == zstd_compressed(data@, level),
{
    zstd::encode_all(data, level)
}

/// `zstd::decode_all` on a byte slice: the decompressed bytes, or the
/// decoder's error. zstd is lossless: a frame that `encode_all` made
/// decodes, to the data it was made from (the decoder's default window
/// limit admits every frame that the encoder's levels make).
#[verifier::external_body]
fn zstd_decode(frame: &[u8]) -> (r: Result<Vec<u8>, std::io::Error>)
    ensures
        r matches Ok(v) ==> v@ == zstd_decompressed(frame@),
        forall|d: Seq<u8>, level: i32|
            #[trigger] zstd_compressed(d, level) == frame@ ==> r is Ok && r.unwrap()@ == d,
{
    zstd::decode_all(frame)
}

/// Seek table entry for one frame.
#[derive(Debug, Clone, Copy, PartialEq, Eq, Structural)]
pub struct SeekEntry {
    /// Uncompressed size of this frame
    pub uncompressed_size: u32,
    /// Compressed size (zstd frame bytes)
    pub compressed_size: u32,
    /// Byte offset of this frame in the compressed output
    pub compressed_offset: u64,
}

/// A seekable compressed blob: compressed bytes and seek table.
#[derive(Debug)]
pub struct SeekableBlob {
    /// The concatenated compressed frames
    pub compressed: Vec<u8>,
    /// Seek table (one entry per frame, in order)
    pub seek_table: Vec<SeekEntry>,
}

/// Why compression or decompression failed.
#[derive(Debug, Clone, Copy, PartialEq, Eq, Structural)]
pub enum SeekError {
    /// zstd could not compress a frame.
    Compress,
    /// zstd could not decompress a frame.
    Decompress,
    /// A frame decompressed to fewer bytes than its seek entry records.
    ShortFrame,
}

/// The sum of the uncompressed sizes in `table`.
pub open spec fn total_uncompressed(table: Seq<SeekEntry>) -> nat
    decreases table.len(),
{
    if table.len() == 0 {
        0
    } else {
        total_uncompressed(table.drop_last()) + table.last().uncompressed_size as nat
    }
}

impl SeekableBlob {
    /// Total uncompressed size.
    pub fn uncompressed_size(&self) -> (r: u64)
        requires
            total_uncompressed(self.seek_table@) <= u64::MAX,
        ensures
            r == total_uncompressed(self.seek_table@),
    {
        let mut total: u64 = 0;
        let mut i: usize = 0;
        while i < self.seek_table.len()
            invariant
                i <= self.seek_table@.len(),
                total == total_uncompressed(self.seek_table@.take(i as int)),
                total_uncompressed(self.seek_table@) <= u64::MAX,
            decreases self.seek_table@.len() - i,
        {
            proof {
                assert(self.seek_table@.take(i + 1).drop_last() =~= self.seek_table@.take(i as int));
                lemma_total_prefix(self.seek_table@, i as int + 1);
            }
            total = total + self.seek_table[i].uncompressed_size as u64;
            i = i + 1;
        }
        assert(self.seek_table@.take(i as int) =~= self.seek_table@);
        total
    }

    /// Number of frames.
    pub fn frame_count(&self) -> (r: usize)
        ensures
            r == self.seek_table@.len(),
    {
        self.seek_table.len()
    }
}

proof fn lemma_total_prefix(table: Seq<SeekEntry>, i: int)
    requires
        0 <= i <= table.len(),
    ensures
        total_uncompressed(table.take(i)) <= total_uncompressed(table),
    decreases table.len() - i,
{
    if i < table.len() {
        assert(table.take(i + 1).drop_last() =~= table.take(i));
        lemma_total_prefix(table, i + 1);
    } else {
        assert(table.take(i) =~= table);
    }
}

// ── Compression ──────────────────────────────────────────────────────────────

/// `data` cut into pieces of `n` bytes, the last one shorter
/// (`slice::chunks`).
pub open spec fn frame_pieces(data: Seq<u8>, n: nat) -> Seq<Seq<u8>>
    recommends
        n > 0,
    decreases data.len(),
{
    if data.len() == 0 || n == 0 {
        seq![]
    } else if data.len() <= n {
        seq![data]
    } else {
        seq![data.take(n as int)] + frame_pieces(data.skip(n as int), n)
    }
}

/// The concatenation of `frames`.
pub open spec fn concat(frames: Seq<Seq<u8>>) -> Seq<u8>
    decreases frames.len(),
{
    if frames.len() == 0 {
        seq![]
    } else {
        concat(frames.drop_last()) + frames.last()
    }
}

/// `blob` holds the frames compressed from `pieces` at `level`, each with its
/// seek entry.
pub open spec fn blob_of(pieces: Seq<Seq<u8>>, level: i32, blob: SeekableBlob) -> bool {
    let frames = pieces.map_values(|p: Seq<u8>| zstd_compressed(p, level));
    &&& blob.seek_table@.len() == pieces.len()
    &&& blob.compressed@ == concat(frames)
    &&& forall|i: int|
        0 <= i < pieces.len() ==> {
            &&& (#[trigger] blob.seek_table@[i]).uncompressed_size == pieces[i].len() as u32
            &&& blob.seek_table@[i].compressed_size == frames[i].len() as u32
            &&& blob.seek_table@[i].compressed_offset == concat(frames.take(i)).len() as u64
        }
}

/// Compresses `data` into frames of at most `frame_size` uncompressed bytes
/// (at least one byte each), each an independent zstd frame at `level`.
pub fn compress(data: &[u8], frame_size: usize, level: i32) -> (r: Result<SeekableBlob, SeekError>)
    ensures
        r is Ok,
        r matches Ok(blob) ==> blob_of(frame_pieces(data@, if frame_size > 0 { frame_size as nat } else { 1 }), level, blob),
        r matches Ok(blob) ==> table_in_bounds(blob) && total_uncompressed(blob.seek_table@) <= data@.len(),
{
    let n: usize = if frame_size > 0 { frame_size } else { 1 };
    let ghost pieces = frame_pieces(data@, n as nat);
    let mut compressed: Vec<u8> = Vec::new();
    let mut seek_table: Vec<SeekEntry> = Vec::new();
    let mut start: usize = 0;
    let ghost mut done: Seq<Seq<u8>> = seq![];
    assert(data@.skip(0) =~= data@);
    assert(pieces =~= done + frame_pieces(data@.skip(start as int), n as nat));
    while start < data.len()
        invariant
            n > 0,
            start <= data@.len(),
            pieces == frame_pieces(data@, n as nat),
            pieces == done + frame_pieces(data@.skip(start as int), n as nat),
            seek_table@.len() == done.len(),
            compressed@ == concat(done.map_values(|p: Seq<u8>| zstd_compressed(p, level))),
            forall|i: int|
                0 <= i < seek_table@.len() ==> (#[trigger] seek_table@[i]).compressed_offset
                    + seek_table@[i].compressed_size <= compressed@.len(),
            forall|i: int|
                0 <= i < done.len() ==> {
                    &&& (#[trigger] seek_table@[i]).uncompressed_size == done[i].len() as u32
                    &&& seek_table@[i].compressed_size == zstd_compressed(done[i], level).len() as u32
                    &&& seek_table@[i].compressed_offset == concat(
                        done.map_values(|p: Seq<u8>| zstd_compressed(p, level)).take(i),
                    ).len() as u64
                },
        decreases data@.len() - start,
    {
        let remaining = data.len() - start;
        let take = if remaining < n { remaining } else { n };
        let end = start + take;
        let piece = vstd::slice::slice_subrange(data, start, end);
        let ghost rest = data@.skip(start as int);
        proof {
            assert(piece@ =~= rest.take(take as int));
            if rest.len() <= n {
                assert(rest.take(take as int) =~= rest);
                assert(data@.skip(end as int) =~= Seq::<u8>::empty());
                assert(frame_pieces(data@.skip(end as int), n as nat) =~= Seq::<Seq<u8>>::empty());
            } else {
                assert(rest.skip(n as int) =~= data@.skip(end as int));
            }
        }
        let frame = match zstd_encode(piece, level) {
            Ok(f) => f,
            Err(_) => {
                return Err(SeekError::Compress);
            },
        };
        let ghost old_frames = done.map_values(|p: Seq<u8>| zstd_compressed(p, level));
        let entry = SeekEntry {
            uncompressed_size: piece.len() as u32,
            compressed_size: frame.len() as u32,
            compressed_offset: compressed.len() as u64,
        };
        let flen: usize = frame.len();
        assert(flen as u32 <= flen) by (bit_vector);
        assert(compressed.len() as u64 == compressed.len());
        let mut f = frame;
        compressed.append(&mut f);
        seek_table.push(entry);
        proof {
            let new_done = done.push(piece@);
            let new_frames = new_done.map_values(|p: Seq<u8>| zstd_compressed(p, level));
            assert(new_frames =~= old_frames.push(zstd_compressed(piece@, level)));
            assert(new_frames.drop_last() =~= old_frames);
            assert(new_frames.take(done.len() as int) =~= old_frames);
            assert forall|i: int| 0 <= i < done.len() implies #[trigger] new_frames.take(i) =~= old_frames.take(i) by {}
            assert(pieces =~= new_done + frame_pieces(data@.skip(end as int), n as nat));
            done = new_done;
        }
        start = end;
    }
    proof {
        assert(data@.skip(start as int) =~= Seq::<u8>::empty());
        assert(done =~= pieces);
        lemma_concat_pieces(data@, n as nat);
        lemma_uncompressed_sums(pieces, seek_table@, seek_table@.len() as int);
        assert(seek_table@.take(seek_table@.len() as int) =~= seek_table@);
        assert(pieces.take(pieces.len() as int) =~= pieces);
    }
    Ok(SeekableBlob { compressed, seek_table })
}

// ── Decompression ────────────────────────────────────────────────────────────

/// The compressed bytes of frame `i` of `blob`, as its seek entry locates them.
pub open spec fn frame_bytes(blob: SeekableBlob, i: int) -> Seq<u8> {
    let e = blob.seek_table@[i];
    blob.compressed@.subrange(e.compressed_offset as int, e.compressed_offset + e.compressed_size)
}

/// Every seek entry locates its frame inside the compressed bytes.
pub open spec fn table_in_bounds(blob: SeekableBlob) -> bool {
    forall|i: int|
        0 <= i < blob.seek_table@.len() ==> (#[trigger] blob.seek_table@[i]).compressed_offset
            + blob.seek_table@[i].compressed_size <= blob.compressed@.len()
}

/// The decompressed frames of `blob`, in order.
pub open spec fn decoded_frames(blob: SeekableBlob) -> Seq<Seq<u8>> {
    Seq::new(blob.seek_table@.len(), |i: int| zstd_decompressed(frame_bytes(blob, i)))
}

/// The seek entries for `pieces` compressed at `level` hold their sizes and
/// offsets without truncation: each frame and piece is below 4GB and the
/// compressed bytes below 2^64.
pub open spec fn entries_fit(pieces: Seq<Seq<u8>>, level: i32) -> bool {
    let frames = pieces.map_values(|p: Seq<u8>| zstd_compressed(p, level));
    &&& forall|i: int| 0 <= i < pieces.len() ==> #[trigger] pieces[i].len() <= u32::MAX
    &&& forall|i: int| 0 <= i < pieces.len() ==> #[trigger] frames[i].len() <= u32::MAX
    &&& concat(frames).len() <= u64::MAX
}

/// Decompresses all frames back to the original data. A blob that
/// `compress` made from `data` gives `data` back (where its seek entries
/// hold their sizes without truncation).
pub fn decompress_all(blob: &SeekableBlob) -> (r: Result<Vec<u8>, SeekError>)
    requires
        table_in_bounds(*blob),
    ensures
        r matches Ok(v) ==> v@ == concat(decoded_frames(*blob)),
        r matches Err(e) ==> e == SeekError::Decompress,
        forall|data: Seq<u8>, n: nat, level: i32|
            n > 0 && #[trigger] blob_of(frame_pieces(data, n), level, *blob) && entries_fit(
                frame_pieces(data, n),
                level,
            ) ==> r is Ok && r->Ok_0@ == data,
{
    let mut out: Vec<u8> = Vec::new();
    let mut i: usize = 0;
    while i < blob.seek_table.len()
        invariant
            table_in_bounds(*blob),
            i <= blob.seek_table@.len(),
            out@ == concat(decoded_frames(*blob).take(i as int)),
            forall|k: int, d: Seq<u8>, l: i32|
                #![trigger zstd_compressed(d, l), frame_bytes(*blob, k)]
                0 <= k < i && zstd_compressed(d, l) == frame_bytes(*blob, k) ==> zstd_decompressed(
                    frame_bytes(*blob, k),
                ) == d,
        decreases blob.seek_table@.len() - i,
    {
        let entry = blob.seek_table[i];
        let clen = blob.compressed.len();
        assert(entry.compressed_offset + entry.compressed_size <= clen);
        let start = entry.compressed_offset as usize;
        let end = start + entry.compressed_size as usize;
        let frame = vstd::slice::slice_subrange(blob.compressed.as_slice(), start, end);
        assert(frame@ =~= frame_bytes(*blob, i as int));
        let plain = match zstd_decode(frame) {
            Ok(p) => p,
            Err(_) => {
                proof {
                    assert forall|data: Seq<u8>, n: nat, level: i32|
                        n > 0 && #[trigger] blob_of(frame_pieces(data, n), level, *blob) && entries_fit(
                            frame_pieces(data, n),
                            level,
                        ) implies false by {
                        lemma_blob_layout(data, n, level, *blob);
                        assert(frame_bytes(*blob, i as int) == zstd_compressed(frame_pieces(data, n)[i as int], level));
                    }
                }
                return Err(SeekError::Decompress);
            },
        };
        let mut p = plain;
        out.append(&mut p);
        assert(decoded_frames(*blob).take(i + 1).drop_last() =~= decoded_frames(*blob).take(i as int));
        i = i + 1;
    }
    assert(decoded_frames(*blob).take(i as int) =~= decoded_frames(*blob));
    proof {
        assert forall|data: Seq<u8>, n: nat, level: i32|
            n > 0 && #[trigger] blob_of(frame_pieces(data, n), level, *blob) && entries_fit(
                frame_pieces(data, n),
                level,
            ) implies out@ == data by {
            let pieces = frame_pieces(data, n);
            let frames = pieces.map_values(|p: Seq<u8>| zstd_compressed(p, level));
            assert forall|k: int| 0 <= k < pieces.len() implies #[trigger] decoded_frames(*blob)[k] == pieces[k] by {
                lemma_frame_at(frames, k);
                lemma_concat_prefix_len(frames, k);
                assert(frames[k].len() <= u32::MAX);
                assert(frame_bytes(*blob, k) =~= frames[k]);
                assert(zstd_compressed(pieces[k], level) == frame_bytes(*blob, k));
            }
            assert(decoded_frames(*blob) =~= pieces);
            lemma_concat_pieces(data, n);
        }
    }
    Ok(out)
}

proof fn lemma_concat_append(a: Seq<Seq<u8>>, b: Seq<Seq<u8>>)
    ensures
        concat(a + b) == concat(a) + concat(b),
    decreases b.len(),
{
    if b.len() == 0 {
        assert(a + b =~= a);
        assert(concat(a) + concat(b) =~= concat(a));
    } else {
        lemma_concat_append(a, b.drop_last());
        assert((a + b).drop_last() =~= a + b.drop_last());
        assert(concat(a) + concat(b) =~= concat(a) + concat(b.drop_last()) + b.last());
    }
}

proof fn lemma_concat_single(x: Seq<u8>)
    ensures
        concat(seq![x]) == x,
{
    assert(seq![x].drop_last() =~= Seq::<Seq<u8>>::empty());
    assert(concat(Seq::<Seq<u8>>::empty()) + x =~= x);
}

/// The pieces of `data` put back together are `data`.
proof fn lemma_concat_pieces(data: Seq<u8>, n: nat)
    requires
        n > 0,
    ensures
        concat(frame_pieces(data, n)) == data,
    decreases data.len(),
{
    if data.len() == 0 {
    } else if data.len() <= n {
        lemma_concat_single(data);
    } else {
        lemma_concat_pieces(data.skip(n as int), n);
        lemma_concat_append(seq![data.take(n as int)], frame_pieces(data.skip(n as int), n));
        lemma_concat_single(data.take(n as int));
        assert(data.take(n as int) + data.skip(n as int) =~= data);
    }
}

/// Frame `i` sits in the concatenation right after the frames before it.
proof fn lemma_frame_at(frames: Seq<Seq<u8>>, i: int)
    requires
        0 <= i < frames.len(),
    ensures
        concat(frames.take(i)).len() + frames[i].len() <= concat(frames).len(),
        concat(frames).subrange(
            concat(frames.take(i)).len() as int,
            (concat(frames.take(i)).len() + frames[i].len()) as int,
        ) == frames[i],
{
    let head = frames.take(i + 1);
    let tail = frames.skip(i + 1);
    assert(frames =~= head + tail);
    lemma_concat_append(head, tail);
    assert(head.drop_last() =~= frames.take(i));
    let c = concat(frames);
    let p = concat(frames.take(i));
    assert(concat(head) == p + frames[i]);
    assert(c.subrange(p.len() as int, (p.len() + frames[i].len()) as int) =~= frames[i]);
}

proof fn lemma_concat_prefix_len(frames: Seq<Seq<u8>>, i: int)
    requires
        0 <= i <= frames.len(),
    ensures
        concat(frames.take(i)).len() <= concat(frames).len(),
{
    assert(frames =~= frames.take(i) + frames.skip(i));
    lemma_concat_append(frames.take(i), frames.skip(i));
}

/// The uncompressed offset at which frame `i` of `table` starts.
pub open spec fn frame_start(table: Seq<SeekEntry>, i: int) -> nat {
    total_uncompressed(table.take(i))
}

/// The frames that a read of `[range_start, range_end)` visits: those before
/// the first frame that ends at or after `range_end`, and that one.
pub open spec fn visited(table: Seq<SeekEntry>, range_end: u64, i: int) -> bool {
    forall|k: int| 0 <= k < i ==> #[trigger] frame_start(table, k + 1) < range_end
}

/// Frame `i` overlaps `[range_start, range_end)`.
pub open spec fn overlaps(table: Seq<SeekEntry>, range_start: u64, range_end: u64, i: int) -> bool {
    frame_start(table, i + 1) > range_start && frame_start(table, i) < range_end
}

/// The bytes that a read of `[range_start, range_end)` takes from the
/// decoded frame `plain`, which starts at `fs` and ends at `fe`.
pub open spec fn range_piece(plain: Seq<u8>, fs: nat, fe: nat, range_start: u64, range_end: u64) -> Seq<u8> {
    let local_start = if range_start >= fs { range_start - fs } else { 0 };
    let local_end = (if range_end <= fe { range_end as int } else { fe as int }) - fs;
    plain.subrange(local_start, local_end)
}

/// What a read of `[range_start, range_end)` gives from the first `i` frames.
pub open spec fn range_bytes(blob: SeekableBlob, range_start: u64, range_end: u64, i: int) -> Seq<u8>
    decreases i,
{
    if i <= 0 {
        seq![]
    } else {
        let t = blob.seek_table@;
        let before = range_bytes(blob, range_start, range_end, i - 1);
        if visited(t, range_end, i - 1) && overlaps(t, range_start, range_end, i - 1) {
            before + range_piece(
                zstd_decompressed(frame_bytes(blob, i - 1)),
                frame_start(t, i - 1),
                frame_start(t, i),
                range_start,
                range_end,
            )
        } else {
            before
        }
    }
}

/// A read with `range_start` after `range_end` that meets a frame holding
/// both would slice backwards.
pub open spec fn range_backwards(table: Seq<SeekEntry>, range_start: u64, range_end: u64) -> bool {
    range_start > range_end && exists|i: int|
        0 <= i < table.len() && #[trigger] overlaps(table, range_start, range_end, i)
}

/// Whether every frame that a read of `[range_start, range_end)` decodes is
/// as long as its seek entry says.
pub open spec fn range_frames_full(blob: SeekableBlob, range_start: u64, range_end: u64) -> bool {
    forall|i: int|
        0 <= i < blob.seek_table@.len() && visited(blob.seek_table@, range_end, i) && #[trigger] overlaps(
            blob.seek_table@,
            range_start,
            range_end,
            i,
        ) ==> zstd_decompressed(frame_bytes(blob, i)).len() >= blob.seek_table@[i].uncompressed_size
}

proof fn lemma_frame_start_step(table: Seq<SeekEntry>, i: int)
    requires
        0 <= i < table.len(),
    ensures
        frame_start(table, i + 1) == frame_start(table, i) + table[i].uncompressed_size,
{
    assert(table.take(i + 1).drop_last() =~= table.take(i));
}

/// Decompresses the bytes `[range_start, range_end)` of the uncompressed
/// data, decoding only the frames that overlap the range; a range that
/// runs past the end gives what of it lies in the data.
pub fn decompress_range(blob: &SeekableBlob, range_start: u64, range_end: u64) -> (r: Result<Vec<u8>, SeekError>)
    requires
        table_in_bounds(*blob),
        total_uncompressed(blob.seek_table@) <= u64::MAX,
        !range_backwards(blob.seek_table@, range_start, range_end),
    ensures
        r matches Ok(v) ==> v@ == range_bytes(*blob, range_start, range_end, blob.seek_table@.len() as int),
        r matches Err(e) ==> (e == SeekError::Decompress || (e == SeekError::ShortFrame && !range_frames_full(
            *blob,
            range_start,
            range_end,
        ))),
        forall|data: Seq<u8>, n: nat, level: i32|
            n > 0 && #[trigger] blob_of(frame_pieces(data, n), level, *blob) && entries_fit(
                frame_pieces(data, n),
                level,
            ) && range_start <= range_end ==> r is Ok && r->Ok_0@ == data.subrange(
                if range_start <= data.len() { range_start as int } else { data.len() as int },
                if range_end <= data.len() { range_end as int } else { data.len() as int },
            ),
{
    let ghost t = blob.seek_table@;
    let mut out: Vec<u8> = Vec::new();
    let mut fs: u64 = 0;
    let mut i: usize = 0;
    while i < blob.seek_table.len()
        invariant_except_break
            fs == frame_start(t, i as int),
            visited(t, range_end, i as int),
            out@ == range_bytes(*blob, range_start, range_end, i as int),
            forall|k: int|
                0 <= k < i && visited(t, range_end, k) && overlaps(t, range_start, range_end, k)
                    ==> #[trigger] decoded_right(*blob, k),
        invariant
            t == blob.seek_table@,
            table_in_bounds(*blob),
            total_uncompressed(t) <= u64::MAX,
            !range_backwards(t, range_start, range_end),
            i <= t.len(),
        ensures
            out@ == range_bytes(*blob, range_start, range_end, t.len() as int),
            forall|k: int|
                0 <= k < t.len() && visited(t, range_end, k) && overlaps(t, range_start, range_end, k)
                    ==> #[trigger] decoded_right(*blob, k),
        decreases t.len() - i,
    {
        let entry = blob.seek_table[i];
        proof {
            lemma_frame_start_step(t, i as int);
            lemma_total_prefix(t, i as int + 1);
        }
        let fe = fs + entry.uncompressed_size as u64;
        if fe > range_start && fs < range_end {
            assert(overlaps(t, range_start, range_end, i as int));
            let clen = blob.compressed.len();
            assert(entry.compressed_offset + entry.compressed_size <= clen);
            let start = entry.compressed_offset as usize;
            let end = start + entry.compressed_size as usize;
            let frame = vstd::slice::slice_subrange(blob.compressed.as_slice(), start, end);
            assert(frame@ =~= frame_bytes(*blob, i as int));
            let plain = match zstd_decode(frame) {
                Ok(p) => p,
                Err(_) => {
                    proof {
                        assert forall|data: Seq<u8>, n: nat, level: i32|
                            n > 0 && #[trigger] blob_of(frame_pieces(data, n), level, *blob) && entries_fit(
                                frame_pieces(data, n),
                                level,
                            ) && range_start <= range_end implies false by {
                            lemma_blob_layout(data, n, level, *blob);
                            assert(frame_bytes(*blob, i as int) == zstd_compressed(frame_pieces(data, n)[i as int], level));
                        }
                    }
                    return Err(SeekError::Decompress);
                },
            };
            assert(decoded_right(*blob, i as int));
            let local_start: u64 = if range_start >= fs { range_start - fs } else { 0 };
            let local_end: u64 = (if range_end <= fe { range_end } else { fe }) - fs;
            if (plain.len() as u64) < local_end {
                proof {
                    assert forall|data: Seq<u8>, n: nat, level: i32|
                        n > 0 && #[trigger] blob_of(frame_pieces(data, n), level, *blob) && entries_fit(
                            frame_pieces(data, n),
                            level,
                        ) && range_start <= range_end implies false by {
                        lemma_blob_layout(data, n, level, *blob);
                        assert(frame_bytes(*blob, i as int) == zstd_compressed(frame_pieces(data, n)[i as int], level));
                        assert(plain@ == frame_pieces(data, n)[i as int]);
                    }
                }
                return Err(SeekError::ShortFrame);
            }
            proof {
                if local_start > local_end {
                    assert(range_backwards(t, range_start, range_end));
                }
            }
            let piece = vstd::slice::slice_subrange(plain.as_slice(), local_start as usize, local_end as usize);
            let mut v = vstd::slice::slice_to_vec(piece);
            out.append(&mut v);
        }
        proof {
            assert(visited(t, range_end, i as int));
        }
        fs = fe;
        if fs >= range_end {
            proof {
                lemma_range_bytes_stop(*blob, range_start, range_end, i as int + 1);
                assert forall|k: int|
                    0 <= k < t.len() && visited(t, range_end, k) && overlaps(t, range_start, range_end, k)
                        implies #[trigger] decoded_right(*blob, k) by {
                    if k > i {
                        assert(frame_start(t, i as int + 1) >= range_end);
                        assert(!visited(t, range_end, k));
                    }
                }
            }
            break;
        }
        proof {
            assert forall|k: int| 0 <= k < i + 1 implies #[trigger] frame_start(t, k + 1) < range_end by {
                if k < i {
                    assert(visited(t, range_end, i as int));
                }
            }
        }
        i = i + 1;
    }
    proof {
        assert forall|data: Seq<u8>, n: nat, level: i32|
            n > 0 && #[trigger] blob_of(frame_pieces(data, n), level, *blob) && entries_fit(
                frame_pieces(data, n),
                level,
            ) && range_start <= range_end implies out@ == data.subrange(
                if range_start <= data.len() { range_start as int } else { data.len() as int },
                if range_end <= data.len() { range_end as int } else { data.len() as int },
            ) by {
            lemma_blob_layout(data, n, level, *blob);
            assert forall|k: int|
                0 <= k < t.len() && visited(t, range_end, k) && #[trigger] overlaps(t, range_start, range_end, k)
                    implies zstd_decompressed(frame_bytes(*blob, k)) == frame_pieces(data, n)[k] by {
                assert(decoded_right(*blob, k));
                assert(frame_bytes(*blob, k) == zstd_compressed(frame_pieces(data, n)[k], level));
            }
            lemma_range_prefix(data, n, level, *blob, range_start, range_end, t.len() as int);
            let pieces = frame_pieces(data, n);
            assert(t.len() == pieces.len());
            assert(pieces.take(pieces.len() as int) =~= pieces);
            assert(frame_start(t, t.len() as int) == concat(pieces.take(t.len() as int)).len());
            assert(frame_start(t, t.len() as int) == data.len());
        }
    }
    Ok(out)
}

/// Frame `k` of `blob` decodes to whatever it was compressed from.
pub open spec fn decoded_right(blob: SeekableBlob, k: int) -> bool {
    forall|d: Seq<u8>, l: i32|
        #[trigger] zstd_compressed(d, l) == frame_bytes(blob, k) ==> zstd_decompressed(frame_bytes(blob, k)) == d
}

// ── Reading ranges of what `compress` made ───────────────────────────────────

proof fn lemma_concat_take_step(pieces: Seq<Seq<u8>>, i: int)
    requires
        0 <= i < pieces.len(),
    ensures
        concat(pieces.take(i + 1)) == concat(pieces.take(i)) + pieces[i],
{
    assert(pieces.take(i + 1).drop_last() =~= pieces.take(i));
}

proof fn lemma_concat_take_mono(pieces: Seq<Seq<u8>>, i: int, j: int)
    requires
        0 <= i <= j <= pieces.len(),
    ensures
        concat(pieces.take(i)).len() <= concat(pieces.take(j)).len(),
    decreases j - i,
{
    if i < j {
        lemma_concat_take_mono(pieces, i, j - 1);
        lemma_concat_take_step(pieces, j - 1);
    }
}

/// The layout of a blob that `compress` made from `data`: seek entries
/// that hold the piece sizes, frames that are the compressed pieces, and
/// frame starts that are where the pieces start in `data`.
proof fn lemma_blob_layout(data: Seq<u8>, n: nat, level: i32, blob: SeekableBlob)
    requires
        n > 0,
        blob_of(frame_pieces(data, n), level, blob),
        entries_fit(frame_pieces(data, n), level),
    ensures
        table_in_bounds(blob),
        concat(frame_pieces(data, n)) == data,
        forall|i: int|
            0 <= i < blob.seek_table@.len() ==> {
                &&& (#[trigger] blob.seek_table@[i]).uncompressed_size == frame_pieces(data, n)[i].len()
                &&& frame_bytes(blob, i) == zstd_compressed(frame_pieces(data, n)[i], level)
            },
        forall|i: int|
            0 <= i <= blob.seek_table@.len() ==> #[trigger] frame_start(blob.seek_table@, i) == concat(
                frame_pieces(data, n).take(i),
            ).len(),
        total_uncompressed(blob.seek_table@) == data.len(),
{
    let pieces = frame_pieces(data, n);
    let frames = pieces.map_values(|p: Seq<u8>| zstd_compressed(p, level));
    let t = blob.seek_table@;
    lemma_concat_pieces(data, n);
    assert forall|i: int| 0 <= i < t.len() implies {
        &&& (#[trigger] t[i]).uncompressed_size == pieces[i].len()
        &&& frame_bytes(blob, i) == zstd_compressed(pieces[i], level)
        &&& t[i].compressed_offset + t[i].compressed_size <= blob.compressed@.len()
    } by {
        lemma_frame_at(frames, i);
        lemma_concat_prefix_len(frames, i);
        assert(frames[i].len() <= u32::MAX);
        assert(pieces[i].len() <= u32::MAX);
        assert(frame_bytes(blob, i) =~= frames[i]);
    }
    assert forall|i: int| 0 <= i <= t.len() implies #[trigger] frame_start(t, i) == concat(pieces.take(i)).len() by {
        lemma_frame_start_prefix(data, n, level, blob, i);
    }
    assert(t.take(t.len() as int) =~= t);
    assert(pieces.take(pieces.len() as int) =~= pieces);
    assert(frame_start(t, t.len() as int) == total_uncompressed(t));
}

proof fn lemma_frame_start_prefix(data: Seq<u8>, n: nat, level: i32, blob: SeekableBlob, i: int)
    requires
        n > 0,
        blob_of(frame_pieces(data, n), level, blob),
        entries_fit(frame_pieces(data, n), level),
        0 <= i <= blob.seek_table@.len(),
    ensures
        frame_start(blob.seek_table@, i) == concat(frame_pieces(data, n).take(i)).len(),
    decreases i,
{
    let pieces = frame_pieces(data, n);
    let t = blob.seek_table@;
    if i == 0 {
        assert(t.take(0) =~= Seq::<SeekEntry>::empty());
        assert(pieces.take(0) =~= Seq::<Seq<u8>>::empty());
    } else {
        lemma_frame_start_prefix(data, n, level, blob, i - 1);
        lemma_frame_start_step(t, i - 1);
        lemma_concat_take_step(pieces, i - 1);
        assert(pieces[i - 1].len() <= u32::MAX);
    }
}

/// What a read of `[range_start, range_end)` gives from the first `i`
/// frames of a blob that `compress` made from `data`, where every frame it
/// decodes decodes to its piece: the part of the range that lies in them.
proof fn lemma_range_prefix(
    data: Seq<u8>,
    n: nat,
    level: i32,
    blob: SeekableBlob,
    range_start: u64,
    range_end: u64,
    i: int,
)
    requires
        n > 0,
        blob_of(frame_pieces(data, n), level, blob),
        entries_fit(frame_pieces(data, n), level),
        range_start <= range_end,
        0 <= i <= blob.seek_table@.len(),
        forall|k: int|
            0 <= k < i && visited(blob.seek_table@, range_end, k) && #[trigger] overlaps(
                blob.seek_table@,
                range_start,
                range_end,
                k,
            ) ==> zstd_decompressed(frame_bytes(blob, k)) == frame_pieces(data, n)[k],
    ensures
        ({
            let c = frame_start(blob.seek_table@, i);
            range_bytes(blob, range_start, range_end, i) == data.subrange(
                if range_start <= c { range_start as int } else { c as int },
                if range_end <= c { range_end as int } else { c as int },
            )
        }),
    decreases i,
{
    let pieces = frame_pieces(data, n);
    let t = blob.seek_table@;
    lemma_blob_layout(data, n, level, blob);
    if i == 0 {
        assert(frame_start(t, 0) == 0) by {
            assert(t.take(0) =~= Seq::<SeekEntry>::empty());
        }
        assert(data.subrange(0, 0) =~= Seq::<u8>::empty());
    } else {
        let k = i - 1;
        lemma_range_prefix(data, n, level, blob, range_start, range_end, k);
        let a = frame_start(t, k);
        let b = frame_start(t, i);
        lemma_frame_start_step(t, k);
        lemma_frame_at(pieces, k);
        lemma_concat_take_mono(pieces, i, pieces.len() as int);
        assert(pieces.take(pieces.len() as int) =~= pieces);
        assert(data.subrange(a as int, b as int) == pieces[k]);
        let s = range_start as int;
        let e = range_end as int;
        if visited(t, range_end, k) && overlaps(t, range_start, range_end, k) {
            let plain = zstd_decompressed(frame_bytes(blob, k));
            assert(plain == pieces[k]);
            let ls: int = if s >= a { s - a } else { 0 };
            let le: int = (if e <= b { e } else { b as int }) - a;
            assert(range_piece(plain, a, b, range_start, range_end) == plain.subrange(ls, le));
            assert(plain.subrange(ls, le) =~= data.subrange(a + ls, a + le));
            if s <= a {
                assert(data.subrange(s, a as int) + data.subrange(a as int, a + le) =~= data.subrange(s, a + le));
            } else {
                assert(data.subrange(a as int, a as int) + data.subrange(s, a + le) =~= data.subrange(s, a + le));
            }
        } else if overlaps(t, range_start, range_end, k) {
            let j = choose|j: int| 0 <= j < k && !(#[trigger] frame_start(t, j + 1) < range_end);
            lemma_concat_take_mono(pieces, j + 1, k);
            assert(false);
        } else {
            if b <= s {
                assert(data.subrange(a as int, a as int) =~= data.subrange(b as int, b as int));
            }
        }
    }
}

/// Once a frame ends at or after `range_end`, later frames add nothing.
proof fn lemma_range_bytes_stop(blob: SeekableBlob, range_start: u64, range_end: u64, j: int)
    requires
        0 < j <= blob.seek_table@.len(),
        frame_start(blob.seek_table@, j) >= range_end,
    ensures
        range_bytes(blob, range_start, range_end, blob.seek_table@.len() as int) == range_bytes(
            blob,
            range_start,
            range_end,
            j,
        ),
    decreases blob.seek_table@.len() - j,
{
    let t = blob.seek_table@;
    if j < t.len() {
        assert(!visited(t, range_end, j)) by {
            assert(frame_start(t, (j - 1) + 1) >= range_end);
        }
        assert(range_bytes(blob, range_start, range_end, j + 1) == range_bytes(blob, range_start, range_end, j));
        lemma_frame_start_step(t, j);
        lemma_range_bytes_stop(blob, range_start, range_end, j + 1);
    }
}

// ── Checking a seek table ────────────────────────────────────────────────────

/// The sum of the compressed sizes in `table`.
pub open spec fn total_compressed(table: Seq<SeekEntry>) -> nat
    decreases table.len(),
{
    if table.len() == 0 {
        0
    } else {
        total_compressed(table.drop_last()) + table.last().compressed_size as nat
    }
}

/// The seek table accounts for `data_len` uncompressed bytes and for every
/// compressed byte of the blob.
pub open spec fn table_accounts_for(blob: SeekableBlob, data_len: nat) -> bool {
    &&& total_uncompressed(blob.seek_table@) == data_len
    &&& total_compressed(blob.seek_table@) == blob.compressed@.len()
}

/// Sizes written to a seek entry are the true sizes cut to 32 bits: never
/// more than them, and less exactly where they do not fit.
proof fn lemma_uncompressed_sums(pieces: Seq<Seq<u8>>, t: Seq<SeekEntry>, i: int)
    requires
        t.len() == pieces.len(),
        0 <= i <= t.len(),
        forall|k: int| 0 <= k < t.len() ==> (#[trigger] t[k]).uncompressed_size == pieces[k].len() as u32,
    ensures
        total_uncompressed(t.take(i)) <= concat(pieces.take(i)).len(),
        (forall|k: int| 0 <= k < i ==> #[trigger] pieces[k].len() <= u32::MAX) || total_uncompressed(t.take(i)) < concat(
            pieces.take(i),
        ).len(),
    decreases i,
{
    if i == 0 {
        assert(t.take(0) =~= Seq::<SeekEntry>::empty());
        assert(pieces.take(0) =~= Seq::<Seq<u8>>::empty());
    } else {
        lemma_uncompressed_sums(pieces, t, i - 1);
        assert(t.take(i).drop_last() =~= t.take(i - 1));
        lemma_concat_take_step(pieces, i - 1);
        let x = pieces[i - 1].len();
        assert((x as u32) <= x);
        assert(x > u32::MAX ==> (x as u32) < x);
    }
}

proof fn lemma_compressed_sums(frames: Seq<Seq<u8>>, t: Seq<SeekEntry>, i: int)
    requires
        t.len() == frames.len(),
        0 <= i <= t.len(),
        forall|k: int| 0 <= k < t.len() ==> (#[trigger] t[k]).compressed_size == frames[k].len() as u32,
    ensures
        total_compressed(t.take(i)) <= concat(frames.take(i)).len(),
        (forall|k: int| 0 <= k < i ==> #[trigger] frames[k].len() <= u32::MAX) || total_compressed(t.take(i)) < concat(
            frames.take(i),
        ).len(),
    decreases i,
{
    if i == 0 {
        assert(t.take(0) =~= Seq::<SeekEntry>::empty());
        assert(frames.take(0) =~= Seq::<Seq<u8>>::empty());
    } else {
        lemma_compressed_sums(frames, t, i - 1);
        assert(t.take(i).drop_last() =~= t.take(i - 1));
        lemma_concat_take_step(frames, i - 1);
        let x = frames[i - 1].len();
        assert((x as u32) <= x);
        assert(x > u32::MAX ==> (x as u32) < x);
    }
}

/// A blob that `compress` made from `data`, whose seek table accounts for
/// all of `data` and of its compressed bytes, has seek entries that hold
/// their sizes without truncation.
pub proof fn lemma_accounted_table_fits(data: Seq<u8>, n: nat, level: i32, blob: SeekableBlob)
    requires
        n > 0,
        blob_of(frame_pieces(data, n), level, blob),
        table_accounts_for(blob, data.len()),
        blob.compressed@.len() <= u64::MAX,
    ensures
        entries_fit(frame_pieces(data, n), level),
{
    let pieces = frame_pieces(data, n);
    let frames = pieces.map_values(|p: Seq<u8>| zstd_compressed(p, level));
    let t = blob.seek_table@;
    lemma_concat_pieces(data, n);
    assert forall|k: int| 0 <= k < t.len() implies (#[trigger] t[k]).compressed_size == frames[k].len() as u32 by {}
    lemma_uncompressed_sums(pieces, t, t.len() as int);
    lemma_compressed_sums(frames, t, t.len() as int);
    assert(t.take(t.len() as int) =~= t);
    assert(pieces.take(pieces.len() as int) =~= pieces);
    assert(frames.take(frames.len() as int) =~= frames);
}

/// Whether the seek table of `blob` accounts for `data_len` uncompressed
/// bytes and for all of its compressed bytes. Where it does, a blob that
/// `compress` made from data of that length holds its sizes untruncated,
/// so that reading it back gives the data.
pub fn seek_table_fits(blob: &SeekableBlob, data_len: u64) -> (r: bool)
    ensures
        r == table_accounts_for(*blob, data_len as nat),
        forall|data: Seq<u8>, n: nat, level: i32|
            n > 0 && #[trigger] blob_of(frame_pieces(data, n), level, *blob) && data.len() == data_len && r
                ==> entries_fit(frame_pieces(data, n), level),
{
    let t = &blob.seek_table;
    let mut plain: u128 = 0;
    let mut packed: u128 = 0;
    let mut i: usize = 0;
    while i < t.len()
        invariant
            i <= t@.len(),
            plain == total_uncompressed(t@.take(i as int)),
            packed == total_compressed(t@.take(i as int)),
            plain <= i * 0xffff_ffff,
            packed <= i * 0xffff_ffff,
        decreases t@.len() - i,
    {
        assert(t@.take(i + 1).drop_last() =~= t@.take(i as int));
        plain = plain + t[i].uncompressed_size as u128;
        packed = packed + t[i].compressed_size as u128;
        i = i + 1;
    }
    assert(t@.take(i as int) =~= t@);
    let clen = blob.compressed.len();
    let r = plain == data_len as u128 && packed == clen as u128;
    proof {
        assert forall|data: Seq<u8>, n: nat, level: i32|
            n > 0 && #[trigger] blob_of(frame_pieces(data, n), level, *blob) && data.len() == data_len && r
                implies entries_fit(frame_pieces(data, n), level) by {
            lemma_accounted_table_fits(data, n, level, *blob);
        }
    }
    r
}

} // verus!
