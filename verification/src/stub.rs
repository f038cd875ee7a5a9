//! `.tc` / `.tcf` stub files and remote index entries: parsing and writing.
//!
//! Stub format (UTF-8, one `key value` pair per line, `version` first,
//! the other keys sorted):
//! ```text
//! version https://tummycrypt.io/tcfs/v1
//! chunks 23
//! compressed 0
//! fetched 0
//! oid blake3:4d7a214614ab2935c943f9e0ff69d22eadbb8f32b1258daaa5e2ca24d17e239
//! origin seaweedfs://filer.example.com/bucket/path/to/file
//! size 94371840
//! ```
//! `fetched 0` marks a stub that has not been downloaded. Index entries are
//! `key=value` lines holding a manifest hash, a size and a chunk count.
use vstd::prelude::*;
use crate::text::{
    chars_of, dec_string, first_index_of, format_u64, lemma_first_index_is,
    lemma_first_index_none, lemma_first_index_of, lemma_parse_dec_string, parse_u64_spec,
    parse_unsigned_chars, parse_usize_spec, push_chars, string_of, sub_chars,
    find_char, chars_eq, has_prefix, has_suffix, starts_with_at,
};
use crate::paths::{extension, extension_of};

verus! {

broadcast use vstd::string::group_string_axioms;

/// Version string for all stubs.
pub const STUB_VERSION: &'static str = "https://tummycrypt.io/tcfs/v1";

/// File extension for file stubs.
pub const TC_EXT: &'static str = ".tc";

/// File extension for directory stubs.
pub const TCF_EXT: &'static str = ".tcf";

/// The characters of [`STUB_VERSION`].
pub open spec fn stub_version() -> Seq<char> {
    seq!['h', 't', 't', 'p', 's', ':', '/', '/', 't', 'u', 'm', 'm', 'y', 'c', 'r', 'y', 'p', 't', '.', 'i', 'o', '/', 't', 'c', 'f', 's', '/', 'v', '1']
}

fn stub_version_chars() -> (v: Vec<char>)
    ensures
        v@ == stub_version(),
{
    let v = chars_of(STUB_VERSION);
    proof { reveal_strlit("https://tummycrypt.io/tcfs/v1"); }
    assert(v@ =~= stub_version());
    v
}

// ── Lines ────────────────────────────────────────────────────────────────────

/// A line without the `\r` of a `\r\n` ending.
pub open spec fn strip_cr(l: Seq<char>) -> Seq<char> {
    if l.len() > 0 && l.last() == '\r' {
        l.drop_last()
    } else {
        l
    }
}

/// `str::lines`: pieces between `\n`s, a final `\n` ending no extra empty
/// line, with the `\r` of each `\r\n` removed.
pub open spec fn text_lines(s: Seq<char>) -> Seq<Seq<char>>
    decreases s.len(),
{
    if s.len() == 0 {
        seq![]
    } else {
        match first_index_of(s, '\n') {
            None => seq![s],
            Some(i) => if 0 <= i < s.len() {
                seq![strip_cr(s.subrange(0, i))] + text_lines(s.subrange(i + 1, s.len() as int))
            } else {
                seq![s]
            },
        }
    }
}

proof fn lemma_text_lines_len(s: Seq<char>)
    ensures
        text_lines(s).len() <= s.len(),
    decreases s.len(),
{
    lemma_first_index_of(s, '\n');
    if s.len() > 0 {
        if let Some(i) = first_index_of(s, '\n') {
            lemma_text_lines_len(s.subrange(i + 1, s.len() as int));
        }
    }
}

/// Splits `s` into lines as `str::lines` does.
pub fn lines_of(s: &[char]) -> (ls: Vec<Vec<char>>)
    ensures
        ls@.len() == text_lines(s@).len(),
        forall|i: int| 0 <= i < ls@.len() ==> #[trigger] ls@[i]@ == text_lines(s@)[i],
{
    let mut ls: Vec<Vec<char>> = Vec::new();
    let mut start: usize = 0;
    let ghost mut done: Seq<Seq<char>> = Seq::empty();
    assert(s@.subrange(0, s@.len() as int) =~= s@);
    assert(Seq::<Seq<char>>::empty() + text_lines(s@) =~= text_lines(s@));
    while start < s.len()
        invariant
            start <= s@.len(),
            text_lines(s@) == done + text_lines(s@.subrange(start as int, s@.len() as int)),
            ls@.len() == done.len(),
            forall|k: int| 0 <= k < ls@.len() ==> #[trigger] ls@[k]@ == done[k],
        decreases s@.len() - start,
    {
        let ghost rest = s@.subrange(start as int, s@.len() as int);
        proof { lemma_first_index_of(rest, '\n'); }
        let mut end: usize = start;
        while end < s.len() && s[end] != '\n'
            invariant
                start <= end <= s@.len(),
                forall|j: int| start <= j < end ==> s@[j] != '\n',
            decreases s@.len() - end,
        {
            end = end + 1;
        }
        let mut stop = end;
        if stop > start && s[stop - 1] == '\r' && end < s.len() {
            stop = stop - 1;
        }
        let line = sub_chars(s, start, stop);
        if end < s.len() {
            proof {
                assert forall|j: int| 0 <= j < end - start implies rest[j] != '\n' by {
                    assert(rest[j] == s@[start + j]);
                }
                lemma_first_index_is(rest, '\n', end - start);
                assert(rest.subrange(0, end - start) =~= s@.subrange(start as int, end as int));
                assert(line@ =~= strip_cr(rest.subrange(0, end - start)));
                assert(rest.subrange(end - start + 1, rest.len() as int) =~= s@.subrange(
                    end + 1,
                    s@.len() as int,
                ));
                assert(done + text_lines(rest) =~= done.push(line@) + text_lines(
                    s@.subrange(end + 1, s@.len() as int),
                ));
                done = done.push(line@);
            }
            ls.push(line);
            start = end + 1;
        } else {
            proof {
                assert forall|j: int| 0 <= j < rest.len() implies rest[j] != '\n' by {
                    assert(rest[j] == s@[start + j]);
                }
                lemma_first_index_none(rest, '\n');
                assert(line@ =~= rest);
                assert(text_lines(s@.subrange(s@.len() as int, s@.len() as int)) =~= Seq::<
                    Seq<char>,
                >::empty());
                assert(done + text_lines(rest) =~= done.push(line@) + text_lines(
                    s@.subrange(s@.len() as int, s@.len() as int),
                ));
                done = done.push(line@);
            }
            ls.push(line);
            start = s.len();
        }
    }
    assert(text_lines(s@.subrange(start as int, s@.len() as int)) =~= Seq::<Seq<char>>::empty());
    assert(done + Seq::<Seq<char>>::empty() =~= done);
    ls
}

/// `str::split_once(c)`: the text before and after the first `c`.
pub open spec fn split_once(s: Seq<char>, c: char) -> Option<(Seq<char>, Seq<char>)> {
    match first_index_of(s, c) {
        None => None,
        Some(i) => Some((s.subrange(0, i), s.subrange(i + 1, s.len() as int))),
    }
}

/// Splits at the first `c`.
pub fn split_once_chars(s: &[char], c: char) -> (r: Option<(Vec<char>, Vec<char>)>)
    ensures
        r matches Some((a, b)) ==> split_once(s@, c) == Some((a@, b@)),
        r is None ==> split_once(s@, c) is None,
{
    proof { lemma_first_index_of(s@, c); }
    match find_char(s, c) {
        None => None,
        Some(i) => {
            assert(i < s.len());
            Some((sub_chars(s, 0, i), sub_chars(s, i + 1, s.len())))
        },
    }
}


// ── Stub metadata ────────────────────────────────────────────────────────────

/// Why a stub file was refused.
#[derive(Debug, Clone, Copy, PartialEq, Eq, Structural)]
pub enum StubError {
    /// A non-empty line has no space between key and value (1-based line).
    NoSeparator { line: usize },
    /// The `version` line names another format.
    UnsupportedVersion,
    /// The `chunks` value is not a number.
    InvalidChunks,
    /// The `size` value is not a number.
    InvalidSize,
    /// No `version` line.
    MissingVersion,
    /// The first non-empty line is not the `version` line.
    VersionNotFirst,
    /// No `oid` line.
    MissingOid,
    /// No `origin` line.
    MissingOrigin,
    /// No `size` line.
    MissingSize,
}

/// Metadata extracted from a `.tc` stub file.
#[derive(Debug, Clone, PartialEq, Eq)]
pub struct StubMeta {
    /// Number of FastCDC chunks
    pub chunks: usize,
    /// Whether the content is seekable-zstd compressed
    pub compressed: bool,
    /// Whether the content has been fetched/hydrated
    pub fetched: bool,
    /// Content OID: "blake3:{hex}"
    pub oid: String,
    /// Remote origin URL: "seaweedfs://host/bucket/path"
    pub origin: String,
    /// True file size in bytes (as stored remotely)
    pub size: u64,
}

/// The mathematical value of a [`StubMeta`].
pub struct StubMetaView {
    pub chunks: usize,
    pub compressed: bool,
    pub fetched: bool,
    pub oid: Seq<char>,
    pub origin: Seq<char>,
    pub size: u64,
}

impl View for StubMeta {
    type V = StubMetaView;

    open spec fn view(&self) -> StubMetaView {
        StubMetaView {
            chunks: self.chunks,
            compressed: self.compressed,
            fetched: self.fetched,
            oid: self.oid@,
            origin: self.origin@,
            size: self.size,
        }
    }
}

/// What the lines read so far have set.
pub struct StubFields {
    pub chunks: Option<usize>,
    pub compressed: Option<bool>,
    pub fetched: Option<bool>,
    pub oid: Option<Seq<char>>,
    pub origin: Option<Seq<char>>,
    pub size: Option<u64>,
    pub found_version: bool,
}

pub open spec fn no_stub_fields() -> StubFields {
    StubFields {
        chunks: None,
        compressed: None,
        fetched: None,
        oid: None,
        origin: None,
        size: None,
        found_version: false,
    }
}

pub open spec fn key_version() -> Seq<char> { seq!['v', 'e', 'r', 's', 'i', 'o', 'n'] }
pub open spec fn key_chunks() -> Seq<char> { seq!['c', 'h', 'u', 'n', 'k', 's'] }
pub open spec fn key_compressed() -> Seq<char> { seq!['c', 'o', 'm', 'p', 'r', 'e', 's', 's', 'e', 'd'] }
pub open spec fn key_fetched() -> Seq<char> { seq!['f', 'e', 't', 'c', 'h', 'e', 'd'] }
pub open spec fn key_oid() -> Seq<char> { seq!['o', 'i', 'd'] }
pub open spec fn key_origin() -> Seq<char> { seq!['o', 'r', 'i', 'g', 'i', 'n'] }
pub open spec fn key_size() -> Seq<char> { seq!['s', 'i', 'z', 'e'] }

/// One line of a stub applied to the fields read so far; `lineno` counts
/// lines from zero, empty lines included. The `version` line must come
/// before any other non-empty line.
pub open spec fn stub_line(f: StubFields, line: Seq<char>, lineno: int) -> Result<StubFields, StubError> {
    if line.len() == 0 {
        Ok(f)
    } else {
        match split_once(line, ' ') {
            None => Err(StubError::NoSeparator { line: (lineno + 1) as usize }),
            Some((key, value)) => {
                if key == key_version() {
                    if value != stub_version() {
                        Err(StubError::UnsupportedVersion)
                    } else {
                        Ok(StubFields { found_version: true, ..f })
                    }
                } else if !f.found_version {
                    Err(StubError::VersionNotFirst)
                } else if key == key_chunks() {
                    match parse_usize_spec(value) {
                        None => Err(StubError::InvalidChunks),
                        Some(n) => Ok(StubFields { chunks: Some(n), ..f }),
                    }
                } else if key == key_compressed() {
                    Ok(StubFields { compressed: Some(value != seq!['0']), ..f })
                } else if key == key_fetched() {
                    Ok(StubFields { fetched: Some(value != seq!['0']), ..f })
                } else if key == key_oid() {
                    Ok(StubFields { oid: Some(value), ..f })
                } else if key == key_origin() {
                    Ok(StubFields { origin: Some(value), ..f })
                } else if key == key_size() {
                    match parse_u64_spec(value) {
                        None => Err(StubError::InvalidSize),
                        Some(n) => Ok(StubFields { size: Some(n), ..f }),
                    }
                } else {
                    Ok(f)
                }
            },
        }
    }
}

/// Lines `i..` applied in order; the first refused line stops the reading.
pub open spec fn stub_lines_from(ls: Seq<Seq<char>>, i: int, f: StubFields) -> Result<StubFields, StubError>
    decreases ls.len() - i,
{
    if i < 0 || i >= ls.len() {
        Ok(f)
    } else {
        match stub_line(f, ls[i], i) {
            Err(e) => Err(e),
            Ok(g) => stub_lines_from(ls, i + 1, g),
        }
    }
}

/// The metadata that complete fields describe.
pub open spec fn stub_finish(f: StubFields) -> Result<StubMetaView, StubError> {
    if !f.found_version {
        Err(StubError::MissingVersion)
    } else if f.oid is None {
        Err(StubError::MissingOid)
    } else if f.origin is None {
        Err(StubError::MissingOrigin)
    } else if f.size is None {
        Err(StubError::MissingSize)
    } else {
        Ok(StubMetaView {
            chunks: match f.chunks { Some(n) => n, None => 0 },
            compressed: match f.compressed { Some(b) => b, None => false },
            fetched: match f.fetched { Some(b) => b, None => false },
            oid: f.oid->0,
            origin: f.origin->0,
            size: f.size->0,
        })
    }
}

/// The result of parsing the stub text `content`.
pub open spec fn stub_parse(content: Seq<char>) -> Result<StubMetaView, StubError> {
    match stub_lines_from(text_lines(content), 0, no_stub_fields()) {
        Err(e) => Err(e),
        Ok(f) => stub_finish(f),
    }
}

/// The canonical stub text: `version` first, the other keys sorted.
pub open spec fn stub_text(m: StubMetaView) -> Seq<char> {
    kv_line(key_version(), stub_version())
        + kv_line(key_chunks(), dec_string(m.chunks as nat))
        + kv_line(key_compressed(), bit_char(m.compressed))
        + kv_line(key_fetched(), bit_char(m.fetched))
        + kv_line(key_oid(), m.oid)
        + kv_line(key_origin(), m.origin)
        + kv_line(key_size(), dec_string(m.size as nat))
}

/// `key value\n`.
pub open spec fn kv_line(key: Seq<char>, value: Seq<char>) -> Seq<char> {
    key + seq![' '] + value + seq!['\n']
}

pub open spec fn bit_char(b: bool) -> Seq<char> {
    if b { seq!['1'] } else { seq!['0'] }
}

fn is_zero_text(v: &[char]) -> (b: bool)
    ensures
        b == (v@ == seq!['0']),
{
    let b = v.len() == 1 && v[0] == '0';
    proof {
        if v@ == seq!['0'] {
            assert(v@[0] == '0');
        }
        if b {
            assert(v@ =~= seq!['0']);
        }
    }
    b
}

fn eq_lit(k: &[char], lit: &[char]) -> (b: bool)
    ensures
        b == (k@ == lit@),
{
    chars_eq(k, lit)
}

impl StubMeta {
    /// Parse a stub file from its text content.
    pub fn parse(content: &str) -> (r: Result<StubMeta, StubError>)
        ensures
            match r {
                Ok(m) => stub_parse(content@) == Ok::<StubMetaView, StubError>(m@),
                Err(e) => stub_parse(content@) == Err::<StubMetaView, StubError>(e),
            },
    {
        let text = chars_of(content);
        let ls = lines_of(text.as_slice());
        proof { lemma_text_lines_len(content@); }
        let version = stub_version_chars();
        let k_version = ['v', 'e', 'r', 's', 'i', 'o', 'n'];
        let k_chunks = ['c', 'h', 'u', 'n', 'k', 's'];
        let k_compressed = ['c', 'o', 'm', 'p', 'r', 'e', 's', 's', 'e', 'd'];
        let k_fetched = ['f', 'e', 't', 'c', 'h', 'e', 'd'];
        let k_oid = ['o', 'i', 'd'];
        let k_origin = ['o', 'r', 'i', 'g', 'i', 'n'];
        let k_size = ['s', 'i', 'z', 'e'];
        assert(k_version@ =~= key_version());
        assert(k_chunks@ =~= key_chunks());
        assert(k_compressed@ =~= key_compressed());
        assert(k_fetched@ =~= key_fetched());
        assert(k_oid@ =~= key_oid());
        assert(k_origin@ =~= key_origin());
        assert(k_size@ =~= key_size());
        let mut chunks: Option<usize> = None;
        let mut compressed: Option<bool> = None;
        let mut fetched: Option<bool> = None;
        let mut oid: Option<Vec<char>> = None;
        let mut origin: Option<Vec<char>> = None;
        let mut size: Option<u64> = None;
        let mut found_version = false;
        let ghost lines = text_lines(content@);
        let mut i: usize = 0;
        while i < ls.len()
            invariant
                ls@.len() == lines.len(),
                lines == text_lines(content@),
                lines.len() <= content@.len(),
                text@ == content@,
                forall|j: int| 0 <= j < ls@.len() ==> #[trigger] ls@[j]@ == lines[j],
                i <= ls@.len(),
                version@ == stub_version(),
                k_version@ == key_version(),
                k_chunks@ == key_chunks(),
                k_compressed@ == key_compressed(),
                k_fetched@ == key_fetched(),
                k_oid@ == key_oid(),
                k_origin@ == key_origin(),
                k_size@ == key_size(),
                stub_lines_from(lines, 0, no_stub_fields()) == stub_lines_from(
                    lines,
                    i as int,
                    StubFields {
                        chunks,
                        compressed,
                        fetched,
                        oid: match oid { Some(v) => Some(v@), None => None },
                        origin: match origin { Some(v) => Some(v@), None => None },
                        size,
                        found_version,
                    },
                ),
            decreases ls@.len() - i,
        {
            let line = &ls[i];
            assert(line@ == lines[i as int]);
            if line.len() == 0 {
                i = i + 1;
                continue;
            }
            match split_once_chars(line.as_slice(), ' ') {
                None => {
                    assert(i + 1 <= usize::MAX);
                    return Err(StubError::NoSeparator { line: i + 1 });
                },
                Some((key, value)) => {
                    if eq_lit(key.as_slice(), &k_version) {
                        if !chars_eq(value.as_slice(), version.as_slice()) {
                            return Err(StubError::UnsupportedVersion);
                        }
                        found_version = true;
                    } else if !found_version {
                        return Err(StubError::VersionNotFirst);
                    } else if eq_lit(key.as_slice(), &k_chunks) {
                        match parse_unsigned_chars(value.as_slice(), usize::MAX as u64) {
                            None => {
                                return Err(StubError::InvalidChunks);
                            },
                            Some(n) => {
                                chunks = Some(n as usize);
                            },
                        }
                    } else if eq_lit(key.as_slice(), &k_compressed) {
                        compressed = Some(!is_zero_text(value.as_slice()));
                    } else if eq_lit(key.as_slice(), &k_fetched) {
                        fetched = Some(!is_zero_text(value.as_slice()));
                    } else if eq_lit(key.as_slice(), &k_oid) {
                        oid = Some(value);
                    } else if eq_lit(key.as_slice(), &k_origin) {
                        origin = Some(value);
                    } else if eq_lit(key.as_slice(), &k_size) {
                        match parse_unsigned_chars(value.as_slice(), u64::MAX) {
                            None => {
                                return Err(StubError::InvalidSize);
                            },
                            Some(n) => {
                                size = Some(n);
                            },
                        }
                    }
                },
            }
            i = i + 1;
        }
        if !found_version {
            return Err(StubError::MissingVersion);
        }
        let oid = match oid {
            None => {
                return Err(StubError::MissingOid);
            },
            Some(v) => v,
        };
        let origin = match origin {
            None => {
                return Err(StubError::MissingOrigin);
            },
            Some(v) => v,
        };
        let size = match size {
            None => {
                return Err(StubError::MissingSize);
            },
            Some(n) => n,
        };
        let m = StubMeta {
            chunks: match chunks { Some(n) => n, None => 0 },
            compressed: match compressed { Some(b) => b, None => false },
            fetched: match fetched { Some(b) => b, None => false },
            oid: string_of(oid.as_slice()),
            origin: string_of(origin.as_slice()),
            size,
        };
        Ok(m)
    }
}


/// Appends `key value\n`.
fn push_kv(s: &mut String, key: &[char], value: &[char])
    ensures
        final(s)@ == old(s)@ + kv_line(key@, value@),
{
    push_chars(s, key);
    push_chars(s, &[' ']);
    push_chars(s, value);
    push_chars(s, &['\n']);
    assert(final(s)@ =~= old(s)@ + kv_line(key@, value@));
}

impl StubMeta {
    /// Serialize to the canonical stub text format (key-value, sorted).
    pub fn to_stub_string(&self) -> (s: String)
        ensures
            s@ == stub_text(self@),
    {
        let mut s = String::new();
        let version = stub_version_chars();
        let k_version = ['v', 'e', 'r', 's', 'i', 'o', 'n'];
        let k_chunks = ['c', 'h', 'u', 'n', 'k', 's'];
        let k_compressed = ['c', 'o', 'm', 'p', 'r', 'e', 's', 's', 'e', 'd'];
        let k_fetched = ['f', 'e', 't', 'c', 'h', 'e', 'd'];
        let k_oid = ['o', 'i', 'd'];
        let k_origin = ['o', 'r', 'i', 'g', 'i', 'n'];
        let k_size = ['s', 'i', 'z', 'e'];
        assert(k_version@ =~= key_version());
        assert(k_chunks@ =~= key_chunks());
        assert(k_compressed@ =~= key_compressed());
        assert(k_fetched@ =~= key_fetched());
        assert(k_oid@ =~= key_oid());
        assert(k_origin@ =~= key_origin());
        assert(k_size@ =~= key_size());
        let one = ['1'];
        let zero = ['0'];
        assert(one@ =~= bit_char(true));
        assert(zero@ =~= bit_char(false));
        push_kv(&mut s, &k_version, version.as_slice());
        let chunks = format_u64(self.chunks as u64);
        push_kv(&mut s, &k_chunks, chunks.as_slice());
        push_kv(&mut s, &k_compressed, if self.compressed { &one } else { &zero });
        push_kv(&mut s, &k_fetched, if self.fetched { &one } else { &zero });
        let oid = chars_of(self.oid.as_str());
        push_kv(&mut s, &k_oid, oid.as_slice());
        let origin = chars_of(self.origin.as_str());
        push_kv(&mut s, &k_origin, origin.as_slice());
        let size = format_u64(self.size);
        push_kv(&mut s, &k_size, size.as_slice());
        assert(s@ =~= stub_text(self@));
        s
    }
}


// ── Round trip ───────────────────────────────────────────────────────────────

/// A value that survives a stub line: it holds no line break and does not
/// end in a carriage return (which `str::lines` would drop).
pub open spec fn stub_value_ok(v: Seq<char>) -> bool {
    &&& forall|i: int| 0 <= i < v.len() ==> v[i] != '\n'
    &&& !(v.len() > 0 && v.last() == '\r')
}

pub open spec fn no_char(v: Seq<char>, c: char) -> bool {
    forall|i: int| 0 <= i < v.len() ==> v[i] != c
}

proof fn lemma_lines_kv(key: Seq<char>, value: Seq<char>, rest: Seq<char>)
    requires
        no_char(key, '\n'),
        key.len() > 0,
        stub_value_ok(value),
    ensures
        text_lines(kv_line(key, value) + rest) == seq![key + seq![' '] + value] + text_lines(rest),
{
    let l = key + seq![' '] + value;
    let s = kv_line(key, value) + rest;
    assert(s =~= l + seq!['\n'] + rest);
    assert forall|j: int| 0 <= j < l.len() implies s[j] != '\n' by {
        if j < key.len() {
            assert(s[j] == key[j]);
        } else if j > key.len() {
            assert(s[j] == value[j - key.len() - 1]);
        }
    }
    lemma_first_index_is(s, '\n', l.len() as int);
    assert(s.subrange(0, l.len() as int) =~= l);
    assert(s.subrange(l.len() as int + 1, s.len() as int) =~= rest);
    assert(strip_cr(l) == l) by {
        if value.len() > 0 {
            assert(l.last() == value.last());
        } else {
            assert(l.last() == ' ');
        }
    }
}

proof fn lemma_split_kv(key: Seq<char>, value: Seq<char>)
    requires
        no_char(key, ' '),
    ensures
        split_once(key + seq![' '] + value, ' ') == Some((key, value)),
{
    let l = key + seq![' '] + value;
    assert forall|j: int| 0 <= j < key.len() implies l[j] != ' ' by {
        assert(l[j] == key[j]);
    }
    lemma_first_index_is(l, ' ', key.len() as int);
    assert(l.subrange(0, key.len() as int) =~= key);
    assert(l.subrange(key.len() as int + 1, l.len() as int) =~= value);
}

/// The seven lines of the canonical stub text.
pub open spec fn stub_line_texts(m: StubMetaView) -> Seq<Seq<char>> {
    seq![
        key_version() + seq![' '] + stub_version(),
        key_chunks() + seq![' '] + dec_string(m.chunks as nat),
        key_compressed() + seq![' '] + bit_char(m.compressed),
        key_fetched() + seq![' '] + bit_char(m.fetched),
        key_oid() + seq![' '] + m.oid,
        key_origin() + seq![' '] + m.origin,
        key_size() + seq![' '] + dec_string(m.size as nat),
    ]
}

proof fn lemma_digits_value_ok(n: nat)
    ensures
        stub_value_ok(dec_string(n)),
{
    crate::text::lemma_dec_string_digits(n);
    let v = dec_string(n);
    assert forall|i: int| 0 <= i < v.len() implies v[i] != '\n' by {
        assert(crate::text::is_digit(v[i]));
    }
    assert(crate::text::is_digit(v[v.len() - 1]));
}

/// `key value\n` lines for each pair, in order.
pub open spec fn kv_text(kvs: Seq<(Seq<char>, Seq<char>)>) -> Seq<char>
    decreases kvs.len(),
{
    if kvs.len() == 0 {
        Seq::empty()
    } else {
        kv_line(kvs[0].0, kvs[0].1) + kv_text(kvs.drop_first())
    }
}

pub open spec fn kv_joined(kv: (Seq<char>, Seq<char>)) -> Seq<char> {
    kv.0 + seq![' '] + kv.1
}

proof fn lemma_kv_text_lines(kvs: Seq<(Seq<char>, Seq<char>)>)
    requires
        forall|i: int|
            0 <= i < kvs.len() ==> no_char(#[trigger] kvs[i].0, '\n') && kvs[i].0.len() > 0
                && stub_value_ok(kvs[i].1),
    ensures
        text_lines(kv_text(kvs)) == kvs.map_values(|kv: (Seq<char>, Seq<char>)| kv_joined(kv)),
    decreases kvs.len(),
{
    if kvs.len() == 0 {
        assert(text_lines(Seq::<char>::empty()) =~= Seq::<Seq<char>>::empty());
        assert(kvs.map_values(|kv: (Seq<char>, Seq<char>)| kv_joined(kv)) =~= Seq::<Seq<char>>::empty());
    } else {
        let rest = kvs.drop_first();
        assert forall|i: int| 0 <= i < rest.len() implies no_char(#[trigger] rest[i].0, '\n')
            && rest[i].0.len() > 0 && stub_value_ok(rest[i].1) by {
            assert(rest[i] == kvs[i + 1]);
        }
        lemma_kv_text_lines(rest);
        assert(no_char(kvs[0].0, '\n') && kvs[0].0.len() > 0 && stub_value_ok(kvs[0].1));
        lemma_lines_kv(kvs[0].0, kvs[0].1, kv_text(rest));
        assert(kvs.map_values(|kv: (Seq<char>, Seq<char>)| kv_joined(kv)) =~= seq![kv_joined(kvs[0])]
            + rest.map_values(|kv: (Seq<char>, Seq<char>)| kv_joined(kv)));
    }
}

pub open spec fn stub_pairs(m: StubMetaView) -> Seq<(Seq<char>, Seq<char>)> {
    seq![
        (key_version(), stub_version()),
        (key_chunks(), dec_string(m.chunks as nat)),
        (key_compressed(), bit_char(m.compressed)),
        (key_fetched(), bit_char(m.fetched)),
        (key_oid(), m.oid),
        (key_origin(), m.origin),
        (key_size(), dec_string(m.size as nat)),
    ]
}

proof fn lemma_stub_text_pairs(m: StubMetaView)
    ensures
        stub_text(m) == kv_text(stub_pairs(m)),
{
    let p = stub_pairs(m);
    assert(kv_text(p.subrange(7, 7)) =~= Seq::<char>::empty());
    assert(p.subrange(6, 7).drop_first() =~= p.subrange(7, 7));
    assert(p.subrange(5, 7).drop_first() =~= p.subrange(6, 7));
    assert(p.subrange(4, 7).drop_first() =~= p.subrange(5, 7));
    assert(p.subrange(3, 7).drop_first() =~= p.subrange(4, 7));
    assert(p.subrange(2, 7).drop_first() =~= p.subrange(3, 7));
    assert(p.subrange(1, 7).drop_first() =~= p.subrange(2, 7));
    assert(p.drop_first() =~= p.subrange(1, 7));
    assert(kv_text(p.subrange(6, 7)) == kv_line(p[6].0, p[6].1) + kv_text(p.subrange(7, 7)));
    assert(kv_text(p.subrange(5, 7)) == kv_line(p[5].0, p[5].1) + kv_text(p.subrange(6, 7)));
    assert(kv_text(p.subrange(4, 7)) == kv_line(p[4].0, p[4].1) + kv_text(p.subrange(5, 7)));
    assert(kv_text(p.subrange(3, 7)) == kv_line(p[3].0, p[3].1) + kv_text(p.subrange(4, 7)));
    assert(kv_text(p.subrange(2, 7)) == kv_line(p[2].0, p[2].1) + kv_text(p.subrange(3, 7)));
    assert(kv_text(p.subrange(1, 7)) == kv_line(p[1].0, p[1].1) + kv_text(p.subrange(2, 7)));
    assert(kv_text(p) == kv_line(p[0].0, p[0].1) + kv_text(p.subrange(1, 7)));
    assert(stub_text(m) =~= kv_text(p));
}

proof fn lemma_stub_text_lines(m: StubMetaView)
    requires
        stub_value_ok(m.oid),
        stub_value_ok(m.origin),
    ensures
        text_lines(stub_text(m)) == stub_line_texts(m),
{
    let p = stub_pairs(m);
    lemma_digits_value_ok(m.chunks as nat);
    lemma_digits_value_ok(m.size as nat);
    assert(stub_value_ok(stub_version()));
    assert(stub_value_ok(bit_char(m.compressed)));
    assert(stub_value_ok(bit_char(m.fetched)));
    assert forall|i: int| 0 <= i < p.len() implies no_char(#[trigger] p[i].0, '\n') && p[i].0.len()
        > 0 && stub_value_ok(p[i].1) by {}
    lemma_kv_text_lines(p);
    lemma_stub_text_pairs(m);
    assert(p.map_values(|kv: (Seq<char>, Seq<char>)| kv_joined(kv)) =~= stub_line_texts(m));
}

/// The fields that the seven canonical lines set.
pub open spec fn stub_fields_of(m: StubMetaView) -> StubFields {
    StubFields {
        chunks: Some(m.chunks),
        compressed: Some(m.compressed),
        fetched: Some(m.fetched),
        oid: Some(m.oid),
        origin: Some(m.origin),
        size: Some(m.size),
        found_version: true,
    }
}

#[verifier::spinoff_prover]
proof fn lemma_stub_fold(m: StubMetaView)
    ensures
        stub_lines_from(stub_line_texts(m), 0, no_stub_fields()) == Ok::<StubFields, StubError>(
            stub_fields_of(m),
        ),
{
    let ls = stub_line_texts(m);
    let v1 = dec_string(m.chunks as nat);
    let v2 = bit_char(m.compressed);
    let v3 = bit_char(m.fetched);
    let v6 = dec_string(m.size as nat);
    lemma_parse_dec_string(m.chunks as nat, usize::MAX as nat);
    lemma_parse_dec_string(m.size as nat, u64::MAX as nat);
    lemma_split_kv(key_version(), stub_version());
    lemma_split_kv(key_chunks(), v1);
    lemma_split_kv(key_compressed(), v2);
    lemma_split_kv(key_fetched(), v3);
    lemma_split_kv(key_oid(), m.oid);
    lemma_split_kv(key_origin(), m.origin);
    lemma_split_kv(key_size(), v6);
    assert(key_version() != key_chunks());
    assert(key_compressed()[1] != key_chunks()[1]);
    assert(key_fetched()[0] != key_chunks()[0]);
    assert(key_oid()[0] != key_chunks()[0]);
    assert(key_origin()[0] != key_chunks()[0]);
    assert(key_origin()[1] != key_oid()[1]);
    assert(key_size()[0] != key_chunks()[0]);
    assert(key_compressed() != key_version());
    assert(key_fetched() != key_version());
    assert(key_oid() != key_version());
    assert(key_origin() != key_version());
    assert(key_size() != key_version());
    assert(key_fetched() != key_compressed());
    assert(key_oid() != key_compressed());
    assert(key_origin() != key_compressed());
    assert(key_size() != key_compressed());
    assert(key_oid()[0] != key_fetched()[0]);
    assert(key_origin()[0] != key_fetched()[0]);
    assert(key_size() != key_fetched());
    assert(key_size() != key_oid());
    assert(key_size() != key_origin());
    assert(v2 == seq!['0'] <==> !m.compressed);
    assert(v3 == seq!['0'] <==> !m.fetched);
    let f0 = no_stub_fields();
    let f1 = StubFields { found_version: true, ..f0 };
    let f2 = StubFields { chunks: Some(m.chunks), ..f1 };
    let f3 = StubFields { compressed: Some(m.compressed), ..f2 };
    let f4 = StubFields { fetched: Some(m.fetched), ..f3 };
    let f5 = StubFields { oid: Some(m.oid), ..f4 };
    let f6 = StubFields { origin: Some(m.origin), ..f5 };
    let f7 = StubFields { size: Some(m.size), ..f6 };
    assert(f7 == stub_fields_of(m));
    assert(stub_line(f0, ls[0], 0) == Ok::<StubFields, StubError>(f1));
    assert(stub_line(f1, ls[1], 1) == Ok::<StubFields, StubError>(f2));
    assert(stub_line(f2, ls[2], 2) == Ok::<StubFields, StubError>(f3));
    assert(stub_line(f3, ls[3], 3) == Ok::<StubFields, StubError>(f4));
    assert(stub_line(f4, ls[4], 4) == Ok::<StubFields, StubError>(f5));
    assert(stub_line(f5, ls[5], 5) == Ok::<StubFields, StubError>(f6));
    assert(stub_line(f6, ls[6], 6) == Ok::<StubFields, StubError>(f7));
    assert(stub_lines_from(ls, 7, f7) == Ok::<StubFields, StubError>(f7));
    assert(stub_lines_from(ls, 6, f6) == Ok::<StubFields, StubError>(f7));
    assert(stub_lines_from(ls, 5, f5) == Ok::<StubFields, StubError>(f7));
    assert(stub_lines_from(ls, 4, f4) == Ok::<StubFields, StubError>(f7));
    assert(stub_lines_from(ls, 3, f3) == Ok::<StubFields, StubError>(f7));
    assert(stub_lines_from(ls, 2, f2) == Ok::<StubFields, StubError>(f7));
    assert(stub_lines_from(ls, 1, f1) == Ok::<StubFields, StubError>(f7));
}

/// Writing a stub and reading it back gives the same metadata, for every
/// stub whose `oid` and `origin` fit on one line.
pub proof fn lemma_stub_roundtrip(m: StubMetaView)
    requires
        stub_value_ok(m.oid),
        stub_value_ok(m.origin),
    ensures
        stub_parse(stub_text(m)) == Ok::<StubMetaView, StubError>(m),
{
    lemma_stub_text_lines(m);
    lemma_stub_fold(m);
}


// ── Other stub operations ────────────────────────────────────────────────────

pub open spec fn blake3_prefix() -> Seq<char> {
    seq!['b', 'l', 'a', 'k', 'e', '3', ':']
}

pub open spec fn seaweedfs_scheme() -> Seq<char> {
    seq!['s', 'e', 'a', 'w', 'e', 'e', 'd', 'f', 's', ':', '/', '/']
}

impl StubMeta {
    /// Serialize to the canonical stub wire format (UTF-8 bytes).
    pub fn to_bytes(&self) -> (b: Vec<u8>)
        ensures
            b@ == vstd::utf8::encode_utf8(stub_text(self@)),
    {
        let s = self.to_stub_string();
        vstd::slice::slice_to_vec(s.as_str().as_bytes())
    }

    /// Extract the BLAKE3 hex hash from the `oid` field ("blake3:{hex}").
    pub fn blake3_hex(&self) -> (r: Option<&str>)
        ensures
            has_prefix(self.oid@, blake3_prefix()) ==> (r matches Some(h) && h@ == self.oid@.subrange(
                7,
                self.oid@.len() as int,
            )),
            !has_prefix(self.oid@, blake3_prefix()) ==> r is None,
    {
        let oid = chars_of(self.oid.as_str());
        let p = ['b', 'l', 'a', 'k', 'e', '3', ':'];
        assert(p@ =~= blake3_prefix());
        if starts_with_at(oid.as_slice(), 0, &p) {
            assert(oid@.subrange(0, oid@.len() as int) =~= oid@);
            let n = oid.len();
            Some(self.oid.as_str().substring_char(7, n))
        } else {
            assert(oid@.subrange(0, oid@.len() as int) =~= oid@);
            None
        }
    }

    /// Build a stub for a file that has been pushed to remote storage.
    pub fn for_upload(
        manifest_hash: &str,
        size: u64,
        chunks: usize,
        remote_prefix: &str,
        rel_path: &str,
    ) -> (m: StubMeta)
        ensures
            m.chunks == chunks,
            !m.compressed,
            !m.fetched,
            m.oid@ == blake3_prefix() + manifest_hash@,
            m.origin@ == seaweedfs_scheme() + remote_prefix@ + seq!['/'] + rel_path@,
            m.size == size,
    {
        let mut oid = String::new();
        push_chars(&mut oid, &['b', 'l', 'a', 'k', 'e', '3', ':']);
        crate::text::push_str_chars(&mut oid, manifest_hash);
        let mut origin = String::new();
        push_chars(&mut origin, &['s', 'e', 'a', 'w', 'e', 'e', 'd', 'f', 's', ':', '/', '/']);
        crate::text::push_str_chars(&mut origin, remote_prefix);
        push_chars(&mut origin, &['/']);
        crate::text::push_str_chars(&mut origin, rel_path);
        assert(oid@ =~= blake3_prefix() + manifest_hash@);
        assert(origin@ =~= seaweedfs_scheme() + remote_prefix@ + seq!['/'] + rel_path@);
        StubMeta { chunks, compressed: false, fetched: false, oid, origin, size }
    }
}

/// Returns true if the path's extension is `tc` or `tcf`.
pub fn is_stub_path(path: &str) -> (b: bool)
    ensures
        b == (extension(path@) == Some(seq!['t', 'c']) || extension(path@) == Some(seq!['t', 'c', 'f'])),
{
    let p = chars_of(path);
    match extension_of(p.as_slice()) {
        None => false,
        Some(e) => {
            let b = chars_eq(e.as_slice(), &['t', 'c']) || chars_eq(e.as_slice(), &['t', 'c', 'f']);
            proof {
                assert(['t', 'c']@ =~= seq!['t', 'c']);
                assert(['t', 'c', 'f']@ =~= seq!['t', 'c', 'f']);
            }
            b
        },
    }
}

/// Strip a suffix.
pub open spec fn strip_suffix(s: Seq<char>, suffix: Seq<char>) -> Option<Seq<char>> {
    if has_suffix(s, suffix) {
        Some(s.subrange(0, s.len() - suffix.len()))
    } else {
        None
    }
}

fn ends_with_chars(s: &[char], suffix: &[char]) -> (b: bool)
    ensures
        b == has_suffix(s@, suffix@),
{
    if suffix.len() > s.len() {
        return false;
    }
    let b = starts_with_at(s, s.len() - suffix.len(), suffix);
    proof {
        let t = s@.subrange(s@.len() - suffix@.len(), s@.len() as int);
        assert(t.subrange(0, suffix@.len() as int) =~= t);
    }
    b
}

/// Convert a stub filename to the real filename by stripping `.tc` (or,
/// failing that, `.tcf`): `main.go.tc` → `main.go`.
pub fn stub_to_real_name(name: &str) -> (r: Option<String>)
    ensures
        r matches Some(n) ==> Some(n@) == (match strip_suffix(name@, seq!['.', 't', 'c']) {
            Some(x) => Some(x),
            None => strip_suffix(name@, seq!['.', 't', 'c', 'f']),
        }),
        r is None ==> strip_suffix(name@, seq!['.', 't', 'c']) is None && strip_suffix(
            name@,
            seq!['.', 't', 'c', 'f'],
        ) is None,
{
    let s = chars_of(name);
    let tc = ['.', 't', 'c'];
    let tcf = ['.', 't', 'c', 'f'];
    assert(tc@ =~= seq!['.', 't', 'c']);
    assert(tcf@ =~= seq!['.', 't', 'c', 'f']);
    if ends_with_chars(s.as_slice(), &tc) {
        Some(string_of(sub_chars(s.as_slice(), 0, s.len() - 3).as_slice()))
    } else if ends_with_chars(s.as_slice(), &tcf) {
        Some(string_of(sub_chars(s.as_slice(), 0, s.len() - 4).as_slice()))
    } else {
        None
    }
}

/// Convert a real filename to its stub name by appending `.tc`:
/// `main.go` → `main.go.tc`.
pub fn real_to_stub_name(name: &str) -> (r: String)
    ensures
        r@ == name@ + seq!['.', 't', 'c'],
{
    let mut r = String::new();
    crate::text::push_str_chars(&mut r, name);
    push_chars(&mut r, &['.', 't', 'c']);
    assert(r@ =~= name@ + seq!['.', 't', 'c']);
    r
}

// ── Index entries ────────────────────────────────────────────────────────────

/// Why an index entry was refused.
#[derive(Debug, Clone, Copy, PartialEq, Eq, Structural)]
pub enum IndexError {
    /// The `size` value is not a number.
    InvalidSize,
    /// The `chunks` value is not a number.
    InvalidChunks,
    /// No `manifest_hash` line.
    MissingManifestHash,
    /// No `size` line.
    MissingSize,
}

/// Metadata stored in an index entry at `{prefix}/index/{rel_path}`.
///
/// This is the lightweight record the FUSE driver uses for `getattr` and
/// `readdir` without fetching the full manifest.
#[derive(Debug, Clone)]
pub struct IndexEntry {
    pub manifest_hash: String,
    pub size: u64,
    pub chunks: usize,
}

pub struct IndexEntryView {
    pub manifest_hash: Seq<char>,
    pub size: u64,
    pub chunks: usize,
}

impl View for IndexEntry {
    type V = IndexEntryView;

    open spec fn view(&self) -> IndexEntryView {
        IndexEntryView { manifest_hash: self.manifest_hash@, size: self.size, chunks: self.chunks }
    }
}

pub struct IndexFields {
    pub manifest_hash: Option<Seq<char>>,
    pub size: Option<u64>,
    pub chunks: Option<usize>,
}

pub open spec fn key_manifest_hash() -> Seq<char> {
    seq!['m', 'a', 'n', 'i', 'f', 'e', 's', 't', '_', 'h', 'a', 's', 'h']
}

/// One index line applied to the fields read so far; lines without `=` and
/// unknown keys are skipped.
pub open spec fn index_line(f: IndexFields, line: Seq<char>) -> Result<IndexFields, IndexError> {
    match split_once(line, '=') {
        None => Ok(f),
        Some((k, v)) => {
            if k == key_manifest_hash() {
                Ok(IndexFields { manifest_hash: Some(v), ..f })
            } else if k == key_size() {
                match parse_u64_spec(v) {
                    None => Err(IndexError::InvalidSize),
                    Some(n) => Ok(IndexFields { size: Some(n), ..f }),
                }
            } else if k == key_chunks() {
                match parse_usize_spec(v) {
                    None => Err(IndexError::InvalidChunks),
                    Some(n) => Ok(IndexFields { chunks: Some(n), ..f }),
                }
            } else {
                Ok(f)
            }
        },
    }
}

pub open spec fn index_lines_from(ls: Seq<Seq<char>>, i: int, f: IndexFields) -> Result<IndexFields, IndexError>
    decreases ls.len() - i,
{
    if i < 0 || i >= ls.len() {
        Ok(f)
    } else {
        match index_line(f, ls[i]) {
            Err(e) => Err(e),
            Ok(g) => index_lines_from(ls, i + 1, g),
        }
    }
}

/// The result of parsing index-entry text.
pub open spec fn index_parse(content: Seq<char>) -> Result<IndexEntryView, IndexError> {
    match index_lines_from(
        text_lines(content),
        0,
        IndexFields { manifest_hash: None, size: None, chunks: None },
    ) {
        Err(e) => Err(e),
        Ok(f) => if f.manifest_hash is None {
            Err(IndexError::MissingManifestHash)
        } else if f.size is None {
            Err(IndexError::MissingSize)
        } else {
            Ok(
                IndexEntryView {
                    manifest_hash: f.manifest_hash->0,
                    size: f.size->0,
                    chunks: match f.chunks {
                        Some(n) => n,
                        None => 0,
                    },
                },
            )
        },
    }
}

/// `s` without every trailing `c`.
pub open spec fn trim_end_char(s: Seq<char>, c: char) -> Seq<char>
    decreases s.len(),
{
    if s.len() > 0 && s.last() == c {
        trim_end_char(s.drop_last(), c)
    } else {
        s
    }
}

pub(crate) fn trim_end_chars(s: &[char], c: char) -> (v: Vec<char>)
    ensures
        v@ == trim_end_char(s@, c),
{
    let mut n: usize = s.len();
    assert(s@.subrange(0, n as int) =~= s@);
    while n > 0 && s[n - 1] == c
        invariant
            n <= s@.len(),
            trim_end_char(s@, c) == trim_end_char(s@.subrange(0, n as int), c),
        decreases n,
    {
        assert(s@.subrange(0, n as int).drop_last() =~= s@.subrange(0, n - 1));
        n = n - 1;
    }
    sub_chars(s, 0, n)
}

pub open spec fn manifests_segment() -> Seq<char> {
    seq!['/', 'm', 'a', 'n', 'i', 'f', 'e', 's', 't', 's', '/']
}

impl IndexEntry {
    /// Parse an index entry from its text content.
    pub fn parse(content: &str) -> (r: Result<IndexEntry, IndexError>)
        ensures
            match r {
                Ok(e) => index_parse(content@) == Ok::<IndexEntryView, IndexError>(e@),
                Err(e) => index_parse(content@) == Err::<IndexEntryView, IndexError>(e),
            },
    {
        let text = chars_of(content);
        let ls = lines_of(text.as_slice());
        let k_hash = ['m', 'a', 'n', 'i', 'f', 'e', 's', 't', '_', 'h', 'a', 's', 'h'];
        let k_size = ['s', 'i', 'z', 'e'];
        let k_chunks = ['c', 'h', 'u', 'n', 'k', 's'];
        assert(k_hash@ =~= key_manifest_hash());
        assert(k_size@ =~= key_size());
        assert(k_chunks@ =~= key_chunks());
        let mut manifest_hash: Option<Vec<char>> = None;
        let mut size: Option<u64> = None;
        let mut chunks: Option<usize> = None;
        let ghost lines = text_lines(content@);
        let mut i: usize = 0;
        while i < ls.len()
            invariant
                ls@.len() == lines.len(),
                lines == text_lines(content@),
                forall|j: int| 0 <= j < ls@.len() ==> #[trigger] ls@[j]@ == lines[j],
                i <= ls@.len(),
                k_hash@ == key_manifest_hash(),
                k_size@ == key_size(),
                k_chunks@ == key_chunks(),
                index_lines_from(lines, 0, IndexFields { manifest_hash: None, size: None, chunks: None })
                    == index_lines_from(
                    lines,
                    i as int,
                    IndexFields {
                        manifest_hash: match manifest_hash {
                            Some(v) => Some(v@),
                            None => None,
                        },
                        size,
                        chunks,
                    },
                ),
            decreases ls@.len() - i,
        {
            let line = &ls[i];
            assert(line@ == lines[i as int]);
            match split_once_chars(line.as_slice(), '=') {
                None => {},
                Some((k, v)) => {
                    if chars_eq(k.as_slice(), &k_hash) {
                        manifest_hash = Some(v);
                    } else if chars_eq(k.as_slice(), &k_size) {
                        match parse_unsigned_chars(v.as_slice(), u64::MAX) {
                            None => {
                                return Err(IndexError::InvalidSize);
                            },
                            Some(n) => {
                                size = Some(n);
                            },
                        }
                    } else if chars_eq(k.as_slice(), &k_chunks) {
                        match parse_unsigned_chars(v.as_slice(), usize::MAX as u64) {
                            None => {
                                return Err(IndexError::InvalidChunks);
                            },
                            Some(n) => {
                                chunks = Some(n as usize);
                            },
                        }
                    }
                },
            }
            i = i + 1;
        }
        let manifest_hash = match manifest_hash {
            None => {
                return Err(IndexError::MissingManifestHash);
            },
            Some(v) => v,
        };
        let size = match size {
            None => {
                return Err(IndexError::MissingSize);
            },
            Some(n) => n,
        };
        Ok(
            IndexEntry {
                manifest_hash: string_of(manifest_hash.as_slice()),
                size,
                chunks: match chunks {
                    Some(n) => n,
                    None => 0,
                },
            },
        )
    }

    /// Manifest path under `{prefix}/manifests/`.
    pub fn manifest_path(&self, prefix: &str) -> (r: String)
        ensures
            r@ == trim_end_char(prefix@, '/') + manifests_segment() + self.manifest_hash@,
    {
        let p = chars_of(prefix);
        let t = trim_end_chars(p.as_slice(), '/');
        let mut r = string_of(t.as_slice());
        push_chars(&mut r, &['/', 'm', 'a', 'n', 'i', 'f', 'e', 's', 't', 's', '/']);
        crate::text::push_str_chars(&mut r, self.manifest_hash.as_str());
        assert(r@ =~= trim_end_char(prefix@, '/') + manifests_segment() + self.manifest_hash@);
        r
    }
}

} // verus!
