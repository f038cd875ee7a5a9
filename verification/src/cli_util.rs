//! Small decisions and formats of the command-line client: durations,
//! uptimes, truncated columns, the `~/` expansion, version tags and the
//! update check.
use vstd::prelude::*;
use vstd::string::StringSliceAdditionalSpecFns;
use crate::cache::utf8_len;
use crate::hash::{blake3_digest, hash_bytes};
use crate::master_key::WrongKeySize;
use crate::paths::split_on;
use crate::stub::{manifests_segment, trim_end_char, trim_end_chars};
use crate::text::{
    chars_eq, chars_of, dec_string, dec_string_signed, find_char, first_index_of, format_i64, format_u64, lemma_first_index_of,
    has_prefix, is_unicode_whitespace, is_whitespace, parse_u64_spec, parse_unsigned_chars, push_chars, push_char,
    push_str_chars, starts_with_at, string_of, sub_chars, trim_chars, trim_spec,
};

verus! {

// ── Durations ────────────────────────────────────────────────────────────────

/// A duration in seconds as its largest whole unit: `45s`, `2m`, `3h`, `4d`.
pub open spec fn duration_text(secs: u64) -> Seq<char> {
    if secs < 60 {
        dec_string(secs as nat) + seq!['s']
    } else if secs < 3600 {
        dec_string((secs / 60) as nat) + seq!['m']
    } else if secs < 86400 {
        dec_string((secs / 3600) as nat) + seq!['h']
    } else {
        dec_string((secs / 86400) as nat) + seq!['d']
    }
}

/// Formats seconds as a human-readable duration.
pub fn format_duration(secs: u64) -> (r: String)
    ensures
        r@ == duration_text(secs),
{
    let (n, unit) = if secs < 60 {
        (secs, 's')
    } else if secs < 3600 {
        (secs / 60, 'm')
    } else if secs < 86400 {
        (secs / 3600, 'h')
    } else {
        (secs / 86400, 'd')
    };
    let mut r = string_of(format_u64(n).as_slice());
    push_char(&mut r, unit);
    r
}

/// An uptime in seconds: `42s` below a minute (negative values included),
/// `3m 20s` below an hour, `2h 5m` beyond.
pub open spec fn uptime_text(secs: i64) -> Seq<char> {
    if secs < 60 {
        dec_string_signed(secs as int) + seq!['s']
    } else if secs < 3600 {
        dec_string((secs / 60) as nat) + seq!['m', ' '] + dec_string((secs % 60) as nat) + seq!['s']
    } else {
        dec_string((secs / 3600) as nat) + seq!['h', ' '] + dec_string(((secs % 3600) / 60) as nat) + seq!['m']
    }
}

/// Formats a daemon uptime.
pub fn format_uptime(secs: i64) -> (r: String)
    ensures
        r@ == uptime_text(secs),
{
    if secs < 60 {
        let mut r = string_of(format_i64(secs).as_slice());
        push_char(&mut r, 's');
        r
    } else if secs < 3600 {
        let mut r = string_of(format_u64((secs / 60) as u64).as_slice());
        push_chars(&mut r, &['m', ' ']);
        push_chars(&mut r, format_u64((secs % 60) as u64).as_slice());
        push_char(&mut r, 's');
        assert(['m', ' ']@ =~= seq!['m', ' ']);
        r
    } else {
        let mut r = string_of(format_u64((secs / 3600) as u64).as_slice());
        push_chars(&mut r, &['h', ' ']);
        push_chars(&mut r, format_u64(((secs % 3600) / 60) as u64).as_slice());
        push_char(&mut r, 'm');
        assert(['h', ' ']@ =~= seq!['h', ' ']);
        r
    }
}

// ── Truncation ───────────────────────────────────────────────────────────────

/// The number of bytes that UTF-8 takes for `s`.
pub open spec fn utf8_width(s: Seq<char>) -> nat
    decreases s.len(),
{
    if s.len() == 0 {
        0
    } else {
        utf8_width(s.drop_last()) + utf8_len(s.last())
    }
}

/// The number of leading characters of `s` that take exactly `n` bytes, if
/// `n` falls between characters.
pub open spec fn chars_in_bytes(s: Seq<char>, n: nat) -> Option<int> {
    if exists|k: int| 0 <= k <= s.len() && #[trigger] utf8_width(s.take(k)) == n {
        Some(choose|k: int| 0 <= k <= s.len() && #[trigger] utf8_width(s.take(k)) == n)
    } else {
        None
    }
}

/// `s` cut to `max_len` bytes with `…` in place of what is cut:
/// `&s[..max_len - 1]` followed by `…`.
pub open spec fn truncated(s: Seq<char>, max_len: nat) -> Seq<char> {
    if utf8_width(s) <= max_len {
        s
    } else {
        let keep = if max_len > 0 { (max_len - 1) as nat } else { 0 };
        s.take(chars_in_bytes(s, keep)->0) + seq!['…']
    }
}

proof fn lemma_width_take_step(s: Seq<char>, k: int)
    requires
        0 <= k < s.len(),
    ensures
        utf8_width(s.take(k + 1)) == utf8_width(s.take(k)) + utf8_len(s[k]),
{
    assert(s.take(k + 1).drop_last() =~= s.take(k));
}

proof fn lemma_width_take_mono(s: Seq<char>, a: int, b: int)
    requires
        0 <= a <= b <= s.len(),
    ensures
        utf8_width(s.take(a)) <= utf8_width(s.take(b)),
        a < b ==> utf8_width(s.take(a)) < utf8_width(s.take(b)),
    decreases b - a,
{
    if a < b {
        lemma_width_take_mono(s, a, b - 1);
        lemma_width_take_step(s, b - 1);
    }
}

fn utf8_len_exec(c: char) -> (n: usize)
    ensures
        n == utf8_len(c),
{
    if (c as u32) < 0x80 {
        1
    } else if (c as u32) < 0x800 {
        2
    } else if (c as u32) < 0x10000 {
        3
    } else {
        4
    }
}

/// Truncates `s` to `max_len` bytes, ending it with `…` where it is cut. The
/// cut must fall between characters.
pub fn truncate_str(s: &str, max_len: usize) -> (r: String)
    requires
        utf8_width(s@) <= max_len || chars_in_bytes(s@, if max_len > 0 { (max_len - 1) as nat } else { 0 }) is Some,
    ensures
        r@ == truncated(s@, max_len as nat),
{
    let c = chars_of(s);
    let keep: usize = if max_len > 0 { max_len - 1 } else { 0 };
    let mut width: u128 = 0;
    let mut i: usize = 0;
    let mut cut: usize = 0;
    let mut found = keep == 0;
    assert(c@.take(0) =~= Seq::<char>::empty());
    while i < c.len()
        invariant
            c@ == s@,
            i <= c@.len(),
            width == utf8_width(c@.take(i as int)),
            width <= i * 4,
            found ==> cut <= i && utf8_width(c@.take(cut as int)) == keep,
            !found ==> forall|k: int| 0 <= k <= i ==> utf8_width(#[trigger] c@.take(k)) != keep,
        decreases c@.len() - i,
    {
        proof {
            lemma_width_take_step(c@, i as int);
        }
        width = width + utf8_len_exec(c[i]) as u128;
        i = i + 1;
        if !found && width == keep as u128 {
            found = true;
            cut = i;
        }
    }
    assert(c@.take(i as int) =~= s@);
    if width <= max_len as u128 {
        return string_of(c.as_slice());
    }
    proof {
        let k = chars_in_bytes(s@, keep as nat)->0;
        assert(0 <= k <= s@.len() && utf8_width(s@.take(k)) == keep);
        if !found {
            assert(utf8_width(c@.take(k)) != keep);
        }
        if k < cut {
            lemma_width_take_mono(s@, k, cut as int);
        } else if cut < k {
            lemma_width_take_mono(s@, cut as int, k);
        }
    }
    let head = sub_chars(c.as_slice(), 0, cut);
    let mut r = string_of(head.as_slice());
    push_char(&mut r, '…');
    assert(head@ =~= s@.take(cut as int));
    r
}

/// The first `n` bytes of `s` (all of it where it is shorter):
/// `&s[..n.min(s.len())]`.
pub open spec fn byte_prefix_spec(s: Seq<char>, n: nat) -> Seq<char> {
    if utf8_width(s) <= n {
        s
    } else {
        s.take(chars_in_bytes(s, n)->0)
    }
}

/// The first `n` bytes of `s`, or all of it where it is shorter; the cut
/// must fall between characters.
pub fn byte_prefix(s: &str, n: usize) -> (r: String)
    requires
        utf8_width(s@) <= n || chars_in_bytes(s@, n as nat) is Some,
    ensures
        r@ == byte_prefix_spec(s@, n as nat),
{
    let c = chars_of(s);
    let mut width: u128 = 0;
    let mut i: usize = 0;
    let mut cut: usize = 0;
    let mut found = n == 0;
    assert(c@.take(0) =~= Seq::<char>::empty());
    while i < c.len()
        invariant
            c@ == s@,
            i <= c@.len(),
            width == utf8_width(c@.take(i as int)),
            width <= i * 4,
            found ==> cut <= i && utf8_width(c@.take(cut as int)) == n,
            !found ==> forall|k: int| 0 <= k <= i ==> utf8_width(#[trigger] c@.take(k)) != n,
        decreases c@.len() - i,
    {
        proof {
            lemma_width_take_step(c@, i as int);
        }
        width = width + utf8_len_exec(c[i]) as u128;
        i = i + 1;
        if !found && width == n as u128 {
            found = true;
            cut = i;
        }
    }
    assert(c@.take(i as int) =~= s@);
    if width <= n as u128 {
        return string_of(c.as_slice());
    }
    proof {
        let k = chars_in_bytes(s@, n as nat)->0;
        assert(0 <= k <= s@.len() && utf8_width(s@.take(k)) == n);
        if !found {
            assert(utf8_width(c@.take(k)) != n);
        }
        if k < cut {
            lemma_width_take_mono(s@, k, cut as int);
        } else if cut < k {
            lemma_width_take_mono(s@, cut as int, k);
        }
    }
    let head = sub_chars(c.as_slice(), 0, cut);
    assert(head@ =~= s@.take(cut as int));
    string_of(head.as_slice())
}

// ── Paths ────────────────────────────────────────────────────────────────────

/// `~/rest` with `home` in place of `~`; other paths unchanged.
pub open spec fn expand_tilde_spec(path: Seq<char>, home: Seq<char>) -> Seq<char> {
    if path.len() >= 2 && path[0] == '~' && path[1] == '/' {
        home + seq!['/'] + path.skip(2)
    } else {
        path
    }
}

/// Expands a leading `~/` to the home directory (`HOME`, else `USERPROFILE`,
/// else empty, as the caller found it).
pub fn expand_tilde(path: &str, home: &str) -> (r: String)
    ensures
        r@ == expand_tilde_spec(path@, home@),
{
    let p = chars_of(path);
    if p.len() >= 2 && p[0] == '~' && p[1] == '/' {
        let mut r = string_of(chars_of(home).as_slice());
        push_char(&mut r, '/');
        let rest = sub_chars(p.as_slice(), 2, p.len());
        push_chars(&mut r, rest.as_slice());
        assert(rest@ =~= path@.skip(2));
        r
    } else {
        string_of(p.as_slice())
    }
}

// ── Remote prefixes ──────────────────────────────────────────────────────────

/// The remote prefix for a push or a remove: the one given, without its
/// trailing slashes, else the configured one.
pub open spec fn push_prefix_spec(given: Option<Seq<char>>, configured: Seq<char>) -> Seq<char> {
    match given {
        Some(p) => trim_end_char(p, '/'),
        None => configured,
    }
}

/// The remote prefix for a push: the one given (trailing slashes dropped),
/// else the configured one.
pub fn push_remote_prefix(given: Option<&str>, configured: &str) -> (r: String)
    ensures
        r@ == push_prefix_spec(
            match given {
                Some(p) => Some(p@),
                None => None,
            },
            configured@,
        ),
{
    match given {
        Some(p) => string_of(trim_end_chars(chars_of(p).as_slice(), '/').as_slice()),
        None => string_of(chars_of(configured).as_slice()),
    }
}

/// `pat` occurs in `s` at `k`.
pub open spec fn occurs_at(s: Seq<char>, pat: Seq<char>, k: int) -> bool {
    0 <= k && k + pat.len() <= s.len() && s.subrange(k, k + pat.len()) == pat
}

/// The last place at or before `n` where `pat` occurs in `s`.
pub open spec fn last_occurrence_from(s: Seq<char>, pat: Seq<char>, n: int) -> Option<int>
    decreases n + 1,
{
    if n < 0 {
        None
    } else if occurs_at(s, pat, n) {
        Some(n)
    } else {
        last_occurrence_from(s, pat, n - 1)
    }
}

/// The last place where `pat` occurs in `s` (`str::rsplit_once`).
pub open spec fn last_occurrence(s: Seq<char>, pat: Seq<char>) -> Option<int> {
    last_occurrence_from(s, pat, s.len() - pat.len())
}

proof fn lemma_last_occurrence_from(s: Seq<char>, pat: Seq<char>, n: int)
    ensures
        last_occurrence_from(s, pat, n) matches Some(k) ==> k <= n && occurs_at(s, pat, k),
    decreases n + 1,
{
    if n >= 0 && !occurs_at(s, pat, n) {
        lemma_last_occurrence_from(s, pat, n - 1);
    }
}

fn rfind_chars(s: &[char], pat: &[char]) -> (r: Option<usize>)
    ensures
        r matches Some(k) ==> last_occurrence(s@, pat@) == Some(k as int) && k + pat@.len() <= s@.len(),
        r is None ==> last_occurrence(s@, pat@) is None,
{
    proof {
        lemma_last_occurrence_from(s@, pat@, s@.len() - pat@.len());
    }
    if pat.len() > s.len() {
        return None;
    }
    let mut k: usize = s.len() - pat.len();
    loop
        invariant
            pat@.len() <= s@.len(),
            k <= s@.len() - pat@.len(),
            last_occurrence(s@, pat@) == last_occurrence_from(s@, pat@, k as int),
        decreases k,
    {
        let at = starts_with_at(s, k, pat);
        assert(at == occurs_at(s@, pat@, k as int)) by {
            assert(s@.subrange(k as int, s@.len() as int).subrange(0, pat@.len() as int) =~= s@.subrange(
                k as int,
                k + pat@.len(),
            ));
        }
        if at {
            return Some(k);
        }
        if k == 0 {
            return None;
        }
        k = k - 1;
    }
}

/// The remote prefix for a pull: the one given (trailing slashes dropped);
/// else, for a manifest path, what comes before its last `/manifests/`
/// (or, without one, its first `/`-separated piece); for a local file (a
/// path starting with `/` or `.`, or one that exists), the configured one.
pub open spec fn pull_prefix_spec(
    given: Option<Seq<char>>,
    manifest_path: Seq<char>,
    path_exists: bool,
    configured: Seq<char>,
) -> Seq<char> {
    match given {
        Some(p) => trim_end_char(p, '/'),
        None => {
            let is_file_path = (manifest_path.len() > 0 && (manifest_path[0] == '/' || manifest_path[0] == '.'))
                || path_exists;
            if is_file_path {
                configured
            } else {
                match last_occurrence(manifest_path, manifests_segment()) {
                    Some(k) => manifest_path.take(k),
                    None => match first_index_of(manifest_path, '/') {
                        Some(i) => manifest_path.take(i),
                        None => manifest_path,
                    },
                }
            }
        },
    }
}

/// The remote prefix that a pull works under (`path_exists`: whether the
/// argument names an existing local path).
pub fn pull_remote_prefix(given: Option<&str>, manifest_path: &str, path_exists: bool, configured: &str) -> (r: String)
    ensures
        r@ == pull_prefix_spec(
            match given {
                Some(p) => Some(p@),
                None => None,
            },
            manifest_path@,
            path_exists,
            configured@,
        ),
{
    if let Some(p) = given {
        return string_of(trim_end_chars(chars_of(p).as_slice(), '/').as_slice());
    }
    let m = chars_of(manifest_path);
    let is_file_path = (m.len() > 0 && (m[0] == '/' || m[0] == '.')) || path_exists;
    if is_file_path {
        return string_of(chars_of(configured).as_slice());
    }
    let seg: [char; 11] = ['/', 'm', 'a', 'n', 'i', 'f', 'e', 's', 't', 's', '/'];
    assert(seg@ =~= manifests_segment());
    match rfind_chars(m.as_slice(), seg.as_slice()) {
        Some(k) => {
            let head = sub_chars(m.as_slice(), 0, k);
            assert(head@ =~= manifest_path@.take(k as int));
            string_of(head.as_slice())
        },
        None => {
            proof {
                lemma_first_index_of(m@, '/');
            }
            match find_char(m.as_slice(), '/') {
                Some(i) => {
                    let head = sub_chars(m.as_slice(), 0, i);
                    assert(head@ =~= manifest_path@.take(i as int));
                    string_of(head.as_slice())
                },
                None => string_of(m.as_slice()),
            }
        },
    }
}

// ── Mounting ─────────────────────────────────────────────────────────────────

/// The NATS address that means "not configured".
pub open spec fn default_nats_url() -> Seq<char> {
    "nats://localhost:4222"@
}

/// What a direct mount is set up with.
#[derive(Debug, Clone)]
pub struct MountPlan {
    /// The options sent with a mount request to the daemon.
    pub options: Vec<String>,
    /// The name of the mount backend shown to the user.
    pub backend: String,
    /// The remote prefix as shown to the user (`(root)` for none).
    pub prefix_label: String,
    /// The size limit of the local cache, in bytes.
    pub cache_max_bytes: u64,
    /// Whether flushed files are announced over NATS (FUSE mounts with a
    /// configured NATS address).
    pub publish_flushes: bool,
    /// The master key file to read for decryption (FUSE mounts with
    /// encryption enabled).
    pub master_key_file: Option<String>,
}

/// Decides how to mount: over NFS loopback (`use_nfs`) or FUSE, with the
/// cache limit given in MiB.
pub fn plan_mount(
    use_nfs: bool,
    prefix: &str,
    cache_max_mb: u64,
    nats_url: &str,
    crypto_enabled: bool,
    master_key_file: Option<&str>,
) -> (r: MountPlan)
    requires
        cache_max_mb * 1048576 <= u64::MAX,
    ensures
        r.options@.len() == (if use_nfs { 1int } else { 0 }),
        use_nfs ==> r.options@[0]@ == "nfs"@,
        r.backend@ == (if use_nfs { "NFS loopback"@ } else { "FUSE"@ }),
        r.prefix_label@ == (if prefix@.len() == 0 { "(root)"@ } else { prefix@ }),
        r.cache_max_bytes == cache_max_mb * 1048576,
        r.publish_flushes == (!use_nfs && nats_url@ != default_nats_url()),
        match r.master_key_file {
            Some(f) => !use_nfs && crypto_enabled && (master_key_file matches Some(g) && f@ == g@),
            None => use_nfs || !crypto_enabled || master_key_file is None,
        },
{
    let mut options: Vec<String> = Vec::new();
    if use_nfs {
        options.push("nfs".to_owned());
    }
    let backend = if use_nfs { "NFS loopback".to_owned() } else { "FUSE".to_owned() };
    let prefix_label = if prefix.is_empty() { "(root)".to_owned() } else { prefix.to_owned() };
    let default_url = chars_of("nats://localhost:4222");
    let publish_flushes = !use_nfs && !crate::text::chars_eq(chars_of(nats_url).as_slice(), default_url.as_slice());
    let key_file = if !use_nfs && crypto_enabled {
        match master_key_file {
            Some(f) => Some(f.to_owned()),
            None => None,
        }
    } else {
        None
    };
    MountPlan {
        options,
        backend,
        prefix_label,
        cache_max_bytes: cache_max_mb * 1048576,
        publish_flushes,
        master_key_file: key_file,
    }
}

/// The manifest that a flushed file is announced under:
/// `{prefix}/manifests/{hash}`.
pub fn flush_manifest_path(prefix: &str, hash: &str) -> (r: String)
    ensures
        r@ == prefix@ + manifests_segment() + hash@,
{
    let mut r = prefix.to_owned();
    push_str_chars(&mut r, "/manifests/");
    push_str_chars(&mut r, hash);
    proof {
        reveal_strlit("/manifests/");
    }
    assert(r@ =~= prefix@ + manifests_segment() + hash@);
    r
}

// ── Enrollment and confirmations ─────────────────────────────────────────────

/// The first eight hexadecimal digits of the BLAKE3 hash of `s`, a short
/// tag for a device name.
pub fn blake3_short(s: &str) -> (r: String)
    ensures
        r@ == crate::names::hex_encode_spec(blake3_digest(s.spec_bytes())).take(8),
{
    let h = hash_bytes(s.as_bytes());
    proof {
        h.lemma_len();
        crate::names::lemma_hex_encode_layout(h@);
    }
    let hex = crate::hash::hash_to_hex(&h);
    let c = chars_of(hex.as_str());
    let head = sub_chars(c.as_slice(), 0, 8);
    assert(head@ =~= hex@.take(8));
    string_of(head.as_slice())
}

/// The key that signs device invites: the BLAKE3 hash of the master key
/// (which must have 32 bytes) where one is found, else the hash of the
/// fixed text `tcfs-fleet-invite-key`.
pub fn invite_signing_key(master_key: Option<&[u8]>) -> (r: Result<[u8; 32], WrongKeySize>)
    ensures
        master_key is None ==> (r matches Ok(k) && k@ == blake3_digest(
            vstd::utf8::encode_utf8("tcfs-fleet-invite-key"@),
        )),
        master_key matches Some(b) ==> (b@.len() == 32 <==> r is Ok),
        master_key matches Some(b) ==> (r matches Ok(k) ==> k@ == blake3_digest(b@)),
        master_key matches Some(b) ==> (r matches Err(e) ==> e.0 == b@.len()),
{
    match master_key {
        Some(b) => {
            if b.len() != 32 {
                return Err(WrongKeySize(b.len()));
            }
            Ok(*hash_bytes(b).as_bytes())
        },
        None => {
            let t = "tcfs-fleet-invite-key";
            Ok(*hash_bytes(t.as_bytes()).as_bytes())
        },
    }
}

/// The deep link that carries a compact-encoded invite.
pub fn enroll_deep_link(compact: &str) -> (r: String)
    ensures
        r@ == "tcfs://enroll?data="@ + compact@,
{
    let mut r = "tcfs://enroll?data=".to_owned();
    push_str_chars(&mut r, compact);
    r
}

/// Unicode lowercase (`str::to_lowercase`) of `s`.
pub uninterp spec fn unicode_lowercase(s: Seq<char>) -> Seq<char>;

/// `str::to_lowercase`.
#[verifier::external_body]
fn lowercase(s: &str) -> (r: String)
    ensures
        r@ == unicode_lowercase(s@),
{
    s.to_lowercase()
}

/// Whether an answer confirms that the recovery phrase was written down:
/// `yes` in any case, surrounding whitespace ignored.
pub fn confirms_written_down(answer: &str) -> (r: bool)
    ensures
        r == (unicode_lowercase(trim_spec(answer@)) == "yes"@),
{
    let t = string_of(trim_chars(chars_of(answer).as_slice()).as_slice());
    let l = lowercase(t.as_str());
    crate::text::chars_eq(chars_of(l.as_str()).as_slice(), chars_of("yes").as_slice())
}

/// Whether an answer confirms a key rotation: exactly `ROTATE`.
pub fn confirms_rotation(answer: &str) -> (r: bool)
    ensures
        r == (answer@ == "ROTATE"@),
{
    crate::text::chars_eq(chars_of(answer).as_slice(), chars_of("ROTATE").as_slice())
}

/// The whitespace-separated words of `s`, in order
/// (`str::split_whitespace`).
pub open spec fn words_of(s: Seq<char>) -> Seq<Seq<char>>
    decreases s.len(),
{
    if s.len() == 0 {
        seq![]
    } else {
        let w = words_of(s.drop_last());
        let c = s.last();
        if is_unicode_whitespace(c) {
            w
        } else if s.len() == 1 || is_unicode_whitespace(s[s.len() - 2]) {
            w.push(seq![c])
        } else {
            w.update(w.len() - 1, w.last().push(c))
        }
    }
}

proof fn lemma_words_nonempty_last(s: Seq<char>)
    requires
        s.len() > 0,
        !is_unicode_whitespace(s.last()),
    ensures
        words_of(s).len() > 0,
    decreases s.len(),
{
    if s.len() >= 2 && !is_unicode_whitespace(s[s.len() - 2]) {
        assert(s.drop_last().last() == s[s.len() - 2]);
        lemma_words_nonempty_last(s.drop_last());
    }
}

proof fn lemma_words_continue(s: Seq<char>)
    requires
        s.len() >= 2,
        !is_unicode_whitespace(s.last()),
        !is_unicode_whitespace(s[s.len() - 2]),
    ensures
        words_of(s.drop_last()).len() > 0,
{
    assert(s.drop_last().last() == s[s.len() - 2]);
    lemma_words_nonempty_last(s.drop_last());
}

/// Splits `s` into its whitespace-separated words.
pub fn split_words(s: &str) -> (r: Vec<Vec<char>>)
    ensures
        r@.len() == words_of(s@).len(),
        forall|i: int| 0 <= i < r@.len() ==> (#[trigger] r@[i])@ == words_of(s@)[i],
{
    let c = chars_of(s);
    let mut out: Vec<Vec<char>> = Vec::new();
    let mut i: usize = 0;
    assert(c@.take(0) =~= Seq::<char>::empty());
    while i < c.len()
        invariant
            c@ == s@,
            i <= c@.len(),
            out@.len() == words_of(c@.take(i as int)).len(),
            forall|k: int| 0 <= k < out@.len() ==> (#[trigger] out@[k])@ == words_of(c@.take(i as int))[k],
        decreases c@.len() - i,
    {
        let ghost t = c@.take(i + 1);
        assert(t.drop_last() =~= c@.take(i as int));
        assert(t.last() == c@[i as int]);
        if !is_whitespace(c[i]) {
            if i == 0 || is_whitespace(c[i - 1]) {
                let mut w: Vec<char> = Vec::new();
                w.push(c[i]);
                assert(w@ =~= seq![c@[i as int]]);
                out.push(w);
            } else {
                proof {
                    assert(t[t.len() - 2] == c@[i - 1]);
                    lemma_words_continue(t);
                }
                let last = out.len() - 1;
                let mut w = out[last].clone();
                assert(w@ == out@[last as int]@);
                w.push(c[i]);
                out.set(last, w);
            }
        }
        i = i + 1;
    }
    assert(c@.take(i as int) =~= s@);
    out
}

/// `n` right-aligned in two columns (`{:2}`).
pub open spec fn pad2(n: nat) -> Seq<char> {
    if n < 10 {
        seq![' '] + dec_string(n)
    } else {
        dec_string(n)
    }
}

/// Words joined with two spaces between them.
pub open spec fn join_words(ws: Seq<Seq<char>>) -> Seq<char>
    decreases ws.len(),
{
    if ws.len() == 0 {
        seq![]
    } else if ws.len() == 1 {
        ws[0]
    } else {
        join_words(ws.drop_last()) + seq![' ', ' '] + ws.last()
    }
}

/// Line `k` of a recovery phrase shown four words to a line, each line
/// numbered by its first word: `  {n:2}. w1  w2  w3  w4`.
pub open spec fn phrase_line(words: Seq<Seq<char>>, k: int) -> Seq<char> {
    let end = if 4 * k + 4 < words.len() { 4 * k + 4 } else { words.len() as int };
    seq![' ', ' '] + pad2((4 * k + 1) as nat) + seq!['.', ' '] + join_words(words.subrange(4 * k, end))
}

/// The lines that show a recovery phrase, four words to a line.
pub fn phrase_lines(phrase: &str) -> (r: Vec<String>)
    ensures
        r@.len() == (words_of(phrase@).len() + 3) / 4,
        forall|k: int| 0 <= k < r@.len() ==> (#[trigger] r@[k])@ == phrase_line(words_of(phrase@), k),
{
    let words = split_words(phrase);
    let ghost ws = words_of(phrase@);
    let n = words.len();
    let mut out: Vec<String> = Vec::new();
    let mut k: usize = 0;
    let mut first: usize = 0;
    while first < n
        invariant
            n == ws.len(),
            words@.len() == n,
            forall|i: int| 0 <= i < n ==> (#[trigger] words@[i])@ == ws[i],
            first <= n,
            first < n ==> first == 4 * k,
            first == n ==> 4 * k >= n && 4 * k <= n + 3,
            first == 0 ==> k == 0,
            k <= first,
            out@.len() == k,
            forall|j: int| 0 <= j < k ==> (#[trigger] out@[j])@ == phrase_line(ws, j),
        decreases n - first,
    {
        let end = if n - first > 4 { first + 4 } else { n };
        let mut line = "  ".to_owned();
        let num = first + 1;
        if num < 10 {
            push_char(&mut line, ' ');
        }
        push_chars(&mut line, format_u64(num as u64).as_slice());
        push_str_chars(&mut line, ". ");
        let ghost head = line@;
        let mut j = first;
        while j < end
            invariant
                first < end <= n,
                first <= j <= end,
                n == ws.len(),
                words@.len() == n,
                forall|i: int| 0 <= i < n ==> (#[trigger] words@[i])@ == ws[i],
                line@ == head + join_words(ws.subrange(first as int, j as int)),
            decreases end - j,
        {
            if j > first {
                push_str_chars(&mut line, "  ");
            }
            push_chars(&mut line, words[j].as_slice());
            proof {
                let part = ws.subrange(first as int, j + 1);
                assert(part.drop_last() =~= ws.subrange(first as int, j as int));
                assert(part.last() == ws[j as int]);
                if j == first {
                    assert(ws.subrange(first as int, j as int) =~= Seq::<Seq<char>>::empty());
                    assert(part.len() == 1);
                }
                reveal_strlit("  ");
            }
            j = j + 1;
        }
        proof {
            reveal_strlit("  ");
            reveal_strlit(". ");
            assert(line@ =~= phrase_line(ws, k as int));
        }
        out.push(line);
        k = k + 1;
        first = end;
    }
    assert(k == (n + 3) / 4) by (nonlinear_arith)
        requires
            4 * k >= n,
            4 * k <= n + 3,
    ;
    out
}

// ── Prefix migration ─────────────────────────────────────────────────────────

/// Where index entries to migrate are listed: the doubly prefixed entries
/// `{target}/index/{target}/`, and, where the bucket is not the target
/// prefix, the orphaned entries `{bucket}/index/` (trailing slashes of the
/// prefixes dropped).
pub open spec fn migration_sources_spec(target: Seq<char>, bucket: Seq<char>) -> (Seq<char>, Option<Seq<char>>) {
    let t = trim_end_char(target, '/');
    (
        t + "/index/"@ + t + "/"@,
        if bucket != target {
            Some(trim_end_char(bucket, '/') + "/index/"@)
        } else {
            None
        },
    )
}

/// The listing prefixes that a migration to `target` walks.
pub fn migration_sources(target: &str, bucket: &str) -> (r: (String, Option<String>))
    ensures
        r.0@ == migration_sources_spec(target@, bucket@).0,
        r.1 matches Some(o) ==> migration_sources_spec(target@, bucket@).1 == Some(o@),
        r.1 is None ==> migration_sources_spec(target@, bucket@).1 is None,
{
    let t = trim_end_chars(chars_of(target).as_slice(), '/');
    let mut double = string_of(t.as_slice());
    push_str_chars(&mut double, "/index/");
    push_chars(&mut double, t.as_slice());
    push_str_chars(&mut double, "/");
    let orphan = if crate::text::chars_eq(chars_of(bucket).as_slice(), chars_of(target).as_slice()) {
        None
    } else {
        let mut o = string_of(trim_end_chars(chars_of(bucket).as_slice(), '/').as_slice());
        push_str_chars(&mut o, "/index/");
        Some(o)
    };
    (double, orphan)
}

/// Where an entry listed under `source` moves to: `{target}/index/` and
/// what follows the source prefix (the whole key where it does not begin
/// with it); directory markers (ending in `/`) stay.
pub open spec fn migrated_key_spec(source: Seq<char>, old_key: Seq<char>, target: Seq<char>) -> Option<Seq<char>> {
    if old_key.len() > 0 && old_key.last() == '/' {
        None
    } else {
        let rel = if has_prefix(old_key, source) {
            old_key.skip(source.len() as int)
        } else {
            old_key
        };
        Some(trim_end_char(target, '/') + "/index/"@ + rel)
    }
}

/// The key an index entry listed under `source` moves to, if it moves.
pub fn migrated_key(source: &str, old_key: &str, target: &str) -> (r: Option<String>)
    ensures
        r matches Some(k) ==> migrated_key_spec(source@, old_key@, target@) == Some(k@),
        r is None ==> migrated_key_spec(source@, old_key@, target@) is None,
{
    let k = chars_of(old_key);
    if k.len() > 0 && k[k.len() - 1] == '/' {
        return None;
    }
    let src = chars_of(source);
    let rel = if starts_with_at(k.as_slice(), 0, src.as_slice()) {
        assert(k@.subrange(0, k@.len() as int) =~= k@);
        let r = sub_chars(k.as_slice(), src.len(), k.len());
        assert(r@ =~= k@.skip(src@.len() as int));
        r
    } else {
        assert(k@.subrange(0, k@.len() as int) =~= k@);
        k
    };
    let mut out = string_of(trim_end_chars(chars_of(target).as_slice(), '/').as_slice());
    push_str_chars(&mut out, "/index/");
    push_chars(&mut out, rel.as_slice());
    Some(out)
}

/// What prefix migration does with one listed index entry.
#[derive(Debug, Clone, PartialEq, Eq)]
pub enum MigrationAction {
    /// A directory marker: left where it is.
    Skip,
    /// Move the entry to this key.
    Move(String),
    /// An orphaned entry whose target key already holds an entry: delete it.
    DeleteOrphan,
}

/// How many entries a migration moved and how many orphans it deleted.
#[derive(Debug, Clone, Copy, PartialEq, Eq, Structural)]
pub struct MigrationCounts {
    pub migrated: u32,
    pub deleted: u32,
}

/// Decides for one entry `old_key` listed under `source` (the orphan
/// prefix where `orphan`, else the doubly prefixed one). An entry that
/// moves goes to `migrated_key`; an orphan is deleted instead where its
/// target key already holds an entry (`target_exists`, which the caller
/// learns by reading the target key, and asks only of orphans).
pub fn migration_step(
    counts: MigrationCounts,
    source: &str,
    old_key: &str,
    target: &str,
    orphan: bool,
    target_exists: bool,
) -> (r: (MigrationCounts, MigrationAction))
    requires
        counts.migrated < u32::MAX,
        counts.deleted < u32::MAX,
    ensures
        match migrated_key_spec(source@, old_key@, target@) {
            None => r.0 == counts && r.1 is Skip,
            Some(k) => if orphan && target_exists {
                r.0 == (MigrationCounts { migrated: counts.migrated, deleted: (counts.deleted + 1) as u32 })
                    && r.1 is DeleteOrphan
            } else {
                r.0 == (MigrationCounts { migrated: (counts.migrated + 1) as u32, deleted: counts.deleted })
                    && (r.1 matches MigrationAction::Move(m) && m@ == k)
            },
        },
{
    match migrated_key(source, old_key, target) {
        None => (counts, MigrationAction::Skip),
        Some(k) => {
            if orphan && target_exists {
                (MigrationCounts { migrated: counts.migrated, deleted: counts.deleted + 1 }, MigrationAction::DeleteOrphan)
            } else {
                (MigrationCounts { migrated: counts.migrated + 1, deleted: counts.deleted }, MigrationAction::Move(k))
            }
        },
    }
}

// ── Conflicts ────────────────────────────────────────────────────────────────

/// How a sync conflict is resolved.
#[derive(Debug, Clone, Copy, PartialEq, Eq, Structural)]
pub enum ConflictChoice {
    KeepLocal,
    KeepRemote,
    KeepBoth,
    Defer,
}

/// The choice that an answer to the conflict prompt names (case and
/// surrounding whitespace ignored): `k`/`keep`/`local`, `r`/`remote`,
/// `b`/`both`, `d`/`defer`; `None` for anything else (the prompt repeats).
pub open spec fn choice_of_answer(answer: Seq<char>) -> Option<ConflictChoice> {
    let a = unicode_lowercase(trim_spec(answer));
    if a == "k"@ || a == "keep"@ || a == "local"@ {
        Some(ConflictChoice::KeepLocal)
    } else if a == "r"@ || a == "remote"@ {
        Some(ConflictChoice::KeepRemote)
    } else if a == "b"@ || a == "both"@ {
        Some(ConflictChoice::KeepBoth)
    } else if a == "d"@ || a == "defer"@ {
        Some(ConflictChoice::Defer)
    } else {
        None
    }
}

/// Reads an answer to the conflict prompt.
pub fn conflict_choice(answer: &str) -> (r: Option<ConflictChoice>)
    ensures
        r == choice_of_answer(answer@),
{
    let t = string_of(trim_chars(chars_of(answer).as_slice()).as_slice());
    let l = lowercase(t.as_str());
    let a = chars_of(l.as_str());
    let is = |w: &str| -> (b: bool)
        ensures
            b == (a@ == w@),
        { crate::text::chars_eq(a.as_slice(), chars_of(w).as_slice()) };
    if is("k") || is("keep") || is("local") {
        Some(ConflictChoice::KeepLocal)
    } else if is("r") || is("remote") {
        Some(ConflictChoice::KeepRemote)
    } else if is("b") || is("both") {
        Some(ConflictChoice::KeepBoth)
    } else if is("d") || is("defer") {
        Some(ConflictChoice::Defer)
    } else {
        None
    }
}

/// The resolution named in a request to the daemon: the strategy given
/// with `-` written `_`, else the one chosen at the prompt (`None` where
/// the conflict is deferred).
pub open spec fn resolution_spec(strategy: Option<Seq<char>>, chosen: ConflictChoice) -> Option<Seq<char>> {
    match strategy {
        Some(s) => Some(s.map_values(|c: char| if c == '-' { '_' } else { c })),
        None => match chosen {
            ConflictChoice::KeepLocal => Some("keep_local"@),
            ConflictChoice::KeepRemote => Some("keep_remote"@),
            ConflictChoice::KeepBoth => Some("keep_both"@),
            ConflictChoice::Defer => None,
        },
    }
}

/// The resolution to send for a conflict (see `resolution_spec`).
pub fn resolution_request(strategy: Option<&str>, chosen: ConflictChoice) -> (r: Option<String>)
    ensures
        r matches Some(t) ==> resolution_spec(
            match strategy {
                Some(s) => Some(s@),
                None => None,
            },
            chosen,
        ) == Some(t@),
        r is None ==> resolution_spec(
            match strategy {
                Some(s) => Some(s@),
                None => None,
            },
            chosen,
        ) is None,
{
    match strategy {
        Some(s) => {
            let c = chars_of(s);
            let mut out: Vec<char> = Vec::new();
            let mut i: usize = 0;
            while i < c.len()
                invariant
                    i <= c@.len(),
                    out@ == c@.take(i as int).map_values(|x: char| if x == '-' { '_' } else { x }),
                decreases c@.len() - i,
            {
                out.push(if c[i] == '-' { '_' } else { c[i] });
                assert(c@.take(i + 1).map_values(|x: char| if x == '-' { '_' } else { x }) =~= out@);
                i = i + 1;
            }
            assert(c@.take(i as int) =~= c@);
            Some(string_of(out.as_slice()))
        },
        None => match chosen {
            ConflictChoice::KeepLocal => Some("keep_local".to_owned()),
            ConflictChoice::KeepRemote => Some("keep_remote".to_owned()),
            ConflictChoice::KeepBoth => Some("keep_both".to_owned()),
            ConflictChoice::Defer => None,
        },
    }
}

// ── Versions ─────────────────────────────────────────────────────────────────

/// A release tag without its leading `v`.
pub open spec fn version_of_tag(tag: Seq<char>) -> Seq<char> {
    if tag.len() > 0 && tag[0] == 'v' {
        tag.skip(1)
    } else {
        tag
    }
}

/// The version that a release tag names (`v1.2.3` names `1.2.3`).
pub fn version_from_tag(tag: &str) -> (r: String)
    ensures
        r@ == version_of_tag(tag@),
{
    let t = chars_of(tag);
    if t.len() > 0 && t[0] == 'v' {
        let rest = sub_chars(t.as_slice(), 1, t.len());
        assert(rest@ =~= tag@.skip(1));
        string_of(rest.as_slice())
    } else {
        string_of(t.as_slice())
    }
}

/// The first three `.`-separated numbers of a version, if it has at least
/// three pieces and they are numbers (`str::parse::<u64>`).
pub open spec fn semver_triple(v: Seq<char>) -> Option<(u64, u64, u64)> {
    let parts = split_on(v, '.');
    if parts.len() >= 3 {
        match (parse_u64_spec(parts[0]), parse_u64_spec(parts[1]), parse_u64_spec(parts[2])) {
            (Some(a), Some(b), Some(c)) => Some((a, b, c)),
            _ => None,
        }
    } else {
        None
    }
}

/// `a` comes after `b` in the lexicographic order of triples.
pub open spec fn triple_after(a: (u64, u64, u64), b: (u64, u64, u64)) -> bool {
    a.0 > b.0 || (a.0 == b.0 && (a.1 > b.1 || (a.1 == b.1 && a.2 > b.2)))
}

/// Whether a notice of a newer version is due: both versions read as
/// triples and the latest comes after the current one.
pub open spec fn update_available_spec(current: Seq<char>, latest: Seq<char>) -> bool {
    match (semver_triple(current), semver_triple(latest)) {
        (Some(c), Some(l)) => triple_after(l, c),
        _ => false,
    }
}

/// The piece of `s` before the first `.`, and what follows it if there is
/// one.
fn split_dot(s: &[char]) -> (r: (Vec<char>, Option<Vec<char>>))
    ensures
        split_on(s@, '.')[0] == r.0@,
        r.1 matches Some(rest) ==> split_on(s@, '.') == seq![r.0@] + split_on(rest@, '.'),
        r.1 is None ==> split_on(s@, '.') == seq![s@] && r.0@ == s@,
{
    proof {
        lemma_first_index_of(s@, '.');
    }
    match find_char(s, '.') {
        Some(i) => {
            let n = s.len();
            assert(i < n);
            let head = sub_chars(s, 0, i);
            let rest = sub_chars(s, i + 1, n);
            (head, Some(rest))
        },
        None => (sub_chars(s, 0, s.len()), None),
    }
}

fn semver_triple_exec(v: &str) -> (r: Option<(u64, u64, u64)>)
    ensures
        r == semver_triple(v@),
{
    let c = chars_of(v);
    let (p0, r0) = split_dot(c.as_slice());
    let r0 = match r0 {
        Some(r) => r,
        None => {
            return None;
        },
    };
    let (p1, r1) = split_dot(r0.as_slice());
    let r1 = match r1 {
        Some(r) => r,
        None => {
            return None;
        },
    };
    let (p2, _) = split_dot(r1.as_slice());
    let a = parse_unsigned_chars(p0.as_slice(), u64::MAX);
    let b = parse_unsigned_chars(p1.as_slice(), u64::MAX);
    let d = parse_unsigned_chars(p2.as_slice(), u64::MAX);
    match (a, b, d) {
        (Some(a), Some(b), Some(d)) => Some((a, b, d)),
        _ => None,
    }
}

/// Whether `latest` is a newer version than `current` (both read as
/// `major.minor.patch`; anything that does not read so gives no notice).
pub fn update_available(current: &str, latest: &str) -> (r: bool)
    ensures
        r == update_available_spec(current@, latest@),
{
    match (semver_triple_exec(current), semver_triple_exec(latest)) {
        (Some(c), Some(l)) => l.0 > c.0 || (l.0 == c.0 && (l.1 > c.1 || (l.1 == c.1 && l.2 > c.2))),
        _ => false,
    }
}

/// How long a cached version check stays valid: a day.
pub const VERSION_CHECK_TTL_SECS: u64 = 86400;

/// Whether a version check cached at `checked_at` is still valid at `now`.
pub fn version_cache_fresh(checked_at: u64, now: u64) -> (r: bool)
    requires
        checked_at + VERSION_CHECK_TTL_SECS <= u64::MAX,
    ensures
        r == (checked_at + VERSION_CHECK_TTL_SECS > now),
{
    checked_at + VERSION_CHECK_TTL_SECS > now
}

// ── Trash ────────────────────────────────────────────────────────────────────

/// `s` filled with spaces to `width` characters (`{:<width}`).
pub open spec fn pad_right(s: Seq<char>, width: nat) -> Seq<char> {
    if s.len() >= width {
        s
    } else {
        s + Seq::new((width - s.len()) as nat, |_i: int| ' ')
    }
}

/// Appends `s` filled with spaces to `width` characters.
fn push_padded(out: &mut String, s: &str, width: usize)
    ensures
        final(out)@ == old(out)@ + pad_right(s@, width as nat),
{
    let ghost start = out@;
    push_str_chars(out, s);
    let n = chars_of(s).len();
    let mut k = n;
    while k < width
        invariant
            n == s@.len(),
            n <= k,
            k <= width || k == n,
            out@ == start + s@ + Seq::new((k - n) as nat, |_i: int| ' '),
        decreases width - k,
    {
        push_char(out, ' ');
        proof {
            assert(Seq::new((k - n) as nat, |_i: int| ' ').push(' ') =~= Seq::new((k + 1 - n) as nat, |_i: int| ' '));
        }
        k = k + 1;
    }
    proof {
        if n >= width {
            assert(Seq::new((k - n) as nat, |_i: int| ' ') =~= Seq::<char>::empty());
            assert(out@ =~= start + s@);
        } else {
            assert(out@ =~= start + (s@ + Seq::new((width - n) as nat, |_i: int| ' ')));
        }
    }
}

/// How long ago something was trashed, in seconds (`0` for a time ahead of
/// `now`).
pub open spec fn trash_age(trashed_at: u64, now: u64) -> u64 {
    if now >= trashed_at { (now - trashed_at) as u64 } else { 0 }
}

/// A row of the trash listing: the original path (cut to 39 bytes) in a
/// column of 40, `{age} ago` in a column of 20, then the trash key.
pub open spec fn trash_row_text(original_path: Seq<char>, trashed_at: u64, now: u64, trash_key: Seq<char>) -> Seq<char> {
    pad_right(truncated(original_path, 39), 40) + seq![' '] + pad_right(
        duration_text(trash_age(trashed_at, now)) + seq![' ', 'a', 'g', 'o'],
        20,
    ) + seq![' '] + trash_key
}

/// Formats one trash entry for `tcfs trash list`; the cut of a long path
/// must fall between characters.
pub fn trash_row(original_path: &str, trashed_at: u64, now: u64, trash_key: &str) -> (r: String)
    requires
        utf8_width(original_path@) <= 39 || chars_in_bytes(original_path@, 38) is Some,
    ensures
        r@ == trash_row_text(original_path@, trashed_at, now, trash_key@),
{
    let shown = truncate_str(original_path, 39);
    let mut age = format_duration(now.saturating_sub(trashed_at));
    push_str_chars(&mut age, " ago");
    proof {
        reveal_strlit(" ago");
        assert(" ago"@ =~= seq![' ', 'a', 'g', 'o']);
    }
    let mut r = String::new();
    push_padded(&mut r, shown.as_str(), 40);
    push_char(&mut r, ' ');
    push_padded(&mut r, age.as_str(), 20);
    push_char(&mut r, ' ');
    push_str_chars(&mut r, trash_key);
    assert(r@ =~= trash_row_text(original_path@, trashed_at, now, trash_key@));
    r
}

/// The age beyond which `tcfs trash purge` removes entries: none with
/// `--all`, else the one given, else the configured retention.
pub fn purge_max_age(all: bool, older_than: Option<u64>, retention_secs: u64) -> (r: u64)
    ensures
        r == (if all {
            0
        } else {
            match older_than {
                Some(a) => a,
                None => retention_secs,
            }
        }),
{
    if all {
        0
    } else {
        match older_than {
            Some(a) => a,
            None => retention_secs,
        }
    }
}

/// The first trash entry (entries listed most recent first) whose original
/// path is `path`.
pub fn find_trash_entry(original_paths: &[String], path: &str) -> (r: Option<usize>)
    ensures
        match r {
            Some(i) => i < original_paths@.len() && original_paths@[i as int]@ == path@ && forall|j: int|
                0 <= j < i ==> (#[trigger] original_paths@[j])@ != path@,
            None => forall|j: int| 0 <= j < original_paths@.len() ==> (#[trigger] original_paths@[j])@ != path@,
        },
{
    let p = chars_of(path);
    let mut i: usize = 0;
    while i < original_paths.len()
        invariant
            p@ == path@,
            i <= original_paths@.len(),
            forall|j: int| 0 <= j < i ==> (#[trigger] original_paths@[j])@ != path@,
        decreases original_paths@.len() - i,
    {
        if chars_eq(chars_of(original_paths[i].as_str()).as_slice(), p.as_slice()) {
            return Some(i);
        }
        i = i + 1;
    }
    None
}

// ── Daemon status ────────────────────────────────────────────────────────────

/// What the daemon reports of itself.
#[derive(Debug, Clone)]
pub struct DaemonStatus {
    pub version: String,
    pub storage_endpoint: String,
    pub storage_ok: bool,
    pub nats_ok: bool,
    pub active_mounts: u64,
    pub uptime_secs: i64,
    pub device_id: String,
    pub device_name: String,
    pub conflict_mode: String,
}

/// What the daemon reports of its storage credentials.
#[derive(Debug, Clone)]
pub struct CredentialStatus {
    pub loaded: bool,
    pub source: String,
    pub needs_reload: bool,
}

/// The lines that `tcfs status` prints for a daemon's reports: the device
/// lines only where the daemon has a device id (shown by its first eight
/// bytes), the warning only where the credentials need a reload.
pub open spec fn status_lines(st: DaemonStatus, cr: CredentialStatus, socket: Seq<char>) -> Seq<Seq<char>> {
    let head = seq![
        "tcfsd v"@ + st.version@,
        "  uptime:        "@ + uptime_text(st.uptime_secs),
        "  socket:        "@ + socket,
    ];
    let device = if st.device_id@.len() > 0 {
        seq![
            "  device:        "@ + st.device_name@ + " ("@ + byte_prefix_spec(st.device_id@, 8) + ")"@,
            "  conflict mode: "@ + st.conflict_mode@,
        ]
    } else {
        Seq::<Seq<char>>::empty()
    };
    let body = seq![
        "  storage:       "@ + st.storage_endpoint@ + " ["@ + (if st.storage_ok {
            "ok"@
        } else {
            "UNREACHABLE"@
        }) + "]"@,
        "  nats:          "@ + (if st.nats_ok {
            "connected"@
        } else {
            "not connected"@
        }),
        "  active mounts: "@ + dec_string(st.active_mounts as nat),
        "  credentials:   "@ + (if cr.loaded {
            "loaded"@
        } else {
            "NOT LOADED"@
        }) + " (source: "@ + cr.source@ + ")"@,
    ];
    let warning = if cr.needs_reload {
        seq!["  WARNING: credentials need reload"@]
    } else {
        Seq::<Seq<char>>::empty()
    };
    head + device + body + warning
}

fn joined(a: &str, b: &str) -> (r: String)
    ensures
        r@ == a@ + b@,
{
    let mut r = a.to_owned();
    push_str_chars(&mut r, b);
    r
}

/// The report of `tcfs status`, line by line; a device id longer than
/// eight bytes must have a character boundary there.
pub fn status_report(st: &DaemonStatus, cr: &CredentialStatus, socket: &str) -> (r: Vec<String>)
    requires
        utf8_width(st.device_id@) <= 8 || chars_in_bytes(st.device_id@, 8) is Some,
    ensures
        r@.map_values(|l: String| l@) == status_lines(*st, *cr, socket@),
{
    let mut out: Vec<String> = Vec::new();
    out.push(joined("tcfsd v", st.version.as_str()));
    out.push(joined("  uptime:        ", format_uptime(st.uptime_secs).as_str()));
    out.push(joined("  socket:        ", socket));
    if !st.device_id.as_str().is_empty() {
        let mut d = joined("  device:        ", st.device_name.as_str());
        push_str_chars(&mut d, " (");
        push_str_chars(&mut d, byte_prefix(st.device_id.as_str(), 8).as_str());
        push_str_chars(&mut d, ")");
        out.push(d);
        out.push(joined("  conflict mode: ", st.conflict_mode.as_str()));
    }
    let mut storage = joined("  storage:       ", st.storage_endpoint.as_str());
    push_str_chars(&mut storage, " [");
    push_str_chars(&mut storage, if st.storage_ok { "ok" } else { "UNREACHABLE" });
    push_str_chars(&mut storage, "]");
    out.push(storage);
    out.push(joined("  nats:          ", if st.nats_ok { "connected" } else { "not connected" }));
    let mut mounts = "  active mounts: ".to_owned();
    push_chars(&mut mounts, format_u64(st.active_mounts).as_slice());
    out.push(mounts);
    let mut creds = joined("  credentials:   ", if cr.loaded { "loaded" } else { "NOT LOADED" });
    push_str_chars(&mut creds, " (source: ");
    push_str_chars(&mut creds, cr.source.as_str());
    push_str_chars(&mut creds, ")");
    out.push(creds);
    if cr.needs_reload {
        out.push("  WARNING: credentials need reload".to_owned());
    }
    proof {
        reveal_strlit("tcfsd v");
        reveal_strlit("  uptime:        ");
        reveal_strlit("  socket:        ");
        reveal_strlit("  device:        ");
        reveal_strlit(" (");
        reveal_strlit(")");
        reveal_strlit("  conflict mode: ");
        reveal_strlit("  storage:       ");
        reveal_strlit(" [");
        reveal_strlit("ok");
        reveal_strlit("UNREACHABLE");
        reveal_strlit("]");
        reveal_strlit("  nats:          ");
        reveal_strlit("connected");
        reveal_strlit("not connected");
        reveal_strlit("  active mounts: ");
        reveal_strlit("  credentials:   ");
        reveal_strlit("loaded");
        reveal_strlit("NOT LOADED");
        reveal_strlit(" (source: ");
        reveal_strlit("  WARNING: credentials need reload");
    }
    assert(out@.map_values(|l: String| l@) =~= status_lines(*st, *cr, socket@));
    out
}

} // verus!
