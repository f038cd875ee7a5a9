//! Transport bounds of the FileProvider's object storage: optional limits
//! read from the provider's JSON configuration (under their plain or
//! `storage_`-prefixed names) and from `TCFS_STORAGE_*` environment
//! variables, the configuration taking precedence.
use vstd::prelude::*;
use crate::text::{ascii_lower, chars_eq, chars_of, parse_u64_spec, parse_unsigned_chars, to_ascii_lowercase, trim_chars, trim_spec};

verus! {

// ── Scalars ──────────────────────────────────────────────────────────────────

/// `raw.trim().parse::<u64>()`, kept only where above zero.
pub open spec fn parse_positive_u64_spec(raw: Seq<char>) -> Option<u64> {
    match parse_u64_spec(trim_spec(raw)) {
        Some(v) => if v > 0 {
            Some(v)
        } else {
            None
        },
        None => None,
    }
}

/// `raw.trim().parse::<u64>()`.
pub open spec fn parse_u64_allow_zero_spec(raw: Seq<char>) -> Option<u64> {
    parse_u64_spec(trim_spec(raw))
}

/// The words read as `true` and `false`, in lowercase.
pub open spec fn bool_word(w: Seq<char>) -> Option<bool> {
    if w == seq!['1'] || w == seq!['t', 'r', 'u', 'e'] || w == seq!['y', 'e', 's'] || w == seq!['o', 'n'] {
        Some(true)
    } else if w == seq!['0'] || w == seq!['f', 'a', 'l', 's', 'e'] || w == seq!['n', 'o'] || w == seq![
        'o',
        'f',
        'f',
    ] {
        Some(false)
    } else {
        None
    }
}

/// A flag written as `1`/`true`/`yes`/`on` or `0`/`false`/`no`/`off`, in any
/// ASCII case, with surrounding whitespace.
pub open spec fn parse_bool_spec(raw: Seq<char>) -> Option<bool> {
    bool_word(trim_spec(raw).map_values(|c: char| ascii_lower(c)))
}

fn parse_trimmed_u64(raw: &str) -> (r: Option<u64>)
    ensures
        r == parse_u64_allow_zero_spec(raw@),
{
    let s = chars_of(raw);
    let t = trim_chars(s.as_slice());
    match parse_unsigned_chars(t.as_slice(), u64::MAX) {
        Some(v) => Some(v),
        None => None,
    }
}

/// A positive number, with surrounding whitespace.
pub fn parse_u64(raw: &str) -> (r: Option<u64>)
    ensures
        r == parse_positive_u64_spec(raw@),
{
    match parse_trimmed_u64(raw) {
        Some(v) => if v > 0 {
            Some(v)
        } else {
            None
        },
        None => None,
    }
}

/// A number, zero included, with surrounding whitespace.
pub fn parse_u64_allow_zero(raw: &str) -> (r: Option<u64>)
    ensures
        r == parse_u64_allow_zero_spec(raw@),
{
    parse_trimmed_u64(raw)
}

/// A flag, in any ASCII case, with surrounding whitespace.
pub fn parse_bool(raw: &str) -> (r: Option<bool>)
    ensures
        r == parse_bool_spec(raw@),
{
    let s = chars_of(raw);
    let t = trim_chars(s.as_slice());
    let w = to_ascii_lowercase(t.as_slice());
    let w = w.as_slice();
    proof {
        assert(['1']@ =~= seq!['1']);
        assert(['t', 'r', 'u', 'e']@ =~= seq!['t', 'r', 'u', 'e']);
        assert(['y', 'e', 's']@ =~= seq!['y', 'e', 's']);
        assert(['o', 'n']@ =~= seq!['o', 'n']);
        assert(['0']@ =~= seq!['0']);
        assert(['f', 'a', 'l', 's', 'e']@ =~= seq!['f', 'a', 'l', 's', 'e']);
        assert(['n', 'o']@ =~= seq!['n', 'o']);
        assert(['o', 'f', 'f']@ =~= seq!['o', 'f', 'f']);
    }
    if chars_eq(w, &['1']) || chars_eq(w, &['t', 'r', 'u', 'e']) || chars_eq(w, &['y', 'e', 's']) || chars_eq(
        w,
        &['o', 'n'],
    ) {
        Some(true)
    } else if chars_eq(w, &['0']) || chars_eq(w, &['f', 'a', 'l', 's', 'e']) || chars_eq(w, &['n', 'o'])
        || chars_eq(w, &['o', 'f', 'f']) {
        Some(false)
    } else {
        None
    }
}

// ── JSON ─────────────────────────────────────────────────────────────────────

/// A JSON number as `serde_json` holds it.
#[derive(Debug, Clone, Copy, PartialEq, Eq, Structural)]
pub enum JsonNumber {
    /// A non-negative integer.
    PosInt(u64),
    /// A negative integer.
    NegInt(i64),
    /// A number with a fraction or an exponent.
    Float,
}

/// A JSON value.
#[derive(Debug)]
pub enum JsonValue {
    Null,
    Bool(bool),
    Number(JsonNumber),
    String(String),
    Array(Vec<JsonValue>),
    /// The members of an object, in order, each name once.
    Object(Vec<(String, JsonValue)>),
}

/// A JSON object: its members in order, each name once.
#[derive(Debug)]
pub struct JsonObject {
    pub members: Vec<(String, JsonValue)>,
}

/// The value of the first member named `key`.
pub open spec fn json_member(members: Seq<(String, JsonValue)>, key: Seq<char>) -> Option<JsonValue>
    decreases members.len(),
{
    if members.len() == 0 {
        None
    } else if members[0].0@ == key {
        Some(members[0].1)
    } else {
        json_member(members.drop_first(), key)
    }
}

/// `Value::as_u64`.
pub open spec fn json_as_u64(v: JsonValue) -> Option<u64> {
    match v {
        JsonValue::Number(JsonNumber::PosInt(n)) => Some(n),
        _ => None,
    }
}

/// The number a member gives: a non-negative integer, or a string holding
/// one.
pub open spec fn json_number_value(v: JsonValue) -> Option<u64> {
    match json_as_u64(v) {
        Some(n) => Some(n),
        None => match v {
            JsonValue::String(s) => parse_u64_allow_zero_spec(s@),
            _ => None,
        },
    }
}

/// The flag a member gives: a boolean, a non-negative integer (non-zero is
/// true), or a string holding a flag word.
pub open spec fn json_flag_value(v: JsonValue) -> Option<bool> {
    match v {
        JsonValue::Bool(b) => Some(b),
        JsonValue::Number(JsonNumber::PosInt(n)) => Some(n != 0),
        JsonValue::String(s) => parse_bool_spec(s@),
        _ => None,
    }
}

/// The number under the first of `keys` that gives one.
pub open spec fn json_u64_spec(members: Seq<(String, JsonValue)>, keys: Seq<Seq<char>>) -> Option<u64>
    decreases keys.len(),
{
    if keys.len() == 0 {
        None
    } else {
        match json_member(members, keys[0]) {
            Some(v) => match json_number_value(v) {
                Some(n) => Some(n),
                None => json_u64_spec(members, keys.drop_first()),
            },
            None => json_u64_spec(members, keys.drop_first()),
        }
    }
}

/// The flag under the first of `keys` that gives one.
pub open spec fn json_bool_spec(members: Seq<(String, JsonValue)>, keys: Seq<Seq<char>>) -> Option<bool>
    decreases keys.len(),
{
    if keys.len() == 0 {
        None
    } else {
        match json_member(members, keys[0]) {
            Some(v) => match json_flag_value(v) {
                Some(b) => Some(b),
                None => json_bool_spec(members, keys.drop_first()),
            },
            None => json_bool_spec(members, keys.drop_first()),
        }
    }
}

/// The number of `json_u64_spec`, where it fits in `usize`.
pub open spec fn json_usize_spec(members: Seq<(String, JsonValue)>, keys: Seq<Seq<char>>) -> Option<usize> {
    match json_u64_spec(members, keys) {
        Some(n) => if n <= usize::MAX {
            Some(n as usize)
        } else {
            None
        },
        None => None,
    }
}

/// The views of the names in `keys`.
pub open spec fn key_views(keys: Seq<&str>) -> Seq<Seq<char>> {
    keys.map_values(|k: &str| k@)
}

pub(crate) fn member_of<'a>(config: &'a JsonObject, key: &str) -> (r: Option<&'a JsonValue>)
    ensures
        r matches Some(v) ==> json_member(config.members@, key@) == Some(*v),
        r is None ==> json_member(config.members@, key@) is None,
{
    let k = chars_of(key);
    let mut i: usize = 0;
    assert(config.members@.skip(0) =~= config.members@);
    while i < config.members.len()
        invariant
            i <= config.members@.len(),
            k@ == key@,
            json_member(config.members@, key@) == json_member(config.members@.skip(i as int), key@),
        decreases config.members@.len() - i,
    {
        let name = chars_of(config.members[i].0.as_str());
        assert(config.members@.skip(i as int).drop_first() =~= config.members@.skip(i + 1));
        if chars_eq(name.as_slice(), k.as_slice()) {
            return Some(&config.members[i].1);
        }
        i = i + 1;
    }
    assert(config.members@.skip(i as int) =~= Seq::<(String, JsonValue)>::empty());
    None
}

/// The number under the first of `keys` that gives one, as a non-negative
/// integer or a string holding one.
pub fn json_u64(config: &JsonObject, keys: &[&str]) -> (r: Option<u64>)
    ensures
        r == json_u64_spec(config.members@, key_views(keys@)),
{
    let mut i: usize = 0;
    assert(keys@.skip(0) =~= keys@);
    while i < keys.len()
        invariant
            i <= keys@.len(),
            json_u64_spec(config.members@, key_views(keys@)) == json_u64_spec(
                config.members@,
                key_views(keys@.skip(i as int)),
            ),
        decreases keys@.len() - i,
    {
        assert(key_views(keys@.skip(i as int)).drop_first() =~= key_views(keys@.skip(i + 1)));
        assert(key_views(keys@.skip(i as int))[0] == keys@[i as int]@);
        match member_of(config, keys[i]) {
            Some(v) => {
                let n = match v {
                    JsonValue::Number(JsonNumber::PosInt(n)) => Some(*n),
                    JsonValue::String(s) => parse_u64_allow_zero(s.as_str()),
                    _ => None,
                };
                if n.is_some() {
                    return n;
                }
            },
            None => {},
        }
        i = i + 1;
    }
    assert(key_views(keys@.skip(i as int)) =~= Seq::<Seq<char>>::empty());
    None
}

/// The number of `json_u64`, where it fits in `usize`.
pub fn json_usize(config: &JsonObject, keys: &[&str]) -> (r: Option<usize>)
    ensures
        r == json_usize_spec(config.members@, key_views(keys@)),
{
    match json_u64(config, keys) {
        Some(n) => if n as u128 <= usize::MAX as u128 {
            Some(n as usize)
        } else {
            None
        },
        None => None,
    }
}

/// The flag under the first of `keys` that gives one, as a boolean, a
/// non-negative integer (non-zero is true) or a string holding a flag word.
pub fn json_bool(config: &JsonObject, keys: &[&str]) -> (r: Option<bool>)
    ensures
        r == json_bool_spec(config.members@, key_views(keys@)),
{
    let mut i: usize = 0;
    assert(keys@.skip(0) =~= keys@);
    while i < keys.len()
        invariant
            i <= keys@.len(),
            json_bool_spec(config.members@, key_views(keys@)) == json_bool_spec(
                config.members@,
                key_views(keys@.skip(i as int)),
            ),
        decreases keys@.len() - i,
    {
        assert(key_views(keys@.skip(i as int)).drop_first() =~= key_views(keys@.skip(i + 1)));
        assert(key_views(keys@.skip(i as int))[0] == keys@[i as int]@);
        match member_of(config, keys[i]) {
            Some(v) => {
                let b = match v {
                    JsonValue::Bool(b) => Some(*b),
                    JsonValue::Number(JsonNumber::PosInt(n)) => Some(*n != 0),
                    JsonValue::String(s) => parse_bool(s.as_str()),
                    _ => None,
                };
                if b.is_some() {
                    return b;
                }
            },
            None => {},
        }
        i = i + 1;
    }
    assert(key_views(keys@.skip(i as int)) =~= Seq::<Seq<char>>::empty());
    None
}

// ── Bounds ───────────────────────────────────────────────────────────────────

/// Optional limits on the storage transport.
#[derive(Clone, Copy, Debug, PartialEq, Eq, Structural)]
pub struct StorageTransportBounds {
    pub allow_insecure_http: Option<bool>,
    pub max_concurrent_ops: Option<usize>,
    pub s3_connect_timeout_secs: Option<u64>,
    pub s3_pool_idle_timeout_secs: Option<u64>,
    pub s3_pool_max_idle_per_host: Option<usize>,
    pub s3_http1_only: Option<bool>,
}

/// `a`, or `b` where `a` is absent (`Option::or`).
pub open spec fn or_else<T>(a: Option<T>, b: Option<T>) -> Option<T> {
    match a {
        Some(x) => Some(x),
        None => b,
    }
}

/// Each bound of `a`, or of `b` where `a` has none.
pub open spec fn merged(a: StorageTransportBounds, b: StorageTransportBounds) -> StorageTransportBounds {
    StorageTransportBounds {
        allow_insecure_http: or_else(a.allow_insecure_http, b.allow_insecure_http),
        max_concurrent_ops: or_else(a.max_concurrent_ops, b.max_concurrent_ops),
        s3_connect_timeout_secs: or_else(a.s3_connect_timeout_secs, b.s3_connect_timeout_secs),
        s3_pool_idle_timeout_secs: or_else(a.s3_pool_idle_timeout_secs, b.s3_pool_idle_timeout_secs),
        s3_pool_max_idle_per_host: or_else(a.s3_pool_max_idle_per_host, b.s3_pool_max_idle_per_host),
        s3_http1_only: or_else(a.s3_http1_only, b.s3_http1_only),
    }
}

fn opt_or<T>(a: Option<T>, b: Option<T>) -> (r: Option<T>)
    ensures
        r == or_else(a, b),
{
    match a {
        Some(x) => Some(x),
        None => b,
    }
}

/// The transport settings that bounds override.
#[derive(Clone, Copy, Debug, PartialEq, Eq, Structural)]
pub struct TransportSettings {
    pub allow_insecure_http: bool,
    pub s3_connect_timeout_secs: u64,
    pub s3_pool_idle_timeout_secs: u64,
    pub s3_pool_max_idle_per_host: usize,
    pub s3_http1_only: bool,
}

/// `o`'s value where present, `d` otherwise.
pub open spec fn or_value<T>(o: Option<T>, d: T) -> T {
    match o {
        Some(x) => x,
        None => d,
    }
}

impl StorageTransportBounds {
    /// No bound set.
    pub fn none() -> (r: Self)
        ensures
            r.allow_insecure_http is None,
            r.max_concurrent_ops is None,
            r.s3_connect_timeout_secs is None,
            r.s3_pool_idle_timeout_secs is None,
            r.s3_pool_max_idle_per_host is None,
            r.s3_http1_only is None,
    {
        StorageTransportBounds {
            allow_insecure_http: None,
            max_concurrent_ops: None,
            s3_connect_timeout_secs: None,
            s3_pool_idle_timeout_secs: None,
            s3_pool_max_idle_per_host: None,
            s3_http1_only: None,
        }
    }

    /// Each bound of `self`, or of `fallback` where `self` has none.
    pub fn merge_missing(self, fallback: Self) -> (r: Self)
        ensures
            r == merged(self, fallback),
    {
        StorageTransportBounds {
            allow_insecure_http: opt_or(self.allow_insecure_http, fallback.allow_insecure_http),
            max_concurrent_ops: opt_or(self.max_concurrent_ops, fallback.max_concurrent_ops),
            s3_connect_timeout_secs: opt_or(self.s3_connect_timeout_secs, fallback.s3_connect_timeout_secs),
            s3_pool_idle_timeout_secs: opt_or(self.s3_pool_idle_timeout_secs, fallback.s3_pool_idle_timeout_secs),
            s3_pool_max_idle_per_host: opt_or(self.s3_pool_max_idle_per_host, fallback.s3_pool_max_idle_per_host),
            s3_http1_only: opt_or(self.s3_http1_only, fallback.s3_http1_only),
        }
    }

    /// Overrides the settings for which a bound is set.
    pub fn apply_to_storage_config(self, config: &mut TransportSettings)
        ensures
            final(config).allow_insecure_http == or_value(self.allow_insecure_http, old(config).allow_insecure_http),
            final(config).s3_connect_timeout_secs == or_value(
                self.s3_connect_timeout_secs,
                old(config).s3_connect_timeout_secs,
            ),
            final(config).s3_pool_idle_timeout_secs == or_value(
                self.s3_pool_idle_timeout_secs,
                old(config).s3_pool_idle_timeout_secs,
            ),
            final(config).s3_pool_max_idle_per_host == or_value(
                self.s3_pool_max_idle_per_host,
                old(config).s3_pool_max_idle_per_host,
            ),
            final(config).s3_http1_only == or_value(self.s3_http1_only, old(config).s3_http1_only),
    {
        if let Some(value) = self.allow_insecure_http {
            config.allow_insecure_http = value;
        }
        if let Some(value) = self.s3_connect_timeout_secs {
            config.s3_connect_timeout_secs = value;
        }
        if let Some(value) = self.s3_pool_idle_timeout_secs {
            config.s3_pool_idle_timeout_secs = value;
        }
        if let Some(value) = self.s3_pool_max_idle_per_host {
            config.s3_pool_max_idle_per_host = value;
        }
        if let Some(value) = self.s3_http1_only {
            config.s3_http1_only = value;
        }
    }

    /// The limit on concurrent operations; zero where none is set.
    pub fn max_concurrent_ops(self) -> (r: usize)
        ensures
            r == or_value(self.max_concurrent_ops, 0),
    {
        match self.max_concurrent_ops {
            Some(n) => n,
            None => 0,
        }
    }
}

/// The JSON names of each bound: the plain name, then the `storage_` one.
pub open spec fn names2(a: &str, b: &str) -> Seq<Seq<char>> {
    seq![a@, b@]
}

/// The bounds that a configuration object with `members` sets.
pub open spec fn json_bounds(members: Seq<(String, JsonValue)>) -> StorageTransportBounds {
    StorageTransportBounds {
        allow_insecure_http: json_bool_spec(members, names2("allow_insecure_http", "storage_allow_insecure_http")),
        max_concurrent_ops: json_usize_spec(members, names2("max_concurrent_ops", "storage_max_concurrent_ops")),
        s3_connect_timeout_secs: json_u64_spec(
            members,
            names2("s3_connect_timeout_secs", "storage_s3_connect_timeout_secs"),
        ),
        s3_pool_idle_timeout_secs: json_u64_spec(
            members,
            names2("s3_pool_idle_timeout_secs", "storage_s3_pool_idle_timeout_secs"),
        ),
        s3_pool_max_idle_per_host: json_usize_spec(
            members,
            names2("s3_pool_max_idle_per_host", "storage_s3_pool_max_idle_per_host"),
        ),
        s3_http1_only: json_bool_spec(members, names2("s3_http1_only", "storage_s3_http1_only")),
    }
}

/// The bounds that a configuration object sets.
pub fn bounds_from_json(config: &JsonObject) -> (r: StorageTransportBounds)
    ensures
        r == json_bounds(config.members@),
{
    let k1 = ["allow_insecure_http", "storage_allow_insecure_http"];
    let k2 = ["max_concurrent_ops", "storage_max_concurrent_ops"];
    let k3 = ["s3_connect_timeout_secs", "storage_s3_connect_timeout_secs"];
    let k4 = ["s3_pool_idle_timeout_secs", "storage_s3_pool_idle_timeout_secs"];
    let k5 = ["s3_pool_max_idle_per_host", "storage_s3_pool_max_idle_per_host"];
    let k6 = ["s3_http1_only", "storage_s3_http1_only"];
    assert(key_views(k1@) =~= names2("allow_insecure_http", "storage_allow_insecure_http"));
    assert(key_views(k2@) =~= names2("max_concurrent_ops", "storage_max_concurrent_ops"));
    assert(key_views(k3@) =~= names2("s3_connect_timeout_secs", "storage_s3_connect_timeout_secs"));
    assert(key_views(k4@) =~= names2("s3_pool_idle_timeout_secs", "storage_s3_pool_idle_timeout_secs"));
    assert(key_views(k5@) =~= names2("s3_pool_max_idle_per_host", "storage_s3_pool_max_idle_per_host"));
    assert(key_views(k6@) =~= names2("s3_http1_only", "storage_s3_http1_only"));
    StorageTransportBounds {
        allow_insecure_http: json_bool(config, k1.as_slice()),
        max_concurrent_ops: json_usize(config, k2.as_slice()),
        s3_connect_timeout_secs: json_u64(config, k3.as_slice()),
        s3_pool_idle_timeout_secs: json_u64(config, k4.as_slice()),
        s3_pool_max_idle_per_host: json_usize(config, k5.as_slice()),
        s3_http1_only: json_bool(config, k6.as_slice()),
    }
}

// ── Environment ──────────────────────────────────────────────────────────────

/// The value of the first variable named `name` in `env`.
pub open spec fn env_lookup(env: Seq<(String, String)>, name: Seq<char>) -> Option<Seq<char>>
    decreases env.len(),
{
    if env.len() == 0 {
        None
    } else if env[0].0@ == name {
        Some(env[0].1@)
    } else {
        env_lookup(env.drop_first(), name)
    }
}

fn env_var<'a>(env: &'a [(String, String)], name: &str) -> (r: Option<&'a str>)
    ensures
        r matches Some(v) ==> env_lookup(env@, name@) == Some(v@),
        r is None ==> env_lookup(env@, name@) is None,
{
    let k = chars_of(name);
    let mut i: usize = 0;
    assert(env@.skip(0) =~= env@);
    while i < env.len()
        invariant
            i <= env@.len(),
            k@ == name@,
            env_lookup(env@, name@) == env_lookup(env@.skip(i as int), name@),
        decreases env@.len() - i,
    {
        let n = chars_of(env[i].0.as_str());
        assert(env@.skip(i as int).drop_first() =~= env@.skip(i + 1));
        if chars_eq(n.as_slice(), k.as_slice()) {
            return Some(env[i].1.as_str());
        }
        i = i + 1;
    }
    assert(env@.skip(i as int) =~= Seq::<(String, String)>::empty());
    None
}

/// A positive number from the variable `name`.
pub open spec fn env_u64_spec(env: Seq<(String, String)>, name: Seq<char>) -> Option<u64> {
    match env_lookup(env, name) {
        Some(v) => parse_positive_u64_spec(v),
        None => None,
    }
}

/// A flag from the variable `name`.
pub open spec fn env_bool_spec(env: Seq<(String, String)>, name: Seq<char>) -> Option<bool> {
    match env_lookup(env, name) {
        Some(v) => parse_bool_spec(v),
        None => None,
    }
}

/// The number of `env_u64_spec`, where it fits in `usize`.
pub open spec fn env_usize_spec(env: Seq<(String, String)>, name: Seq<char>) -> Option<usize> {
    match env_u64_spec(env, name) {
        Some(n) => if n <= usize::MAX {
            Some(n as usize)
        } else {
            None
        },
        None => None,
    }
}

fn env_u64(env: &[(String, String)], name: &str) -> (r: Option<u64>)
    ensures
        r == env_u64_spec(env@, name@),
{
    match env_var(env, name) {
        Some(v) => parse_u64(v),
        None => None,
    }
}

fn env_usize(env: &[(String, String)], name: &str) -> (r: Option<usize>)
    ensures
        r == env_usize_spec(env@, name@),
{
    match env_u64(env, name) {
        Some(n) => if n as u128 <= usize::MAX as u128 {
            Some(n as usize)
        } else {
            None
        },
        None => None,
    }
}

fn env_bool(env: &[(String, String)], name: &str) -> (r: Option<bool>)
    ensures
        r == env_bool_spec(env@, name@),
{
    match env_var(env, name) {
        Some(v) => parse_bool(v),
        None => None,
    }
}

/// The bounds that the `TCFS_STORAGE_*` variables of `env` set.
pub open spec fn env_bounds(env: Seq<(String, String)>) -> StorageTransportBounds {
    StorageTransportBounds {
        allow_insecure_http: env_bool_spec(env, "TCFS_STORAGE_ALLOW_INSECURE_HTTP"@),
        max_concurrent_ops: env_usize_spec(env, "TCFS_STORAGE_MAX_CONCURRENT_OPS"@),
        s3_connect_timeout_secs: env_u64_spec(env, "TCFS_STORAGE_S3_CONNECT_TIMEOUT_SECS"@),
        s3_pool_idle_timeout_secs: env_u64_spec(env, "TCFS_STORAGE_S3_POOL_IDLE_TIMEOUT_SECS"@),
        s3_pool_max_idle_per_host: env_usize_spec(env, "TCFS_STORAGE_S3_POOL_MAX_IDLE_PER_HOST"@),
        s3_http1_only: env_bool_spec(env, "TCFS_STORAGE_S3_HTTP1_ONLY"@),
    }
}

/// The bounds that the `TCFS_STORAGE_*` variables of `env` set.
pub fn bounds_from_env(env: &[(String, String)]) -> (r: StorageTransportBounds)
    ensures
        r == env_bounds(env@),
{
    StorageTransportBounds {
        allow_insecure_http: env_bool(env, "TCFS_STORAGE_ALLOW_INSECURE_HTTP"),
        max_concurrent_ops: env_usize(env, "TCFS_STORAGE_MAX_CONCURRENT_OPS"),
        s3_connect_timeout_secs: env_u64(env, "TCFS_STORAGE_S3_CONNECT_TIMEOUT_SECS"),
        s3_pool_idle_timeout_secs: env_u64(env, "TCFS_STORAGE_S3_POOL_IDLE_TIMEOUT_SECS"),
        s3_pool_max_idle_per_host: env_usize(env, "TCFS_STORAGE_S3_POOL_MAX_IDLE_PER_HOST"),
        s3_http1_only: env_bool(env, "TCFS_STORAGE_S3_HTTP1_ONLY"),
    }
}

/// The bounds of the configuration, with the environment's filling the
/// gaps.
pub fn bounds_from_json_and_env(config: &JsonObject, env: &[(String, String)]) -> (r: StorageTransportBounds)
    ensures
        r == merged(json_bounds(config.members@), env_bounds(env@)),
{
    bounds_from_json(config).merge_missing(bounds_from_env(env))
}

// ── Credentials ──────────────────────────────────────────────────────────────

/// The text of the first member named `key`, where it is a string.
pub open spec fn json_text(members: Seq<(String, JsonValue)>, key: Seq<char>) -> Option<Seq<char>> {
    match json_member(members, key) {
        Some(JsonValue::String(s)) => Some(s@),
        _ => None,
    }
}

/// The object-store location and keys of a FileProvider configuration.
#[derive(Debug, Clone)]
pub struct S3Credentials {
    pub endpoint: String,
    pub bucket: String,
    pub access_key_id: String,
    pub secret_access_key: String,
}

/// What `s3_credentials_from_json` reads: `s3_endpoint`, `s3_bucket` (else
/// `tcfs`), `s3_access` and `s3_secret`; nothing where the endpoint or
/// either key is missing or empty.
pub open spec fn s3_credentials_spec(members: Seq<(String, JsonValue)>) -> Option<
    (Seq<char>, Seq<char>, Seq<char>, Seq<char>),
> {
    let endpoint = or_value(json_text(members, "s3_endpoint"@), seq![]);
    let bucket = or_value(json_text(members, "s3_bucket"@), "tcfs"@);
    let access = or_value(json_text(members, "s3_access"@), seq![]);
    let secret = or_value(json_text(members, "s3_secret"@), seq![]);
    if endpoint.len() == 0 || access.len() == 0 || secret.len() == 0 {
        None
    } else {
        Some((endpoint, bucket, access, secret))
    }
}

fn text_member(config: &JsonObject, key: &str, default: &str) -> (r: String)
    ensures
        r@ == or_value(json_text(config.members@, key@), default@),
{
    match member_of(config, key) {
        Some(JsonValue::String(t)) => t.clone(),
        _ => default.to_owned(),
    }
}

/// Reads the object-store location and keys that a FileProvider
/// configuration gives; `None` where the endpoint, the access key or the
/// secret is missing or empty.
pub fn s3_credentials_from_json(config: &JsonObject) -> (r: Option<S3Credentials>)
    ensures
        match s3_credentials_spec(config.members@) {
            Some((e, b, a, s)) => r matches Some(c) && c.endpoint@ == e && c.bucket@ == b && c.access_key_id@ == a
                && c.secret_access_key@ == s,
            None => r is None,
        },
{
    proof {
        reveal_strlit("s3_endpoint");
        reveal_strlit("s3_bucket");
        reveal_strlit("s3_access");
        reveal_strlit("s3_secret");
        reveal_strlit("tcfs");
        reveal_strlit("");
    }
    let endpoint = text_member(config, "s3_endpoint", "");
    let bucket = text_member(config, "s3_bucket", "tcfs");
    let access = text_member(config, "s3_access", "");
    let secret = text_member(config, "s3_secret", "");
    if endpoint.as_str().is_empty() || access.as_str().is_empty() || secret.as_str().is_empty() {
        return None;
    }
    Some(S3Credentials { endpoint, bucket, access_key_id: access, secret_access_key: secret })
}

} // verus!
