//! The argument scanner behind the `tcfs` command line: long options
//! (`--name value`, `--name=value`), short options (`-p value`, `-pvalue`,
//! `-p=value`), flags, `--` and positional arguments, with per-argument
//! value checks.
use vstd::prelude::*;
use crate::text::{
    chars_eq, parse_u16_spec, parse_u64_spec, parse_unsigned_chars, sub_chars,
};
use crate::stub::{split_once, split_once_chars};

verus! {

/// Why a command line was refused (or, for help and version, answered).
#[derive(Debug, Clone, Copy, PartialEq, Eq, Structural)]
pub enum CliError {
    /// `--help`, `-h` or the `help` subcommand was given.
    DisplayHelp,
    /// `--version` or `-V` was given.
    DisplayVersion,
    /// A subcommand is needed and none was given.
    MissingSubcommand,
    /// The subcommand name is not known.
    InvalidSubcommand,
    /// An option or positional argument that the command does not take.
    UnknownArgument,
    /// An option that needs a value was given none.
    MissingValue,
    /// A flag was given a value.
    UnexpectedValue,
    /// A value that the argument does not accept.
    InvalidValue,
    /// An argument was given twice.
    ArgumentRepeated,
    /// A required argument is missing.
    MissingRequired,
    /// Two arguments that exclude each other were both given.
    ArgumentConflict,
}

/// Kinds of argument values.
pub const KIND_ANY: u8 = 0;
pub const KIND_U16: u8 = 1;
pub const KIND_U64: u8 = 2;
pub const KIND_CHOICE: u8 = 3;
pub const KIND_FLAG: u8 = 4;

/// Marker for an option without a short form.
pub const NO_SHORT: char = '\0';

/// The options and positional arguments of one command.
pub struct Sig {
    pub longs: Vec<Vec<char>>,
    pub shorts: Vec<char>,
    pub kinds: Vec<u8>,
    pub choices: Vec<Vec<Vec<char>>>,
    pub max_pos: usize,
    pub pos_choices: Vec<Vec<Vec<char>>>,
}

pub struct SigView {
    pub longs: Seq<Seq<char>>,
    pub shorts: Seq<char>,
    pub kinds: Seq<u8>,
    pub choices: Seq<Seq<Seq<char>>>,
    pub max_pos: nat,
    pub pos_choices: Seq<Seq<Seq<char>>>,
}

pub open spec fn deep(v: Seq<Vec<char>>) -> Seq<Seq<char>> {
    v.map_values(|x: Vec<char>| x@)
}

pub open spec fn deep2(v: Seq<Vec<Vec<char>>>) -> Seq<Seq<Seq<char>>> {
    v.map_values(|x: Vec<Vec<char>>| deep(x@))
}

impl View for Sig {
    type V = SigView;

    open spec fn view(&self) -> SigView {
        SigView {
            longs: deep(self.longs@),
            shorts: self.shorts@,
            kinds: self.kinds@,
            choices: deep2(self.choices@),
            max_pos: self.max_pos as nat,
            pos_choices: deep2(self.pos_choices@),
        }
    }
}

impl SigView {
    pub open spec fn wf(self) -> bool {
        &&& self.shorts.len() == self.longs.len()
        &&& self.kinds.len() == self.longs.len()
        &&& self.choices.len() == self.longs.len()
        &&& self.pos_choices.len() == self.max_pos
    }
}

/// What has been read of a command's arguments.
pub struct Scan {
    /// The value given to each option (a flag that is set holds the empty text).
    pub vals: Seq<Option<Seq<char>>>,
    /// The positional arguments, in order.
    pub pos: Seq<Seq<char>>,
    /// Whether `--` has been read.
    pub dashdash: bool,
}

pub open spec fn empty_scan(n: nat) -> Scan {
    Scan { vals: Seq::new(n, |i: int| None::<Seq<char>>), pos: seq![], dashdash: false }
}

/// A token that reads as an option: a `-` followed by at least one more character.
pub open spec fn is_option_like(t: Seq<char>) -> bool {
    t.len() >= 2 && t[0] == '-'
}

/// The first index of `x` in `s`.
pub open spec fn index_of_text(s: Seq<Seq<char>>, x: Seq<char>) -> Option<int>
    decreases s.len(),
{
    if s.len() == 0 {
        None
    } else if s[0] == x {
        Some(0)
    } else {
        match index_of_text(s.drop_first(), x) {
            Some(i) => Some(i + 1),
            None => None,
        }
    }
}

pub open spec fn index_of_char(s: Seq<char>, c: char) -> Option<int>
    decreases s.len(),
{
    if s.len() == 0 {
        None
    } else if s[0] == c {
        Some(0)
    } else {
        match index_of_char(s.drop_first(), c) {
            Some(i) => Some(i + 1),
            None => None,
        }
    }
}

/// The option that `t` names, and the value written into the token itself.
pub open spec fn option_of(t: Seq<char>, sig: SigView) -> Option<(int, Option<Seq<char>>)> {
    if t.len() >= 2 && t[0] == '-' && t[1] == '-' {
        let body = t.subrange(2, t.len() as int);
        let (name, inline) = match split_once(body, '=') {
            Some((n, v)) => (n, Some(v)),
            None => (body, None),
        };
        match index_of_text(sig.longs, name) {
            Some(k) => Some((k, inline)),
            None => None,
        }
    } else if t.len() >= 2 && t[0] == '-' && t[1] != NO_SHORT {
        match index_of_char(sig.shorts, t[1]) {
            Some(k) => {
                let rest = t.subrange(2, t.len() as int);
                let inline = if rest.len() == 0 {
                    None
                } else if rest[0] == '=' {
                    Some(rest.subrange(1, rest.len() as int))
                } else {
                    Some(rest)
                };
                Some((k, inline))
            },
            None => None,
        }
    } else {
        None
    }
}

/// Whether `v` is a value that an argument of this kind accepts.
pub open spec fn value_ok(kind: u8, choices: Seq<Seq<char>>, v: Seq<char>) -> bool {
    if kind == KIND_U16 {
        parse_u16_spec(v) is Some
    } else if kind == KIND_U64 {
        parse_u64_spec(v) is Some
    } else if kind == KIND_CHOICE {
        choices.contains(v)
    } else {
        true
    }
}

pub open spec fn pos_ok(sig: SigView, k: int, v: Seq<char>) -> bool {
    let c = sig.pos_choices[k];
    c.len() == 0 || c.contains(v)
}

pub open spec fn dash_dash() -> Seq<char> {
    seq!['-', '-']
}

pub open spec fn is_help_token(t: Seq<char>) -> bool {
    t == seq!['-', '-', 'h', 'e', 'l', 'p'] || t == seq!['-', 'h']
}

/// Reading tokens `i..` of `toks` with the arguments of `sig`, in order;
/// the first refused token stops the reading.
pub open spec fn scan_from(toks: Seq<Seq<char>>, i: int, sig: SigView, st: Scan) -> Result<Scan, CliError>
    decreases toks.len() - i,
{
    if i < 0 || i >= toks.len() {
        Ok(st)
    } else {
        let t = toks[i];
        if st.dashdash || !is_option_like(t) {
            if st.pos.len() >= sig.max_pos {
                Err(CliError::UnknownArgument)
            } else if !pos_ok(sig, st.pos.len() as int, t) {
                Err(CliError::InvalidValue)
            } else {
                scan_from(toks, i + 1, sig, Scan { pos: st.pos.push(t), ..st })
            }
        } else if t == dash_dash() {
            scan_from(toks, i + 1, sig, Scan { dashdash: true, ..st })
        } else if is_help_token(t) {
            Err(CliError::DisplayHelp)
        } else {
            match option_of(t, sig) {
                None => Err(CliError::UnknownArgument),
                Some((k, inline)) => {
                    if st.vals[k] is Some {
                        Err(CliError::ArgumentRepeated)
                    } else if sig.kinds[k] == KIND_FLAG {
                        if inline is Some {
                            Err(CliError::UnexpectedValue)
                        } else {
                            scan_from(
                                toks,
                                i + 1,
                                sig,
                                Scan { vals: st.vals.update(k, Some(Seq::<char>::empty())), ..st },
                            )
                        }
                    } else {
                        match inline {
                            Some(v) => {
                                if value_ok(sig.kinds[k], sig.choices[k], v) {
                                    scan_from(
                                        toks,
                                        i + 1,
                                        sig,
                                        Scan { vals: st.vals.update(k, Some(v)), ..st },
                                    )
                                } else {
                                    Err(CliError::InvalidValue)
                                }
                            },
                            None => {
                                if i + 1 < toks.len() && !is_option_like(toks[i + 1]) {
                                    let v = toks[i + 1];
                                    if value_ok(sig.kinds[k], sig.choices[k], v) {
                                        scan_from(
                                            toks,
                                            i + 2,
                                            sig,
                                            Scan { vals: st.vals.update(k, Some(v)), ..st },
                                        )
                                    } else {
                                        Err(CliError::InvalidValue)
                                    }
                                } else {
                                    Err(CliError::MissingValue)
                                }
                            },
                        }
                    }
                },
            }
        }
    }
}

/// The arguments of a command: tokens `i..` read with `sig`.
pub open spec fn scan_args(toks: Seq<Seq<char>>, i: int, sig: SigView) -> Result<Scan, CliError> {
    scan_from(toks, i, sig, empty_scan(sig.longs.len()))
}

// ── Executable scanner ───────────────────────────────────────────────────────

pub struct ScanOut {
    pub vals: Vec<Option<Vec<char>>>,
    pub pos: Vec<Vec<char>>,
    pub dashdash: bool,
}

pub open spec fn deep_opt(v: Seq<Option<Vec<char>>>) -> Seq<Option<Seq<char>>> {
    v.map_values(|x: Option<Vec<char>>| match x {
        Some(y) => Some(y@),
        None => None,
    })
}

impl View for ScanOut {
    type V = Scan;

    open spec fn view(&self) -> Scan {
        Scan { vals: deep_opt(self.vals@), pos: deep(self.pos@), dashdash: self.dashdash }
    }
}

fn index_of_text_exec(s: &Vec<Vec<char>>, x: &[char]) -> (r: Option<usize>)
    ensures
        r matches Some(k) ==> index_of_text(deep(s@), x@) == Some(k as int) && k < s@.len(),
        r is None ==> index_of_text(deep(s@), x@) is None,
{
    let mut i: usize = 0;
    assert(deep(s@).subrange(0, s@.len() as int) =~= deep(s@));
    while i < s.len()
        invariant
            i <= s@.len(),
            index_of_text(deep(s@), x@) == match index_of_text(deep(s@).subrange(i as int, s@.len() as int), x@) {
                Some(j) => Some(j + i),
                None => None,
            },
        decreases s@.len() - i,
    {
        let ghost rest = deep(s@).subrange(i as int, s@.len() as int);
        assert(rest[0] == s@[i as int]@);
        assert(rest.drop_first() =~= deep(s@).subrange(i + 1, s@.len() as int));
        if chars_eq(s[i].as_slice(), x) {
            return Some(i);
        }
        i = i + 1;
    }
    assert(deep(s@).subrange(i as int, s@.len() as int) =~= Seq::<Seq<char>>::empty());
    None
}

fn index_of_char_exec(s: &Vec<char>, c: char) -> (r: Option<usize>)
    ensures
        r matches Some(k) ==> index_of_char(s@, c) == Some(k as int) && k < s@.len(),
        r is None ==> index_of_char(s@, c) is None,
{
    let mut i: usize = 0;
    assert(s@.subrange(0, s@.len() as int) =~= s@);
    while i < s.len()
        invariant
            i <= s@.len(),
            index_of_char(s@, c) == match index_of_char(s@.subrange(i as int, s@.len() as int), c) {
                Some(j) => Some(j + i),
                None => None,
            },
        decreases s@.len() - i,
    {
        let ghost rest = s@.subrange(i as int, s@.len() as int);
        assert(rest.drop_first() =~= s@.subrange(i + 1, s@.len() as int));
        if s[i] == c {
            return Some(i);
        }
        i = i + 1;
    }
    assert(s@.subrange(i as int, s@.len() as int) =~= Seq::<char>::empty());
    None
}

fn contains_text(s: &Vec<Vec<char>>, x: &[char]) -> (b: bool)
    ensures
        b == deep(s@).contains(x@),
{
    let r = index_of_text_exec(s, x);
    proof { lemma_index_of_text(deep(s@), x@); }
    r.is_some()
}

proof fn lemma_index_of_text(s: Seq<Seq<char>>, x: Seq<char>)
    ensures
        index_of_text(s, x) is Some <==> s.contains(x),
        index_of_text(s, x) matches Some(k) ==> 0 <= k < s.len() && s[k] == x,
    decreases s.len(),
{
    if s.len() > 0 {
        lemma_index_of_text(s.drop_first(), x);
        if s[0] != x {
            if s.contains(x) {
                let j = choose|j: int| 0 <= j < s.len() && s[j] == x;
                assert(s.drop_first()[j - 1] == x);
            }
            if s.drop_first().contains(x) {
                let j = choose|j: int| 0 <= j < s.len() - 1 && s.drop_first()[j] == x;
                assert(s[j + 1] == x);
            }
        }
    }
}

proof fn lemma_index_of_char(s: Seq<char>, c: char)
    ensures
        index_of_char(s, c) matches Some(k) ==> 0 <= k < s.len() && s[k] == c,
    decreases s.len(),
{
    if s.len() > 0 {
        lemma_index_of_char(s.drop_first(), c);
    }
}

fn value_ok_exec(kind: u8, choices: &Vec<Vec<char>>, v: &[char]) -> (b: bool)
    ensures
        b == value_ok(kind, deep(choices@), v@),
{
    if kind == KIND_U16 {
        parse_unsigned_chars(v, u16::MAX as u64).is_some()
    } else if kind == KIND_U64 {
        parse_unsigned_chars(v, u64::MAX).is_some()
    } else if kind == KIND_CHOICE {
        contains_text(choices, v)
    } else {
        true
    }
}

fn is_option_like_exec(t: &[char]) -> (b: bool)
    ensures
        b == is_option_like(t@),
{
    t.len() >= 2 && t[0] == '-'
}

pub fn is_help_exec(t: &[char]) -> (b: bool)
    ensures
        b == is_help_token(t@),
{
    let b = chars_eq(t, &['-', '-', 'h', 'e', 'l', 'p']) || chars_eq(t, &['-', 'h']);
    proof {
        assert(['-', '-', 'h', 'e', 'l', 'p']@ =~= seq!['-', '-', 'h', 'e', 'l', 'p']);
        assert(['-', 'h']@ =~= seq!['-', 'h']);
    }
    b
}

pub(crate) fn option_of_exec(t: &[char], sig: &Sig) -> (r: Option<(usize, Option<Vec<char>>)>)
    requires
        sig@.wf(),
    ensures
        match r {
            Some((k, inline)) => option_of(t@, sig@) == Some::<(int, Option<Seq<char>>)>(
                (
                    k as int,
                    match inline {
                        Some(v) => Some(v@),
                        None => None,
                    },
                ),
            ) && k < sig@.longs.len(),
            None => option_of(t@, sig@) is None,
        },
{
    if t.len() >= 2 && t[0] == '-' && t[1] == '-' {
        let body = sub_chars(t, 2, t.len());
        let (name, inline) = match split_once_chars(body.as_slice(), '=') {
            Some((n, v)) => (n, Some(v)),
            None => (body, None),
        };
        match index_of_text_exec(&sig.longs, name.as_slice()) {
            Some(k) => Some((k, inline)),
            None => None,
        }
    } else if t.len() >= 2 && t[0] == '-' && t[1] != NO_SHORT {
        match index_of_char_exec(&sig.shorts, t[1]) {
            Some(k) => {
                let rest = sub_chars(t, 2, t.len());
                let inline = if rest.len() == 0 {
                    None
                } else if rest[0] == '=' {
                    Some(sub_chars(rest.as_slice(), 1, rest.len()))
                } else {
                    Some(rest)
                };
                Some((k, inline))
            },
            None => None,
        }
    } else {
        None
    }
}

/// Reads tokens `i..` of `toks` with the arguments of `sig`.
pub fn scan_args_exec(toks: &Vec<Vec<char>>, i: usize, sig: &Sig) -> (r: Result<ScanOut, CliError>)
    requires
        sig@.wf(),
        i <= toks@.len(),
    ensures
        match r {
            Ok(s) => scan_args(deep(toks@), i as int, sig@) == Ok::<Scan, CliError>(s@),
            Err(e) => scan_args(deep(toks@), i as int, sig@) == Err::<Scan, CliError>(e),
        },
{
    let ghost ts = deep(toks@);
    let mut vals: Vec<Option<Vec<char>>> = Vec::new();
    let mut n: usize = 0;
    while n < sig.longs.len()
        invariant
            n <= sig@.longs.len(),
            vals@.len() == n,
            forall|j: int| 0 <= j < n ==> vals@[j] is None,
        decreases sig@.longs.len() - n,
    {
        vals.push(None);
        n = n + 1;
    }
    let mut out = ScanOut { vals, pos: Vec::new(), dashdash: false };
    assert(out@.vals =~= empty_scan(sig@.longs.len()).vals);
    assert(out@.pos =~= empty_scan(sig@.longs.len()).pos);
    let mut j: usize = i;
    while j < toks.len()
        invariant
            sig@.wf(),
            j <= toks@.len(),
            ts == deep(toks@),
            out@.vals.len() == sig@.longs.len(),
            out.vals@.len() == sig@.longs.len(),
            out@.pos.len() <= sig@.max_pos,
            scan_args(ts, i as int, sig@) == scan_from(ts, j as int, sig@, out@),
        decreases toks@.len() - j,
    {
        let t = &toks[j];
        assert(ts[j as int] == t@);
        if out.dashdash || !is_option_like_exec(t.as_slice()) {
            if out.pos.len() >= sig.max_pos {
                return Err(CliError::UnknownArgument);
            }
            let k = out.pos.len();
            let ch = &sig.pos_choices[k];
            assert(sig@.pos_choices[k as int] == deep(ch@));
            let ok = ch.len() == 0 || contains_text(ch, t.as_slice());
            if !ok {
                return Err(CliError::InvalidValue);
            }
            let ghost before = out@;
            out.pos.push(t.clone());
            assert(out@.pos =~= before.pos.push(t@));
            j = j + 1;
        } else if chars_eq(t.as_slice(), &['-', '-']) {
            proof { assert(['-', '-']@ =~= dash_dash()); }
            out.dashdash = true;
            j = j + 1;
        } else if is_help_exec(t.as_slice()) {
            proof { assert(['-', '-']@ =~= dash_dash()); }
            return Err(CliError::DisplayHelp);
        } else {
            proof { assert(['-', '-']@ =~= dash_dash()); }
            match option_of_exec(t.as_slice(), sig) {
                None => {
                    return Err(CliError::UnknownArgument);
                },
                Some((k, inline)) => {
                    if out.vals[k].is_some() {
                        return Err(CliError::ArgumentRepeated);
                    }
                    if sig.kinds[k] == KIND_FLAG {
                        if inline.is_some() {
                            return Err(CliError::UnexpectedValue);
                        }
                        let ghost before = out@;
                        out.vals.set(k, Some(Vec::new()));
                        assert(out@.vals =~= before.vals.update(k as int, Some(Seq::<char>::empty())));
                        j = j + 1;
                    } else {
                        let choices = &sig.choices[k];
                        assert(sig@.choices[k as int] == deep(choices@));
                        match inline {
                            Some(v) => {
                                if !value_ok_exec(sig.kinds[k], choices, v.as_slice()) {
                                    return Err(CliError::InvalidValue);
                                }
                                let ghost before = out@;
                                let ghost vv = v@;
                                out.vals.set(k, Some(v));
                                assert(out@.vals =~= before.vals.update(k as int, Some(vv)));
                                j = j + 1;
                            },
                            None => {
                                if j + 1 < toks.len() && !is_option_like_exec(toks[j + 1].as_slice()) {
                                    let v = toks[j + 1].clone();
                                    assert(ts[j + 1] == v@);
                                    if !value_ok_exec(sig.kinds[k], choices, v.as_slice()) {
                                        return Err(CliError::InvalidValue);
                                    }
                                    let ghost before = out@;
                                    let ghost vv = v@;
                                    out.vals.set(k, Some(v));
                                    assert(out@.vals =~= before.vals.update(k as int, Some(vv)));
                                    j = j + 2;
                                } else {
                                    return Err(CliError::MissingValue);
                                }
                            },
                        }
                    }
                },
            }
        }
    }
    Ok(out)
}

} // verus!
