//! The `tcfs` command line: which subcommands exist, which options and
//! positional arguments each takes, their defaults and the environment
//! variables that stand in for them.
use vstd::prelude::*;
use crate::cliscan::{
    CliError, Scan, ScanOut, Sig, SigView, KIND_ANY, KIND_CHOICE, KIND_FLAG, KIND_U16, KIND_U64,
    NO_SHORT, deep, is_help_exec, is_help_token, is_option_like, option_of, scan_args, scan_from,
    scan_args_exec,
};
use crate::text::{chars_eq, chars_of, parse_u16_spec, parse_u64_spec, parse_unsigned_chars, string_of};

verus! {

fn text_vec(a: &[char]) -> (v: Vec<char>)
    ensures
        v@ == a@,
{
    vstd::slice::slice_to_vec(a)
}

pub open spec fn sig_none() -> SigView {
    SigView {
        longs: Seq::<Seq<char>>::empty(),
        shorts: Seq::<char>::empty(),
        kinds: Seq::<u8>::empty(),
        choices: Seq::<Seq<Seq<char>>>::empty(),
        max_pos: 0,
        pos_choices: Seq::<Seq<Seq<char>>>::empty(),
    }
}

fn mk_sig_none() -> (s: Sig)
    ensures
        s@ == sig_none(),
        s@.wf(),
{
    let mut longs: Vec<Vec<char>> = Vec::new();
    let mut shorts: Vec<char> = Vec::new();
    let mut kinds: Vec<u8> = Vec::new();
    let mut choices: Vec<Vec<Vec<char>>> = Vec::new();
    let mut pos_choices: Vec<Vec<Vec<char>>> = Vec::new();
    let s = Sig { longs, shorts, kinds, choices, max_pos: 0, pos_choices };
    proof {
        assert(s@.longs =~= sig_none().longs);
        assert(s@.shorts =~= sig_none().shorts);
        assert(s@.kinds =~= sig_none().kinds);
        assert(s@.choices =~= sig_none().choices);
        assert(s@.pos_choices =~= sig_none().pos_choices);
    }
    s
}

pub open spec fn sig_push() -> SigView {
    SigView {
        longs: seq![seq!['p', 'r', 'e', 'f', 'i', 'x'], seq!['s', 't', 'a', 't', 'e']],
        shorts: seq!['p', NO_SHORT],
        kinds: seq![KIND_ANY, KIND_ANY],
        choices: seq![Seq::<Seq<char>>::empty(), Seq::<Seq<char>>::empty()],
        max_pos: 1,
        pos_choices: seq![Seq::<Seq<char>>::empty()],
    }
}

fn mk_sig_push() -> (s: Sig)
    ensures
        s@ == sig_push(),
        s@.wf(),
{
    let mut longs: Vec<Vec<char>> = Vec::new();
    let mut shorts: Vec<char> = Vec::new();
    let mut kinds: Vec<u8> = Vec::new();
    let mut choices: Vec<Vec<Vec<char>>> = Vec::new();
    let mut pos_choices: Vec<Vec<Vec<char>>> = Vec::new();
    longs.push(text_vec(&['p', 'r', 'e', 'f', 'i', 'x']));
    shorts.push('p');
    kinds.push(KIND_ANY);
    let mut c: Vec<Vec<char>> = Vec::new();
    choices.push(c);
    longs.push(text_vec(&['s', 't', 'a', 't', 'e']));
    shorts.push(NO_SHORT);
    kinds.push(KIND_ANY);
    let mut c: Vec<Vec<char>> = Vec::new();
    choices.push(c);
    let mut c: Vec<Vec<char>> = Vec::new();
    pos_choices.push(c);
    let s = Sig { longs, shorts, kinds, choices, max_pos: 1, pos_choices };
    proof {
        assert(['p', 'r', 'e', 'f', 'i', 'x']@ =~= seq!['p', 'r', 'e', 'f', 'i', 'x']);
        assert(['s', 't', 'a', 't', 'e']@ =~= seq!['s', 't', 'a', 't', 'e']);
        assert(s@.longs =~= sig_push().longs);
        assert(s@.shorts =~= sig_push().shorts);
        assert(s@.kinds =~= sig_push().kinds);
        assert(s@.choices[0] =~= sig_push().choices[0]);
        assert(s@.choices[1] =~= sig_push().choices[1]);
        assert(s@.choices =~= sig_push().choices);
        assert(s@.pos_choices[0] =~= sig_push().pos_choices[0]);
        assert(s@.pos_choices =~= sig_push().pos_choices);
    }
    s
}

pub open spec fn sig_pull() -> SigView {
    SigView {
        longs: seq![seq!['p', 'r', 'e', 'f', 'i', 'x'], seq!['s', 't', 'a', 't', 'e']],
        shorts: seq!['p', NO_SHORT],
        kinds: seq![KIND_ANY, KIND_ANY],
        choices: seq![Seq::<Seq<char>>::empty(), Seq::<Seq<char>>::empty()],
        max_pos: 2,
        pos_choices: seq![Seq::<Seq<char>>::empty(), Seq::<Seq<char>>::empty()],
    }
}

fn mk_sig_pull() -> (s: Sig)
    ensures
        s@ == sig_pull(),
        s@.wf(),
{
    let mut longs: Vec<Vec<char>> = Vec::new();
    let mut shorts: Vec<char> = Vec::new();
    let mut kinds: Vec<u8> = Vec::new();
    let mut choices: Vec<Vec<Vec<char>>> = Vec::new();
    let mut pos_choices: Vec<Vec<Vec<char>>> = Vec::new();
    longs.push(text_vec(&['p', 'r', 'e', 'f', 'i', 'x']));
    shorts.push('p');
    kinds.push(KIND_ANY);
    let mut c: Vec<Vec<char>> = Vec::new();
    choices.push(c);
    longs.push(text_vec(&['s', 't', 'a', 't', 'e']));
    shorts.push(NO_SHORT);
    kinds.push(KIND_ANY);
    let mut c: Vec<Vec<char>> = Vec::new();
    choices.push(c);
    let mut c: Vec<Vec<char>> = Vec::new();
    pos_choices.push(c);
    let mut c: Vec<Vec<char>> = Vec::new();
    pos_choices.push(c);
    let s = Sig { longs, shorts, kinds, choices, max_pos: 2, pos_choices };
    proof {
        assert(['p', 'r', 'e', 'f', 'i', 'x']@ =~= seq!['p', 'r', 'e', 'f', 'i', 'x']);
        assert(['s', 't', 'a', 't', 'e']@ =~= seq!['s', 't', 'a', 't', 'e']);
        assert(s@.longs =~= sig_pull().longs);
        assert(s@.shorts =~= sig_pull().shorts);
        assert(s@.kinds =~= sig_pull().kinds);
        assert(s@.choices[0] =~= sig_pull().choices[0]);
        assert(s@.choices[1] =~= sig_pull().choices[1]);
        assert(s@.choices =~= sig_pull().choices);
        assert(s@.pos_choices[0] =~= sig_pull().pos_choices[0]);
        assert(s@.pos_choices[1] =~= sig_pull().pos_choices[1]);
        assert(s@.pos_choices =~= sig_pull().pos_choices);
    }
    s
}

pub open spec fn sig_sync_status() -> SigView {
    SigView {
        longs: seq![seq!['s', 't', 'a', 't', 'e']],
        shorts: seq![NO_SHORT],
        kinds: seq![KIND_ANY],
        choices: seq![Seq::<Seq<char>>::empty()],
        max_pos: 1,
        pos_choices: seq![Seq::<Seq<char>>::empty()],
    }
}

fn mk_sig_sync_status() -> (s: Sig)
    ensures
        s@ == sig_sync_status(),
        s@.wf(),
{
    let mut longs: Vec<Vec<char>> = Vec::new();
    let mut shorts: Vec<char> = Vec::new();
    let mut kinds: Vec<u8> = Vec::new();
    let mut choices: Vec<Vec<Vec<char>>> = Vec::new();
    let mut pos_choices: Vec<Vec<Vec<char>>> = Vec::new();
    longs.push(text_vec(&['s', 't', 'a', 't', 'e']));
    shorts.push(NO_SHORT);
    kinds.push(KIND_ANY);
    let mut c: Vec<Vec<char>> = Vec::new();
    choices.push(c);
    let mut c: Vec<Vec<char>> = Vec::new();
    pos_choices.push(c);
    let s = Sig { longs, shorts, kinds, choices, max_pos: 1, pos_choices };
    proof {
        assert(['s', 't', 'a', 't', 'e']@ =~= seq!['s', 't', 'a', 't', 'e']);
        assert(s@.longs =~= sig_sync_status().longs);
        assert(s@.shorts =~= sig_sync_status().shorts);
        assert(s@.kinds =~= sig_sync_status().kinds);
        assert(s@.choices[0] =~= sig_sync_status().choices[0]);
        assert(s@.choices =~= sig_sync_status().choices);
        assert(s@.pos_choices[0] =~= sig_sync_status().pos_choices[0]);
        assert(s@.pos_choices =~= sig_sync_status().pos_choices);
    }
    s
}

pub open spec fn sig_mount() -> SigView {
    SigView {
        longs: seq![seq!['r', 'e', 'a', 'd', '-', 'o', 'n', 'l', 'y'], seq!['n', 'f', 's'], seq!['n', 'f', 's', '-', 'p', 'o', 'r', 't']],
        shorts: seq![NO_SHORT, NO_SHORT, NO_SHORT],
        kinds: seq![KIND_FLAG, KIND_FLAG, KIND_U16],
        choices: seq![Seq::<Seq<char>>::empty(), Seq::<Seq<char>>::empty(), Seq::<Seq<char>>::empty()],
        max_pos: 2,
        pos_choices: seq![Seq::<Seq<char>>::empty(), Seq::<Seq<char>>::empty()],
    }
}

fn mk_sig_mount() -> (s: Sig)
    ensures
        s@ == sig_mount(),
        s@.wf(),
{
    let mut longs: Vec<Vec<char>> = Vec::new();
    let mut shorts: Vec<char> = Vec::new();
    let mut kinds: Vec<u8> = Vec::new();
    let mut choices: Vec<Vec<Vec<char>>> = Vec::new();
    let mut pos_choices: Vec<Vec<Vec<char>>> = Vec::new();
    longs.push(text_vec(&['r', 'e', 'a', 'd', '-', 'o', 'n', 'l', 'y']));
    shorts.push(NO_SHORT);
    kinds.push(KIND_FLAG);
    let mut c: Vec<Vec<char>> = Vec::new();
    choices.push(c);
    longs.push(text_vec(&['n', 'f', 's']));
    shorts.push(NO_SHORT);
    kinds.push(KIND_FLAG);
    let mut c: Vec<Vec<char>> = Vec::new();
    choices.push(c);
    longs.push(text_vec(&['n', 'f', 's', '-', 'p', 'o', 'r', 't']));
    shorts.push(NO_SHORT);
    kinds.push(KIND_U16);
    let mut c: Vec<Vec<char>> = Vec::new();
    choices.push(c);
    let mut c: Vec<Vec<char>> = Vec::new();
    pos_choices.push(c);
    let mut c: Vec<Vec<char>> = Vec::new();
    pos_choices.push(c);
    let s = Sig { longs, shorts, kinds, choices, max_pos: 2, pos_choices };
    proof {
        assert(['r', 'e', 'a', 'd', '-', 'o', 'n', 'l', 'y']@ =~= seq!['r', 'e', 'a', 'd', '-', 'o', 'n', 'l', 'y']);
        assert(['n', 'f', 's']@ =~= seq!['n', 'f', 's']);
        assert(['n', 'f', 's', '-', 'p', 'o', 'r', 't']@ =~= seq!['n', 'f', 's', '-', 'p', 'o', 'r', 't']);
        assert(s@.longs =~= sig_mount().longs);
        assert(s@.shorts =~= sig_mount().shorts);
        assert(s@.kinds =~= sig_mount().kinds);
        assert(s@.choices[0] =~= sig_mount().choices[0]);
        assert(s@.choices[1] =~= sig_mount().choices[1]);
        assert(s@.choices[2] =~= sig_mount().choices[2]);
        assert(s@.choices =~= sig_mount().choices);
        assert(s@.pos_choices[0] =~= sig_mount().pos_choices[0]);
        assert(s@.pos_choices[1] =~= sig_mount().pos_choices[1]);
        assert(s@.pos_choices =~= sig_mount().pos_choices);
    }
    s
}

pub open spec fn sig_one_pos() -> SigView {
    SigView {
        longs: Seq::<Seq<char>>::empty(),
        shorts: Seq::<char>::empty(),
        kinds: Seq::<u8>::empty(),
        choices: Seq::<Seq<Seq<char>>>::empty(),
        max_pos: 1,
        pos_choices: seq![Seq::<Seq<char>>::empty()],
    }
}

fn mk_sig_one_pos() -> (s: Sig)
    ensures
        s@ == sig_one_pos(),
        s@.wf(),
{
    let mut longs: Vec<Vec<char>> = Vec::new();
    let mut shorts: Vec<char> = Vec::new();
    let mut kinds: Vec<u8> = Vec::new();
    let mut choices: Vec<Vec<Vec<char>>> = Vec::new();
    let mut pos_choices: Vec<Vec<Vec<char>>> = Vec::new();
    let mut c: Vec<Vec<char>> = Vec::new();
    pos_choices.push(c);
    let s = Sig { longs, shorts, kinds, choices, max_pos: 1, pos_choices };
    proof {
        assert(s@.longs =~= sig_one_pos().longs);
        assert(s@.shorts =~= sig_one_pos().shorts);
        assert(s@.kinds =~= sig_one_pos().kinds);
        assert(s@.choices =~= sig_one_pos().choices);
        assert(s@.pos_choices[0] =~= sig_one_pos().pos_choices[0]);
        assert(s@.pos_choices =~= sig_one_pos().pos_choices);
    }
    s
}

pub open spec fn sig_unsync() -> SigView {
    SigView {
        longs: seq![seq!['f', 'o', 'r', 'c', 'e']],
        shorts: seq![NO_SHORT],
        kinds: seq![KIND_FLAG],
        choices: seq![Seq::<Seq<char>>::empty()],
        max_pos: 1,
        pos_choices: seq![Seq::<Seq<char>>::empty()],
    }
}

fn mk_sig_unsync() -> (s: Sig)
    ensures
        s@ == sig_unsync(),
        s@.wf(),
{
    let mut longs: Vec<Vec<char>> = Vec::new();
    let mut shorts: Vec<char> = Vec::new();
    let mut kinds: Vec<u8> = Vec::new();
    let mut choices: Vec<Vec<Vec<char>>> = Vec::new();
    let mut pos_choices: Vec<Vec<Vec<char>>> = Vec::new();
    longs.push(text_vec(&['f', 'o', 'r', 'c', 'e']));
    shorts.push(NO_SHORT);
    kinds.push(KIND_FLAG);
    let mut c: Vec<Vec<char>> = Vec::new();
    choices.push(c);
    let mut c: Vec<Vec<char>> = Vec::new();
    pos_choices.push(c);
    let s = Sig { longs, shorts, kinds, choices, max_pos: 1, pos_choices };
    proof {
        assert(['f', 'o', 'r', 'c', 'e']@ =~= seq!['f', 'o', 'r', 'c', 'e']);
        assert(s@.longs =~= sig_unsync().longs);
        assert(s@.shorts =~= sig_unsync().shorts);
        assert(s@.kinds =~= sig_unsync().kinds);
        assert(s@.choices[0] =~= sig_unsync().choices[0]);
        assert(s@.choices =~= sig_unsync().choices);
        assert(s@.pos_choices[0] =~= sig_unsync().pos_choices[0]);
        assert(s@.pos_choices =~= sig_unsync().pos_choices);
    }
    s
}

pub open spec fn sig_init() -> SigView {
    SigView {
        longs: seq![seq!['d', 'e', 'v', 'i', 'c', 'e', '-', 'n', 'a', 'm', 'e'], seq!['n', 'o', 'n', '-', 'i', 'n', 't', 'e', 'r', 'a', 'c', 't', 'i', 'v', 'e'], seq!['p', 'a', 's', 's', 'w', 'o', 'r', 'd']],
        shorts: seq![NO_SHORT, NO_SHORT, NO_SHORT],
        kinds: seq![KIND_ANY, KIND_FLAG, KIND_ANY],
        choices: seq![Seq::<Seq<char>>::empty(), Seq::<Seq<char>>::empty(), Seq::<Seq<char>>::empty()],
        max_pos: 0,
        pos_choices: Seq::<Seq<Seq<char>>>::empty(),
    }
}

fn mk_sig_init() -> (s: Sig)
    ensures
        s@ == sig_init(),
        s@.wf(),
{
    let mut longs: Vec<Vec<char>> = Vec::new();
    let mut shorts: Vec<char> = Vec::new();
    let mut kinds: Vec<u8> = Vec::new();
    let mut choices: Vec<Vec<Vec<char>>> = Vec::new();
    let mut pos_choices: Vec<Vec<Vec<char>>> = Vec::new();
    longs.push(text_vec(&['d', 'e', 'v', 'i', 'c', 'e', '-', 'n', 'a', 'm', 'e']));
    shorts.push(NO_SHORT);
    kinds.push(KIND_ANY);
    let mut c: Vec<Vec<char>> = Vec::new();
    choices.push(c);
    longs.push(text_vec(&['n', 'o', 'n', '-', 'i', 'n', 't', 'e', 'r', 'a', 'c', 't', 'i', 'v', 'e']));
    shorts.push(NO_SHORT);
    kinds.push(KIND_FLAG);
    let mut c: Vec<Vec<char>> = Vec::new();
    choices.push(c);
    longs.push(text_vec(&['p', 'a', 's', 's', 'w', 'o', 'r', 'd']));
    shorts.push(NO_SHORT);
    kinds.push(KIND_ANY);
    let mut c: Vec<Vec<char>> = Vec::new();
    choices.push(c);
    let s = Sig { longs, shorts, kinds, choices, max_pos: 0, pos_choices };
    proof {
        assert(['d', 'e', 'v', 'i', 'c', 'e', '-', 'n', 'a', 'm', 'e']@ =~= seq!['d', 'e', 'v', 'i', 'c', 'e', '-', 'n', 'a', 'm', 'e']);
        assert(['n', 'o', 'n', '-', 'i', 'n', 't', 'e', 'r', 'a', 'c', 't', 'i', 'v', 'e']@ =~= seq!['n', 'o', 'n', '-', 'i', 'n', 't', 'e', 'r', 'a', 'c', 't', 'i', 'v', 'e']);
        assert(['p', 'a', 's', 's', 'w', 'o', 'r', 'd']@ =~= seq!['p', 'a', 's', 's', 'w', 'o', 'r', 'd']);
        assert(s@.longs =~= sig_init().longs);
        assert(s@.shorts =~= sig_init().shorts);
        assert(s@.kinds =~= sig_init().kinds);
        assert(s@.choices[0] =~= sig_init().choices[0]);
        assert(s@.choices[1] =~= sig_init().choices[1]);
        assert(s@.choices[2] =~= sig_init().choices[2]);
        assert(s@.choices =~= sig_init().choices);
        assert(s@.pos_choices =~= sig_init().pos_choices);
    }
    s
}

pub open spec fn sig_kdbx_resolve() -> SigView {
    SigView {
        longs: seq![seq!['k', 'd', 'b', 'x', '-', 'p', 'a', 't', 'h'], seq!['p', 'a', 's', 's', 'w', 'o', 'r', 'd']],
        shorts: seq![NO_SHORT, NO_SHORT],
        kinds: seq![KIND_ANY, KIND_ANY],
        choices: seq![Seq::<Seq<char>>::empty(), Seq::<Seq<char>>::empty()],
        max_pos: 1,
        pos_choices: seq![Seq::<Seq<char>>::empty()],
    }
}

fn mk_sig_kdbx_resolve() -> (s: Sig)
    ensures
        s@ == sig_kdbx_resolve(),
        s@.wf(),
{
    let mut longs: Vec<Vec<char>> = Vec::new();
    let mut shorts: Vec<char> = Vec::new();
    let mut kinds: Vec<u8> = Vec::new();
    let mut choices: Vec<Vec<Vec<char>>> = Vec::new();
    let mut pos_choices: Vec<Vec<Vec<char>>> = Vec::new();
    longs.push(text_vec(&['k', 'd', 'b', 'x', '-', 'p', 'a', 't', 'h']));
    shorts.push(NO_SHORT);
    kinds.push(KIND_ANY);
    let mut c: Vec<Vec<char>> = Vec::new();
    choices.push(c);
    longs.push(text_vec(&['p', 'a', 's', 's', 'w', 'o', 'r', 'd']));
    shorts.push(NO_SHORT);
    kinds.push(KIND_ANY);
    let mut c: Vec<Vec<char>> = Vec::new();
    choices.push(c);
    let mut c: Vec<Vec<char>> = Vec::new();
    pos_choices.push(c);
    let s = Sig { longs, shorts, kinds, choices, max_pos: 1, pos_choices };
    proof {
        assert(['k', 'd', 'b', 'x', '-', 'p', 'a', 't', 'h']@ =~= seq!['k', 'd', 'b', 'x', '-', 'p', 'a', 't', 'h']);
        assert(['p', 'a', 's', 's', 'w', 'o', 'r', 'd']@ =~= seq!['p', 'a', 's', 's', 'w', 'o', 'r', 'd']);
        assert(s@.longs =~= sig_kdbx_resolve().longs);
        assert(s@.shorts =~= sig_kdbx_resolve().shorts);
        assert(s@.kinds =~= sig_kdbx_resolve().kinds);
        assert(s@.choices[0] =~= sig_kdbx_resolve().choices[0]);
        assert(s@.choices[1] =~= sig_kdbx_resolve().choices[1]);
        assert(s@.choices =~= sig_kdbx_resolve().choices);
        assert(s@.pos_choices[0] =~= sig_kdbx_resolve().pos_choices[0]);
        assert(s@.pos_choices =~= sig_kdbx_resolve().pos_choices);
    }
    s
}

pub open spec fn sig_kdbx_import() -> SigView {
    SigView {
        longs: seq![seq!['k', 'd', 'b', 'x', '-', 'p', 'a', 't', 'h'], seq!['p', 'a', 's', 's', 'w', 'o', 'r', 'd']],
        shorts: seq![NO_SHORT, NO_SHORT],
        kinds: seq![KIND_ANY, KIND_ANY],
        choices: seq![Seq::<Seq<char>>::empty(), Seq::<Seq<char>>::empty()],
        max_pos: 0,
        pos_choices: Seq::<Seq<Seq<char>>>::empty(),
    }
}

fn mk_sig_kdbx_import() -> (s: Sig)
    ensures
        s@ == sig_kdbx_import(),
        s@.wf(),
{
    let mut longs: Vec<Vec<char>> = Vec::new();
    let mut shorts: Vec<char> = Vec::new();
    let mut kinds: Vec<u8> = Vec::new();
    let mut choices: Vec<Vec<Vec<char>>> = Vec::new();
    let mut pos_choices: Vec<Vec<Vec<char>>> = Vec::new();
    longs.push(text_vec(&['k', 'd', 'b', 'x', '-', 'p', 'a', 't', 'h']));
    shorts.push(NO_SHORT);
    kinds.push(KIND_ANY);
    let mut c: Vec<Vec<char>> = Vec::new();
    choices.push(c);
    longs.push(text_vec(&['p', 'a', 's', 's', 'w', 'o', 'r', 'd']));
    shorts.push(NO_SHORT);
    kinds.push(KIND_ANY);
    let mut c: Vec<Vec<char>> = Vec::new();
    choices.push(c);
    let s = Sig { longs, shorts, kinds, choices, max_pos: 0, pos_choices };
    proof {
        assert(['k', 'd', 'b', 'x', '-', 'p', 'a', 't', 'h']@ =~= seq!['k', 'd', 'b', 'x', '-', 'p', 'a', 't', 'h']);
        assert(['p', 'a', 's', 's', 'w', 'o', 'r', 'd']@ =~= seq!['p', 'a', 's', 's', 'w', 'o', 'r', 'd']);
        assert(s@.longs =~= sig_kdbx_import().longs);
        assert(s@.shorts =~= sig_kdbx_import().shorts);
        assert(s@.kinds =~= sig_kdbx_import().kinds);
        assert(s@.choices[0] =~= sig_kdbx_import().choices[0]);
        assert(s@.choices[1] =~= sig_kdbx_import().choices[1]);
        assert(s@.choices =~= sig_kdbx_import().choices);
        assert(s@.pos_choices =~= sig_kdbx_import().pos_choices);
    }
    s
}

pub open spec fn sig_device_enroll() -> SigView {
    SigView {
        longs: seq![seq!['n', 'a', 'm', 'e']],
        shorts: seq![NO_SHORT],
        kinds: seq![KIND_ANY],
        choices: seq![Seq::<Seq<char>>::empty()],
        max_pos: 0,
        pos_choices: Seq::<Seq<Seq<char>>>::empty(),
    }
}

fn mk_sig_device_enroll() -> (s: Sig)
    ensures
        s@ == sig_device_enroll(),
        s@.wf(),
{
    let mut longs: Vec<Vec<char>> = Vec::new();
    let mut shorts: Vec<char> = Vec::new();
    let mut kinds: Vec<u8> = Vec::new();
    let mut choices: Vec<Vec<Vec<char>>> = Vec::new();
    let mut pos_choices: Vec<Vec<Vec<char>>> = Vec::new();
    longs.push(text_vec(&['n', 'a', 'm', 'e']));
    shorts.push(NO_SHORT);
    kinds.push(KIND_ANY);
    let mut c: Vec<Vec<char>> = Vec::new();
    choices.push(c);
    let s = Sig { longs, shorts, kinds, choices, max_pos: 0, pos_choices };
    proof {
        assert(['n', 'a', 'm', 'e']@ =~= seq!['n', 'a', 'm', 'e']);
        assert(s@.longs =~= sig_device_enroll().longs);
        assert(s@.shorts =~= sig_device_enroll().shorts);
        assert(s@.kinds =~= sig_device_enroll().kinds);
        assert(s@.choices[0] =~= sig_device_enroll().choices[0]);
        assert(s@.choices =~= sig_device_enroll().choices);
        assert(s@.pos_choices =~= sig_device_enroll().pos_choices);
    }
    s
}

pub open spec fn sig_device_invite() -> SigView {
    SigView {
        longs: seq![seq!['e', 'x', 'p', 'i', 'r', 'y', '-', 'h', 'o', 'u', 'r', 's'], seq!['q', 'r']],
        shorts: seq![NO_SHORT, NO_SHORT],
        kinds: seq![KIND_U64, KIND_FLAG],
        choices: seq![Seq::<Seq<char>>::empty(), Seq::<Seq<char>>::empty()],
        max_pos: 0,
        pos_choices: Seq::<Seq<Seq<char>>>::empty(),
    }
}

fn mk_sig_device_invite() -> (s: Sig)
    ensures
        s@ == sig_device_invite(),
        s@.wf(),
{
    let mut longs: Vec<Vec<char>> = Vec::new();
    let mut shorts: Vec<char> = Vec::new();
    let mut kinds: Vec<u8> = Vec::new();
    let mut choices: Vec<Vec<Vec<char>>> = Vec::new();
    let mut pos_choices: Vec<Vec<Vec<char>>> = Vec::new();
    longs.push(text_vec(&['e', 'x', 'p', 'i', 'r', 'y', '-', 'h', 'o', 'u', 'r', 's']));
    shorts.push(NO_SHORT);
    kinds.push(KIND_U64);
    let mut c: Vec<Vec<char>> = Vec::new();
    choices.push(c);
    longs.push(text_vec(&['q', 'r']));
    shorts.push(NO_SHORT);
    kinds.push(KIND_FLAG);
    let mut c: Vec<Vec<char>> = Vec::new();
    choices.push(c);
    let s = Sig { longs, shorts, kinds, choices, max_pos: 0, pos_choices };
    proof {
        assert(['e', 'x', 'p', 'i', 'r', 'y', '-', 'h', 'o', 'u', 'r', 's']@ =~= seq!['e', 'x', 'p', 'i', 'r', 'y', '-', 'h', 'o', 'u', 'r', 's']);
        assert(['q', 'r']@ =~= seq!['q', 'r']);
        assert(s@.longs =~= sig_device_invite().longs);
        assert(s@.shorts =~= sig_device_invite().shorts);
        assert(s@.kinds =~= sig_device_invite().kinds);
        assert(s@.choices[0] =~= sig_device_invite().choices[0]);
        assert(s@.choices[1] =~= sig_device_invite().choices[1]);
        assert(s@.choices =~= sig_device_invite().choices);
        assert(s@.pos_choices =~= sig_device_invite().pos_choices);
    }
    s
}

pub open spec fn sig_auth_unlock() -> SigView {
    SigView {
        longs: seq![seq!['k', 'e', 'y', '-', 'f', 'i', 'l', 'e'], seq!['p', 'a', 's', 's', 'p', 'h', 'r', 'a', 's', 'e', '-', 'f', 'i', 'l', 'e']],
        shorts: seq![NO_SHORT, NO_SHORT],
        kinds: seq![KIND_ANY, KIND_ANY],
        choices: seq![Seq::<Seq<char>>::empty(), Seq::<Seq<char>>::empty()],
        max_pos: 0,
        pos_choices: Seq::<Seq<Seq<char>>>::empty(),
    }
}

fn mk_sig_auth_unlock() -> (s: Sig)
    ensures
        s@ == sig_auth_unlock(),
        s@.wf(),
{
    let mut longs: Vec<Vec<char>> = Vec::new();
    let mut shorts: Vec<char> = Vec::new();
    let mut kinds: Vec<u8> = Vec::new();
    let mut choices: Vec<Vec<Vec<char>>> = Vec::new();
    let mut pos_choices: Vec<Vec<Vec<char>>> = Vec::new();
    longs.push(text_vec(&['k', 'e', 'y', '-', 'f', 'i', 'l', 'e']));
    shorts.push(NO_SHORT);
    kinds.push(KIND_ANY);
    let mut c: Vec<Vec<char>> = Vec::new();
    choices.push(c);
    longs.push(text_vec(&['p', 'a', 's', 's', 'p', 'h', 'r', 'a', 's', 'e', '-', 'f', 'i', 'l', 'e']));
    shorts.push(NO_SHORT);
    kinds.push(KIND_ANY);
    let mut c: Vec<Vec<char>> = Vec::new();
    choices.push(c);
    let s = Sig { longs, shorts, kinds, choices, max_pos: 0, pos_choices };
    proof {
        assert(['k', 'e', 'y', '-', 'f', 'i', 'l', 'e']@ =~= seq!['k', 'e', 'y', '-', 'f', 'i', 'l', 'e']);
        assert(['p', 'a', 's', 's', 'p', 'h', 'r', 'a', 's', 'e', '-', 'f', 'i', 'l', 'e']@ =~= seq!['p', 'a', 's', 's', 'p', 'h', 'r', 'a', 's', 'e', '-', 'f', 'i', 'l', 'e']);
        assert(s@.longs =~= sig_auth_unlock().longs);
        assert(s@.shorts =~= sig_auth_unlock().shorts);
        assert(s@.kinds =~= sig_auth_unlock().kinds);
        assert(s@.choices[0] =~= sig_auth_unlock().choices[0]);
        assert(s@.choices[1] =~= sig_auth_unlock().choices[1]);
        assert(s@.choices =~= sig_auth_unlock().choices);
        assert(s@.pos_choices =~= sig_auth_unlock().pos_choices);
    }
    s
}

pub open spec fn sig_auth_enroll() -> SigView {
    SigView {
        longs: seq![seq!['m', 'e', 't', 'h', 'o', 'd']],
        shorts: seq![NO_SHORT],
        kinds: seq![KIND_ANY],
        choices: seq![Seq::<Seq<char>>::empty()],
        max_pos: 0,
        pos_choices: Seq::<Seq<Seq<char>>>::empty(),
    }
}

fn mk_sig_auth_enroll() -> (s: Sig)
    ensures
        s@ == sig_auth_enroll(),
        s@.wf(),
{
    let mut longs: Vec<Vec<char>> = Vec::new();
    let mut shorts: Vec<char> = Vec::new();
    let mut kinds: Vec<u8> = Vec::new();
    let mut choices: Vec<Vec<Vec<char>>> = Vec::new();
    let mut pos_choices: Vec<Vec<Vec<char>>> = Vec::new();
    longs.push(text_vec(&['m', 'e', 't', 'h', 'o', 'd']));
    shorts.push(NO_SHORT);
    kinds.push(KIND_ANY);
    let mut c: Vec<Vec<char>> = Vec::new();
    choices.push(c);
    let s = Sig { longs, shorts, kinds, choices, max_pos: 0, pos_choices };
    proof {
        assert(['m', 'e', 't', 'h', 'o', 'd']@ =~= seq!['m', 'e', 't', 'h', 'o', 'd']);
        assert(s@.longs =~= sig_auth_enroll().longs);
        assert(s@.shorts =~= sig_auth_enroll().shorts);
        assert(s@.kinds =~= sig_auth_enroll().kinds);
        assert(s@.choices[0] =~= sig_auth_enroll().choices[0]);
        assert(s@.choices =~= sig_auth_enroll().choices);
        assert(s@.pos_choices =~= sig_auth_enroll().pos_choices);
    }
    s
}

pub open spec fn sig_auth_complete() -> SigView {
    SigView {
        longs: seq![seq!['m', 'e', 't', 'h', 'o', 'd'], seq!['a', 't', 't', 'e', 's', 't', 'a', 't', 'i', 'o', 'n', '-', 'f', 'i', 'l', 'e']],
        shorts: seq![NO_SHORT, NO_SHORT],
        kinds: seq![KIND_ANY, KIND_ANY],
        choices: seq![Seq::<Seq<char>>::empty(), Seq::<Seq<char>>::empty()],
        max_pos: 0,
        pos_choices: Seq::<Seq<Seq<char>>>::empty(),
    }
}

fn mk_sig_auth_complete() -> (s: Sig)
    ensures
        s@ == sig_auth_complete(),
        s@.wf(),
{
    let mut longs: Vec<Vec<char>> = Vec::new();
    let mut shorts: Vec<char> = Vec::new();
    let mut kinds: Vec<u8> = Vec::new();
    let mut choices: Vec<Vec<Vec<char>>> = Vec::new();
    let mut pos_choices: Vec<Vec<Vec<char>>> = Vec::new();
    longs.push(text_vec(&['m', 'e', 't', 'h', 'o', 'd']));
    shorts.push(NO_SHORT);
    kinds.push(KIND_ANY);
    let mut c: Vec<Vec<char>> = Vec::new();
    choices.push(c);
    longs.push(text_vec(&['a', 't', 't', 'e', 's', 't', 'a', 't', 'i', 'o', 'n', '-', 'f', 'i', 'l', 'e']));
    shorts.push(NO_SHORT);
    kinds.push(KIND_ANY);
    let mut c: Vec<Vec<char>> = Vec::new();
    choices.push(c);
    let s = Sig { longs, shorts, kinds, choices, max_pos: 0, pos_choices };
    proof {
        assert(['m', 'e', 't', 'h', 'o', 'd']@ =~= seq!['m', 'e', 't', 'h', 'o', 'd']);
        assert(['a', 't', 't', 'e', 's', 't', 'a', 't', 'i', 'o', 'n', '-', 'f', 'i', 'l', 'e']@ =~= seq!['a', 't', 't', 'e', 's', 't', 'a', 't', 'i', 'o', 'n', '-', 'f', 'i', 'l', 'e']);
        assert(s@.longs =~= sig_auth_complete().longs);
        assert(s@.shorts =~= sig_auth_complete().shorts);
        assert(s@.kinds =~= sig_auth_complete().kinds);
        assert(s@.choices[0] =~= sig_auth_complete().choices[0]);
        assert(s@.choices[1] =~= sig_auth_complete().choices[1]);
        assert(s@.choices =~= sig_auth_complete().choices);
        assert(s@.pos_choices =~= sig_auth_complete().pos_choices);
    }
    s
}

pub open spec fn sig_auth_revoke() -> SigView {
    SigView {
        longs: seq![seq!['t', 'o', 'k', 'e', 'n'], seq!['d', 'e', 'v', 'i', 'c', 'e']],
        shorts: seq![NO_SHORT, NO_SHORT],
        kinds: seq![KIND_ANY, KIND_ANY],
        choices: seq![Seq::<Seq<char>>::empty(), Seq::<Seq<char>>::empty()],
        max_pos: 0,
        pos_choices: Seq::<Seq<Seq<char>>>::empty(),
    }
}

fn mk_sig_auth_revoke() -> (s: Sig)
    ensures
        s@ == sig_auth_revoke(),
        s@.wf(),
{
    let mut longs: Vec<Vec<char>> = Vec::new();
    let mut shorts: Vec<char> = Vec::new();
    let mut kinds: Vec<u8> = Vec::new();
    let mut choices: Vec<Vec<Vec<char>>> = Vec::new();
    let mut pos_choices: Vec<Vec<Vec<char>>> = Vec::new();
    longs.push(text_vec(&['t', 'o', 'k', 'e', 'n']));
    shorts.push(NO_SHORT);
    kinds.push(KIND_ANY);
    let mut c: Vec<Vec<char>> = Vec::new();
    choices.push(c);
    longs.push(text_vec(&['d', 'e', 'v', 'i', 'c', 'e']));
    shorts.push(NO_SHORT);
    kinds.push(KIND_ANY);
    let mut c: Vec<Vec<char>> = Vec::new();
    choices.push(c);
    let s = Sig { longs, shorts, kinds, choices, max_pos: 0, pos_choices };
    proof {
        assert(['t', 'o', 'k', 'e', 'n']@ =~= seq!['t', 'o', 'k', 'e', 'n']);
        assert(['d', 'e', 'v', 'i', 'c', 'e']@ =~= seq!['d', 'e', 'v', 'i', 'c', 'e']);
        assert(s@.longs =~= sig_auth_revoke().longs);
        assert(s@.shorts =~= sig_auth_revoke().shorts);
        assert(s@.kinds =~= sig_auth_revoke().kinds);
        assert(s@.choices[0] =~= sig_auth_revoke().choices[0]);
        assert(s@.choices[1] =~= sig_auth_revoke().choices[1]);
        assert(s@.choices =~= sig_auth_revoke().choices);
        assert(s@.pos_choices =~= sig_auth_revoke().pos_choices);
    }
    s
}

pub open spec fn sig_rotate_credentials() -> SigView {
    SigView {
        longs: seq![seq!['c', 'r', 'e', 'd', '-', 'f', 'i', 'l', 'e'], seq!['n', 'o', 'n', '-', 'i', 'n', 't', 'e', 'r', 'a', 'c', 't', 'i', 'v', 'e']],
        shorts: seq![NO_SHORT, NO_SHORT],
        kinds: seq![KIND_ANY, KIND_FLAG],
        choices: seq![Seq::<Seq<char>>::empty(), Seq::<Seq<char>>::empty()],
        max_pos: 0,
        pos_choices: Seq::<Seq<Seq<char>>>::empty(),
    }
}

fn mk_sig_rotate_credentials() -> (s: Sig)
    ensures
        s@ == sig_rotate_credentials(),
        s@.wf(),
{
    let mut longs: Vec<Vec<char>> = Vec::new();
    let mut shorts: Vec<char> = Vec::new();
    let mut kinds: Vec<u8> = Vec::new();
    let mut choices: Vec<Vec<Vec<char>>> = Vec::new();
    let mut pos_choices: Vec<Vec<Vec<char>>> = Vec::new();
    longs.push(text_vec(&['c', 'r', 'e', 'd', '-', 'f', 'i', 'l', 'e']));
    shorts.push(NO_SHORT);
    kinds.push(KIND_ANY);
    let mut c: Vec<Vec<char>> = Vec::new();
    choices.push(c);
    longs.push(text_vec(&['n', 'o', 'n', '-', 'i', 'n', 't', 'e', 'r', 'a', 'c', 't', 'i', 'v', 'e']));
    shorts.push(NO_SHORT);
    kinds.push(KIND_FLAG);
    let mut c: Vec<Vec<char>> = Vec::new();
    choices.push(c);
    let s = Sig { longs, shorts, kinds, choices, max_pos: 0, pos_choices };
    proof {
        assert(['c', 'r', 'e', 'd', '-', 'f', 'i', 'l', 'e']@ =~= seq!['c', 'r', 'e', 'd', '-', 'f', 'i', 'l', 'e']);
        assert(['n', 'o', 'n', '-', 'i', 'n', 't', 'e', 'r', 'a', 'c', 't', 'i', 'v', 'e']@ =~= seq!['n', 'o', 'n', '-', 'i', 'n', 't', 'e', 'r', 'a', 'c', 't', 'i', 'v', 'e']);
        assert(s@.longs =~= sig_rotate_credentials().longs);
        assert(s@.shorts =~= sig_rotate_credentials().shorts);
        assert(s@.kinds =~= sig_rotate_credentials().kinds);
        assert(s@.choices[0] =~= sig_rotate_credentials().choices[0]);
        assert(s@.choices[1] =~= sig_rotate_credentials().choices[1]);
        assert(s@.choices =~= sig_rotate_credentials().choices);
        assert(s@.pos_choices =~= sig_rotate_credentials().pos_choices);
    }
    s
}

pub open spec fn sig_rotate_key() -> SigView {
    SigView {
        longs: seq![seq!['o', 'l', 'd', '-', 'k', 'e', 'y', '-', 'f', 'i', 'l', 'e'], seq!['p', 'a', 's', 's', 'w', 'o', 'r', 'd'], seq!['n', 'o', 'n', '-', 'i', 'n', 't', 'e', 'r', 'a', 'c', 't', 'i', 'v', 'e']],
        shorts: seq![NO_SHORT, NO_SHORT, NO_SHORT],
        kinds: seq![KIND_ANY, KIND_FLAG, KIND_FLAG],
        choices: seq![Seq::<Seq<char>>::empty(), Seq::<Seq<char>>::empty(), Seq::<Seq<char>>::empty()],
        max_pos: 0,
        pos_choices: Seq::<Seq<Seq<char>>>::empty(),
    }
}

fn mk_sig_rotate_key() -> (s: Sig)
    ensures
        s@ == sig_rotate_key(),
        s@.wf(),
{
    let mut longs: Vec<Vec<char>> = Vec::new();
    let mut shorts: Vec<char> = Vec::new();
    let mut kinds: Vec<u8> = Vec::new();
    let mut choices: Vec<Vec<Vec<char>>> = Vec::new();
    let mut pos_choices: Vec<Vec<Vec<char>>> = Vec::new();
    longs.push(text_vec(&['o', 'l', 'd', '-', 'k', 'e', 'y', '-', 'f', 'i', 'l', 'e']));
    shorts.push(NO_SHORT);
    kinds.push(KIND_ANY);
    let mut c: Vec<Vec<char>> = Vec::new();
    choices.push(c);
    longs.push(text_vec(&['p', 'a', 's', 's', 'w', 'o', 'r', 'd']));
    shorts.push(NO_SHORT);
    kinds.push(KIND_FLAG);
    let mut c: Vec<Vec<char>> = Vec::new();
    choices.push(c);
    longs.push(text_vec(&['n', 'o', 'n', '-', 'i', 'n', 't', 'e', 'r', 'a', 'c', 't', 'i', 'v', 'e']));
    shorts.push(NO_SHORT);
    kinds.push(KIND_FLAG);
    let mut c: Vec<Vec<char>> = Vec::new();
    choices.push(c);
    let s = Sig { longs, shorts, kinds, choices, max_pos: 0, pos_choices };
    proof {
        assert(['o', 'l', 'd', '-', 'k', 'e', 'y', '-', 'f', 'i', 'l', 'e']@ =~= seq!['o', 'l', 'd', '-', 'k', 'e', 'y', '-', 'f', 'i', 'l', 'e']);
        assert(['p', 'a', 's', 's', 'w', 'o', 'r', 'd']@ =~= seq!['p', 'a', 's', 's', 'w', 'o', 'r', 'd']);
        assert(['n', 'o', 'n', '-', 'i', 'n', 't', 'e', 'r', 'a', 'c', 't', 'i', 'v', 'e']@ =~= seq!['n', 'o', 'n', '-', 'i', 'n', 't', 'e', 'r', 'a', 'c', 't', 'i', 'v', 'e']);
        assert(s@.longs =~= sig_rotate_key().longs);
        assert(s@.shorts =~= sig_rotate_key().shorts);
        assert(s@.kinds =~= sig_rotate_key().kinds);
        assert(s@.choices[0] =~= sig_rotate_key().choices[0]);
        assert(s@.choices[1] =~= sig_rotate_key().choices[1]);
        assert(s@.choices[2] =~= sig_rotate_key().choices[2]);
        assert(s@.choices =~= sig_rotate_key().choices);
        assert(s@.pos_choices =~= sig_rotate_key().pos_choices);
    }
    s
}

pub open spec fn sig_reconcile() -> SigView {
    SigView {
        longs: seq![seq!['p', 'a', 't', 'h'], seq!['p', 'r', 'e', 'f', 'i', 'x'], seq!['e', 'x', 'e', 'c', 'u', 't', 'e'], seq!['s', 't', 'a', 't', 'e']],
        shorts: seq!['p', NO_SHORT, NO_SHORT, NO_SHORT],
        kinds: seq![KIND_ANY, KIND_ANY, KIND_FLAG, KIND_ANY],
        choices: seq![Seq::<Seq<char>>::empty(), Seq::<Seq<char>>::empty(), Seq::<Seq<char>>::empty(), Seq::<Seq<char>>::empty()],
        max_pos: 0,
        pos_choices: Seq::<Seq<Seq<char>>>::empty(),
    }
}

fn mk_sig_reconcile() -> (s: Sig)
    ensures
        s@ == sig_reconcile(),
        s@.wf(),
{
    let mut longs: Vec<Vec<char>> = Vec::new();
    let mut shorts: Vec<char> = Vec::new();
    let mut kinds: Vec<u8> = Vec::new();
    let mut choices: Vec<Vec<Vec<char>>> = Vec::new();
    let mut pos_choices: Vec<Vec<Vec<char>>> = Vec::new();
    longs.push(text_vec(&['p', 'a', 't', 'h']));
    shorts.push('p');
    kinds.push(KIND_ANY);
    let mut c: Vec<Vec<char>> = Vec::new();
    choices.push(c);
    longs.push(text_vec(&['p', 'r', 'e', 'f', 'i', 'x']));
    shorts.push(NO_SHORT);
    kinds.push(KIND_ANY);
    let mut c: Vec<Vec<char>> = Vec::new();
    choices.push(c);
    longs.push(text_vec(&['e', 'x', 'e', 'c', 'u', 't', 'e']));
    shorts.push(NO_SHORT);
    kinds.push(KIND_FLAG);
    let mut c: Vec<Vec<char>> = Vec::new();
    choices.push(c);
    longs.push(text_vec(&['s', 't', 'a', 't', 'e']));
    shorts.push(NO_SHORT);
    kinds.push(KIND_ANY);
    let mut c: Vec<Vec<char>> = Vec::new();
    choices.push(c);
    let s = Sig { longs, shorts, kinds, choices, max_pos: 0, pos_choices };
    proof {
        assert(['p', 'a', 't', 'h']@ =~= seq!['p', 'a', 't', 'h']);
        assert(['p', 'r', 'e', 'f', 'i', 'x']@ =~= seq!['p', 'r', 'e', 'f', 'i', 'x']);
        assert(['e', 'x', 'e', 'c', 'u', 't', 'e']@ =~= seq!['e', 'x', 'e', 'c', 'u', 't', 'e']);
        assert(['s', 't', 'a', 't', 'e']@ =~= seq!['s', 't', 'a', 't', 'e']);
        assert(s@.longs =~= sig_reconcile().longs);
        assert(s@.shorts =~= sig_reconcile().shorts);
        assert(s@.kinds =~= sig_reconcile().kinds);
        assert(s@.choices[0] =~= sig_reconcile().choices[0]);
        assert(s@.choices[1] =~= sig_reconcile().choices[1]);
        assert(s@.choices[2] =~= sig_reconcile().choices[2]);
        assert(s@.choices[3] =~= sig_reconcile().choices[3]);
        assert(s@.choices =~= sig_reconcile().choices);
        assert(s@.pos_choices =~= sig_reconcile().pos_choices);
    }
    s
}

pub open spec fn sig_policy_set() -> SigView {
    SigView {
        longs: Seq::<Seq<char>>::empty(),
        shorts: Seq::<char>::empty(),
        kinds: Seq::<u8>::empty(),
        choices: Seq::<Seq<Seq<char>>>::empty(),
        max_pos: 2,
        pos_choices: seq![Seq::<Seq<char>>::empty(), seq![seq!['a', 'l', 'w', 'a', 'y', 's'], seq!['o', 'n', '-', 'd', 'e', 'm', 'a', 'n', 'd'], seq!['n', 'e', 'v', 'e', 'r']]],
    }
}

fn mk_sig_policy_set() -> (s: Sig)
    ensures
        s@ == sig_policy_set(),
        s@.wf(),
{
    let mut longs: Vec<Vec<char>> = Vec::new();
    let mut shorts: Vec<char> = Vec::new();
    let mut kinds: Vec<u8> = Vec::new();
    let mut choices: Vec<Vec<Vec<char>>> = Vec::new();
    let mut pos_choices: Vec<Vec<Vec<char>>> = Vec::new();
    let mut c: Vec<Vec<char>> = Vec::new();
    pos_choices.push(c);
    let mut c: Vec<Vec<char>> = Vec::new();
    c.push(text_vec(&['a', 'l', 'w', 'a', 'y', 's']));
    c.push(text_vec(&['o', 'n', '-', 'd', 'e', 'm', 'a', 'n', 'd']));
    c.push(text_vec(&['n', 'e', 'v', 'e', 'r']));
    pos_choices.push(c);
    let s = Sig { longs, shorts, kinds, choices, max_pos: 2, pos_choices };
    proof {
        assert(['a', 'l', 'w', 'a', 'y', 's']@ =~= seq!['a', 'l', 'w', 'a', 'y', 's']);
        assert(['o', 'n', '-', 'd', 'e', 'm', 'a', 'n', 'd']@ =~= seq!['o', 'n', '-', 'd', 'e', 'm', 'a', 'n', 'd']);
        assert(['n', 'e', 'v', 'e', 'r']@ =~= seq!['n', 'e', 'v', 'e', 'r']);
        assert(s@.longs =~= sig_policy_set().longs);
        assert(s@.shorts =~= sig_policy_set().shorts);
        assert(s@.kinds =~= sig_policy_set().kinds);
        assert(s@.choices =~= sig_policy_set().choices);
        assert(s@.pos_choices[0] =~= sig_policy_set().pos_choices[0]);
        assert(s@.pos_choices[1] =~= sig_policy_set().pos_choices[1]);
        assert(s@.pos_choices =~= sig_policy_set().pos_choices);
    }
    s
}

pub open spec fn sig_rm() -> SigView {
    SigView {
        longs: seq![seq!['p', 'r', 'e', 'f', 'i', 'x'], seq!['s', 't', 'a', 't', 'e']],
        shorts: seq!['p', NO_SHORT],
        kinds: seq![KIND_ANY, KIND_ANY],
        choices: seq![Seq::<Seq<char>>::empty(), Seq::<Seq<char>>::empty()],
        max_pos: 1,
        pos_choices: seq![Seq::<Seq<char>>::empty()],
    }
}

fn mk_sig_rm() -> (s: Sig)
    ensures
        s@ == sig_rm(),
        s@.wf(),
{
    let mut longs: Vec<Vec<char>> = Vec::new();
    let mut shorts: Vec<char> = Vec::new();
    let mut kinds: Vec<u8> = Vec::new();
    let mut choices: Vec<Vec<Vec<char>>> = Vec::new();
    let mut pos_choices: Vec<Vec<Vec<char>>> = Vec::new();
    longs.push(text_vec(&['p', 'r', 'e', 'f', 'i', 'x']));
    shorts.push('p');
    kinds.push(KIND_ANY);
    let mut c: Vec<Vec<char>> = Vec::new();
    choices.push(c);
    longs.push(text_vec(&['s', 't', 'a', 't', 'e']));
    shorts.push(NO_SHORT);
    kinds.push(KIND_ANY);
    let mut c: Vec<Vec<char>> = Vec::new();
    choices.push(c);
    let mut c: Vec<Vec<char>> = Vec::new();
    pos_choices.push(c);
    let s = Sig { longs, shorts, kinds, choices, max_pos: 1, pos_choices };
    proof {
        assert(['p', 'r', 'e', 'f', 'i', 'x']@ =~= seq!['p', 'r', 'e', 'f', 'i', 'x']);
        assert(['s', 't', 'a', 't', 'e']@ =~= seq!['s', 't', 'a', 't', 'e']);
        assert(s@.longs =~= sig_rm().longs);
        assert(s@.shorts =~= sig_rm().shorts);
        assert(s@.kinds =~= sig_rm().kinds);
        assert(s@.choices[0] =~= sig_rm().choices[0]);
        assert(s@.choices[1] =~= sig_rm().choices[1]);
        assert(s@.choices =~= sig_rm().choices);
        assert(s@.pos_choices[0] =~= sig_rm().pos_choices[0]);
        assert(s@.pos_choices =~= sig_rm().pos_choices);
    }
    s
}

pub open spec fn sig_resolve() -> SigView {
    SigView {
        longs: seq![seq!['s', 't', 'r', 'a', 't', 'e', 'g', 'y']],
        shorts: seq!['s'],
        kinds: seq![KIND_CHOICE],
        choices: seq![seq![seq!['k', 'e', 'e', 'p', '-', 'l', 'o', 'c', 'a', 'l'], seq!['k', 'e', 'e', 'p', '-', 'r', 'e', 'm', 'o', 't', 'e'], seq!['k', 'e', 'e', 'p', '-', 'b', 'o', 't', 'h'], seq!['d', 'e', 'f', 'e', 'r']]],
        max_pos: 1,
        pos_choices: seq![Seq::<Seq<char>>::empty()],
    }
}

fn mk_sig_resolve() -> (s: Sig)
    ensures
        s@ == sig_resolve(),
        s@.wf(),
{
    let mut longs: Vec<Vec<char>> = Vec::new();
    let mut shorts: Vec<char> = Vec::new();
    let mut kinds: Vec<u8> = Vec::new();
    let mut choices: Vec<Vec<Vec<char>>> = Vec::new();
    let mut pos_choices: Vec<Vec<Vec<char>>> = Vec::new();
    longs.push(text_vec(&['s', 't', 'r', 'a', 't', 'e', 'g', 'y']));
    shorts.push('s');
    kinds.push(KIND_CHOICE);
    let mut c: Vec<Vec<char>> = Vec::new();
    c.push(text_vec(&['k', 'e', 'e', 'p', '-', 'l', 'o', 'c', 'a', 'l']));
    c.push(text_vec(&['k', 'e', 'e', 'p', '-', 'r', 'e', 'm', 'o', 't', 'e']));
    c.push(text_vec(&['k', 'e', 'e', 'p', '-', 'b', 'o', 't', 'h']));
    c.push(text_vec(&['d', 'e', 'f', 'e', 'r']));
    choices.push(c);
    let mut c: Vec<Vec<char>> = Vec::new();
    pos_choices.push(c);
    let s = Sig { longs, shorts, kinds, choices, max_pos: 1, pos_choices };
    proof {
        assert(['s', 't', 'r', 'a', 't', 'e', 'g', 'y']@ =~= seq!['s', 't', 'r', 'a', 't', 'e', 'g', 'y']);
        assert(['k', 'e', 'e', 'p', '-', 'l', 'o', 'c', 'a', 'l']@ =~= seq!['k', 'e', 'e', 'p', '-', 'l', 'o', 'c', 'a', 'l']);
        assert(['k', 'e', 'e', 'p', '-', 'r', 'e', 'm', 'o', 't', 'e']@ =~= seq!['k', 'e', 'e', 'p', '-', 'r', 'e', 'm', 'o', 't', 'e']);
        assert(['k', 'e', 'e', 'p', '-', 'b', 'o', 't', 'h']@ =~= seq!['k', 'e', 'e', 'p', '-', 'b', 'o', 't', 'h']);
        assert(['d', 'e', 'f', 'e', 'r']@ =~= seq!['d', 'e', 'f', 'e', 'r']);
        assert(s@.longs =~= sig_resolve().longs);
        assert(s@.shorts =~= sig_resolve().shorts);
        assert(s@.kinds =~= sig_resolve().kinds);
        assert(s@.choices[0] =~= sig_resolve().choices[0]);
        assert(s@.choices =~= sig_resolve().choices);
        assert(s@.pos_choices[0] =~= sig_resolve().pos_choices[0]);
        assert(s@.pos_choices =~= sig_resolve().pos_choices);
    }
    s
}

pub open spec fn sig_trash_list() -> SigView {
    SigView {
        longs: seq![seq!['p', 'r', 'e', 'f', 'i', 'x']],
        shorts: seq!['p'],
        kinds: seq![KIND_ANY],
        choices: seq![Seq::<Seq<char>>::empty()],
        max_pos: 0,
        pos_choices: Seq::<Seq<Seq<char>>>::empty(),
    }
}

fn mk_sig_trash_list() -> (s: Sig)
    ensures
        s@ == sig_trash_list(),
        s@.wf(),
{
    let mut longs: Vec<Vec<char>> = Vec::new();
    let mut shorts: Vec<char> = Vec::new();
    let mut kinds: Vec<u8> = Vec::new();
    let mut choices: Vec<Vec<Vec<char>>> = Vec::new();
    let mut pos_choices: Vec<Vec<Vec<char>>> = Vec::new();
    longs.push(text_vec(&['p', 'r', 'e', 'f', 'i', 'x']));
    shorts.push('p');
    kinds.push(KIND_ANY);
    let mut c: Vec<Vec<char>> = Vec::new();
    choices.push(c);
    let s = Sig { longs, shorts, kinds, choices, max_pos: 0, pos_choices };
    proof {
        assert(['p', 'r', 'e', 'f', 'i', 'x']@ =~= seq!['p', 'r', 'e', 'f', 'i', 'x']);
        assert(s@.longs =~= sig_trash_list().longs);
        assert(s@.shorts =~= sig_trash_list().shorts);
        assert(s@.kinds =~= sig_trash_list().kinds);
        assert(s@.choices[0] =~= sig_trash_list().choices[0]);
        assert(s@.choices =~= sig_trash_list().choices);
        assert(s@.pos_choices =~= sig_trash_list().pos_choices);
    }
    s
}

pub open spec fn sig_trash_restore() -> SigView {
    SigView {
        longs: seq![seq!['p', 'r', 'e', 'f', 'i', 'x']],
        shorts: seq!['p'],
        kinds: seq![KIND_ANY],
        choices: seq![Seq::<Seq<char>>::empty()],
        max_pos: 1,
        pos_choices: seq![Seq::<Seq<char>>::empty()],
    }
}

fn mk_sig_trash_restore() -> (s: Sig)
    ensures
        s@ == sig_trash_restore(),
        s@.wf(),
{
    let mut longs: Vec<Vec<char>> = Vec::new();
    let mut shorts: Vec<char> = Vec::new();
    let mut kinds: Vec<u8> = Vec::new();
    let mut choices: Vec<Vec<Vec<char>>> = Vec::new();
    let mut pos_choices: Vec<Vec<Vec<char>>> = Vec::new();
    longs.push(text_vec(&['p', 'r', 'e', 'f', 'i', 'x']));
    shorts.push('p');
    kinds.push(KIND_ANY);
    let mut c: Vec<Vec<char>> = Vec::new();
    choices.push(c);
    let mut c: Vec<Vec<char>> = Vec::new();
    pos_choices.push(c);
    let s = Sig { longs, shorts, kinds, choices, max_pos: 1, pos_choices };
    proof {
        assert(['p', 'r', 'e', 'f', 'i', 'x']@ =~= seq!['p', 'r', 'e', 'f', 'i', 'x']);
        assert(s@.longs =~= sig_trash_restore().longs);
        assert(s@.shorts =~= sig_trash_restore().shorts);
        assert(s@.kinds =~= sig_trash_restore().kinds);
        assert(s@.choices[0] =~= sig_trash_restore().choices[0]);
        assert(s@.choices =~= sig_trash_restore().choices);
        assert(s@.pos_choices[0] =~= sig_trash_restore().pos_choices[0]);
        assert(s@.pos_choices =~= sig_trash_restore().pos_choices);
    }
    s
}

pub open spec fn sig_trash_purge() -> SigView {
    SigView {
        longs: seq![seq!['o', 'l', 'd', 'e', 'r', '-', 't', 'h', 'a', 'n'], seq!['a', 'l', 'l'], seq!['p', 'r', 'e', 'f', 'i', 'x']],
        shorts: seq![NO_SHORT, NO_SHORT, 'p'],
        kinds: seq![KIND_U64, KIND_FLAG, KIND_ANY],
        choices: seq![Seq::<Seq<char>>::empty(), Seq::<Seq<char>>::empty(), Seq::<Seq<char>>::empty()],
        max_pos: 0,
        pos_choices: Seq::<Seq<Seq<char>>>::empty(),
    }
}

fn mk_sig_trash_purge() -> (s: Sig)
    ensures
        s@ == sig_trash_purge(),
        s@.wf(),
{
    let mut longs: Vec<Vec<char>> = Vec::new();
    let mut shorts: Vec<char> = Vec::new();
    let mut kinds: Vec<u8> = Vec::new();
    let mut choices: Vec<Vec<Vec<char>>> = Vec::new();
    let mut pos_choices: Vec<Vec<Vec<char>>> = Vec::new();
    longs.push(text_vec(&['o', 'l', 'd', 'e', 'r', '-', 't', 'h', 'a', 'n']));
    shorts.push(NO_SHORT);
    kinds.push(KIND_U64);
    let mut c: Vec<Vec<char>> = Vec::new();
    choices.push(c);
    longs.push(text_vec(&['a', 'l', 'l']));
    shorts.push(NO_SHORT);
    kinds.push(KIND_FLAG);
    let mut c: Vec<Vec<char>> = Vec::new();
    choices.push(c);
    longs.push(text_vec(&['p', 'r', 'e', 'f', 'i', 'x']));
    shorts.push('p');
    kinds.push(KIND_ANY);
    let mut c: Vec<Vec<char>> = Vec::new();
    choices.push(c);
    let s = Sig { longs, shorts, kinds, choices, max_pos: 0, pos_choices };
    proof {
        assert(['o', 'l', 'd', 'e', 'r', '-', 't', 'h', 'a', 'n']@ =~= seq!['o', 'l', 'd', 'e', 'r', '-', 't', 'h', 'a', 'n']);
        assert(['a', 'l', 'l']@ =~= seq!['a', 'l', 'l']);
        assert(['p', 'r', 'e', 'f', 'i', 'x']@ =~= seq!['p', 'r', 'e', 'f', 'i', 'x']);
        assert(s@.longs =~= sig_trash_purge().longs);
        assert(s@.shorts =~= sig_trash_purge().shorts);
        assert(s@.kinds =~= sig_trash_purge().kinds);
        assert(s@.choices[0] =~= sig_trash_purge().choices[0]);
        assert(s@.choices[1] =~= sig_trash_purge().choices[1]);
        assert(s@.choices[2] =~= sig_trash_purge().choices[2]);
        assert(s@.choices =~= sig_trash_purge().choices);
        assert(s@.pos_choices =~= sig_trash_purge().pos_choices);
    }
    s
}

pub open spec fn sig_migrate_prefix() -> SigView {
    SigView {
        longs: seq![seq!['d', 'r', 'y', '-', 'r', 'u', 'n']],
        shorts: seq![NO_SHORT],
        kinds: seq![KIND_FLAG],
        choices: seq![Seq::<Seq<char>>::empty()],
        max_pos: 0,
        pos_choices: Seq::<Seq<Seq<char>>>::empty(),
    }
}

fn mk_sig_migrate_prefix() -> (s: Sig)
    ensures
        s@ == sig_migrate_prefix(),
        s@.wf(),
{
    let mut longs: Vec<Vec<char>> = Vec::new();
    let mut shorts: Vec<char> = Vec::new();
    let mut kinds: Vec<u8> = Vec::new();
    let mut choices: Vec<Vec<Vec<char>>> = Vec::new();
    let mut pos_choices: Vec<Vec<Vec<char>>> = Vec::new();
    longs.push(text_vec(&['d', 'r', 'y', '-', 'r', 'u', 'n']));
    shorts.push(NO_SHORT);
    kinds.push(KIND_FLAG);
    let mut c: Vec<Vec<char>> = Vec::new();
    choices.push(c);
    let s = Sig { longs, shorts, kinds, choices, max_pos: 0, pos_choices };
    proof {
        assert(['d', 'r', 'y', '-', 'r', 'u', 'n']@ =~= seq!['d', 'r', 'y', '-', 'r', 'u', 'n']);
        assert(s@.longs =~= sig_migrate_prefix().longs);
        assert(s@.shorts =~= sig_migrate_prefix().shorts);
        assert(s@.kinds =~= sig_migrate_prefix().kinds);
        assert(s@.choices[0] =~= sig_migrate_prefix().choices[0]);
        assert(s@.choices =~= sig_migrate_prefix().choices);
        assert(s@.pos_choices =~= sig_migrate_prefix().pos_choices);
    }
    s
}

/// The subcommands of `tcfs`.
#[derive(Debug, Clone, PartialEq, Eq)]
#[allow(inconsistent_fields)]
pub enum Commands<S> {
    /// Show daemon and storage status
    Status,
    /// Configuration management
    Config { action: ConfigAction },
    /// KDBX credential management (RemoteJuggler bridge)
    Kdbx { action: KdbxAction<S> },
    /// Upload a local file or directory tree to SeaweedFS
    Push {
        local: S,
        prefix: Option<S>,
        state: Option<S>,
    },
    /// Download a file from SeaweedFS using a manifest path
    Pull {
        manifest: S,
        local: Option<S>,
        prefix: Option<S>,
        state: Option<S>,
    },
    /// Show local sync state for a file or directory
    SyncStatus {
        path: Option<S>,
        state: Option<S>,
    },
    /// Mount a remote as a local directory
    Mount {
        remote: S,
        mountpoint: S,
        read_only: bool,
        nfs: bool,
        nfs_port: u16,
    },
    /// Unmount a tcfs mountpoint
    Unmount {
        mountpoint: S,
    },
    /// Cache management (stats, clear)
    Cache { action: CacheAction },
    /// Convert hydrated file back to .tc stub, reclaiming disk space
    Unsync {
        path: S,
        force: bool,
    },
    /// Initialize tcfs identity and device key (first-time setup)
    Init {
        device_name: Option<S>,
        non_interactive: bool,
        password: Option<S>,
    },
    /// Manage enrolled devices
    Device { action: DeviceAction<S> },
    /// Manage encryption session lock/unlock
    Auth { action: AuthAction<S> },
    /// Rotate S3 credentials in the SOPS-encrypted credential file
    RotateCredentials {
        cred_file: Option<S>,
        non_interactive: bool,
    },
    /// Rotate the master encryption key (re-wraps all file keys)
    RotateKey {
        old_key_file: Option<S>,
        password: bool,
        non_interactive: bool,
    },
    /// Reconcile local directory with remote storage
    Reconcile {
        path: Option<S>,
        prefix: Option<S>,
        execute: bool,
        state: Option<S>,
    },
    /// Manage per-folder sync policies
    Policy { action: PolicyAction<S> },
    /// Delete a file from remote storage and local disk
    Rm {
        path: S,
        prefix: Option<S>,
        state: Option<S>,
    },
    /// Resolve a sync conflict for a file
    Resolve {
        path: S,
        strategy: Option<S>,
    },
    /// Manage the sync trash (staged deletes)
    Trash { action: TrashAction<S> },
    /// Migrate S3 index entries from stale/incorrect prefixes
    MigratePrefix {
        dry_run: bool,
    },
}

/// The subcommands of `tcfs config`.
#[derive(Debug, Clone, PartialEq, Eq)]
#[allow(inconsistent_fields)]
pub enum ConfigAction {
    Show,
}

/// The subcommands of `tcfs kdbx`.
#[derive(Debug, Clone, PartialEq, Eq)]
#[allow(inconsistent_fields)]
pub enum KdbxAction<S> {
    Resolve {
        query: S,
        kdbx_path: Option<S>,
        password: Option<S>,
    },
    Import {
        kdbx_path: Option<S>,
        password: Option<S>,
    },
}

/// The subcommands of `tcfs cache`.
#[derive(Debug, Clone, PartialEq, Eq)]
#[allow(inconsistent_fields)]
pub enum CacheAction {
    Stats,
    Clear,
}

/// The subcommands of `tcfs device`.
#[derive(Debug, Clone, PartialEq, Eq)]
#[allow(inconsistent_fields)]
pub enum DeviceAction<S> {
    Enroll {
        name: Option<S>,
    },
    List,
    Revoke {
        name: S,
    },
    Status,
    Invite {
        expiry_hours: u64,
        qr: bool,
    },
}

/// The subcommands of `tcfs auth`.
#[derive(Debug, Clone, PartialEq, Eq)]
#[allow(inconsistent_fields)]
pub enum AuthAction<S> {
    Unlock {
        key_file: Option<S>,
        passphrase_file: Option<S>,
    },
    Lock,
    Status,
    Enroll {
        method: S,
    },
    CompleteEnroll {
        method: S,
        attestation_file: S,
    },
    Verify {
        code: S,
    },
    Revoke {
        token: Option<S>,
        device: Option<S>,
    },
}

/// The subcommands of `tcfs policy`.
#[derive(Debug, Clone, PartialEq, Eq)]
#[allow(inconsistent_fields)]
pub enum PolicyAction<S> {
    SetMode {
        path: S,
        mode: S,
    },
    Get {
        path: S,
    },
    List,
    Pin {
        path: S,
    },
    Unpin {
        path: S,
    },
}

/// The subcommands of `tcfs trash`.
#[derive(Debug, Clone, PartialEq, Eq)]
#[allow(inconsistent_fields)]
pub enum TrashAction<S> {
    List {
        prefix: Option<S>,
    },
    Restore {
        path: S,
        prefix: Option<S>,
    },
    Purge {
        older_than: Option<u64>,
        all: bool,
        prefix: Option<S>,
    },
}

pub open spec fn view_configaction(c: ConfigAction) -> ConfigAction {
    c
}

pub open spec fn view_kdbxaction(c: KdbxAction<String>) -> KdbxAction<Seq<char>> {
    match c {
        KdbxAction::Resolve { query, kdbx_path, password } => KdbxAction::Resolve { query: query@, kdbx_path: opt_view(kdbx_path), password: opt_view(password) },
        KdbxAction::Import { kdbx_path, password } => KdbxAction::Import { kdbx_path: opt_view(kdbx_path), password: opt_view(password) },
    }
}

pub open spec fn view_cacheaction(c: CacheAction) -> CacheAction {
    c
}

pub open spec fn view_deviceaction(c: DeviceAction<String>) -> DeviceAction<Seq<char>> {
    match c {
        DeviceAction::Enroll { name } => DeviceAction::Enroll { name: opt_view(name) },
        DeviceAction::List => DeviceAction::List,
        DeviceAction::Revoke { name } => DeviceAction::Revoke { name: name@ },
        DeviceAction::Status => DeviceAction::Status,
        DeviceAction::Invite { expiry_hours, qr } => DeviceAction::Invite { expiry_hours: expiry_hours, qr: qr },
    }
}

pub open spec fn view_authaction(c: AuthAction<String>) -> AuthAction<Seq<char>> {
    match c {
        AuthAction::Unlock { key_file, passphrase_file } => AuthAction::Unlock { key_file: opt_view(key_file), passphrase_file: opt_view(passphrase_file) },
        AuthAction::Lock => AuthAction::Lock,
        AuthAction::Status => AuthAction::Status,
        AuthAction::Enroll { method } => AuthAction::Enroll { method: method@ },
        AuthAction::CompleteEnroll { method, attestation_file } => AuthAction::CompleteEnroll { method: method@, attestation_file: attestation_file@ },
        AuthAction::Verify { code } => AuthAction::Verify { code: code@ },
        AuthAction::Revoke { token, device } => AuthAction::Revoke { token: opt_view(token), device: opt_view(device) },
    }
}

pub open spec fn view_policyaction(c: PolicyAction<String>) -> PolicyAction<Seq<char>> {
    match c {
        PolicyAction::SetMode { path, mode } => PolicyAction::SetMode { path: path@, mode: mode@ },
        PolicyAction::Get { path } => PolicyAction::Get { path: path@ },
        PolicyAction::List => PolicyAction::List,
        PolicyAction::Pin { path } => PolicyAction::Pin { path: path@ },
        PolicyAction::Unpin { path } => PolicyAction::Unpin { path: path@ },
    }
}

pub open spec fn view_trashaction(c: TrashAction<String>) -> TrashAction<Seq<char>> {
    match c {
        TrashAction::List { prefix } => TrashAction::List { prefix: opt_view(prefix) },
        TrashAction::Restore { path, prefix } => TrashAction::Restore { path: path@, prefix: opt_view(prefix) },
        TrashAction::Purge { older_than, all, prefix } => TrashAction::Purge { older_than: older_than, all: all, prefix: opt_view(prefix) },
    }
}

pub open spec fn view_commands(c: Commands<String>) -> Commands<Seq<char>> {
    match c {
        Commands::Status => Commands::Status,
        Commands::Config { action } => Commands::Config { action: view_configaction(action) },
        Commands::Kdbx { action } => Commands::Kdbx { action: view_kdbxaction(action) },
        Commands::Push { local, prefix, state } => Commands::Push { local: local@, prefix: opt_view(prefix), state: opt_view(state) },
        Commands::Pull { manifest, local, prefix, state } => Commands::Pull { manifest: manifest@, local: opt_view(local), prefix: opt_view(prefix), state: opt_view(state) },
        Commands::SyncStatus { path, state } => Commands::SyncStatus { path: opt_view(path), state: opt_view(state) },
        Commands::Mount { remote, mountpoint, read_only, nfs, nfs_port } => Commands::Mount { remote: remote@, mountpoint: mountpoint@, read_only: read_only, nfs: nfs, nfs_port: nfs_port },
        Commands::Unmount { mountpoint } => Commands::Unmount { mountpoint: mountpoint@ },
        Commands::Cache { action } => Commands::Cache { action: view_cacheaction(action) },
        Commands::Unsync { path, force } => Commands::Unsync { path: path@, force: force },
        Commands::Init { device_name, non_interactive, password } => Commands::Init { device_name: opt_view(device_name), non_interactive: non_interactive, password: opt_view(password) },
        Commands::Device { action } => Commands::Device { action: view_deviceaction(action) },
        Commands::Auth { action } => Commands::Auth { action: view_authaction(action) },
        Commands::RotateCredentials { cred_file, non_interactive } => Commands::RotateCredentials { cred_file: opt_view(cred_file), non_interactive: non_interactive },
        Commands::RotateKey { old_key_file, password, non_interactive } => Commands::RotateKey { old_key_file: opt_view(old_key_file), password: password, non_interactive: non_interactive },
        Commands::Reconcile { path, prefix, execute, state } => Commands::Reconcile { path: opt_view(path), prefix: opt_view(prefix), execute: execute, state: opt_view(state) },
        Commands::Policy { action } => Commands::Policy { action: view_policyaction(action) },
        Commands::Rm { path, prefix, state } => Commands::Rm { path: path@, prefix: opt_view(prefix), state: opt_view(state) },
        Commands::Resolve { path, strategy } => Commands::Resolve { path: path@, strategy: opt_view(strategy) },
        Commands::Trash { action } => Commands::Trash { action: view_trashaction(action) },
        Commands::MigratePrefix { dry_run } => Commands::MigratePrefix { dry_run: dry_run },
    }
}

pub open spec fn build_status(s: Scan, env: CliEnvView) -> Result<Commands<Seq<char>>, CliError> {
    { Ok(Commands::Status) }
}

fn exec_build_status(s: &ScanOut, env: &CliEnv) -> (r: Result<Commands<String>, CliError>)
    requires
        s@.vals.len() == sig_none().longs.len(),
        s.vals@.len() == sig_none().longs.len(),
        s@.pos.len() <= sig_none().max_pos,
    ensures
        match r {
            Ok(c) => build_status(s@, env@) == Ok::<Commands<Seq<char>>, CliError>(view_commands(c)),
            Err(e) => build_status(s@, env@) == Err::<Commands<Seq<char>>, CliError>(e),
        },
{
    let c = Commands::Status;
    assert(view_commands(c) == build_status(s@, env@)->Ok_0);
    Ok(c)
}

pub open spec fn build_push(s: Scan, env: CliEnvView) -> Result<Commands<Seq<char>>, CliError> {
    if s.pos.len() <= 0 { Err(CliError::MissingRequired) } else
    { Ok(Commands::Push { local: s.pos[0], prefix: s.vals[0], state: match s.vals[1] { Some(v) => Some(v), None => env.state_path } }) }
}

fn exec_build_push(s: &ScanOut, env: &CliEnv) -> (r: Result<Commands<String>, CliError>)
    requires
        s@.vals.len() == sig_push().longs.len(),
        s.vals@.len() == sig_push().longs.len(),
        s@.pos.len() <= sig_push().max_pos,
    ensures
        match r {
            Ok(c) => build_push(s@, env@) == Ok::<Commands<Seq<char>>, CliError>(view_commands(c)),
            Err(e) => build_push(s@, env@) == Err::<Commands<Seq<char>>, CliError>(e),
        },
{
    if s.pos.len() <= 0 { return Err(CliError::MissingRequired); }
    proof { if s@.pos.len() > 0 { assert(s@.pos[0] == s.pos@[0]@); } }
    proof { assert(s@.vals[0] == opt_view_vec(s.vals@[0])); }
    proof { assert(s@.vals[1] == opt_view_vec(s.vals@[1])); }
    let c = Commands::Push { local: string_of(s.pos[0].as_slice()), prefix: opt_string(&s.vals[0]), state: opt_or_env(&s.vals[1], &env.state_path) };
    assert(view_commands(c) == build_push(s@, env@)->Ok_0);
    Ok(c)
}

pub open spec fn build_pull(s: Scan, env: CliEnvView) -> Result<Commands<Seq<char>>, CliError> {
    if s.pos.len() <= 0 { Err(CliError::MissingRequired) } else
    { Ok(Commands::Pull { manifest: s.pos[0], local: if s.pos.len() > 1 { Some(s.pos[1]) } else { None }, prefix: s.vals[0], state: match s.vals[1] { Some(v) => Some(v), None => env.state_path } }) }
}

fn exec_build_pull(s: &ScanOut, env: &CliEnv) -> (r: Result<Commands<String>, CliError>)
    requires
        s@.vals.len() == sig_pull().longs.len(),
        s.vals@.len() == sig_pull().longs.len(),
        s@.pos.len() <= sig_pull().max_pos,
    ensures
        match r {
            Ok(c) => build_pull(s@, env@) == Ok::<Commands<Seq<char>>, CliError>(view_commands(c)),
            Err(e) => build_pull(s@, env@) == Err::<Commands<Seq<char>>, CliError>(e),
        },
{
    if s.pos.len() <= 0 { return Err(CliError::MissingRequired); }
    proof { if s@.pos.len() > 0 { assert(s@.pos[0] == s.pos@[0]@); } }
    proof { if s@.pos.len() > 1 { assert(s@.pos[1] == s.pos@[1]@); } }
    proof { assert(s@.vals[0] == opt_view_vec(s.vals@[0])); }
    proof { assert(s@.vals[1] == opt_view_vec(s.vals@[1])); }
    let c = Commands::Pull { manifest: string_of(s.pos[0].as_slice()), local: if s.pos.len() > 1 { Some(string_of(s.pos[1].as_slice())) } else { None }, prefix: opt_string(&s.vals[0]), state: opt_or_env(&s.vals[1], &env.state_path) };
    assert(view_commands(c) == build_pull(s@, env@)->Ok_0);
    Ok(c)
}

pub open spec fn build_syncstatus(s: Scan, env: CliEnvView) -> Result<Commands<Seq<char>>, CliError> {
    { Ok(Commands::SyncStatus { path: if s.pos.len() > 0 { Some(s.pos[0]) } else { None }, state: match s.vals[0] { Some(v) => Some(v), None => env.state_path } }) }
}

fn exec_build_syncstatus(s: &ScanOut, env: &CliEnv) -> (r: Result<Commands<String>, CliError>)
    requires
        s@.vals.len() == sig_sync_status().longs.len(),
        s.vals@.len() == sig_sync_status().longs.len(),
        s@.pos.len() <= sig_sync_status().max_pos,
    ensures
        match r {
            Ok(c) => build_syncstatus(s@, env@) == Ok::<Commands<Seq<char>>, CliError>(view_commands(c)),
            Err(e) => build_syncstatus(s@, env@) == Err::<Commands<Seq<char>>, CliError>(e),
        },
{
    proof { if s@.pos.len() > 0 { assert(s@.pos[0] == s.pos@[0]@); } }
    proof { assert(s@.vals[0] == opt_view_vec(s.vals@[0])); }
    let c = Commands::SyncStatus { path: if s.pos.len() > 0 { Some(string_of(s.pos[0].as_slice())) } else { None }, state: opt_or_env(&s.vals[0], &env.state_path) };
    assert(view_commands(c) == build_syncstatus(s@, env@)->Ok_0);
    Ok(c)
}

pub open spec fn build_mount(s: Scan, env: CliEnvView) -> Result<Commands<Seq<char>>, CliError> {
    if s.pos.len() <= 0 { Err(CliError::MissingRequired) } else
    if s.pos.len() <= 1 { Err(CliError::MissingRequired) } else
    if (s.vals[2] matches Some(v) && parse_u16_spec(v) is None) { Err(CliError::InvalidValue) } else
    { Ok(Commands::Mount { remote: s.pos[0], mountpoint: s.pos[1], read_only: s.vals[0] is Some, nfs: s.vals[1] is Some, nfs_port: match s.vals[2] { Some(v) => match parse_u16_spec(v) { Some(n) => n, None => 0 }, None => 0 } }) }
}

fn exec_build_mount(s: &ScanOut, env: &CliEnv) -> (r: Result<Commands<String>, CliError>)
    requires
        s@.vals.len() == sig_mount().longs.len(),
        s.vals@.len() == sig_mount().longs.len(),
        s@.pos.len() <= sig_mount().max_pos,
    ensures
        match r {
            Ok(c) => build_mount(s@, env@) == Ok::<Commands<Seq<char>>, CliError>(view_commands(c)),
            Err(e) => build_mount(s@, env@) == Err::<Commands<Seq<char>>, CliError>(e),
        },
{
    if s.pos.len() <= 0 { return Err(CliError::MissingRequired); }
    if s.pos.len() <= 1 { return Err(CliError::MissingRequired); }
    if !u16_ok(&s.vals[2]) { return Err(CliError::InvalidValue); }
    proof { if s@.pos.len() > 0 { assert(s@.pos[0] == s.pos@[0]@); } }
    proof { if s@.pos.len() > 1 { assert(s@.pos[1] == s.pos@[1]@); } }
    proof { assert(s@.vals[0] == opt_view_vec(s.vals@[0])); }
    proof { assert(s@.vals[1] == opt_view_vec(s.vals@[1])); }
    proof { assert(s@.vals[2] == opt_view_vec(s.vals@[2])); }
    let c = Commands::Mount { remote: string_of(s.pos[0].as_slice()), mountpoint: string_of(s.pos[1].as_slice()), read_only: s.vals[0].is_some(), nfs: s.vals[1].is_some(), nfs_port: u16_or(&s.vals[2], 0) };
    assert(view_commands(c) == build_mount(s@, env@)->Ok_0);
    Ok(c)
}

pub open spec fn build_unmount(s: Scan, env: CliEnvView) -> Result<Commands<Seq<char>>, CliError> {
    if s.pos.len() <= 0 { Err(CliError::MissingRequired) } else
    { Ok(Commands::Unmount { mountpoint: s.pos[0] }) }
}

fn exec_build_unmount(s: &ScanOut, env: &CliEnv) -> (r: Result<Commands<String>, CliError>)
    requires
        s@.vals.len() == sig_one_pos().longs.len(),
        s.vals@.len() == sig_one_pos().longs.len(),
        s@.pos.len() <= sig_one_pos().max_pos,
    ensures
        match r {
            Ok(c) => build_unmount(s@, env@) == Ok::<Commands<Seq<char>>, CliError>(view_commands(c)),
            Err(e) => build_unmount(s@, env@) == Err::<Commands<Seq<char>>, CliError>(e),
        },
{
    if s.pos.len() <= 0 { return Err(CliError::MissingRequired); }
    proof { if s@.pos.len() > 0 { assert(s@.pos[0] == s.pos@[0]@); } }
    let c = Commands::Unmount { mountpoint: string_of(s.pos[0].as_slice()) };
    assert(view_commands(c) == build_unmount(s@, env@)->Ok_0);
    Ok(c)
}

pub open spec fn build_unsync(s: Scan, env: CliEnvView) -> Result<Commands<Seq<char>>, CliError> {
    if s.pos.len() <= 0 { Err(CliError::MissingRequired) } else
    { Ok(Commands::Unsync { path: s.pos[0], force: s.vals[0] is Some }) }
}

fn exec_build_unsync(s: &ScanOut, env: &CliEnv) -> (r: Result<Commands<String>, CliError>)
    requires
        s@.vals.len() == sig_unsync().longs.len(),
        s.vals@.len() == sig_unsync().longs.len(),
        s@.pos.len() <= sig_unsync().max_pos,
    ensures
        match r {
            Ok(c) => build_unsync(s@, env@) == Ok::<Commands<Seq<char>>, CliError>(view_commands(c)),
            Err(e) => build_unsync(s@, env@) == Err::<Commands<Seq<char>>, CliError>(e),
        },
{
    if s.pos.len() <= 0 { return Err(CliError::MissingRequired); }
    proof { if s@.pos.len() > 0 { assert(s@.pos[0] == s.pos@[0]@); } }
    proof { assert(s@.vals[0] == opt_view_vec(s.vals@[0])); }
    let c = Commands::Unsync { path: string_of(s.pos[0].as_slice()), force: s.vals[0].is_some() };
    assert(view_commands(c) == build_unsync(s@, env@)->Ok_0);
    Ok(c)
}

pub open spec fn build_init(s: Scan, env: CliEnvView) -> Result<Commands<Seq<char>>, CliError> {
    { Ok(Commands::Init { device_name: s.vals[0], non_interactive: s.vals[1] is Some, password: match s.vals[2] { Some(v) => Some(v), None => env.master_password } }) }
}

fn exec_build_init(s: &ScanOut, env: &CliEnv) -> (r: Result<Commands<String>, CliError>)
    requires
        s@.vals.len() == sig_init().longs.len(),
        s.vals@.len() == sig_init().longs.len(),
        s@.pos.len() <= sig_init().max_pos,
    ensures
        match r {
            Ok(c) => build_init(s@, env@) == Ok::<Commands<Seq<char>>, CliError>(view_commands(c)),
            Err(e) => build_init(s@, env@) == Err::<Commands<Seq<char>>, CliError>(e),
        },
{
    proof { assert(s@.vals[0] == opt_view_vec(s.vals@[0])); }
    proof { assert(s@.vals[1] == opt_view_vec(s.vals@[1])); }
    proof { assert(s@.vals[2] == opt_view_vec(s.vals@[2])); }
    let c = Commands::Init { device_name: opt_string(&s.vals[0]), non_interactive: s.vals[1].is_some(), password: opt_or_env(&s.vals[2], &env.master_password) };
    assert(view_commands(c) == build_init(s@, env@)->Ok_0);
    Ok(c)
}

pub open spec fn build_rotatecredentials(s: Scan, env: CliEnvView) -> Result<Commands<Seq<char>>, CliError> {
    { Ok(Commands::RotateCredentials { cred_file: s.vals[0], non_interactive: s.vals[1] is Some }) }
}

fn exec_build_rotatecredentials(s: &ScanOut, env: &CliEnv) -> (r: Result<Commands<String>, CliError>)
    requires
        s@.vals.len() == sig_rotate_credentials().longs.len(),
        s.vals@.len() == sig_rotate_credentials().longs.len(),
        s@.pos.len() <= sig_rotate_credentials().max_pos,
    ensures
        match r {
            Ok(c) => build_rotatecredentials(s@, env@) == Ok::<Commands<Seq<char>>, CliError>(view_commands(c)),
            Err(e) => build_rotatecredentials(s@, env@) == Err::<Commands<Seq<char>>, CliError>(e),
        },
{
    proof { assert(s@.vals[0] == opt_view_vec(s.vals@[0])); }
    proof { assert(s@.vals[1] == opt_view_vec(s.vals@[1])); }
    let c = Commands::RotateCredentials { cred_file: opt_string(&s.vals[0]), non_interactive: s.vals[1].is_some() };
    assert(view_commands(c) == build_rotatecredentials(s@, env@)->Ok_0);
    Ok(c)
}

pub open spec fn build_rotatekey(s: Scan, env: CliEnvView) -> Result<Commands<Seq<char>>, CliError> {
    { Ok(Commands::RotateKey { old_key_file: s.vals[0], password: s.vals[1] is Some, non_interactive: s.vals[2] is Some }) }
}

fn exec_build_rotatekey(s: &ScanOut, env: &CliEnv) -> (r: Result<Commands<String>, CliError>)
    requires
        s@.vals.len() == sig_rotate_key().longs.len(),
        s.vals@.len() == sig_rotate_key().longs.len(),
        s@.pos.len() <= sig_rotate_key().max_pos,
    ensures
        match r {
            Ok(c) => build_rotatekey(s@, env@) == Ok::<Commands<Seq<char>>, CliError>(view_commands(c)),
            Err(e) => build_rotatekey(s@, env@) == Err::<Commands<Seq<char>>, CliError>(e),
        },
{
    proof { assert(s@.vals[0] == opt_view_vec(s.vals@[0])); }
    proof { assert(s@.vals[1] == opt_view_vec(s.vals@[1])); }
    proof { assert(s@.vals[2] == opt_view_vec(s.vals@[2])); }
    let c = Commands::RotateKey { old_key_file: opt_string(&s.vals[0]), password: s.vals[1].is_some(), non_interactive: s.vals[2].is_some() };
    assert(view_commands(c) == build_rotatekey(s@, env@)->Ok_0);
    Ok(c)
}

pub open spec fn build_reconcile(s: Scan, env: CliEnvView) -> Result<Commands<Seq<char>>, CliError> {
    { Ok(Commands::Reconcile { path: s.vals[0], prefix: s.vals[1], execute: s.vals[2] is Some, state: match s.vals[3] { Some(v) => Some(v), None => env.state_path } }) }
}

fn exec_build_reconcile(s: &ScanOut, env: &CliEnv) -> (r: Result<Commands<String>, CliError>)
    requires
        s@.vals.len() == sig_reconcile().longs.len(),
        s.vals@.len() == sig_reconcile().longs.len(),
        s@.pos.len() <= sig_reconcile().max_pos,
    ensures
        match r {
            Ok(c) => build_reconcile(s@, env@) == Ok::<Commands<Seq<char>>, CliError>(view_commands(c)),
            Err(e) => build_reconcile(s@, env@) == Err::<Commands<Seq<char>>, CliError>(e),
        },
{
    proof { assert(s@.vals[0] == opt_view_vec(s.vals@[0])); }
    proof { assert(s@.vals[1] == opt_view_vec(s.vals@[1])); }
    proof { assert(s@.vals[2] == opt_view_vec(s.vals@[2])); }
    proof { assert(s@.vals[3] == opt_view_vec(s.vals@[3])); }
    let c = Commands::Reconcile { path: opt_string(&s.vals[0]), prefix: opt_string(&s.vals[1]), execute: s.vals[2].is_some(), state: opt_or_env(&s.vals[3], &env.state_path) };
    assert(view_commands(c) == build_reconcile(s@, env@)->Ok_0);
    Ok(c)
}

pub open spec fn build_rm(s: Scan, env: CliEnvView) -> Result<Commands<Seq<char>>, CliError> {
    if s.pos.len() <= 0 { Err(CliError::MissingRequired) } else
    { Ok(Commands::Rm { path: s.pos[0], prefix: s.vals[0], state: match s.vals[1] { Some(v) => Some(v), None => env.state_path } }) }
}

fn exec_build_rm(s: &ScanOut, env: &CliEnv) -> (r: Result<Commands<String>, CliError>)
    requires
        s@.vals.len() == sig_rm().longs.len(),
        s.vals@.len() == sig_rm().longs.len(),
        s@.pos.len() <= sig_rm().max_pos,
    ensures
        match r {
            Ok(c) => build_rm(s@, env@) == Ok::<Commands<Seq<char>>, CliError>(view_commands(c)),
            Err(e) => build_rm(s@, env@) == Err::<Commands<Seq<char>>, CliError>(e),
        },
{
    if s.pos.len() <= 0 { return Err(CliError::MissingRequired); }
    proof { if s@.pos.len() > 0 { assert(s@.pos[0] == s.pos@[0]@); } }
    proof { assert(s@.vals[0] == opt_view_vec(s.vals@[0])); }
    proof { assert(s@.vals[1] == opt_view_vec(s.vals@[1])); }
    let c = Commands::Rm { path: string_of(s.pos[0].as_slice()), prefix: opt_string(&s.vals[0]), state: opt_or_env(&s.vals[1], &env.state_path) };
    assert(view_commands(c) == build_rm(s@, env@)->Ok_0);
    Ok(c)
}

pub open spec fn build_resolve(s: Scan, env: CliEnvView) -> Result<Commands<Seq<char>>, CliError> {
    if s.pos.len() <= 0 { Err(CliError::MissingRequired) } else
    { Ok(Commands::Resolve { path: s.pos[0], strategy: s.vals[0] }) }
}

fn exec_build_resolve(s: &ScanOut, env: &CliEnv) -> (r: Result<Commands<String>, CliError>)
    requires
        s@.vals.len() == sig_resolve().longs.len(),
        s.vals@.len() == sig_resolve().longs.len(),
        s@.pos.len() <= sig_resolve().max_pos,
    ensures
        match r {
            Ok(c) => build_resolve(s@, env@) == Ok::<Commands<Seq<char>>, CliError>(view_commands(c)),
            Err(e) => build_resolve(s@, env@) == Err::<Commands<Seq<char>>, CliError>(e),
        },
{
    if s.pos.len() <= 0 { return Err(CliError::MissingRequired); }
    proof { if s@.pos.len() > 0 { assert(s@.pos[0] == s.pos@[0]@); } }
    proof { assert(s@.vals[0] == opt_view_vec(s.vals@[0])); }
    let c = Commands::Resolve { path: string_of(s.pos[0].as_slice()), strategy: opt_string(&s.vals[0]) };
    assert(view_commands(c) == build_resolve(s@, env@)->Ok_0);
    Ok(c)
}

pub open spec fn build_migrateprefix(s: Scan, env: CliEnvView) -> Result<Commands<Seq<char>>, CliError> {
    { Ok(Commands::MigratePrefix { dry_run: s.vals[0] is Some }) }
}

fn exec_build_migrateprefix(s: &ScanOut, env: &CliEnv) -> (r: Result<Commands<String>, CliError>)
    requires
        s@.vals.len() == sig_migrate_prefix().longs.len(),
        s.vals@.len() == sig_migrate_prefix().longs.len(),
        s@.pos.len() <= sig_migrate_prefix().max_pos,
    ensures
        match r {
            Ok(c) => build_migrateprefix(s@, env@) == Ok::<Commands<Seq<char>>, CliError>(view_commands(c)),
            Err(e) => build_migrateprefix(s@, env@) == Err::<Commands<Seq<char>>, CliError>(e),
        },
{
    proof { assert(s@.vals[0] == opt_view_vec(s.vals@[0])); }
    let c = Commands::MigratePrefix { dry_run: s.vals[0].is_some() };
    assert(view_commands(c) == build_migrateprefix(s@, env@)->Ok_0);
    Ok(c)
}

pub open spec fn build_config_show(s: Scan, env: CliEnvView) -> Result<ConfigAction, CliError> {
    { Ok(ConfigAction::Show) }
}

fn exec_build_config_show(s: &ScanOut, env: &CliEnv) -> (r: Result<ConfigAction, CliError>)
    requires
        s@.vals.len() == sig_none().longs.len(),
        s.vals@.len() == sig_none().longs.len(),
        s@.pos.len() <= sig_none().max_pos,
    ensures
        match r {
            Ok(c) => build_config_show(s@, env@) == Ok::<ConfigAction, CliError>(view_configaction(c)),
            Err(e) => build_config_show(s@, env@) == Err::<ConfigAction, CliError>(e),
        },
{
    let c = ConfigAction::Show;
    assert(view_configaction(c) == build_config_show(s@, env@)->Ok_0);
    Ok(c)
}

pub open spec fn build_kdbx_resolve(s: Scan, env: CliEnvView) -> Result<KdbxAction<Seq<char>>, CliError> {
    if s.pos.len() <= 0 { Err(CliError::MissingRequired) } else
    { Ok(KdbxAction::Resolve { query: s.pos[0], kdbx_path: match s.vals[0] { Some(v) => Some(v), None => env.kdbx_path }, password: match s.vals[1] { Some(v) => Some(v), None => env.kdbx_password } }) }
}

fn exec_build_kdbx_resolve(s: &ScanOut, env: &CliEnv) -> (r: Result<KdbxAction<String>, CliError>)
    requires
        s@.vals.len() == sig_kdbx_resolve().longs.len(),
        s.vals@.len() == sig_kdbx_resolve().longs.len(),
        s@.pos.len() <= sig_kdbx_resolve().max_pos,
    ensures
        match r {
            Ok(c) => build_kdbx_resolve(s@, env@) == Ok::<KdbxAction<Seq<char>>, CliError>(view_kdbxaction(c)),
            Err(e) => build_kdbx_resolve(s@, env@) == Err::<KdbxAction<Seq<char>>, CliError>(e),
        },
{
    if s.pos.len() <= 0 { return Err(CliError::MissingRequired); }
    proof { if s@.pos.len() > 0 { assert(s@.pos[0] == s.pos@[0]@); } }
    proof { assert(s@.vals[0] == opt_view_vec(s.vals@[0])); }
    proof { assert(s@.vals[1] == opt_view_vec(s.vals@[1])); }
    let c = KdbxAction::Resolve { query: string_of(s.pos[0].as_slice()), kdbx_path: opt_or_env(&s.vals[0], &env.kdbx_path), password: opt_or_env(&s.vals[1], &env.kdbx_password) };
    assert(view_kdbxaction(c) == build_kdbx_resolve(s@, env@)->Ok_0);
    Ok(c)
}

pub open spec fn build_kdbx_import(s: Scan, env: CliEnvView) -> Result<KdbxAction<Seq<char>>, CliError> {
    { Ok(KdbxAction::Import { kdbx_path: match s.vals[0] { Some(v) => Some(v), None => env.kdbx_path }, password: match s.vals[1] { Some(v) => Some(v), None => env.kdbx_password } }) }
}

fn exec_build_kdbx_import(s: &ScanOut, env: &CliEnv) -> (r: Result<KdbxAction<String>, CliError>)
    requires
        s@.vals.len() == sig_kdbx_import().longs.len(),
        s.vals@.len() == sig_kdbx_import().longs.len(),
        s@.pos.len() <= sig_kdbx_import().max_pos,
    ensures
        match r {
            Ok(c) => build_kdbx_import(s@, env@) == Ok::<KdbxAction<Seq<char>>, CliError>(view_kdbxaction(c)),
            Err(e) => build_kdbx_import(s@, env@) == Err::<KdbxAction<Seq<char>>, CliError>(e),
        },
{
    proof { assert(s@.vals[0] == opt_view_vec(s.vals@[0])); }
    proof { assert(s@.vals[1] == opt_view_vec(s.vals@[1])); }
    let c = KdbxAction::Import { kdbx_path: opt_or_env(&s.vals[0], &env.kdbx_path), password: opt_or_env(&s.vals[1], &env.kdbx_password) };
    assert(view_kdbxaction(c) == build_kdbx_import(s@, env@)->Ok_0);
    Ok(c)
}

pub open spec fn build_cache_stats(s: Scan, env: CliEnvView) -> Result<CacheAction, CliError> {
    { Ok(CacheAction::Stats) }
}

fn exec_build_cache_stats(s: &ScanOut, env: &CliEnv) -> (r: Result<CacheAction, CliError>)
    requires
        s@.vals.len() == sig_none().longs.len(),
        s.vals@.len() == sig_none().longs.len(),
        s@.pos.len() <= sig_none().max_pos,
    ensures
        match r {
            Ok(c) => build_cache_stats(s@, env@) == Ok::<CacheAction, CliError>(view_cacheaction(c)),
            Err(e) => build_cache_stats(s@, env@) == Err::<CacheAction, CliError>(e),
        },
{
    let c = CacheAction::Stats;
    assert(view_cacheaction(c) == build_cache_stats(s@, env@)->Ok_0);
    Ok(c)
}

pub open spec fn build_cache_clear(s: Scan, env: CliEnvView) -> Result<CacheAction, CliError> {
    { Ok(CacheAction::Clear) }
}

fn exec_build_cache_clear(s: &ScanOut, env: &CliEnv) -> (r: Result<CacheAction, CliError>)
    requires
        s@.vals.len() == sig_none().longs.len(),
        s.vals@.len() == sig_none().longs.len(),
        s@.pos.len() <= sig_none().max_pos,
    ensures
        match r {
            Ok(c) => build_cache_clear(s@, env@) == Ok::<CacheAction, CliError>(view_cacheaction(c)),
            Err(e) => build_cache_clear(s@, env@) == Err::<CacheAction, CliError>(e),
        },
{
    let c = CacheAction::Clear;
    assert(view_cacheaction(c) == build_cache_clear(s@, env@)->Ok_0);
    Ok(c)
}

pub open spec fn build_device_enroll(s: Scan, env: CliEnvView) -> Result<DeviceAction<Seq<char>>, CliError> {
    { Ok(DeviceAction::Enroll { name: s.vals[0] }) }
}

fn exec_build_device_enroll(s: &ScanOut, env: &CliEnv) -> (r: Result<DeviceAction<String>, CliError>)
    requires
        s@.vals.len() == sig_device_enroll().longs.len(),
        s.vals@.len() == sig_device_enroll().longs.len(),
        s@.pos.len() <= sig_device_enroll().max_pos,
    ensures
        match r {
            Ok(c) => build_device_enroll(s@, env@) == Ok::<DeviceAction<Seq<char>>, CliError>(view_deviceaction(c)),
            Err(e) => build_device_enroll(s@, env@) == Err::<DeviceAction<Seq<char>>, CliError>(e),
        },
{
    proof { assert(s@.vals[0] == opt_view_vec(s.vals@[0])); }
    let c = DeviceAction::Enroll { name: opt_string(&s.vals[0]) };
    assert(view_deviceaction(c) == build_device_enroll(s@, env@)->Ok_0);
    Ok(c)
}

pub open spec fn build_device_list(s: Scan, env: CliEnvView) -> Result<DeviceAction<Seq<char>>, CliError> {
    { Ok(DeviceAction::List) }
}

fn exec_build_device_list(s: &ScanOut, env: &CliEnv) -> (r: Result<DeviceAction<String>, CliError>)
    requires
        s@.vals.len() == sig_none().longs.len(),
        s.vals@.len() == sig_none().longs.len(),
        s@.pos.len() <= sig_none().max_pos,
    ensures
        match r {
            Ok(c) => build_device_list(s@, env@) == Ok::<DeviceAction<Seq<char>>, CliError>(view_deviceaction(c)),
            Err(e) => build_device_list(s@, env@) == Err::<DeviceAction<Seq<char>>, CliError>(e),
        },
{
    let c = DeviceAction::List;
    assert(view_deviceaction(c) == build_device_list(s@, env@)->Ok_0);
    Ok(c)
}

pub open spec fn build_device_revoke(s: Scan, env: CliEnvView) -> Result<DeviceAction<Seq<char>>, CliError> {
    if s.pos.len() <= 0 { Err(CliError::MissingRequired) } else
    { Ok(DeviceAction::Revoke { name: s.pos[0] }) }
}

fn exec_build_device_revoke(s: &ScanOut, env: &CliEnv) -> (r: Result<DeviceAction<String>, CliError>)
    requires
        s@.vals.len() == sig_one_pos().longs.len(),
        s.vals@.len() == sig_one_pos().longs.len(),
        s@.pos.len() <= sig_one_pos().max_pos,
    ensures
        match r {
            Ok(c) => build_device_revoke(s@, env@) == Ok::<DeviceAction<Seq<char>>, CliError>(view_deviceaction(c)),
            Err(e) => build_device_revoke(s@, env@) == Err::<DeviceAction<Seq<char>>, CliError>(e),
        },
{
    if s.pos.len() <= 0 { return Err(CliError::MissingRequired); }
    proof { if s@.pos.len() > 0 { assert(s@.pos[0] == s.pos@[0]@); } }
    let c = DeviceAction::Revoke { name: string_of(s.pos[0].as_slice()) };
    assert(view_deviceaction(c) == build_device_revoke(s@, env@)->Ok_0);
    Ok(c)
}

pub open spec fn build_device_status(s: Scan, env: CliEnvView) -> Result<DeviceAction<Seq<char>>, CliError> {
    { Ok(DeviceAction::Status) }
}

fn exec_build_device_status(s: &ScanOut, env: &CliEnv) -> (r: Result<DeviceAction<String>, CliError>)
    requires
        s@.vals.len() == sig_none().longs.len(),
        s.vals@.len() == sig_none().longs.len(),
        s@.pos.len() <= sig_none().max_pos,
    ensures
        match r {
            Ok(c) => build_device_status(s@, env@) == Ok::<DeviceAction<Seq<char>>, CliError>(view_deviceaction(c)),
            Err(e) => build_device_status(s@, env@) == Err::<DeviceAction<Seq<char>>, CliError>(e),
        },
{
    let c = DeviceAction::Status;
    assert(view_deviceaction(c) == build_device_status(s@, env@)->Ok_0);
    Ok(c)
}

pub open spec fn build_device_invite(s: Scan, env: CliEnvView) -> Result<DeviceAction<Seq<char>>, CliError> {
    if (s.vals[0] matches Some(v) && parse_u64_spec(v) is None) { Err(CliError::InvalidValue) } else
    { Ok(DeviceAction::Invite { expiry_hours: match s.vals[0] { Some(v) => match parse_u64_spec(v) { Some(n) => n, None => 0 }, None => 24 }, qr: s.vals[1] is Some }) }
}

fn exec_build_device_invite(s: &ScanOut, env: &CliEnv) -> (r: Result<DeviceAction<String>, CliError>)
    requires
        s@.vals.len() == sig_device_invite().longs.len(),
        s.vals@.len() == sig_device_invite().longs.len(),
        s@.pos.len() <= sig_device_invite().max_pos,
    ensures
        match r {
            Ok(c) => build_device_invite(s@, env@) == Ok::<DeviceAction<Seq<char>>, CliError>(view_deviceaction(c)),
            Err(e) => build_device_invite(s@, env@) == Err::<DeviceAction<Seq<char>>, CliError>(e),
        },
{
    if !u64_ok(&s.vals[0]) { return Err(CliError::InvalidValue); }
    proof { assert(s@.vals[0] == opt_view_vec(s.vals@[0])); }
    proof { assert(s@.vals[1] == opt_view_vec(s.vals@[1])); }
    let c = DeviceAction::Invite { expiry_hours: u64_or(&s.vals[0], 24), qr: s.vals[1].is_some() };
    assert(view_deviceaction(c) == build_device_invite(s@, env@)->Ok_0);
    Ok(c)
}

pub open spec fn build_auth_unlock(s: Scan, env: CliEnvView) -> Result<AuthAction<Seq<char>>, CliError> {
    if s.vals[0] is Some && s.vals[1] is Some { Err(CliError::ArgumentConflict) } else
    { Ok(AuthAction::Unlock { key_file: s.vals[0], passphrase_file: s.vals[1] }) }
}

fn exec_build_auth_unlock(s: &ScanOut, env: &CliEnv) -> (r: Result<AuthAction<String>, CliError>)
    requires
        s@.vals.len() == sig_auth_unlock().longs.len(),
        s.vals@.len() == sig_auth_unlock().longs.len(),
        s@.pos.len() <= sig_auth_unlock().max_pos,
    ensures
        match r {
            Ok(c) => build_auth_unlock(s@, env@) == Ok::<AuthAction<Seq<char>>, CliError>(view_authaction(c)),
            Err(e) => build_auth_unlock(s@, env@) == Err::<AuthAction<Seq<char>>, CliError>(e),
        },
{
    assert(s@.vals[0] is Some == s.vals@[0] is Some);
    assert(s@.vals[1] is Some == s.vals@[1] is Some);
    if s.vals[0].is_some() && s.vals[1].is_some() { return Err(CliError::ArgumentConflict); }
    proof { assert(s@.vals[0] == opt_view_vec(s.vals@[0])); }
    proof { assert(s@.vals[1] == opt_view_vec(s.vals@[1])); }
    let c = AuthAction::Unlock { key_file: opt_string(&s.vals[0]), passphrase_file: opt_string(&s.vals[1]) };
    assert(view_authaction(c) == build_auth_unlock(s@, env@)->Ok_0);
    Ok(c)
}

pub open spec fn build_auth_lock(s: Scan, env: CliEnvView) -> Result<AuthAction<Seq<char>>, CliError> {
    { Ok(AuthAction::Lock) }
}

fn exec_build_auth_lock(s: &ScanOut, env: &CliEnv) -> (r: Result<AuthAction<String>, CliError>)
    requires
        s@.vals.len() == sig_none().longs.len(),
        s.vals@.len() == sig_none().longs.len(),
        s@.pos.len() <= sig_none().max_pos,
    ensures
        match r {
            Ok(c) => build_auth_lock(s@, env@) == Ok::<AuthAction<Seq<char>>, CliError>(view_authaction(c)),
            Err(e) => build_auth_lock(s@, env@) == Err::<AuthAction<Seq<char>>, CliError>(e),
        },
{
    let c = AuthAction::Lock;
    assert(view_authaction(c) == build_auth_lock(s@, env@)->Ok_0);
    Ok(c)
}

pub open spec fn build_auth_status(s: Scan, env: CliEnvView) -> Result<AuthAction<Seq<char>>, CliError> {
    { Ok(AuthAction::Status) }
}

fn exec_build_auth_status(s: &ScanOut, env: &CliEnv) -> (r: Result<AuthAction<String>, CliError>)
    requires
        s@.vals.len() == sig_none().longs.len(),
        s.vals@.len() == sig_none().longs.len(),
        s@.pos.len() <= sig_none().max_pos,
    ensures
        match r {
            Ok(c) => build_auth_status(s@, env@) == Ok::<AuthAction<Seq<char>>, CliError>(view_authaction(c)),
            Err(e) => build_auth_status(s@, env@) == Err::<AuthAction<Seq<char>>, CliError>(e),
        },
{
    let c = AuthAction::Status;
    assert(view_authaction(c) == build_auth_status(s@, env@)->Ok_0);
    Ok(c)
}

pub open spec fn build_auth_enroll(s: Scan, env: CliEnvView) -> Result<AuthAction<Seq<char>>, CliError> {
    { Ok(AuthAction::Enroll { method: match s.vals[0] { Some(v) => v, None => seq!['t', 'o', 't', 'p'] } }) }
}

fn exec_build_auth_enroll(s: &ScanOut, env: &CliEnv) -> (r: Result<AuthAction<String>, CliError>)
    requires
        s@.vals.len() == sig_auth_enroll().longs.len(),
        s.vals@.len() == sig_auth_enroll().longs.len(),
        s@.pos.len() <= sig_auth_enroll().max_pos,
    ensures
        match r {
            Ok(c) => build_auth_enroll(s@, env@) == Ok::<AuthAction<Seq<char>>, CliError>(view_authaction(c)),
            Err(e) => build_auth_enroll(s@, env@) == Err::<AuthAction<Seq<char>>, CliError>(e),
        },
{
    proof { assert(s@.vals[0] == opt_view_vec(s.vals@[0])); }
    let c = AuthAction::Enroll { method: opt_or_default(&s.vals[0], &['t', 'o', 't', 'p']) };
    assert(view_authaction(c) == build_auth_enroll(s@, env@)->Ok_0);
    Ok(c)
}

pub open spec fn build_auth_completeenroll(s: Scan, env: CliEnvView) -> Result<AuthAction<Seq<char>>, CliError> {
    if s.vals[1] is None { Err(CliError::MissingRequired) } else
    { Ok(AuthAction::CompleteEnroll { method: match s.vals[0] { Some(v) => v, None => seq!['w', 'e', 'b', 'a', 'u', 't', 'h', 'n'] }, attestation_file: s.vals[1]->0 }) }
}

fn exec_build_auth_completeenroll(s: &ScanOut, env: &CliEnv) -> (r: Result<AuthAction<String>, CliError>)
    requires
        s@.vals.len() == sig_auth_complete().longs.len(),
        s.vals@.len() == sig_auth_complete().longs.len(),
        s@.pos.len() <= sig_auth_complete().max_pos,
    ensures
        match r {
            Ok(c) => build_auth_completeenroll(s@, env@) == Ok::<AuthAction<Seq<char>>, CliError>(view_authaction(c)),
            Err(e) => build_auth_completeenroll(s@, env@) == Err::<AuthAction<Seq<char>>, CliError>(e),
        },
{
    assert(s@.vals[1] is Some == s.vals@[1] is Some);
    if s.vals[1].is_none() { return Err(CliError::MissingRequired); }
    proof { assert(s@.vals[0] == opt_view_vec(s.vals@[0])); }
    proof { assert(s@.vals[1] == opt_view_vec(s.vals@[1])); }
    let c = AuthAction::CompleteEnroll { method: opt_or_default(&s.vals[0], &['w', 'e', 'b', 'a', 'u', 't', 'h', 'n']), attestation_file: req_string(&s.vals[1]) };
    assert(view_authaction(c) == build_auth_completeenroll(s@, env@)->Ok_0);
    Ok(c)
}

pub open spec fn build_auth_verify(s: Scan, env: CliEnvView) -> Result<AuthAction<Seq<char>>, CliError> {
    if s.pos.len() <= 0 { Err(CliError::MissingRequired) } else
    { Ok(AuthAction::Verify { code: s.pos[0] }) }
}

fn exec_build_auth_verify(s: &ScanOut, env: &CliEnv) -> (r: Result<AuthAction<String>, CliError>)
    requires
        s@.vals.len() == sig_one_pos().longs.len(),
        s.vals@.len() == sig_one_pos().longs.len(),
        s@.pos.len() <= sig_one_pos().max_pos,
    ensures
        match r {
            Ok(c) => build_auth_verify(s@, env@) == Ok::<AuthAction<Seq<char>>, CliError>(view_authaction(c)),
            Err(e) => build_auth_verify(s@, env@) == Err::<AuthAction<Seq<char>>, CliError>(e),
        },
{
    if s.pos.len() <= 0 { return Err(CliError::MissingRequired); }
    proof { if s@.pos.len() > 0 { assert(s@.pos[0] == s.pos@[0]@); } }
    let c = AuthAction::Verify { code: string_of(s.pos[0].as_slice()) };
    assert(view_authaction(c) == build_auth_verify(s@, env@)->Ok_0);
    Ok(c)
}

pub open spec fn build_auth_revoke(s: Scan, env: CliEnvView) -> Result<AuthAction<Seq<char>>, CliError> {
    { Ok(AuthAction::Revoke { token: s.vals[0], device: s.vals[1] }) }
}

fn exec_build_auth_revoke(s: &ScanOut, env: &CliEnv) -> (r: Result<AuthAction<String>, CliError>)
    requires
        s@.vals.len() == sig_auth_revoke().longs.len(),
        s.vals@.len() == sig_auth_revoke().longs.len(),
        s@.pos.len() <= sig_auth_revoke().max_pos,
    ensures
        match r {
            Ok(c) => build_auth_revoke(s@, env@) == Ok::<AuthAction<Seq<char>>, CliError>(view_authaction(c)),
            Err(e) => build_auth_revoke(s@, env@) == Err::<AuthAction<Seq<char>>, CliError>(e),
        },
{
    proof { assert(s@.vals[0] == opt_view_vec(s.vals@[0])); }
    proof { assert(s@.vals[1] == opt_view_vec(s.vals@[1])); }
    let c = AuthAction::Revoke { token: opt_string(&s.vals[0]), device: opt_string(&s.vals[1]) };
    assert(view_authaction(c) == build_auth_revoke(s@, env@)->Ok_0);
    Ok(c)
}

pub open spec fn build_policy_setmode(s: Scan, env: CliEnvView) -> Result<PolicyAction<Seq<char>>, CliError> {
    if s.pos.len() <= 0 { Err(CliError::MissingRequired) } else
    if s.pos.len() <= 1 { Err(CliError::MissingRequired) } else
    { Ok(PolicyAction::SetMode { path: s.pos[0], mode: s.pos[1] }) }
}

fn exec_build_policy_setmode(s: &ScanOut, env: &CliEnv) -> (r: Result<PolicyAction<String>, CliError>)
    requires
        s@.vals.len() == sig_policy_set().longs.len(),
        s.vals@.len() == sig_policy_set().longs.len(),
        s@.pos.len() <= sig_policy_set().max_pos,
    ensures
        match r {
            Ok(c) => build_policy_setmode(s@, env@) == Ok::<PolicyAction<Seq<char>>, CliError>(view_policyaction(c)),
            Err(e) => build_policy_setmode(s@, env@) == Err::<PolicyAction<Seq<char>>, CliError>(e),
        },
{
    if s.pos.len() <= 0 { return Err(CliError::MissingRequired); }
    if s.pos.len() <= 1 { return Err(CliError::MissingRequired); }
    proof { if s@.pos.len() > 0 { assert(s@.pos[0] == s.pos@[0]@); } }
    proof { if s@.pos.len() > 1 { assert(s@.pos[1] == s.pos@[1]@); } }
    let c = PolicyAction::SetMode { path: string_of(s.pos[0].as_slice()), mode: string_of(s.pos[1].as_slice()) };
    assert(view_policyaction(c) == build_policy_setmode(s@, env@)->Ok_0);
    Ok(c)
}

pub open spec fn build_policy_get(s: Scan, env: CliEnvView) -> Result<PolicyAction<Seq<char>>, CliError> {
    if s.pos.len() <= 0 { Err(CliError::MissingRequired) } else
    { Ok(PolicyAction::Get { path: s.pos[0] }) }
}

fn exec_build_policy_get(s: &ScanOut, env: &CliEnv) -> (r: Result<PolicyAction<String>, CliError>)
    requires
        s@.vals.len() == sig_one_pos().longs.len(),
        s.vals@.len() == sig_one_pos().longs.len(),
        s@.pos.len() <= sig_one_pos().max_pos,
    ensures
        match r {
            Ok(c) => build_policy_get(s@, env@) == Ok::<PolicyAction<Seq<char>>, CliError>(view_policyaction(c)),
            Err(e) => build_policy_get(s@, env@) == Err::<PolicyAction<Seq<char>>, CliError>(e),
        },
{
    if s.pos.len() <= 0 { return Err(CliError::MissingRequired); }
    proof { if s@.pos.len() > 0 { assert(s@.pos[0] == s.pos@[0]@); } }
    let c = PolicyAction::Get { path: string_of(s.pos[0].as_slice()) };
    assert(view_policyaction(c) == build_policy_get(s@, env@)->Ok_0);
    Ok(c)
}

pub open spec fn build_policy_list(s: Scan, env: CliEnvView) -> Result<PolicyAction<Seq<char>>, CliError> {
    { Ok(PolicyAction::List) }
}

fn exec_build_policy_list(s: &ScanOut, env: &CliEnv) -> (r: Result<PolicyAction<String>, CliError>)
    requires
        s@.vals.len() == sig_none().longs.len(),
        s.vals@.len() == sig_none().longs.len(),
        s@.pos.len() <= sig_none().max_pos,
    ensures
        match r {
            Ok(c) => build_policy_list(s@, env@) == Ok::<PolicyAction<Seq<char>>, CliError>(view_policyaction(c)),
            Err(e) => build_policy_list(s@, env@) == Err::<PolicyAction<Seq<char>>, CliError>(e),
        },
{
    let c = PolicyAction::List;
    assert(view_policyaction(c) == build_policy_list(s@, env@)->Ok_0);
    Ok(c)
}

pub open spec fn build_policy_pin(s: Scan, env: CliEnvView) -> Result<PolicyAction<Seq<char>>, CliError> {
    if s.pos.len() <= 0 { Err(CliError::MissingRequired) } else
    { Ok(PolicyAction::Pin { path: s.pos[0] }) }
}

fn exec_build_policy_pin(s: &ScanOut, env: &CliEnv) -> (r: Result<PolicyAction<String>, CliError>)
    requires
        s@.vals.len() == sig_one_pos().longs.len(),
        s.vals@.len() == sig_one_pos().longs.len(),
        s@.pos.len() <= sig_one_pos().max_pos,
    ensures
        match r {
            Ok(c) => build_policy_pin(s@, env@) == Ok::<PolicyAction<Seq<char>>, CliError>(view_policyaction(c)),
            Err(e) => build_policy_pin(s@, env@) == Err::<PolicyAction<Seq<char>>, CliError>(e),
        },
{
    if s.pos.len() <= 0 { return Err(CliError::MissingRequired); }
    proof { if s@.pos.len() > 0 { assert(s@.pos[0] == s.pos@[0]@); } }
    let c = PolicyAction::Pin { path: string_of(s.pos[0].as_slice()) };
    assert(view_policyaction(c) == build_policy_pin(s@, env@)->Ok_0);
    Ok(c)
}

pub open spec fn build_policy_unpin(s: Scan, env: CliEnvView) -> Result<PolicyAction<Seq<char>>, CliError> {
    if s.pos.len() <= 0 { Err(CliError::MissingRequired) } else
    { Ok(PolicyAction::Unpin { path: s.pos[0] }) }
}

fn exec_build_policy_unpin(s: &ScanOut, env: &CliEnv) -> (r: Result<PolicyAction<String>, CliError>)
    requires
        s@.vals.len() == sig_one_pos().longs.len(),
        s.vals@.len() == sig_one_pos().longs.len(),
        s@.pos.len() <= sig_one_pos().max_pos,
    ensures
        match r {
            Ok(c) => build_policy_unpin(s@, env@) == Ok::<PolicyAction<Seq<char>>, CliError>(view_policyaction(c)),
            Err(e) => build_policy_unpin(s@, env@) == Err::<PolicyAction<Seq<char>>, CliError>(e),
        },
{
    if s.pos.len() <= 0 { return Err(CliError::MissingRequired); }
    proof { if s@.pos.len() > 0 { assert(s@.pos[0] == s.pos@[0]@); } }
    let c = PolicyAction::Unpin { path: string_of(s.pos[0].as_slice()) };
    assert(view_policyaction(c) == build_policy_unpin(s@, env@)->Ok_0);
    Ok(c)
}

pub open spec fn build_trash_list(s: Scan, env: CliEnvView) -> Result<TrashAction<Seq<char>>, CliError> {
    { Ok(TrashAction::List { prefix: s.vals[0] }) }
}

fn exec_build_trash_list(s: &ScanOut, env: &CliEnv) -> (r: Result<TrashAction<String>, CliError>)
    requires
        s@.vals.len() == sig_trash_list().longs.len(),
        s.vals@.len() == sig_trash_list().longs.len(),
        s@.pos.len() <= sig_trash_list().max_pos,
    ensures
        match r {
            Ok(c) => build_trash_list(s@, env@) == Ok::<TrashAction<Seq<char>>, CliError>(view_trashaction(c)),
            Err(e) => build_trash_list(s@, env@) == Err::<TrashAction<Seq<char>>, CliError>(e),
        },
{
    proof { assert(s@.vals[0] == opt_view_vec(s.vals@[0])); }
    let c = TrashAction::List { prefix: opt_string(&s.vals[0]) };
    assert(view_trashaction(c) == build_trash_list(s@, env@)->Ok_0);
    Ok(c)
}

pub open spec fn build_trash_restore(s: Scan, env: CliEnvView) -> Result<TrashAction<Seq<char>>, CliError> {
    if s.pos.len() <= 0 { Err(CliError::MissingRequired) } else
    { Ok(TrashAction::Restore { path: s.pos[0], prefix: s.vals[0] }) }
}

fn exec_build_trash_restore(s: &ScanOut, env: &CliEnv) -> (r: Result<TrashAction<String>, CliError>)
    requires
        s@.vals.len() == sig_trash_restore().longs.len(),
        s.vals@.len() == sig_trash_restore().longs.len(),
        s@.pos.len() <= sig_trash_restore().max_pos,
    ensures
        match r {
            Ok(c) => build_trash_restore(s@, env@) == Ok::<TrashAction<Seq<char>>, CliError>(view_trashaction(c)),
            Err(e) => build_trash_restore(s@, env@) == Err::<TrashAction<Seq<char>>, CliError>(e),
        },
{
    if s.pos.len() <= 0 { return Err(CliError::MissingRequired); }
    proof { if s@.pos.len() > 0 { assert(s@.pos[0] == s.pos@[0]@); } }
    proof { assert(s@.vals[0] == opt_view_vec(s.vals@[0])); }
    let c = TrashAction::Restore { path: string_of(s.pos[0].as_slice()), prefix: opt_string(&s.vals[0]) };
    assert(view_trashaction(c) == build_trash_restore(s@, env@)->Ok_0);
    Ok(c)
}

pub open spec fn build_trash_purge(s: Scan, env: CliEnvView) -> Result<TrashAction<Seq<char>>, CliError> {
    if (s.vals[0] matches Some(v) && parse_u64_spec(v) is None) { Err(CliError::InvalidValue) } else
    { Ok(TrashAction::Purge { older_than: match s.vals[0] { Some(v) => parse_u64_spec(v), None => None }, all: s.vals[1] is Some, prefix: s.vals[2] }) }
}

fn exec_build_trash_purge(s: &ScanOut, env: &CliEnv) -> (r: Result<TrashAction<String>, CliError>)
    requires
        s@.vals.len() == sig_trash_purge().longs.len(),
        s.vals@.len() == sig_trash_purge().longs.len(),
        s@.pos.len() <= sig_trash_purge().max_pos,
    ensures
        match r {
            Ok(c) => build_trash_purge(s@, env@) == Ok::<TrashAction<Seq<char>>, CliError>(view_trashaction(c)),
            Err(e) => build_trash_purge(s@, env@) == Err::<TrashAction<Seq<char>>, CliError>(e),
        },
{
    if !u64_ok(&s.vals[0]) { return Err(CliError::InvalidValue); }
    proof { assert(s@.vals[0] == opt_view_vec(s.vals@[0])); }
    proof { assert(s@.vals[1] == opt_view_vec(s.vals@[1])); }
    proof { assert(s@.vals[2] == opt_view_vec(s.vals@[2])); }
    let c = TrashAction::Purge { older_than: u64_opt(&s.vals[0]), all: s.vals[1].is_some(), prefix: opt_string(&s.vals[2]) };
    assert(view_trashaction(c) == build_trash_purge(s@, env@)->Ok_0);
    Ok(c)
}

/// Which subcommand `name` is: its place in the list of subcommands, the
/// list's length for `help`, and -1 for an unknown name.
pub open spec fn command_id(name: Seq<char>) -> int {
    if name == seq!['s', 't', 'a', 't', 'u', 's'] { 0 }
    else if name == seq!['c', 'o', 'n', 'f', 'i', 'g'] { 1 }
    else if name == seq!['k', 'd', 'b', 'x'] { 2 }
    else if name == seq!['p', 'u', 's', 'h'] { 3 }
    else if name == seq!['p', 'u', 'l', 'l'] { 4 }
    else if name == seq!['s', 'y', 'n', 'c', '-', 's', 't', 'a', 't', 'u', 's'] { 5 }
    else if name == seq!['m', 'o', 'u', 'n', 't'] { 6 }
    else if name == seq!['u', 'n', 'm', 'o', 'u', 'n', 't'] { 7 }
    else if name == seq!['c', 'a', 'c', 'h', 'e'] { 8 }
    else if name == seq!['u', 'n', 's', 'y', 'n', 'c'] { 9 }
    else if name == seq!['i', 'n', 'i', 't'] { 10 }
    else if name == seq!['d', 'e', 'v', 'i', 'c', 'e'] { 11 }
    else if name == seq!['a', 'u', 't', 'h'] { 12 }
    else if name == seq!['r', 'o', 't', 'a', 't', 'e', '-', 'c', 'r', 'e', 'd', 'e', 'n', 't', 'i', 'a', 'l', 's'] { 13 }
    else if name == seq!['r', 'o', 't', 'a', 't', 'e', '-', 'k', 'e', 'y'] { 14 }
    else if name == seq!['r', 'e', 'c', 'o', 'n', 'c', 'i', 'l', 'e'] { 15 }
    else if name == seq!['p', 'o', 'l', 'i', 'c', 'y'] { 16 }
    else if name == seq!['r', 'm'] { 17 }
    else if name == seq!['r', 'e', 's', 'o', 'l', 'v', 'e'] { 18 }
    else if name == seq!['t', 'r', 'a', 's', 'h'] { 19 }
    else if name == seq!['m', 'i', 'g', 'r', 'a', 't', 'e', '-', 'p', 'r', 'e', 'f', 'i', 'x'] { 20 }
    else if name == seq!['h', 'e', 'l', 'p'] { 21 }
    else { -1 }
}

fn exec_command_id(name: &[char]) -> (r: i32)
    ensures
        r as int == command_id(name@),
{
    let a0 = ['s', 't', 'a', 't', 'u', 's'];
    proof { assert(a0@ =~= seq!['s', 't', 'a', 't', 'u', 's']); }
    if chars_eq(name, &a0) { return 0; }
    let a1 = ['c', 'o', 'n', 'f', 'i', 'g'];
    proof { assert(a1@ =~= seq!['c', 'o', 'n', 'f', 'i', 'g']); }
    if chars_eq(name, &a1) { return 1; }
    let a2 = ['k', 'd', 'b', 'x'];
    proof { assert(a2@ =~= seq!['k', 'd', 'b', 'x']); }
    if chars_eq(name, &a2) { return 2; }
    let a3 = ['p', 'u', 's', 'h'];
    proof { assert(a3@ =~= seq!['p', 'u', 's', 'h']); }
    if chars_eq(name, &a3) { return 3; }
    let a4 = ['p', 'u', 'l', 'l'];
    proof { assert(a4@ =~= seq!['p', 'u', 'l', 'l']); }
    if chars_eq(name, &a4) { return 4; }
    let a5 = ['s', 'y', 'n', 'c', '-', 's', 't', 'a', 't', 'u', 's'];
    proof { assert(a5@ =~= seq!['s', 'y', 'n', 'c', '-', 's', 't', 'a', 't', 'u', 's']); }
    if chars_eq(name, &a5) { return 5; }
    let a6 = ['m', 'o', 'u', 'n', 't'];
    proof { assert(a6@ =~= seq!['m', 'o', 'u', 'n', 't']); }
    if chars_eq(name, &a6) { return 6; }
    let a7 = ['u', 'n', 'm', 'o', 'u', 'n', 't'];
    proof { assert(a7@ =~= seq!['u', 'n', 'm', 'o', 'u', 'n', 't']); }
    if chars_eq(name, &a7) { return 7; }
    let a8 = ['c', 'a', 'c', 'h', 'e'];
    proof { assert(a8@ =~= seq!['c', 'a', 'c', 'h', 'e']); }
    if chars_eq(name, &a8) { return 8; }
    let a9 = ['u', 'n', 's', 'y', 'n', 'c'];
    proof { assert(a9@ =~= seq!['u', 'n', 's', 'y', 'n', 'c']); }
    if chars_eq(name, &a9) { return 9; }
    let a10 = ['i', 'n', 'i', 't'];
    proof { assert(a10@ =~= seq!['i', 'n', 'i', 't']); }
    if chars_eq(name, &a10) { return 10; }
    let a11 = ['d', 'e', 'v', 'i', 'c', 'e'];
    proof { assert(a11@ =~= seq!['d', 'e', 'v', 'i', 'c', 'e']); }
    if chars_eq(name, &a11) { return 11; }
    let a12 = ['a', 'u', 't', 'h'];
    proof { assert(a12@ =~= seq!['a', 'u', 't', 'h']); }
    if chars_eq(name, &a12) { return 12; }
    let a13 = ['r', 'o', 't', 'a', 't', 'e', '-', 'c', 'r', 'e', 'd', 'e', 'n', 't', 'i', 'a', 'l', 's'];
    proof { assert(a13@ =~= seq!['r', 'o', 't', 'a', 't', 'e', '-', 'c', 'r', 'e', 'd', 'e', 'n', 't', 'i', 'a', 'l', 's']); }
    if chars_eq(name, &a13) { return 13; }
    let a14 = ['r', 'o', 't', 'a', 't', 'e', '-', 'k', 'e', 'y'];
    proof { assert(a14@ =~= seq!['r', 'o', 't', 'a', 't', 'e', '-', 'k', 'e', 'y']); }
    if chars_eq(name, &a14) { return 14; }
    let a15 = ['r', 'e', 'c', 'o', 'n', 'c', 'i', 'l', 'e'];
    proof { assert(a15@ =~= seq!['r', 'e', 'c', 'o', 'n', 'c', 'i', 'l', 'e']); }
    if chars_eq(name, &a15) { return 15; }
    let a16 = ['p', 'o', 'l', 'i', 'c', 'y'];
    proof { assert(a16@ =~= seq!['p', 'o', 'l', 'i', 'c', 'y']); }
    if chars_eq(name, &a16) { return 16; }
    let a17 = ['r', 'm'];
    proof { assert(a17@ =~= seq!['r', 'm']); }
    if chars_eq(name, &a17) { return 17; }
    let a18 = ['r', 'e', 's', 'o', 'l', 'v', 'e'];
    proof { assert(a18@ =~= seq!['r', 'e', 's', 'o', 'l', 'v', 'e']); }
    if chars_eq(name, &a18) { return 18; }
    let a19 = ['t', 'r', 'a', 's', 'h'];
    proof { assert(a19@ =~= seq!['t', 'r', 'a', 's', 'h']); }
    if chars_eq(name, &a19) { return 19; }
    let a20 = ['m', 'i', 'g', 'r', 'a', 't', 'e', '-', 'p', 'r', 'e', 'f', 'i', 'x'];
    proof { assert(a20@ =~= seq!['m', 'i', 'g', 'r', 'a', 't', 'e', '-', 'p', 'r', 'e', 'f', 'i', 'x']); }
    if chars_eq(name, &a20) { return 20; }
    let h = ['h', 'e', 'l', 'p'];
    proof { assert(h@ =~= seq!['h', 'e', 'l', 'p']); }
    if chars_eq(name, &h) { return 21; }
    -1
}

/// The subcommand named at `toks[i]`, with its arguments from `i + 1` on.
#[verifier::opaque]
pub open spec fn command_parse(toks: Seq<Seq<char>>, i: int, env: CliEnvView) -> Result<Commands<Seq<char>>, CliError> {
    let id = command_id(toks[i]);
    if id == 0 { status_command(toks, i, env) }
    else if id == 1 { config_command(toks, i, env) }
    else if id == 2 { kdbx_command(toks, i, env) }
    else if id == 3 { push_command(toks, i, env) }
    else if id == 4 { pull_command(toks, i, env) }
    else if id == 5 { syncstatus_command(toks, i, env) }
    else if id == 6 { mount_command(toks, i, env) }
    else if id == 7 { unmount_command(toks, i, env) }
    else if id == 8 { cache_command(toks, i, env) }
    else if id == 9 { unsync_command(toks, i, env) }
    else if id == 10 { init_command(toks, i, env) }
    else if id == 11 { device_command(toks, i, env) }
    else if id == 12 { auth_command(toks, i, env) }
    else if id == 13 { rotatecredentials_command(toks, i, env) }
    else if id == 14 { rotatekey_command(toks, i, env) }
    else if id == 15 { reconcile_command(toks, i, env) }
    else if id == 16 { policy_command(toks, i, env) }
    else if id == 17 { rm_command(toks, i, env) }
    else if id == 18 { resolve_command(toks, i, env) }
    else if id == 19 { trash_command(toks, i, env) }
    else if id == 20 { migrateprefix_command(toks, i, env) }
    else if id == 21 { Err(CliError::DisplayHelp) }
    else { Err(CliError::InvalidSubcommand) }
}

pub open spec fn status_command(toks: Seq<Seq<char>>, i: int, env: CliEnvView) -> Result<Commands<Seq<char>>, CliError> {
    match scan_args(toks, i + 1, sig_none()) { Err(e) => Err(e), Ok(s) => build_status(s, env) }
}

fn exec_status_command(toks: &Vec<Vec<char>>, i: usize, env: &CliEnv) -> (r: Result<Commands<String>, CliError>)
    requires
        i < toks.len(),
    ensures
        match r {
            Ok(c) => status_command(deep(toks@), i as int, env@) == Ok::<Commands<Seq<char>>, CliError>(view_commands(c)),
            Err(e) => status_command(deep(toks@), i as int, env@) == Err::<Commands<Seq<char>>, CliError>(e),
        },
{
    let sig = mk_sig_none();
    proof { lemma_scan_shape(deep(toks@), i + 1, sig@); }
    match scan_args_exec(toks, i + 1, &sig) {
        Err(e) => Err(e),
        Ok(s) => exec_build_status(&s, env),
    }
}

pub open spec fn config_command(toks: Seq<Seq<char>>, i: int, env: CliEnvView) -> Result<Commands<Seq<char>>, CliError> {
    match configaction_parse(toks, i + 1, env) { Err(e) => Err(e), Ok(a) => Ok(Commands::Config { action: a }) }
}

fn exec_config_command(toks: &Vec<Vec<char>>, i: usize, env: &CliEnv) -> (r: Result<Commands<String>, CliError>)
    requires
        i < toks.len(),
    ensures
        match r {
            Ok(c) => config_command(deep(toks@), i as int, env@) == Ok::<Commands<Seq<char>>, CliError>(view_commands(c)),
            Err(e) => config_command(deep(toks@), i as int, env@) == Err::<Commands<Seq<char>>, CliError>(e),
        },
{
    match exec_configaction(toks, i + 1, env) {
        Err(e) => Err(e),
        Ok(a) => Ok(Commands::Config { action: a }),
    }
}

pub open spec fn kdbx_command(toks: Seq<Seq<char>>, i: int, env: CliEnvView) -> Result<Commands<Seq<char>>, CliError> {
    match kdbxaction_parse(toks, i + 1, env) { Err(e) => Err(e), Ok(a) => Ok(Commands::Kdbx { action: a }) }
}

fn exec_kdbx_command(toks: &Vec<Vec<char>>, i: usize, env: &CliEnv) -> (r: Result<Commands<String>, CliError>)
    requires
        i < toks.len(),
    ensures
        match r {
            Ok(c) => kdbx_command(deep(toks@), i as int, env@) == Ok::<Commands<Seq<char>>, CliError>(view_commands(c)),
            Err(e) => kdbx_command(deep(toks@), i as int, env@) == Err::<Commands<Seq<char>>, CliError>(e),
        },
{
    match exec_kdbxaction(toks, i + 1, env) {
        Err(e) => Err(e),
        Ok(a) => Ok(Commands::Kdbx { action: a }),
    }
}

pub open spec fn push_command(toks: Seq<Seq<char>>, i: int, env: CliEnvView) -> Result<Commands<Seq<char>>, CliError> {
    match scan_args(toks, i + 1, sig_push()) { Err(e) => Err(e), Ok(s) => build_push(s, env) }
}

fn exec_push_command(toks: &Vec<Vec<char>>, i: usize, env: &CliEnv) -> (r: Result<Commands<String>, CliError>)
    requires
        i < toks.len(),
    ensures
        match r {
            Ok(c) => push_command(deep(toks@), i as int, env@) == Ok::<Commands<Seq<char>>, CliError>(view_commands(c)),
            Err(e) => push_command(deep(toks@), i as int, env@) == Err::<Commands<Seq<char>>, CliError>(e),
        },
{
    let sig = mk_sig_push();
    proof { lemma_scan_shape(deep(toks@), i + 1, sig@); }
    match scan_args_exec(toks, i + 1, &sig) {
        Err(e) => Err(e),
        Ok(s) => exec_build_push(&s, env),
    }
}

pub open spec fn pull_command(toks: Seq<Seq<char>>, i: int, env: CliEnvView) -> Result<Commands<Seq<char>>, CliError> {
    match scan_args(toks, i + 1, sig_pull()) { Err(e) => Err(e), Ok(s) => build_pull(s, env) }
}

fn exec_pull_command(toks: &Vec<Vec<char>>, i: usize, env: &CliEnv) -> (r: Result<Commands<String>, CliError>)
    requires
        i < toks.len(),
    ensures
        match r {
            Ok(c) => pull_command(deep(toks@), i as int, env@) == Ok::<Commands<Seq<char>>, CliError>(view_commands(c)),
            Err(e) => pull_command(deep(toks@), i as int, env@) == Err::<Commands<Seq<char>>, CliError>(e),
        },
{
    let sig = mk_sig_pull();
    proof { lemma_scan_shape(deep(toks@), i + 1, sig@); }
    match scan_args_exec(toks, i + 1, &sig) {
        Err(e) => Err(e),
        Ok(s) => exec_build_pull(&s, env),
    }
}

pub open spec fn syncstatus_command(toks: Seq<Seq<char>>, i: int, env: CliEnvView) -> Result<Commands<Seq<char>>, CliError> {
    match scan_args(toks, i + 1, sig_sync_status()) { Err(e) => Err(e), Ok(s) => build_syncstatus(s, env) }
}

fn exec_syncstatus_command(toks: &Vec<Vec<char>>, i: usize, env: &CliEnv) -> (r: Result<Commands<String>, CliError>)
    requires
        i < toks.len(),
    ensures
        match r {
            Ok(c) => syncstatus_command(deep(toks@), i as int, env@) == Ok::<Commands<Seq<char>>, CliError>(view_commands(c)),
            Err(e) => syncstatus_command(deep(toks@), i as int, env@) == Err::<Commands<Seq<char>>, CliError>(e),
        },
{
    let sig = mk_sig_sync_status();
    proof { lemma_scan_shape(deep(toks@), i + 1, sig@); }
    match scan_args_exec(toks, i + 1, &sig) {
        Err(e) => Err(e),
        Ok(s) => exec_build_syncstatus(&s, env),
    }
}

pub open spec fn mount_command(toks: Seq<Seq<char>>, i: int, env: CliEnvView) -> Result<Commands<Seq<char>>, CliError> {
    match scan_args(toks, i + 1, sig_mount()) { Err(e) => Err(e), Ok(s) => build_mount(s, env) }
}

fn exec_mount_command(toks: &Vec<Vec<char>>, i: usize, env: &CliEnv) -> (r: Result<Commands<String>, CliError>)
    requires
        i < toks.len(),
    ensures
        match r {
            Ok(c) => mount_command(deep(toks@), i as int, env@) == Ok::<Commands<Seq<char>>, CliError>(view_commands(c)),
            Err(e) => mount_command(deep(toks@), i as int, env@) == Err::<Commands<Seq<char>>, CliError>(e),
        },
{
    let sig = mk_sig_mount();
    proof { lemma_scan_shape(deep(toks@), i + 1, sig@); }
    match scan_args_exec(toks, i + 1, &sig) {
        Err(e) => Err(e),
        Ok(s) => exec_build_mount(&s, env),
    }
}

pub open spec fn unmount_command(toks: Seq<Seq<char>>, i: int, env: CliEnvView) -> Result<Commands<Seq<char>>, CliError> {
    match scan_args(toks, i + 1, sig_one_pos()) { Err(e) => Err(e), Ok(s) => build_unmount(s, env) }
}

fn exec_unmount_command(toks: &Vec<Vec<char>>, i: usize, env: &CliEnv) -> (r: Result<Commands<String>, CliError>)
    requires
        i < toks.len(),
    ensures
        match r {
            Ok(c) => unmount_command(deep(toks@), i as int, env@) == Ok::<Commands<Seq<char>>, CliError>(view_commands(c)),
            Err(e) => unmount_command(deep(toks@), i as int, env@) == Err::<Commands<Seq<char>>, CliError>(e),
        },
{
    let sig = mk_sig_one_pos();
    proof { lemma_scan_shape(deep(toks@), i + 1, sig@); }
    match scan_args_exec(toks, i + 1, &sig) {
        Err(e) => Err(e),
        Ok(s) => exec_build_unmount(&s, env),
    }
}

pub open spec fn cache_command(toks: Seq<Seq<char>>, i: int, env: CliEnvView) -> Result<Commands<Seq<char>>, CliError> {
    match cacheaction_parse(toks, i + 1, env) { Err(e) => Err(e), Ok(a) => Ok(Commands::Cache { action: a }) }
}

fn exec_cache_command(toks: &Vec<Vec<char>>, i: usize, env: &CliEnv) -> (r: Result<Commands<String>, CliError>)
    requires
        i < toks.len(),
    ensures
        match r {
            Ok(c) => cache_command(deep(toks@), i as int, env@) == Ok::<Commands<Seq<char>>, CliError>(view_commands(c)),
            Err(e) => cache_command(deep(toks@), i as int, env@) == Err::<Commands<Seq<char>>, CliError>(e),
        },
{
    match exec_cacheaction(toks, i + 1, env) {
        Err(e) => Err(e),
        Ok(a) => Ok(Commands::Cache { action: a }),
    }
}

pub open spec fn unsync_command(toks: Seq<Seq<char>>, i: int, env: CliEnvView) -> Result<Commands<Seq<char>>, CliError> {
    match scan_args(toks, i + 1, sig_unsync()) { Err(e) => Err(e), Ok(s) => build_unsync(s, env) }
}

fn exec_unsync_command(toks: &Vec<Vec<char>>, i: usize, env: &CliEnv) -> (r: Result<Commands<String>, CliError>)
    requires
        i < toks.len(),
    ensures
        match r {
            Ok(c) => unsync_command(deep(toks@), i as int, env@) == Ok::<Commands<Seq<char>>, CliError>(view_commands(c)),
            Err(e) => unsync_command(deep(toks@), i as int, env@) == Err::<Commands<Seq<char>>, CliError>(e),
        },
{
    let sig = mk_sig_unsync();
    proof { lemma_scan_shape(deep(toks@), i + 1, sig@); }
    match scan_args_exec(toks, i + 1, &sig) {
        Err(e) => Err(e),
        Ok(s) => exec_build_unsync(&s, env),
    }
}

pub open spec fn init_command(toks: Seq<Seq<char>>, i: int, env: CliEnvView) -> Result<Commands<Seq<char>>, CliError> {
    match scan_args(toks, i + 1, sig_init()) { Err(e) => Err(e), Ok(s) => build_init(s, env) }
}

fn exec_init_command(toks: &Vec<Vec<char>>, i: usize, env: &CliEnv) -> (r: Result<Commands<String>, CliError>)
    requires
        i < toks.len(),
    ensures
        match r {
            Ok(c) => init_command(deep(toks@), i as int, env@) == Ok::<Commands<Seq<char>>, CliError>(view_commands(c)),
            Err(e) => init_command(deep(toks@), i as int, env@) == Err::<Commands<Seq<char>>, CliError>(e),
        },
{
    let sig = mk_sig_init();
    proof { lemma_scan_shape(deep(toks@), i + 1, sig@); }
    match scan_args_exec(toks, i + 1, &sig) {
        Err(e) => Err(e),
        Ok(s) => exec_build_init(&s, env),
    }
}

pub open spec fn device_command(toks: Seq<Seq<char>>, i: int, env: CliEnvView) -> Result<Commands<Seq<char>>, CliError> {
    match deviceaction_parse(toks, i + 1, env) { Err(e) => Err(e), Ok(a) => Ok(Commands::Device { action: a }) }
}

fn exec_device_command(toks: &Vec<Vec<char>>, i: usize, env: &CliEnv) -> (r: Result<Commands<String>, CliError>)
    requires
        i < toks.len(),
    ensures
        match r {
            Ok(c) => device_command(deep(toks@), i as int, env@) == Ok::<Commands<Seq<char>>, CliError>(view_commands(c)),
            Err(e) => device_command(deep(toks@), i as int, env@) == Err::<Commands<Seq<char>>, CliError>(e),
        },
{
    match exec_deviceaction(toks, i + 1, env) {
        Err(e) => Err(e),
        Ok(a) => Ok(Commands::Device { action: a }),
    }
}

pub open spec fn auth_command(toks: Seq<Seq<char>>, i: int, env: CliEnvView) -> Result<Commands<Seq<char>>, CliError> {
    match authaction_parse(toks, i + 1, env) { Err(e) => Err(e), Ok(a) => Ok(Commands::Auth { action: a }) }
}

fn exec_auth_command(toks: &Vec<Vec<char>>, i: usize, env: &CliEnv) -> (r: Result<Commands<String>, CliError>)
    requires
        i < toks.len(),
    ensures
        match r {
            Ok(c) => auth_command(deep(toks@), i as int, env@) == Ok::<Commands<Seq<char>>, CliError>(view_commands(c)),
            Err(e) => auth_command(deep(toks@), i as int, env@) == Err::<Commands<Seq<char>>, CliError>(e),
        },
{
    match exec_authaction(toks, i + 1, env) {
        Err(e) => Err(e),
        Ok(a) => Ok(Commands::Auth { action: a }),
    }
}

pub open spec fn rotatecredentials_command(toks: Seq<Seq<char>>, i: int, env: CliEnvView) -> Result<Commands<Seq<char>>, CliError> {
    match scan_args(toks, i + 1, sig_rotate_credentials()) { Err(e) => Err(e), Ok(s) => build_rotatecredentials(s, env) }
}

fn exec_rotatecredentials_command(toks: &Vec<Vec<char>>, i: usize, env: &CliEnv) -> (r: Result<Commands<String>, CliError>)
    requires
        i < toks.len(),
    ensures
        match r {
            Ok(c) => rotatecredentials_command(deep(toks@), i as int, env@) == Ok::<Commands<Seq<char>>, CliError>(view_commands(c)),
            Err(e) => rotatecredentials_command(deep(toks@), i as int, env@) == Err::<Commands<Seq<char>>, CliError>(e),
        },
{
    let sig = mk_sig_rotate_credentials();
    proof { lemma_scan_shape(deep(toks@), i + 1, sig@); }
    match scan_args_exec(toks, i + 1, &sig) {
        Err(e) => Err(e),
        Ok(s) => exec_build_rotatecredentials(&s, env),
    }
}

pub open spec fn rotatekey_command(toks: Seq<Seq<char>>, i: int, env: CliEnvView) -> Result<Commands<Seq<char>>, CliError> {
    match scan_args(toks, i + 1, sig_rotate_key()) { Err(e) => Err(e), Ok(s) => build_rotatekey(s, env) }
}

fn exec_rotatekey_command(toks: &Vec<Vec<char>>, i: usize, env: &CliEnv) -> (r: Result<Commands<String>, CliError>)
    requires
        i < toks.len(),
    ensures
        match r {
            Ok(c) => rotatekey_command(deep(toks@), i as int, env@) == Ok::<Commands<Seq<char>>, CliError>(view_commands(c)),
            Err(e) => rotatekey_command(deep(toks@), i as int, env@) == Err::<Commands<Seq<char>>, CliError>(e),
        },
{
    let sig = mk_sig_rotate_key();
    proof { lemma_scan_shape(deep(toks@), i + 1, sig@); }
    match scan_args_exec(toks, i + 1, &sig) {
        Err(e) => Err(e),
        Ok(s) => exec_build_rotatekey(&s, env),
    }
}

pub open spec fn reconcile_command(toks: Seq<Seq<char>>, i: int, env: CliEnvView) -> Result<Commands<Seq<char>>, CliError> {
    match scan_args(toks, i + 1, sig_reconcile()) { Err(e) => Err(e), Ok(s) => build_reconcile(s, env) }
}

fn exec_reconcile_command(toks: &Vec<Vec<char>>, i: usize, env: &CliEnv) -> (r: Result<Commands<String>, CliError>)
    requires
        i < toks.len(),
    ensures
        match r {
            Ok(c) => reconcile_command(deep(toks@), i as int, env@) == Ok::<Commands<Seq<char>>, CliError>(view_commands(c)),
            Err(e) => reconcile_command(deep(toks@), i as int, env@) == Err::<Commands<Seq<char>>, CliError>(e),
        },
{
    let sig = mk_sig_reconcile();
    proof { lemma_scan_shape(deep(toks@), i + 1, sig@); }
    match scan_args_exec(toks, i + 1, &sig) {
        Err(e) => Err(e),
        Ok(s) => exec_build_reconcile(&s, env),
    }
}

pub open spec fn policy_command(toks: Seq<Seq<char>>, i: int, env: CliEnvView) -> Result<Commands<Seq<char>>, CliError> {
    match policyaction_parse(toks, i + 1, env) { Err(e) => Err(e), Ok(a) => Ok(Commands::Policy { action: a }) }
}

fn exec_policy_command(toks: &Vec<Vec<char>>, i: usize, env: &CliEnv) -> (r: Result<Commands<String>, CliError>)
    requires
        i < toks.len(),
    ensures
        match r {
            Ok(c) => policy_command(deep(toks@), i as int, env@) == Ok::<Commands<Seq<char>>, CliError>(view_commands(c)),
            Err(e) => policy_command(deep(toks@), i as int, env@) == Err::<Commands<Seq<char>>, CliError>(e),
        },
{
    match exec_policyaction(toks, i + 1, env) {
        Err(e) => Err(e),
        Ok(a) => Ok(Commands::Policy { action: a }),
    }
}

pub open spec fn rm_command(toks: Seq<Seq<char>>, i: int, env: CliEnvView) -> Result<Commands<Seq<char>>, CliError> {
    match scan_args(toks, i + 1, sig_rm()) { Err(e) => Err(e), Ok(s) => build_rm(s, env) }
}

fn exec_rm_command(toks: &Vec<Vec<char>>, i: usize, env: &CliEnv) -> (r: Result<Commands<String>, CliError>)
    requires
        i < toks.len(),
    ensures
        match r {
            Ok(c) => rm_command(deep(toks@), i as int, env@) == Ok::<Commands<Seq<char>>, CliError>(view_commands(c)),
            Err(e) => rm_command(deep(toks@), i as int, env@) == Err::<Commands<Seq<char>>, CliError>(e),
        },
{
    let sig = mk_sig_rm();
    proof { lemma_scan_shape(deep(toks@), i + 1, sig@); }
    match scan_args_exec(toks, i + 1, &sig) {
        Err(e) => Err(e),
        Ok(s) => exec_build_rm(&s, env),
    }
}

pub open spec fn resolve_command(toks: Seq<Seq<char>>, i: int, env: CliEnvView) -> Result<Commands<Seq<char>>, CliError> {
    match scan_args(toks, i + 1, sig_resolve()) { Err(e) => Err(e), Ok(s) => build_resolve(s, env) }
}

fn exec_resolve_command(toks: &Vec<Vec<char>>, i: usize, env: &CliEnv) -> (r: Result<Commands<String>, CliError>)
    requires
        i < toks.len(),
    ensures
        match r {
            Ok(c) => resolve_command(deep(toks@), i as int, env@) == Ok::<Commands<Seq<char>>, CliError>(view_commands(c)),
            Err(e) => resolve_command(deep(toks@), i as int, env@) == Err::<Commands<Seq<char>>, CliError>(e),
        },
{
    let sig = mk_sig_resolve();
    proof { lemma_scan_shape(deep(toks@), i + 1, sig@); }
    match scan_args_exec(toks, i + 1, &sig) {
        Err(e) => Err(e),
        Ok(s) => exec_build_resolve(&s, env),
    }
}

pub open spec fn trash_command(toks: Seq<Seq<char>>, i: int, env: CliEnvView) -> Result<Commands<Seq<char>>, CliError> {
    match trashaction_parse(toks, i + 1, env) { Err(e) => Err(e), Ok(a) => Ok(Commands::Trash { action: a }) }
}

fn exec_trash_command(toks: &Vec<Vec<char>>, i: usize, env: &CliEnv) -> (r: Result<Commands<String>, CliError>)
    requires
        i < toks.len(),
    ensures
        match r {
            Ok(c) => trash_command(deep(toks@), i as int, env@) == Ok::<Commands<Seq<char>>, CliError>(view_commands(c)),
            Err(e) => trash_command(deep(toks@), i as int, env@) == Err::<Commands<Seq<char>>, CliError>(e),
        },
{
    match exec_trashaction(toks, i + 1, env) {
        Err(e) => Err(e),
        Ok(a) => Ok(Commands::Trash { action: a }),
    }
}

pub open spec fn migrateprefix_command(toks: Seq<Seq<char>>, i: int, env: CliEnvView) -> Result<Commands<Seq<char>>, CliError> {
    match scan_args(toks, i + 1, sig_migrate_prefix()) { Err(e) => Err(e), Ok(s) => build_migrateprefix(s, env) }
}

fn exec_migrateprefix_command(toks: &Vec<Vec<char>>, i: usize, env: &CliEnv) -> (r: Result<Commands<String>, CliError>)
    requires
        i < toks.len(),
    ensures
        match r {
            Ok(c) => migrateprefix_command(deep(toks@), i as int, env@) == Ok::<Commands<Seq<char>>, CliError>(view_commands(c)),
            Err(e) => migrateprefix_command(deep(toks@), i as int, env@) == Err::<Commands<Seq<char>>, CliError>(e),
        },
{
    let sig = mk_sig_migrate_prefix();
    proof { lemma_scan_shape(deep(toks@), i + 1, sig@); }
    match scan_args_exec(toks, i + 1, &sig) {
        Err(e) => Err(e),
        Ok(s) => exec_build_migrateprefix(&s, env),
    }
}

pub open spec fn configaction_parse(toks: Seq<Seq<char>>, i: int, env: CliEnvView) -> Result<ConfigAction, CliError> {
    match group_at(toks, i) {
        Err(e) => Err(e),
        Ok(j) => {
            let name = toks[j];
            if name == seq!['s', 'h', 'o', 'w'] { match scan_args(toks, j + 1, sig_none()) { Err(e) => Err(e), Ok(s) => build_config_show(s, env) } }
            else { Err(CliError::InvalidSubcommand) }
        },
    }
}

pub open spec fn kdbxaction_parse(toks: Seq<Seq<char>>, i: int, env: CliEnvView) -> Result<KdbxAction<Seq<char>>, CliError> {
    match group_at(toks, i) {
        Err(e) => Err(e),
        Ok(j) => {
            let name = toks[j];
            if name == seq!['r', 'e', 's', 'o', 'l', 'v', 'e'] { match scan_args(toks, j + 1, sig_kdbx_resolve()) { Err(e) => Err(e), Ok(s) => build_kdbx_resolve(s, env) } }
            else if name == seq!['i', 'm', 'p', 'o', 'r', 't'] { match scan_args(toks, j + 1, sig_kdbx_import()) { Err(e) => Err(e), Ok(s) => build_kdbx_import(s, env) } }
            else { Err(CliError::InvalidSubcommand) }
        },
    }
}

pub open spec fn cacheaction_parse(toks: Seq<Seq<char>>, i: int, env: CliEnvView) -> Result<CacheAction, CliError> {
    match group_at(toks, i) {
        Err(e) => Err(e),
        Ok(j) => {
            let name = toks[j];
            if name == seq!['s', 't', 'a', 't', 's'] { match scan_args(toks, j + 1, sig_none()) { Err(e) => Err(e), Ok(s) => build_cache_stats(s, env) } }
            else if name == seq!['c', 'l', 'e', 'a', 'r'] { match scan_args(toks, j + 1, sig_none()) { Err(e) => Err(e), Ok(s) => build_cache_clear(s, env) } }
            else { Err(CliError::InvalidSubcommand) }
        },
    }
}

pub open spec fn deviceaction_parse(toks: Seq<Seq<char>>, i: int, env: CliEnvView) -> Result<DeviceAction<Seq<char>>, CliError> {
    match group_at(toks, i) {
        Err(e) => Err(e),
        Ok(j) => {
            let name = toks[j];
            if name == seq!['e', 'n', 'r', 'o', 'l', 'l'] { match scan_args(toks, j + 1, sig_device_enroll()) { Err(e) => Err(e), Ok(s) => build_device_enroll(s, env) } }
            else if name == seq!['l', 'i', 's', 't'] { match scan_args(toks, j + 1, sig_none()) { Err(e) => Err(e), Ok(s) => build_device_list(s, env) } }
            else if name == seq!['r', 'e', 'v', 'o', 'k', 'e'] { match scan_args(toks, j + 1, sig_one_pos()) { Err(e) => Err(e), Ok(s) => build_device_revoke(s, env) } }
            else if name == seq!['s', 't', 'a', 't', 'u', 's'] { match scan_args(toks, j + 1, sig_none()) { Err(e) => Err(e), Ok(s) => build_device_status(s, env) } }
            else if name == seq!['i', 'n', 'v', 'i', 't', 'e'] { match scan_args(toks, j + 1, sig_device_invite()) { Err(e) => Err(e), Ok(s) => build_device_invite(s, env) } }
            else { Err(CliError::InvalidSubcommand) }
        },
    }
}

pub open spec fn authaction_parse(toks: Seq<Seq<char>>, i: int, env: CliEnvView) -> Result<AuthAction<Seq<char>>, CliError> {
    match group_at(toks, i) {
        Err(e) => Err(e),
        Ok(j) => {
            let name = toks[j];
            if name == seq!['u', 'n', 'l', 'o', 'c', 'k'] { match scan_args(toks, j + 1, sig_auth_unlock()) { Err(e) => Err(e), Ok(s) => build_auth_unlock(s, env) } }
            else if name == seq!['l', 'o', 'c', 'k'] { match scan_args(toks, j + 1, sig_none()) { Err(e) => Err(e), Ok(s) => build_auth_lock(s, env) } }
            else if name == seq!['s', 't', 'a', 't', 'u', 's'] { match scan_args(toks, j + 1, sig_none()) { Err(e) => Err(e), Ok(s) => build_auth_status(s, env) } }
            else if name == seq!['e', 'n', 'r', 'o', 'l', 'l'] { match scan_args(toks, j + 1, sig_auth_enroll()) { Err(e) => Err(e), Ok(s) => build_auth_enroll(s, env) } }
            else if name == seq!['c', 'o', 'm', 'p', 'l', 'e', 't', 'e', '-', 'e', 'n', 'r', 'o', 'l', 'l'] { match scan_args(toks, j + 1, sig_auth_complete()) { Err(e) => Err(e), Ok(s) => build_auth_completeenroll(s, env) } }
            else if name == seq!['v', 'e', 'r', 'i', 'f', 'y'] { match scan_args(toks, j + 1, sig_one_pos()) { Err(e) => Err(e), Ok(s) => build_auth_verify(s, env) } }
            else if name == seq!['r', 'e', 'v', 'o', 'k', 'e'] { match scan_args(toks, j + 1, sig_auth_revoke()) { Err(e) => Err(e), Ok(s) => build_auth_revoke(s, env) } }
            else { Err(CliError::InvalidSubcommand) }
        },
    }
}

pub open spec fn policyaction_parse(toks: Seq<Seq<char>>, i: int, env: CliEnvView) -> Result<PolicyAction<Seq<char>>, CliError> {
    match group_at(toks, i) {
        Err(e) => Err(e),
        Ok(j) => {
            let name = toks[j];
            if name == seq!['s', 'e', 't'] { match scan_args(toks, j + 1, sig_policy_set()) { Err(e) => Err(e), Ok(s) => build_policy_setmode(s, env) } }
            else if name == seq!['g', 'e', 't'] { match scan_args(toks, j + 1, sig_one_pos()) { Err(e) => Err(e), Ok(s) => build_policy_get(s, env) } }
            else if name == seq!['l', 'i', 's', 't'] { match scan_args(toks, j + 1, sig_none()) { Err(e) => Err(e), Ok(s) => build_policy_list(s, env) } }
            else if name == seq!['p', 'i', 'n'] { match scan_args(toks, j + 1, sig_one_pos()) { Err(e) => Err(e), Ok(s) => build_policy_pin(s, env) } }
            else if name == seq!['u', 'n', 'p', 'i', 'n'] { match scan_args(toks, j + 1, sig_one_pos()) { Err(e) => Err(e), Ok(s) => build_policy_unpin(s, env) } }
            else { Err(CliError::InvalidSubcommand) }
        },
    }
}

pub open spec fn trashaction_parse(toks: Seq<Seq<char>>, i: int, env: CliEnvView) -> Result<TrashAction<Seq<char>>, CliError> {
    match group_at(toks, i) {
        Err(e) => Err(e),
        Ok(j) => {
            let name = toks[j];
            if name == seq!['l', 'i', 's', 't'] { match scan_args(toks, j + 1, sig_trash_list()) { Err(e) => Err(e), Ok(s) => build_trash_list(s, env) } }
            else if name == seq!['r', 'e', 's', 't', 'o', 'r', 'e'] { match scan_args(toks, j + 1, sig_trash_restore()) { Err(e) => Err(e), Ok(s) => build_trash_restore(s, env) } }
            else if name == seq!['p', 'u', 'r', 'g', 'e'] { match scan_args(toks, j + 1, sig_trash_purge()) { Err(e) => Err(e), Ok(s) => build_trash_purge(s, env) } }
            else { Err(CliError::InvalidSubcommand) }
        },
    }
}

fn exec_command(toks: &Vec<Vec<char>>, i: usize, env: &CliEnv) -> (r: Result<Commands<String>, CliError>)
    requires
        i < toks.len(),
    ensures
        match r {
            Ok(c) => command_parse(deep(toks@), i as int, env@) == Ok::<Commands<Seq<char>>, CliError>(view_commands(c)),
            Err(e) => command_parse(deep(toks@), i as int, env@) == Err::<Commands<Seq<char>>, CliError>(e),
        },
{
    let name = toks[i].as_slice();
    assert(deep(toks@)[i as int] == name@);
    let id = exec_command_id(name);
    proof { reveal(command_parse); }
    if id == 0 { return exec_status_command(toks, i, env); }
    if id == 1 { return exec_config_command(toks, i, env); }
    if id == 2 { return exec_kdbx_command(toks, i, env); }
    if id == 3 { return exec_push_command(toks, i, env); }
    if id == 4 { return exec_pull_command(toks, i, env); }
    if id == 5 { return exec_syncstatus_command(toks, i, env); }
    if id == 6 { return exec_mount_command(toks, i, env); }
    if id == 7 { return exec_unmount_command(toks, i, env); }
    if id == 8 { return exec_cache_command(toks, i, env); }
    if id == 9 { return exec_unsync_command(toks, i, env); }
    if id == 10 { return exec_init_command(toks, i, env); }
    if id == 11 { return exec_device_command(toks, i, env); }
    if id == 12 { return exec_auth_command(toks, i, env); }
    if id == 13 { return exec_rotatecredentials_command(toks, i, env); }
    if id == 14 { return exec_rotatekey_command(toks, i, env); }
    if id == 15 { return exec_reconcile_command(toks, i, env); }
    if id == 16 { return exec_policy_command(toks, i, env); }
    if id == 17 { return exec_rm_command(toks, i, env); }
    if id == 18 { return exec_resolve_command(toks, i, env); }
    if id == 19 { return exec_trash_command(toks, i, env); }
    if id == 20 { return exec_migrateprefix_command(toks, i, env); }
    if id == 21 { return Err(CliError::DisplayHelp); }
    Err(CliError::InvalidSubcommand)
}

fn exec_configaction(toks: &Vec<Vec<char>>, i: usize, env: &CliEnv) -> (r: Result<ConfigAction, CliError>)
    requires
        i <= toks@.len(),
    ensures
        match r {
            Ok(c) => configaction_parse(deep(toks@), i as int, env@) == Ok::<ConfigAction, CliError>(view_configaction(c)),
            Err(e) => configaction_parse(deep(toks@), i as int, env@) == Err::<ConfigAction, CliError>(e),
        },
{
    let j = match exec_group_at(toks, i) { Err(e) => { return Err(e); }, Ok(j) => j };
    let name = toks[j].as_slice();
    assert(deep(toks@)[j as int] == name@);
    let is_it = chars_eq(name, &['s', 'h', 'o', 'w']);
    proof { assert(['s', 'h', 'o', 'w']@ =~= seq!['s', 'h', 'o', 'w']); }
    if is_it {
        let sig = mk_sig_none();
        proof { lemma_scan_shape(deep(toks@), j + 1, sig@); }
        return match scan_args_exec(toks, j + 1, &sig) { Err(e) => Err(e), Ok(s) => exec_build_config_show(&s, env) };
    }
    Err(CliError::InvalidSubcommand)
}

fn exec_kdbxaction(toks: &Vec<Vec<char>>, i: usize, env: &CliEnv) -> (r: Result<KdbxAction<String>, CliError>)
    requires
        i <= toks@.len(),
    ensures
        match r {
            Ok(c) => kdbxaction_parse(deep(toks@), i as int, env@) == Ok::<KdbxAction<Seq<char>>, CliError>(view_kdbxaction(c)),
            Err(e) => kdbxaction_parse(deep(toks@), i as int, env@) == Err::<KdbxAction<Seq<char>>, CliError>(e),
        },
{
    let j = match exec_group_at(toks, i) { Err(e) => { return Err(e); }, Ok(j) => j };
    let name = toks[j].as_slice();
    assert(deep(toks@)[j as int] == name@);
    let is_it = chars_eq(name, &['r', 'e', 's', 'o', 'l', 'v', 'e']);
    proof { assert(['r', 'e', 's', 'o', 'l', 'v', 'e']@ =~= seq!['r', 'e', 's', 'o', 'l', 'v', 'e']); }
    if is_it {
        let sig = mk_sig_kdbx_resolve();
        proof { lemma_scan_shape(deep(toks@), j + 1, sig@); }
        return match scan_args_exec(toks, j + 1, &sig) { Err(e) => Err(e), Ok(s) => exec_build_kdbx_resolve(&s, env) };
    }
    let is_it = chars_eq(name, &['i', 'm', 'p', 'o', 'r', 't']);
    proof { assert(['i', 'm', 'p', 'o', 'r', 't']@ =~= seq!['i', 'm', 'p', 'o', 'r', 't']); }
    if is_it {
        let sig = mk_sig_kdbx_import();
        proof { lemma_scan_shape(deep(toks@), j + 1, sig@); }
        return match scan_args_exec(toks, j + 1, &sig) { Err(e) => Err(e), Ok(s) => exec_build_kdbx_import(&s, env) };
    }
    Err(CliError::InvalidSubcommand)
}

fn exec_cacheaction(toks: &Vec<Vec<char>>, i: usize, env: &CliEnv) -> (r: Result<CacheAction, CliError>)
    requires
        i <= toks@.len(),
    ensures
        match r {
            Ok(c) => cacheaction_parse(deep(toks@), i as int, env@) == Ok::<CacheAction, CliError>(view_cacheaction(c)),
            Err(e) => cacheaction_parse(deep(toks@), i as int, env@) == Err::<CacheAction, CliError>(e),
        },
{
    let j = match exec_group_at(toks, i) { Err(e) => { return Err(e); }, Ok(j) => j };
    let name = toks[j].as_slice();
    assert(deep(toks@)[j as int] == name@);
    let is_it = chars_eq(name, &['s', 't', 'a', 't', 's']);
    proof { assert(['s', 't', 'a', 't', 's']@ =~= seq!['s', 't', 'a', 't', 's']); }
    if is_it {
        let sig = mk_sig_none();
        proof { lemma_scan_shape(deep(toks@), j + 1, sig@); }
        return match scan_args_exec(toks, j + 1, &sig) { Err(e) => Err(e), Ok(s) => exec_build_cache_stats(&s, env) };
    }
    let is_it = chars_eq(name, &['c', 'l', 'e', 'a', 'r']);
    proof { assert(['c', 'l', 'e', 'a', 'r']@ =~= seq!['c', 'l', 'e', 'a', 'r']); }
    if is_it {
        let sig = mk_sig_none();
        proof { lemma_scan_shape(deep(toks@), j + 1, sig@); }
        return match scan_args_exec(toks, j + 1, &sig) { Err(e) => Err(e), Ok(s) => exec_build_cache_clear(&s, env) };
    }
    Err(CliError::InvalidSubcommand)
}

fn exec_deviceaction(toks: &Vec<Vec<char>>, i: usize, env: &CliEnv) -> (r: Result<DeviceAction<String>, CliError>)
    requires
        i <= toks@.len(),
    ensures
        match r {
            Ok(c) => deviceaction_parse(deep(toks@), i as int, env@) == Ok::<DeviceAction<Seq<char>>, CliError>(view_deviceaction(c)),
            Err(e) => deviceaction_parse(deep(toks@), i as int, env@) == Err::<DeviceAction<Seq<char>>, CliError>(e),
        },
{
    let j = match exec_group_at(toks, i) { Err(e) => { return Err(e); }, Ok(j) => j };
    let name = toks[j].as_slice();
    assert(deep(toks@)[j as int] == name@);
    let is_it = chars_eq(name, &['e', 'n', 'r', 'o', 'l', 'l']);
    proof { assert(['e', 'n', 'r', 'o', 'l', 'l']@ =~= seq!['e', 'n', 'r', 'o', 'l', 'l']); }
    if is_it {
        let sig = mk_sig_device_enroll();
        proof { lemma_scan_shape(deep(toks@), j + 1, sig@); }
        return match scan_args_exec(toks, j + 1, &sig) { Err(e) => Err(e), Ok(s) => exec_build_device_enroll(&s, env) };
    }
    let is_it = chars_eq(name, &['l', 'i', 's', 't']);
    proof { assert(['l', 'i', 's', 't']@ =~= seq!['l', 'i', 's', 't']); }
    if is_it {
        let sig = mk_sig_none();
        proof { lemma_scan_shape(deep(toks@), j + 1, sig@); }
        return match scan_args_exec(toks, j + 1, &sig) { Err(e) => Err(e), Ok(s) => exec_build_device_list(&s, env) };
    }
    let is_it = chars_eq(name, &['r', 'e', 'v', 'o', 'k', 'e']);
    proof { assert(['r', 'e', 'v', 'o', 'k', 'e']@ =~= seq!['r', 'e', 'v', 'o', 'k', 'e']); }
    if is_it {
        let sig = mk_sig_one_pos();
        proof { lemma_scan_shape(deep(toks@), j + 1, sig@); }
        return match scan_args_exec(toks, j + 1, &sig) { Err(e) => Err(e), Ok(s) => exec_build_device_revoke(&s, env) };
    }
    let is_it = chars_eq(name, &['s', 't', 'a', 't', 'u', 's']);
    proof { assert(['s', 't', 'a', 't', 'u', 's']@ =~= seq!['s', 't', 'a', 't', 'u', 's']); }
    if is_it {
        let sig = mk_sig_none();
        proof { lemma_scan_shape(deep(toks@), j + 1, sig@); }
        return match scan_args_exec(toks, j + 1, &sig) { Err(e) => Err(e), Ok(s) => exec_build_device_status(&s, env) };
    }
    let is_it = chars_eq(name, &['i', 'n', 'v', 'i', 't', 'e']);
    proof { assert(['i', 'n', 'v', 'i', 't', 'e']@ =~= seq!['i', 'n', 'v', 'i', 't', 'e']); }
    if is_it {
        let sig = mk_sig_device_invite();
        proof { lemma_scan_shape(deep(toks@), j + 1, sig@); }
        return match scan_args_exec(toks, j + 1, &sig) { Err(e) => Err(e), Ok(s) => exec_build_device_invite(&s, env) };
    }
    Err(CliError::InvalidSubcommand)
}

fn exec_authaction(toks: &Vec<Vec<char>>, i: usize, env: &CliEnv) -> (r: Result<AuthAction<String>, CliError>)
    requires
        i <= toks@.len(),
    ensures
        match r {
            Ok(c) => authaction_parse(deep(toks@), i as int, env@) == Ok::<AuthAction<Seq<char>>, CliError>(view_authaction(c)),
            Err(e) => authaction_parse(deep(toks@), i as int, env@) == Err::<AuthAction<Seq<char>>, CliError>(e),
        },
{
    let j = match exec_group_at(toks, i) { Err(e) => { return Err(e); }, Ok(j) => j };
    let name = toks[j].as_slice();
    assert(deep(toks@)[j as int] == name@);
    let is_it = chars_eq(name, &['u', 'n', 'l', 'o', 'c', 'k']);
    proof { assert(['u', 'n', 'l', 'o', 'c', 'k']@ =~= seq!['u', 'n', 'l', 'o', 'c', 'k']); }
    if is_it {
        let sig = mk_sig_auth_unlock();
        proof { lemma_scan_shape(deep(toks@), j + 1, sig@); }
        return match scan_args_exec(toks, j + 1, &sig) { Err(e) => Err(e), Ok(s) => exec_build_auth_unlock(&s, env) };
    }
    let is_it = chars_eq(name, &['l', 'o', 'c', 'k']);
    proof { assert(['l', 'o', 'c', 'k']@ =~= seq!['l', 'o', 'c', 'k']); }
    if is_it {
        let sig = mk_sig_none();
        proof { lemma_scan_shape(deep(toks@), j + 1, sig@); }
        return match scan_args_exec(toks, j + 1, &sig) { Err(e) => Err(e), Ok(s) => exec_build_auth_lock(&s, env) };
    }
    let is_it = chars_eq(name, &['s', 't', 'a', 't', 'u', 's']);
    proof { assert(['s', 't', 'a', 't', 'u', 's']@ =~= seq!['s', 't', 'a', 't', 'u', 's']); }
    if is_it {
        let sig = mk_sig_none();
        proof { lemma_scan_shape(deep(toks@), j + 1, sig@); }
        return match scan_args_exec(toks, j + 1, &sig) { Err(e) => Err(e), Ok(s) => exec_build_auth_status(&s, env) };
    }
    let is_it = chars_eq(name, &['e', 'n', 'r', 'o', 'l', 'l']);
    proof { assert(['e', 'n', 'r', 'o', 'l', 'l']@ =~= seq!['e', 'n', 'r', 'o', 'l', 'l']); }
    if is_it {
        let sig = mk_sig_auth_enroll();
        proof { lemma_scan_shape(deep(toks@), j + 1, sig@); }
        return match scan_args_exec(toks, j + 1, &sig) { Err(e) => Err(e), Ok(s) => exec_build_auth_enroll(&s, env) };
    }
    let is_it = chars_eq(name, &['c', 'o', 'm', 'p', 'l', 'e', 't', 'e', '-', 'e', 'n', 'r', 'o', 'l', 'l']);
    proof { assert(['c', 'o', 'm', 'p', 'l', 'e', 't', 'e', '-', 'e', 'n', 'r', 'o', 'l', 'l']@ =~= seq!['c', 'o', 'm', 'p', 'l', 'e', 't', 'e', '-', 'e', 'n', 'r', 'o', 'l', 'l']); }
    if is_it {
        let sig = mk_sig_auth_complete();
        proof { lemma_scan_shape(deep(toks@), j + 1, sig@); }
        return match scan_args_exec(toks, j + 1, &sig) { Err(e) => Err(e), Ok(s) => exec_build_auth_completeenroll(&s, env) };
    }
    let is_it = chars_eq(name, &['v', 'e', 'r', 'i', 'f', 'y']);
    proof { assert(['v', 'e', 'r', 'i', 'f', 'y']@ =~= seq!['v', 'e', 'r', 'i', 'f', 'y']); }
    if is_it {
        let sig = mk_sig_one_pos();
        proof { lemma_scan_shape(deep(toks@), j + 1, sig@); }
        return match scan_args_exec(toks, j + 1, &sig) { Err(e) => Err(e), Ok(s) => exec_build_auth_verify(&s, env) };
    }
    let is_it = chars_eq(name, &['r', 'e', 'v', 'o', 'k', 'e']);
    proof { assert(['r', 'e', 'v', 'o', 'k', 'e']@ =~= seq!['r', 'e', 'v', 'o', 'k', 'e']); }
    if is_it {
        let sig = mk_sig_auth_revoke();
        proof { lemma_scan_shape(deep(toks@), j + 1, sig@); }
        return match scan_args_exec(toks, j + 1, &sig) { Err(e) => Err(e), Ok(s) => exec_build_auth_revoke(&s, env) };
    }
    Err(CliError::InvalidSubcommand)
}

fn exec_policyaction(toks: &Vec<Vec<char>>, i: usize, env: &CliEnv) -> (r: Result<PolicyAction<String>, CliError>)
    requires
        i <= toks@.len(),
    ensures
        match r {
            Ok(c) => policyaction_parse(deep(toks@), i as int, env@) == Ok::<PolicyAction<Seq<char>>, CliError>(view_policyaction(c)),
            Err(e) => policyaction_parse(deep(toks@), i as int, env@) == Err::<PolicyAction<Seq<char>>, CliError>(e),
        },
{
    let j = match exec_group_at(toks, i) { Err(e) => { return Err(e); }, Ok(j) => j };
    let name = toks[j].as_slice();
    assert(deep(toks@)[j as int] == name@);
    let is_it = chars_eq(name, &['s', 'e', 't']);
    proof { assert(['s', 'e', 't']@ =~= seq!['s', 'e', 't']); }
    if is_it {
        let sig = mk_sig_policy_set();
        proof { lemma_scan_shape(deep(toks@), j + 1, sig@); }
        return match scan_args_exec(toks, j + 1, &sig) { Err(e) => Err(e), Ok(s) => exec_build_policy_setmode(&s, env) };
    }
    let is_it = chars_eq(name, &['g', 'e', 't']);
    proof { assert(['g', 'e', 't']@ =~= seq!['g', 'e', 't']); }
    if is_it {
        let sig = mk_sig_one_pos();
        proof { lemma_scan_shape(deep(toks@), j + 1, sig@); }
        return match scan_args_exec(toks, j + 1, &sig) { Err(e) => Err(e), Ok(s) => exec_build_policy_get(&s, env) };
    }
    let is_it = chars_eq(name, &['l', 'i', 's', 't']);
    proof { assert(['l', 'i', 's', 't']@ =~= seq!['l', 'i', 's', 't']); }
    if is_it {
        let sig = mk_sig_none();
        proof { lemma_scan_shape(deep(toks@), j + 1, sig@); }
        return match scan_args_exec(toks, j + 1, &sig) { Err(e) => Err(e), Ok(s) => exec_build_policy_list(&s, env) };
    }
    let is_it = chars_eq(name, &['p', 'i', 'n']);
    proof { assert(['p', 'i', 'n']@ =~= seq!['p', 'i', 'n']); }
    if is_it {
        let sig = mk_sig_one_pos();
        proof { lemma_scan_shape(deep(toks@), j + 1, sig@); }
        return match scan_args_exec(toks, j + 1, &sig) { Err(e) => Err(e), Ok(s) => exec_build_policy_pin(&s, env) };
    }
    let is_it = chars_eq(name, &['u', 'n', 'p', 'i', 'n']);
    proof { assert(['u', 'n', 'p', 'i', 'n']@ =~= seq!['u', 'n', 'p', 'i', 'n']); }
    if is_it {
        let sig = mk_sig_one_pos();
        proof { lemma_scan_shape(deep(toks@), j + 1, sig@); }
        return match scan_args_exec(toks, j + 1, &sig) { Err(e) => Err(e), Ok(s) => exec_build_policy_unpin(&s, env) };
    }
    Err(CliError::InvalidSubcommand)
}

fn exec_trashaction(toks: &Vec<Vec<char>>, i: usize, env: &CliEnv) -> (r: Result<TrashAction<String>, CliError>)
    requires
        i <= toks@.len(),
    ensures
        match r {
            Ok(c) => trashaction_parse(deep(toks@), i as int, env@) == Ok::<TrashAction<Seq<char>>, CliError>(view_trashaction(c)),
            Err(e) => trashaction_parse(deep(toks@), i as int, env@) == Err::<TrashAction<Seq<char>>, CliError>(e),
        },
{
    let j = match exec_group_at(toks, i) { Err(e) => { return Err(e); }, Ok(j) => j };
    let name = toks[j].as_slice();
    assert(deep(toks@)[j as int] == name@);
    let is_it = chars_eq(name, &['l', 'i', 's', 't']);
    proof { assert(['l', 'i', 's', 't']@ =~= seq!['l', 'i', 's', 't']); }
    if is_it {
        let sig = mk_sig_trash_list();
        proof { lemma_scan_shape(deep(toks@), j + 1, sig@); }
        return match scan_args_exec(toks, j + 1, &sig) { Err(e) => Err(e), Ok(s) => exec_build_trash_list(&s, env) };
    }
    let is_it = chars_eq(name, &['r', 'e', 's', 't', 'o', 'r', 'e']);
    proof { assert(['r', 'e', 's', 't', 'o', 'r', 'e']@ =~= seq!['r', 'e', 's', 't', 'o', 'r', 'e']); }
    if is_it {
        let sig = mk_sig_trash_restore();
        proof { lemma_scan_shape(deep(toks@), j + 1, sig@); }
        return match scan_args_exec(toks, j + 1, &sig) { Err(e) => Err(e), Ok(s) => exec_build_trash_restore(&s, env) };
    }
    let is_it = chars_eq(name, &['p', 'u', 'r', 'g', 'e']);
    proof { assert(['p', 'u', 'r', 'g', 'e']@ =~= seq!['p', 'u', 'r', 'g', 'e']); }
    if is_it {
        let sig = mk_sig_trash_purge();
        proof { lemma_scan_shape(deep(toks@), j + 1, sig@); }
        return match scan_args_exec(toks, j + 1, &sig) { Err(e) => Err(e), Ok(s) => exec_build_trash_purge(&s, env) };
    }
    Err(CliError::InvalidSubcommand)
}

// ── Environment, helpers and the top level ───────────────────────────────────

/// Values of the environment variables that stand in for options:
/// `TCFS_CONFIG`, `TCFS_STATE_PATH`, `TCFS_MASTER_PASSWORD`,
/// `TCFS_KDBX_PATH` and `TCFS_KDBX_PASSWORD`.
#[derive(Debug, Clone, Default)]
pub struct CliEnv {
    pub config: Option<String>,
    pub state_path: Option<String>,
    pub master_password: Option<String>,
    pub kdbx_path: Option<String>,
    pub kdbx_password: Option<String>,
}

pub struct CliEnvView {
    pub config: Option<Seq<char>>,
    pub state_path: Option<Seq<char>>,
    pub master_password: Option<Seq<char>>,
    pub kdbx_path: Option<Seq<char>>,
    pub kdbx_password: Option<Seq<char>>,
}

pub open spec fn opt_view(o: Option<String>) -> Option<Seq<char>> {
    match o {
        Some(s) => Some(s@),
        None => None,
    }
}

pub open spec fn opt_view_vec(o: Option<Vec<char>>) -> Option<Seq<char>> {
    match o {
        Some(s) => Some(s@),
        None => None,
    }
}

impl View for CliEnv {
    type V = CliEnvView;

    open spec fn view(&self) -> CliEnvView {
        CliEnvView {
            config: opt_view(self.config),
            state_path: opt_view(self.state_path),
            master_password: opt_view(self.master_password),
            kdbx_path: opt_view(self.kdbx_path),
            kdbx_password: opt_view(self.kdbx_password),
        }
    }
}

pub open spec fn env_unset() -> CliEnvView {
    CliEnvView { config: None, state_path: None, master_password: None, kdbx_path: None, kdbx_password: None }
}

impl CliEnv {
    /// No environment variable set.
    pub fn unset() -> (e: CliEnv)
        ensures
            e@ == env_unset(),
    {
        CliEnv { config: None, state_path: None, master_password: None, kdbx_path: None, kdbx_password: None }
    }
}

fn clone_opt_string(o: &Option<String>) -> (r: Option<String>)
    ensures
        opt_view(r) == opt_view(*o),
{
    match o {
        Some(s) => Some(s.clone()),
        None => None,
    }
}

fn opt_string(v: &Option<Vec<char>>) -> (r: Option<String>)
    ensures
        opt_view(r) == opt_view_vec(*v),
{
    match v {
        Some(x) => Some(string_of(x.as_slice())),
        None => None,
    }
}

fn opt_or_env(v: &Option<Vec<char>>, e: &Option<String>) -> (r: Option<String>)
    ensures
        opt_view(r) == match opt_view_vec(*v) {
            Some(x) => Some(x),
            None => opt_view(*e),
        },
{
    match v {
        Some(x) => Some(string_of(x.as_slice())),
        None => clone_opt_string(e),
    }
}

fn req_string(v: &Option<Vec<char>>) -> (r: String)
    requires
        v is Some,
    ensures
        r@ == opt_view_vec(*v)->0,
{
    match v {
        Some(x) => string_of(x.as_slice()),
        None => String::new(),
    }
}

fn opt_or_default(v: &Option<Vec<char>>, d: &[char]) -> (r: String)
    ensures
        r@ == match opt_view_vec(*v) {
            Some(x) => x,
            None => d@,
        },
{
    match v {
        Some(x) => string_of(x.as_slice()),
        None => string_of(d),
    }
}

fn u16_ok(v: &Option<Vec<char>>) -> (b: bool)
    ensures
        b == !(opt_view_vec(*v) matches Some(x) && parse_u16_spec(x) is None),
{
    match v {
        Some(x) => parse_unsigned_chars(x.as_slice(), u16::MAX as u64).is_some(),
        None => true,
    }
}

fn u64_ok(v: &Option<Vec<char>>) -> (b: bool)
    ensures
        b == !(opt_view_vec(*v) matches Some(x) && parse_u64_spec(x) is None),
{
    match v {
        Some(x) => parse_unsigned_chars(x.as_slice(), u64::MAX).is_some(),
        None => true,
    }
}

fn u16_or(v: &Option<Vec<char>>, d: u16) -> (r: u16)
    ensures
        r == match opt_view_vec(*v) {
            Some(x) => match parse_u16_spec(x) {
                Some(n) => n,
                None => 0,
            },
            None => d,
        },
{
    match v {
        Some(x) => match parse_unsigned_chars(x.as_slice(), u16::MAX as u64) {
            Some(n) => n as u16,
            None => 0,
        },
        None => d,
    }
}

fn u64_or(v: &Option<Vec<char>>, d: u64) -> (r: u64)
    ensures
        r == match opt_view_vec(*v) {
            Some(x) => match parse_u64_spec(x) {
                Some(n) => n,
                None => 0,
            },
            None => d,
        },
{
    match v {
        Some(x) => match parse_unsigned_chars(x.as_slice(), u64::MAX) {
            Some(n) => n,
            None => 0,
        },
        None => d,
    }
}

fn u64_opt(v: &Option<Vec<char>>) -> (r: Option<u64>)
    ensures
        r == match opt_view_vec(*v) {
            Some(x) => parse_u64_spec(x),
            None => None,
        },
{
    match v {
        Some(x) => parse_unsigned_chars(x.as_slice(), u64::MAX),
        None => None,
    }
}

/// The shape of a successful scan: one slot per option, at most `max_pos`
/// positional arguments.
proof fn lemma_scan_from_shape(toks: Seq<Seq<char>>, i: int, sig: SigView, st: Scan)
    requires
        sig.wf(),
        st.vals.len() == sig.longs.len(),
        st.pos.len() <= sig.max_pos,
    ensures
        scan_from(toks, i, sig, st) matches Ok(s) ==> s.vals.len() == sig.longs.len()
            && s.pos.len() <= sig.max_pos,
    decreases toks.len() - i,
{
    if 0 <= i < toks.len() {
        let t = toks[i];
        if st.dashdash || !is_option_like(t) {
            if st.pos.len() < sig.max_pos {
                lemma_scan_from_shape(toks, i + 1, sig, Scan { pos: st.pos.push(t), ..st });
            }
        } else if t == crate::cliscan::dash_dash() {
            lemma_scan_from_shape(toks, i + 1, sig, Scan { dashdash: true, ..st });
        } else if !is_help_token(t) {
            if let Some((k, inline)) = option_of(t, sig) {
                lemma_option_of_range(t, sig);
                lemma_scan_from_shape(toks, i + 1, sig, Scan { vals: st.vals.update(k, Some(Seq::<char>::empty())), ..st });
                if let Some(v) = inline {
                    lemma_scan_from_shape(toks, i + 1, sig, Scan { vals: st.vals.update(k, Some(v)), ..st });
                }
                if i + 1 < toks.len() {
                    lemma_scan_from_shape(toks, i + 2, sig, Scan { vals: st.vals.update(k, Some(toks[i + 1])), ..st });
                }
            }
        }
    }
}

proof fn lemma_index_of_text_range(s: Seq<Seq<char>>, x: Seq<char>)
    ensures
        index_of_text_spec_range(s, x),
    decreases s.len(),
{
    if s.len() > 0 {
        lemma_index_of_text_range(s.drop_first(), x);
    }
}

pub open spec fn index_of_text_spec_range(s: Seq<Seq<char>>, x: Seq<char>) -> bool {
    crate::cliscan::index_of_text(s, x) matches Some(k) ==> 0 <= k < s.len()
}

proof fn lemma_index_of_char_range(s: Seq<char>, c: char)
    ensures
        crate::cliscan::index_of_char(s, c) matches Some(k) ==> 0 <= k < s.len(),
    decreases s.len(),
{
    if s.len() > 0 {
        lemma_index_of_char_range(s.drop_first(), c);
    }
}

proof fn lemma_option_of_range(t: Seq<char>, sig: SigView)
    requires
        sig.wf(),
    ensures
        option_of(t, sig) matches Some((k, _)) ==> 0 <= k < sig.longs.len(),
{
    if t.len() >= 2 && t[0] == '-' && t[1] == '-' {
        let body = t.subrange(2, t.len() as int);
        let name = match crate::stub::split_once(body, '=') {
            Some((n, v)) => n,
            None => body,
        };
        lemma_index_of_text_range(sig.longs, name);
    } else {
        lemma_index_of_char_range(sig.shorts, t[1]);
    }
}

proof fn lemma_scan_shape(toks: Seq<Seq<char>>, i: int, sig: SigView)
    requires
        sig.wf(),
    ensures
        scan_args(toks, i, sig) matches Ok(s) ==> s.vals.len() == sig.longs.len() && s.pos.len()
            <= sig.max_pos,
{
    lemma_scan_from_shape(toks, i, sig, crate::cliscan::empty_scan(sig.longs.len()));
}

/// Where the subcommand of a command group stands: `toks[i]`, unless it
/// asks for help, is an option or is missing.
pub open spec fn group_at(toks: Seq<Seq<char>>, i: int) -> Result<int, CliError> {
    if i < 0 || i >= toks.len() {
        Err(CliError::MissingSubcommand)
    } else if is_help_token(toks[i]) {
        Err(CliError::DisplayHelp)
    } else if is_option_like(toks[i]) {
        Err(CliError::UnknownArgument)
    } else if toks[i] == seq!['h', 'e', 'l', 'p'] {
        Err(CliError::DisplayHelp)
    } else {
        Ok(i)
    }
}

fn exec_group_at(toks: &Vec<Vec<char>>, i: usize) -> (r: Result<usize, CliError>)
    ensures
        match r {
            Ok(j) => group_at(deep(toks@), i as int) == Ok::<int, CliError>(j as int) && j < toks.len(),
            Err(e) => group_at(deep(toks@), i as int) == Err::<int, CliError>(e),
        },
{
    if i >= toks.len() {
        return Err(CliError::MissingSubcommand);
    }
    let t = toks[i].as_slice();
    assert(deep(toks@)[i as int] == t@);
    if is_help_exec(t) {
        return Err(CliError::DisplayHelp);
    }
    if t.len() >= 2 && t[0] == '-' {
        return Err(CliError::UnknownArgument);
    }
    let h = chars_eq(t, &['h', 'e', 'l', 'p']);
    proof { assert(['h', 'e', 'l', 'p']@ =~= seq!['h', 'e', 'l', 'p']); }
    if h {
        return Err(CliError::DisplayHelp);
    }
    Ok(i)
}

/// The options of `tcfs` itself.
pub open spec fn sig_top() -> SigView {
    SigView {
        longs: seq![seq!['c', 'o', 'n', 'f', 'i', 'g']],
        shorts: seq!['c'],
        kinds: seq![KIND_ANY],
        choices: seq![Seq::<Seq<char>>::empty()],
        max_pos: 0,
        pos_choices: Seq::<Seq<Seq<char>>>::empty(),
    }
}

fn mk_sig_top() -> (s: Sig)
    ensures
        s@ == sig_top(),
        s@.wf(),
{
    let mut longs: Vec<Vec<char>> = Vec::new();
    longs.push(text_vec(&['c', 'o', 'n', 'f', 'i', 'g']));
    let mut shorts: Vec<char> = Vec::new();
    shorts.push('c');
    let mut kinds: Vec<u8> = Vec::new();
    kinds.push(KIND_ANY);
    let mut choices: Vec<Vec<Vec<char>>> = Vec::new();
    choices.push(Vec::new());
    let s = Sig { longs, shorts, kinds, choices, max_pos: 0, pos_choices: Vec::new() };
    proof {
        assert(['c', 'o', 'n', 'f', 'i', 'g']@ =~= seq!['c', 'o', 'n', 'f', 'i', 'g']);
        assert(s@.longs =~= sig_top().longs);
        assert(s@.shorts =~= sig_top().shorts);
        assert(s@.kinds =~= sig_top().kinds);
        assert(s@.choices[0] =~= sig_top().choices[0]);
        assert(s@.choices =~= sig_top().choices);
        assert(s@.pos_choices =~= sig_top().pos_choices);
    }
    s
}

pub open spec fn is_version_token(t: Seq<char>) -> bool {
    t == seq!['-', '-', 'v', 'e', 'r', 's', 'i', 'o', 'n'] || t == seq!['-', 'V']
}

/// The options before the subcommand: `-c`/`--config`, help and version.
/// Gives the configuration path given there and where the subcommand stands.
pub open spec fn top_scan(toks: Seq<Seq<char>>, i: int, cfg: Option<Seq<char>>) -> Result<(Option<Seq<char>>, int), CliError>
    decreases toks.len() - i,
{
    if i < 0 || i >= toks.len() {
        Err(CliError::MissingSubcommand)
    } else {
        let t = toks[i];
        if !is_option_like(t) {
            Ok((cfg, i))
        } else if is_help_token(t) {
            Err(CliError::DisplayHelp)
        } else if is_version_token(t) {
            Err(CliError::DisplayVersion)
        } else {
            match option_of(t, sig_top()) {
                None => Err(CliError::UnknownArgument),
                Some((_, inline)) => {
                    if cfg is Some {
                        Err(CliError::ArgumentRepeated)
                    } else {
                        match inline {
                            Some(v) => top_scan(toks, i + 1, Some(v)),
                            None => if i + 1 < toks.len() && !is_option_like(toks[i + 1]) {
                                top_scan(toks, i + 2, Some(toks[i + 1]))
                            } else {
                                Err(CliError::MissingValue)
                            },
                        }
                    }
                },
            }
        }
    }
}

/// Default configuration file.
pub open spec fn default_config_path() -> Seq<char> {
    seq!['/', 'e', 't', 'c', '/', 't', 'c', 'f', 's', '/', 'c', 'o', 'n', 'f', 'i', 'g', '.', 't', 'o', 'm', 'l']
}

/// The parsed command line `toks` (the program name first) under `env`.
pub open spec fn cli_parse(toks: Seq<Seq<char>>, env: CliEnvView) -> Result<Cli<Seq<char>>, CliError> {
    match top_scan(toks, 1, None) {
        Err(e) => Err(e),
        Ok((cfg, i)) => match command_parse(toks, i, env) {
            Err(e) => Err(e),
            Ok(c) => Ok(
                Cli {
                    config: match cfg {
                        Some(v) => v,
                        None => match env.config {
                            Some(v) => v,
                            None => default_config_path(),
                        },
                    },
                    command: c,
                },
            ),
        },
    }
}

/// A parsed `tcfs` command line.
#[derive(Debug, Clone, PartialEq, Eq)]
pub struct Cli<S> {
    /// Path to tcfs.toml configuration file
    pub config: S,
    pub command: Commands<S>,
}

pub open spec fn view_cli(c: Cli<String>) -> Cli<Seq<char>> {
    Cli { config: c.config@, command: view_commands(c.command) }
}

pub open spec fn args_view(args: Seq<&str>) -> Seq<Seq<char>> {
    args.map_values(|a: &str| a@)
}

fn tokens_of(args: &[&str]) -> (v: Vec<Vec<char>>)
    ensures
        deep(v@) == args_view(args@),
{
    let mut v: Vec<Vec<char>> = Vec::new();
    let mut i: usize = 0;
    while i < args.len()
        invariant
            i <= args@.len(),
            deep(v@) == args_view(args@.take(i as int)),
        decreases args@.len() - i,
    {
        let ghost old_v = v@;
        let c = chars_of(args[i]);
        v.push(c);
        assert(v@ == old_v.push(c));
        assert(args@.take(i + 1) =~= args@.take(i as int).push(args@[i as int]));
        assert(deep(v@) =~= deep(old_v).push(c@));
        assert(args_view(args@.take(i + 1)) =~= args_view(args@.take(i as int)).push(args@[i as int]@));
        i = i + 1;
    }
    assert(args@.take(args@.len() as int) =~= args@);
    v
}

fn exec_top_scan(toks: &Vec<Vec<char>>) -> (r: Result<(Option<Vec<char>>, usize), CliError>)
    ensures
        match r {
            Ok((cfg, i)) => top_scan(deep(toks@), 1, None) == Ok::<(Option<Seq<char>>, int), CliError>(
                (opt_view_vec(cfg), i as int),
            ) && i < toks.len(),
            Err(e) => top_scan(deep(toks@), 1, None) == Err::<(Option<Seq<char>>, int), CliError>(e),
        },
{
    let ghost ts = deep(toks@);
    let sig = mk_sig_top();
    let mut cfg: Option<Vec<char>> = None;
    let mut i: usize = 1;
    while i < toks.len()
        invariant
            1 <= i,
            i <= toks@.len() + 1,
            ts == deep(toks@),
            sig@ == sig_top(),
            sig@.wf(),
            top_scan(ts, 1, None) == top_scan(ts, i as int, opt_view_vec(cfg)),
        decreases toks@.len() + 1 - i,
    {
        let t = toks[i].as_slice();
        assert(ts[i as int] == t@);
        if !(t.len() >= 2 && t[0] == '-') {
            return Ok((cfg, i));
        }
        if is_help_exec(t) {
            return Err(CliError::DisplayHelp);
        }
        let v1 = chars_eq(t, &['-', '-', 'v', 'e', 'r', 's', 'i', 'o', 'n']);
        let v2 = chars_eq(t, &['-', 'V']);
        proof {
            assert(['-', '-', 'v', 'e', 'r', 's', 'i', 'o', 'n']@ =~= seq!['-', '-', 'v', 'e', 'r', 's', 'i', 'o', 'n']);
            assert(['-', 'V']@ =~= seq!['-', 'V']);
        }
        if v1 || v2 {
            return Err(CliError::DisplayVersion);
        }
        match crate::cliscan::option_of_exec(t, &sig) {
            None => {
                return Err(CliError::UnknownArgument);
            },
            Some((_, inline)) => {
                if cfg.is_some() {
                    return Err(CliError::ArgumentRepeated);
                }
                match inline {
                    Some(v) => {
                        cfg = Some(v);
                        i = i + 1;
                    },
                    None => {
                        if i + 1 < toks.len() && !(toks[i + 1].len() >= 2 && toks[i + 1][0] == '-') {
                            assert(ts[i + 1] == toks@[i + 1]@);
                            cfg = Some(toks[i + 1].clone());
                            i = i + 2;
                        } else {
                            return Err(CliError::MissingValue);
                        }
                    },
                }
            },
        }
    }
    Err(CliError::MissingSubcommand)
}

impl Cli<String> {
    /// Parses a command line (the program name first), taking the values of
    /// `env` where an option with an environment variable is not given.
    pub fn try_parse_with_env(args: &[&str], env: &CliEnv) -> (r: Result<Cli<String>, CliError>)
        ensures
            match r {
                Ok(c) => cli_parse(args_view(args@), env@) == Ok::<Cli<Seq<char>>, CliError>(view_cli(c)),
                Err(e) => cli_parse(args_view(args@), env@) == Err::<Cli<Seq<char>>, CliError>(e),
            },
    {
        let toks = tokens_of(args);
        let (cfg, i) = match exec_top_scan(&toks) {
            Err(e) => {
                return Err(e);
            },
            Ok(x) => x,
        };
        let command = match exec_command(&toks, i, env) {
            Err(e) => {
                return Err(e);
            },
            Ok(c) => c,
        };
        let config = match cfg {
            Some(v) => string_of(v.as_slice()),
            None => match &env.config {
                Some(v) => v.clone(),
                None => {
                    let d = ['/', 'e', 't', 'c', '/', 't', 'c', 'f', 's', '/', 'c', 'o', 'n', 'f', 'i', 'g', '.', 't', 'o', 'm', 'l'];
                    proof { assert(d@ =~= default_config_path()); }
                    string_of(&d)
                },
            },
        };
        Ok(Cli { config, command })
    }

    /// Parses a command line with no environment variable set.
    pub fn try_parse_from(args: &[&str]) -> (r: Result<Cli<String>, CliError>)
        ensures
            match r {
                Ok(c) => cli_parse(args_view(args@), env_unset()) == Ok::<Cli<Seq<char>>, CliError>(view_cli(c)),
                Err(e) => cli_parse(args_view(args@), env_unset()) == Err::<Cli<Seq<char>>, CliError>(e),
            },
    {
        Self::try_parse_with_env(args, &CliEnv::unset())
    }
}

} // verus!
