//! A model of Unix path names as `std::path::Path` reads them: the list of
//! named parts, the final file name and its extension.
use vstd::prelude::*;
use crate::text::{
    first_index_of, last_index_of, lemma_first_index_of, lemma_first_index_is, lemma_last_index_of, rfind_char, sub_chars,
};

verus! {

/// `s` split at every `c` (empty pieces included), as `str::split` does.
pub open spec fn split_on(s: Seq<char>, c: char) -> Seq<Seq<char>>
    decreases s.len(),
{
    match first_index_of(s, c) {
        None => seq![s],
        Some(i) => {
            if 0 <= i < s.len() {
                seq![s.subrange(0, i)] + split_on(s.subrange(i + 1, s.len() as int), c)
            } else {
                seq![s]
            }
        },
    }
}

/// A named part of a path: neither empty (repeated or trailing separators)
/// nor the current-directory marker `.`.
pub open spec fn is_named_part(p: Seq<char>) -> bool {
    p.len() > 0 && p != seq!['.']
}

/// The parts that `Path::components` yields for `s`, leaving out the root
/// `/` and any `.` marker (neither can equal a file or directory name).
pub open spec fn path_parts(s: Seq<char>) -> Seq<Seq<char>> {
    split_on(s, '/').filter(|p: Seq<char>| is_named_part(p))
}

/// `Path::file_name`: the last part, unless it is `..` or there is none.
pub open spec fn file_name(s: Seq<char>) -> Option<Seq<char>> {
    let parts = path_parts(s);
    if parts.len() == 0 || parts.last() == seq!['.', '.'] {
        None
    } else {
        Some(parts.last())
    }
}

/// `Path::extension` of a file name: what follows its last `.`, unless that
/// dot is the name's first character or there is no dot.
pub open spec fn name_extension(name: Seq<char>) -> Option<Seq<char>> {
    match last_index_of(name, '.') {
        None => None,
        Some(i) => if i == 0 {
            None
        } else {
            Some(name.subrange(i + 1, name.len() as int))
        },
    }
}

/// `Path::extension`.
pub open spec fn extension(s: Seq<char>) -> Option<Seq<char>> {
    match file_name(s) {
        None => None,
        Some(n) => name_extension(n),
    }
}

proof fn lemma_filter_push(s: Seq<Seq<char>>, x: Seq<char>)
    ensures
        s.push(x).filter(|p: Seq<char>| is_named_part(p)) == if is_named_part(x) {
            s.filter(|p: Seq<char>| is_named_part(p)).push(x)
        } else {
            s.filter(|p: Seq<char>| is_named_part(p))
        },
{
    reveal(Seq::filter);
    assert(s.push(x).drop_last() =~= s);
}

/// `split_on` reassembled from the left: pieces found so far plus the rest.
proof fn lemma_split_step(s: Seq<char>, c: char, i: int)
    requires
        0 <= i < s.len(),
        s[i] == c,
        forall|j: int| 0 <= j < i ==> s[j] != c,
    ensures
        split_on(s, c) == seq![s.subrange(0, i)] + split_on(s.subrange(i + 1, s.len() as int), c),
{
    lemma_first_index_of(s, c);
    match first_index_of(s, c) {
        Some(k) => {
            if k < i {
                assert(s[k] == c);
            }
            if k > i {
                assert(s[i] != c);
            }
        },
        None => {
            assert(s[i] != c);
        },
    }
}

proof fn lemma_split_none(s: Seq<char>, c: char)
    requires
        forall|j: int| 0 <= j < s.len() ==> s[j] != c,
    ensures
        split_on(s, c) == seq![s],
{
    lemma_first_index_of(s, c);
    if let Some(k) = first_index_of(s, c) {
        assert(s[k] == c);
    }
}

/// Splitting at `c` a text joined by `c` gives the pieces of each side, in
/// order.
pub proof fn lemma_split_concat(a: Seq<char>, b: Seq<char>, c: char)
    ensures
        split_on(a + seq![c] + b, c) == split_on(a, c) + split_on(b, c),
    decreases a.len(),
{
    let s = a + seq![c] + b;
    lemma_first_index_of(a, c);
    match first_index_of(a, c) {
        None => {
            lemma_first_index_is(s, c, a.len() as int);
            assert(s.subrange(0, a.len() as int) =~= a);
            assert(s.subrange(a.len() as int + 1, s.len() as int) =~= b);
            lemma_split_none(a, c);
        },
        Some(i) => {
            lemma_first_index_is(s, c, i);
            let rest = a.subrange(i + 1, a.len() as int);
            lemma_split_concat(rest, b, c);
            assert(s.subrange(0, i) =~= a.subrange(0, i));
            assert(s.subrange(i + 1, s.len() as int) =~= rest + seq![c] + b);
            assert(split_on(a, c) == seq![a.subrange(0, i)] + split_on(rest, c));
        },
    }
}

/// The named parts of two paths joined by `/` are those of the first, then
/// those of the second.
pub proof fn lemma_path_parts_concat(a: Seq<char>, b: Seq<char>)
    ensures
        path_parts(a + seq!['/'] + b) == path_parts(a) + path_parts(b),
{
    lemma_split_concat(a, b, '/');
    Seq::filter_distributes_over_add(split_on(a, '/'), split_on(b, '/'), |p: Seq<char>| is_named_part(p));
}

/// A name without `/` that is a named part is a path of that one part.
pub proof fn lemma_path_parts_name(t: Seq<char>)
    requires
        is_named_part(t),
        forall|j: int| 0 <= j < t.len() ==> t[j] != '/',
    ensures
        path_parts(t) == seq![t],
{
    lemma_split_none(t, '/');
    lemma_filter_push(Seq::<Seq<char>>::empty(), t);
    assert(Seq::<Seq<char>>::empty().push(t) =~= seq![t]);
    assert(Seq::<Seq<char>>::empty().filter(|p: Seq<char>| is_named_part(p)) =~= Seq::<Seq<char>>::empty());
}

/// The named parts of `s`, as `path_parts` describes them.
pub fn parts_of(s: &[char]) -> (parts: Vec<Vec<char>>)
    ensures
        parts@.len() == path_parts(s@).len(),
        forall|i: int| 0 <= i < parts@.len() ==> #[trigger] parts@[i]@ == path_parts(s@)[i],
{
    let mut parts: Vec<Vec<char>> = Vec::new();
    let mut cur: Vec<char> = Vec::new();
    let mut start: usize = 0;
    let mut i: usize = 0;
    // pieces completed before `start`
    let ghost mut done: Seq<Seq<char>> = Seq::empty();
    assert(s@.subrange(0, s@.len() as int) =~= s@);
    assert(Seq::<Seq<char>>::empty() + split_on(s@, '/') =~= split_on(s@, '/'));
    while i < s.len()
        invariant
            start <= i <= s@.len(),
            cur@ == s@.subrange(start as int, i as int),
            forall|j: int| start <= j < i ==> s@[j] != '/',
            split_on(s@, '/') == done + split_on(s@.subrange(start as int, s@.len() as int), '/'),
            parts@.len() == done.filter(|p: Seq<char>| is_named_part(p)).len(),
            forall|k: int|
                0 <= k < parts@.len() ==> #[trigger] parts@[k]@ == done.filter(
                    |p: Seq<char>| is_named_part(p),
                )[k],
        decreases s@.len() - i,
    {
        if s[i] == '/' {
            let ghost rest = s@.subrange(start as int, s@.len() as int);
            proof {
                assert forall|j: int| 0 <= j < i - start implies rest[j] != '/' by {
                    assert(rest[j] == s@[start + j]);
                }
                lemma_split_step(rest, '/', i - start);
                assert(rest.subrange(0, i - start) =~= cur@);
                assert(rest.subrange(i - start + 1, rest.len() as int) =~= s@.subrange(
                    i + 1,
                    s@.len() as int,
                ));
                lemma_filter_push(done, cur@);
                assert(done + split_on(rest, '/') =~= done.push(cur@) + split_on(
                    s@.subrange(i + 1, s@.len() as int),
                    '/',
                ));
            }
            let named = cur.len() > 0 && !(cur.len() == 1 && cur[0] == '.');
            assert(named == is_named_part(cur@)) by {
                if cur@.len() == 1 && cur@[0] == '.' {
                    assert(cur@ =~= seq!['.']);
                }
                if cur@ == seq!['.'] {
                    assert(cur@[0] == '.');
                }
            }
            if named {
                parts.push(cur);
            }
            proof {
                done = done.push(cur@);
            }
            cur = Vec::new();
            start = i + 1;
        } else {
            cur.push(s[i]);
            assert(s@.subrange(start as int, i + 1) =~= s@.subrange(start as int, i as int).push(
                s@[i as int],
            ));
        }
        i = i + 1;
    }
    proof {
        let rest = s@.subrange(start as int, s@.len() as int);
        assert forall|j: int| 0 <= j < rest.len() implies rest[j] != '/' by {
            assert(rest[j] == s@[start + j]);
        }
        lemma_split_none(rest, '/');
        assert(rest =~= cur@);
        lemma_filter_push(done, cur@);
        assert(done + seq![rest] =~= done.push(cur@));
    }
    let named = cur.len() > 0 && !(cur.len() == 1 && cur[0] == '.');
    assert(named == is_named_part(cur@)) by {
        if cur@.len() == 1 && cur@[0] == '.' {
            assert(cur@ =~= seq!['.']);
        }
        if cur@ == seq!['.'] {
            assert(cur@[0] == '.');
        }
    }
    if named {
        parts.push(cur);
    }
    parts
}

/// `Path::file_name`.
pub fn file_name_of(s: &[char]) -> (r: Option<Vec<char>>)
    ensures
        r matches Some(n) ==> file_name(s@) == Some(n@),
        r is None ==> file_name(s@) is None,
{
    let mut parts = parts_of(s);
    let n = parts.len();
    if n == 0 {
        return None;
    }
    let last = parts.pop().unwrap();
    assert(last@ == path_parts(s@).last());
    if last.len() == 2 && last[0] == '.' && last[1] == '.' {
        assert(last@ =~= seq!['.', '.']);
        None
    } else {
        assert(last@ != seq!['.', '.']) by {
            if last@ == seq!['.', '.'] {
                assert(last@[0] == '.' && last@[1] == '.');
            }
        }
        Some(last)
    }
}

/// Extension of a file name.
pub fn name_extension_of(name: &[char]) -> (r: Option<Vec<char>>)
    ensures
        r matches Some(e) ==> name_extension(name@) == Some(e@),
        r is None ==> name_extension(name@) is None,
{
    proof { lemma_last_index_of(name@, '.'); }
    match rfind_char(name, '.') {
        None => None,
        Some(i) => {
            if i == 0 {
                None
            } else {
                assert(i < name.len());
                Some(sub_chars(name, i + 1, name.len()))
            }
        },
    }
}

/// `Path::extension`.
pub fn extension_of(s: &[char]) -> (r: Option<Vec<char>>)
    ensures
        r matches Some(e) ==> extension(s@) == Some(e@),
        r is None ==> extension(s@) is None,
{
    match file_name_of(s) {
        None => None,
        Some(n) => name_extension_of(n.as_slice()),
    }
}

} // verus!
