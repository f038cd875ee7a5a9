//! Directory enumeration of the direct FileProvider backend.
//!
//! Remote storage lists every key under the index prefix of a directory,
//! its descendants included; the items the host is shown are the immediate
//! children, each once, in listing order: a key with more path below the
//! directory stands for a child directory, a key directly in it for a file
//! (or a directory, where the store says so).
use vstd::prelude::*;
use crate::stub::{trim_end_char, trim_end_chars};
use crate::text::{
    chars_eq, chars_of, find_char, first_index_of, has_prefix, lemma_first_index_none, lemma_first_index_of, push_chars,
    push_str_chars, starts_with_at, string_of, sub_chars,
};
use crate::upload::object_key;

verus! {

/// `s` without every leading `c`.
pub open spec fn trim_start_char(s: Seq<char>, c: char) -> Seq<char>
    decreases s.len(),
{
    if s.len() > 0 && s[0] == c {
        trim_start_char(s.drop_first(), c)
    } else {
        s
    }
}

pub(crate) fn trim_start_chars(s: &[char], c: char) -> (v: Vec<char>)
    ensures
        v@ == trim_start_char(s@, c),
{
    let mut n: usize = 0;
    assert(s@.subrange(0, s@.len() as int) =~= s@);
    while n < s.len() && s[n] == c
        invariant
            n <= s@.len(),
            trim_start_char(s@, c) == trim_start_char(s@.subrange(n as int, s@.len() as int), c),
        decreases s@.len() - n,
    {
        assert(s@.subrange(n as int, s@.len() as int).drop_first() =~= s@.subrange(n + 1, s@.len() as int));
        n = n + 1;
    }
    sub_chars(s, n, s.len())
}

/// `s` without every leading and trailing `c` (`str::trim_matches`).
pub open spec fn trim_both_char(s: Seq<char>, c: char) -> Seq<char> {
    trim_end_char(trim_start_char(s, c), c)
}

/// The index prefix listed for the directory at `rel_path` (relative to
/// the remote prefix): `{remote_prefix}/index/` for the top, else
/// `{remote_prefix}/index/{rel_path}/`, slashes trimmed so that exactly
/// one separates the parts and the listing matches only the directory's
/// own children.
pub open spec fn listing_prefix_spec(remote_prefix: Seq<char>, rel_path: Seq<char>) -> Seq<char> {
    if rel_path.len() == 0 {
        trim_end_char(remote_prefix, '/') + "/index/"@
    } else {
        trim_end_char(remote_prefix, '/') + "/index/"@ + trim_both_char(rel_path, '/') + "/"@
    }
}

/// The index prefix to list for the directory at `rel_path`.
pub fn listing_prefix(remote_prefix: &str, rel_path: &str) -> (r: String)
    ensures
        r@ == listing_prefix_spec(remote_prefix@, rel_path@),
{
    let mut r = string_of(trim_end_chars(chars_of(remote_prefix).as_slice(), '/').as_slice());
    push_str_chars(&mut r, "/index/");
    if !rel_path.is_empty() {
        let t = trim_end_chars(trim_start_chars(chars_of(rel_path).as_slice(), '/').as_slice(), '/');
        push_chars(&mut r, t.as_slice());
        push_str_chars(&mut r, "/");
    }
    r
}

/// A key that a listing returned, with whether the store marks it a
/// directory.
#[derive(Debug, Clone)]
pub struct ListedKey {
    pub path: String,
    pub is_dir: bool,
}

/// An immediate child of the enumerated directory.
#[derive(Debug, Clone)]
pub struct ChildItem {
    /// Its path relative to the remote prefix (what the host hands back
    /// to enumerate it in turn).
    pub item_id: String,
    /// Its name.
    pub filename: String,
    pub is_directory: bool,
    /// The position of the listed key it was first seen in.
    pub source: usize,
}

/// `path` without `prefix`, where it begins with it.
pub open spec fn strip_prefix_spec(path: Seq<char>, prefix: Seq<char>) -> Seq<char> {
    if has_prefix(path, prefix) {
        path.skip(prefix.len() as int)
    } else {
        path
    }
}

/// The child that a listed key stands for: the first piece of what
/// follows the prefix (leading slashes dropped), a directory where more
/// follows it, else the key itself with the store's own kind. `None` for
/// the directory's own key.
pub open spec fn child_of(prefix: Seq<char>, path: Seq<char>, is_dir: bool) -> Option<(Seq<char>, bool)> {
    let rest = trim_start_char(strip_prefix_spec(path, prefix), '/');
    if rest.len() == 0 {
        None
    } else {
        match first_index_of(rest, '/') {
            Some(i) => if i == 0 {
                None
            } else {
                Some((rest.take(i), true))
            },
            None => Some((rest, is_dir)),
        }
    }
}

/// The names among found children.
pub open spec fn child_names(found: Seq<(Seq<char>, bool, int)>) -> Seq<Seq<char>> {
    found.map_values(|t: (Seq<char>, bool, int)| t.0)
}

/// The immediate children that the listed keys stand for, in order, each
/// name once (its first key wins), with the position of that key.
pub open spec fn children_spec(prefix: Seq<char>, keys: Seq<ListedKey>) -> Seq<(Seq<char>, bool, int)>
    decreases keys.len(),
{
    if keys.len() == 0 {
        seq![]
    } else {
        let prev = children_spec(prefix, keys.drop_last());
        match child_of(prefix, keys.last().path@, keys.last().is_dir) {
            Some((name, dir)) => if child_names(prev).contains(name) {
                prev
            } else {
                prev.push((name, dir, keys.len() - 1))
            },
            None => prev,
        }
    }
}

/// The item id of child `name` of the directory at `rel_path`.
pub open spec fn item_id_spec(rel_path: Seq<char>, name: Seq<char>) -> Seq<char> {
    if rel_path.len() == 0 {
        name
    } else {
        trim_both_char(rel_path, '/') + "/"@ + name
    }
}

fn child_of_exec(prefix: &[char], path: &str, is_dir: bool) -> (r: Option<(Vec<char>, bool)>)
    ensures
        r matches Some((n, d)) ==> child_of(prefix@, path@, is_dir) == Some((n@, d)),
        r is None ==> child_of(prefix@, path@, is_dir) is None,
{
    let p = chars_of(path);
    let stripped = if starts_with_at(p.as_slice(), 0, prefix) {
        assert(p@.subrange(0, p@.len() as int) =~= p@);
        let s = sub_chars(p.as_slice(), prefix.len(), p.len());
        assert(s@ =~= p@.skip(prefix@.len() as int));
        s
    } else {
        assert(p@.subrange(0, p@.len() as int) =~= p@);
        p
    };
    let rest = trim_start_chars(stripped.as_slice(), '/');
    if rest.len() == 0 {
        return None;
    }
    proof {
        lemma_first_index_of(rest@, '/');
    }
    match find_char(rest.as_slice(), '/') {
        Some(i) => {
            if i == 0 {
                None
            } else {
                let name = sub_chars(rest.as_slice(), 0, i);
                assert(name@ =~= rest@.take(i as int));
                Some((name, true))
            }
        },
        None => Some((rest, is_dir)),
    }
}

/// The names of found child items.
pub open spec fn item_names(found: Seq<ChildItem>) -> Seq<Seq<char>> {
    found.map_values(|c: ChildItem| c.filename@)
}

fn name_seen(found: &Vec<ChildItem>, name: &[char]) -> (r: bool)
    ensures
        r == item_names(found@).contains(name@),
{
    let mut i: usize = 0;
    while i < found.len()
        invariant
            i <= found@.len(),
            forall|k: int| 0 <= k < i ==> found@[k].filename@ != name@,
        decreases found@.len() - i,
    {
        let f = chars_of(found[i].filename.as_str());
        if chars_eq(f.as_slice(), name) {
            assert(item_names(found@)[i as int] == name@);
            return true;
        }
        i = i + 1;
    }
    proof {
        if item_names(found@).contains(name@) {
            let k = choose|k: int| 0 <= k < found@.len() && #[trigger] item_names(found@)[k] == name@;
            assert(found@[k].filename@ == name@);
        }
    }
    false
}

/// The immediate children of the directory at `rel_path` that the keys
/// listed under `prefix` (its listing prefix) stand for, in listing order,
/// each name once.
pub fn immediate_children(prefix: &str, rel_path: &str, keys: &[ListedKey]) -> (r: Vec<ChildItem>)
    ensures
        r@.len() == children_spec(prefix@, keys@).len(),
        forall|k: int|
            0 <= k < r@.len() ==> {
                let c = #[trigger] children_spec(prefix@, keys@)[k];
                &&& r@[k].filename@ == c.0
                &&& r@[k].is_directory == c.1
                &&& r@[k].source as int == c.2
                &&& r@[k].item_id@ == item_id_spec(rel_path@, c.0)
            },
{
    let pre = chars_of(prefix);
    let base = trim_end_chars(trim_start_chars(chars_of(rel_path).as_slice(), '/').as_slice(), '/');
    let mut out: Vec<ChildItem> = Vec::new();
    let mut i: usize = 0;
    while i < keys.len()
        invariant
            i <= keys@.len(),
            pre@ == prefix@,
            base@ == trim_both_char(rel_path@, '/'),
            out@.len() == children_spec(prefix@, keys@.take(i as int)).len(),
            forall|k: int|
                0 <= k < out@.len() ==> {
                    let c = #[trigger] children_spec(prefix@, keys@.take(i as int))[k];
                    &&& out@[k].filename@ == c.0
                    &&& out@[k].is_directory == c.1
                    &&& out@[k].source as int == c.2
                    &&& out@[k].item_id@ == item_id_spec(rel_path@, c.0)
                },
        decreases keys@.len() - i,
    {
        let ghost prev = children_spec(prefix@, keys@.take(i as int));
        assert(keys@.take(i + 1).drop_last() =~= keys@.take(i as int));
        assert(keys@.take(i + 1).last() == keys@[i as int]);
        assert(item_names(out@) =~= child_names(prev));
        match child_of_exec(pre.as_slice(), keys[i].path.as_str(), keys[i].is_dir) {
            Some((name, dir)) => {
                if !name_seen(&out, name.as_slice()) {
                    let mut item_id = if rel_path.is_empty() {
                        String::new()
                    } else {
                        let mut t = string_of(base.as_slice());
                        push_str_chars(&mut t, "/");
                        t
                    };
                    push_chars(&mut item_id, name.as_slice());
                    proof {
                        reveal_strlit("/");
                    }
                    assert(item_id@ =~= item_id_spec(rel_path@, name@));
                    let filename = string_of(name.as_slice());
                    out.push(ChildItem { item_id, filename, is_directory: dir, source: i });
                }
            },
            None => {},
        }
        i = i + 1;
    }
    assert(keys@.take(keys@.len() as int) =~= keys@);
    out
}

// ── The iOS provider's listing ───────────────────────────────────────────────

/// The index prefix that the iOS provider lists for `path`:
/// `{remote_prefix}/index/{path}`, trailing slashes of the prefix and
/// leading slashes of the path dropped.
pub open spec fn ios_listing_prefix_spec(remote_prefix: Seq<char>, path: Seq<char>) -> Seq<char> {
    trim_end_char(remote_prefix, '/') + "/index/"@ + trim_start_char(path, '/')
}

/// The index prefix that the iOS provider lists for `path`.
pub fn ios_listing_prefix(remote_prefix: &str, path: &str) -> (r: String)
    ensures
        r@ == ios_listing_prefix_spec(remote_prefix@, path@),
{
    let mut r = string_of(trim_end_chars(chars_of(remote_prefix).as_slice(), '/').as_slice());
    push_str_chars(&mut r, "/index/");
    push_chars(&mut r, trim_start_chars(chars_of(path).as_slice(), '/').as_slice());
    r
}

/// The item that the iOS provider shows for a listed key: its name (what
/// follows the prefix, leading and trailing slashes dropped) and whether it
/// is a directory (a trailing slash); `None` for the listed prefix itself.
pub open spec fn ios_item_spec(prefix: Seq<char>, path: Seq<char>) -> Option<(Seq<char>, bool)> {
    let name = trim_start_char(strip_prefix_spec(path, prefix), '/');
    if name.len() == 0 {
        None
    } else {
        Some((trim_end_char(name, '/'), name.last() == '/'))
    }
}

/// The name and kind of the item that a key listed under `prefix` shows.
pub fn ios_item(prefix: &str, path: &str) -> (r: Option<(String, bool)>)
    ensures
        r matches Some((n, d)) ==> ios_item_spec(prefix@, path@) == Some((n@, d)),
        r is None ==> ios_item_spec(prefix@, path@) is None,
{
    let p = chars_of(path);
    let pre = chars_of(prefix);
    let stripped = if starts_with_at(p.as_slice(), 0, pre.as_slice()) {
        assert(p@.subrange(0, p@.len() as int) =~= p@);
        let s = sub_chars(p.as_slice(), pre.len(), p.len());
        assert(s@ =~= p@.skip(pre@.len() as int));
        s
    } else {
        assert(p@.subrange(0, p@.len() as int) =~= p@);
        p
    };
    let name = trim_start_chars(stripped.as_slice(), '/');
    if name.len() == 0 {
        return None;
    }
    let is_dir = name[name.len() - 1] == '/';
    Some((string_of(trim_end_chars(name.as_slice(), '/').as_slice()), is_dir))
}

// ── Directories ──────────────────────────────────────────────────────────────

/// The marker key that makes directory `name` exist under `parent` (both
/// relative to the remote prefix): `{prefix}/index/{parent}/{name}/`, the
/// parent and its slash left out at the top, slashes trimmed so that
/// exactly one separates the parts.
pub open spec fn directory_key_spec(remote_prefix: Seq<char>, parent: Seq<char>, name: Seq<char>) -> Seq<char> {
    let under = if parent.len() == 0 {
        seq![]
    } else {
        trim_both_char(parent, '/') + "/"@
    };
    trim_end_char(remote_prefix, '/') + "/index/"@ + under + trim_both_char(name, '/') + "/"@
}

/// The marker key of directory `name` under `parent`.
pub fn directory_key(remote_prefix: &str, parent: &str, name: &str) -> (r: String)
    ensures
        r@ == directory_key_spec(remote_prefix@, parent@, name@),
{
    let mut r = string_of(trim_end_chars(chars_of(remote_prefix).as_slice(), '/').as_slice());
    push_str_chars(&mut r, "/index/");
    if !parent.is_empty() {
        let p = trim_end_chars(trim_start_chars(chars_of(parent).as_slice(), '/').as_slice(), '/');
        push_chars(&mut r, p.as_slice());
        push_str_chars(&mut r, "/");
    }
    let n = trim_end_chars(trim_start_chars(chars_of(name).as_slice(), '/').as_slice(), '/');
    push_chars(&mut r, n.as_slice());
    push_str_chars(&mut r, "/");
    r
}

// ── Laws ─────────────────────────────────────────────────────────────────────

/// No child is shown twice: the names of the enumerated children are
/// pairwise distinct.
pub proof fn lemma_children_distinct(prefix: Seq<char>, keys: Seq<ListedKey>)
    ensures
        forall|a: int, b: int|
            0 <= a < b < children_spec(prefix, keys).len() ==> #[trigger] children_spec(prefix, keys)[a].0
                != #[trigger] children_spec(prefix, keys)[b].0,
    decreases keys.len(),
{
    if keys.len() > 0 {
        let prev = children_spec(prefix, keys.drop_last());
        lemma_children_distinct(prefix, keys.drop_last());
        match child_of(prefix, keys.last().path@, keys.last().is_dir) {
            Some((name, dir)) => {
                if !child_names(prev).contains(name) {
                    let cur = prev.push((name, dir, keys.len() - 1));
                    assert forall|a: int, b: int| 0 <= a < b < cur.len() implies #[trigger] cur[a].0 != #[trigger] cur[b].0 by {
                        if b == prev.len() {
                            assert(child_names(prev)[a] == prev[a].0);
                        }
                    }
                }
            },
            None => {},
        }
    }
}

/// Every listing prefix ends with `/`, so that listing one directory never
/// matches a sibling whose name merely begins with the same text.
pub proof fn lemma_listing_prefix_ends_with_slash(remote_prefix: Seq<char>, rel_path: Seq<char>)
    ensures
        listing_prefix_spec(remote_prefix, rel_path).len() > 0,
        listing_prefix_spec(remote_prefix, rel_path).last() == '/',
{
    reveal_strlit("/index/");
    reveal_strlit("/");
}

/// A child that one listed key stands for is among the enumerated
/// children, whatever the other keys are.
proof fn lemma_child_kept(prefix: Seq<char>, keys: Seq<ListedKey>, k: int, name: Seq<char>, dir: bool)
    requires
        0 <= k < keys.len(),
        child_of(prefix, keys[k].path@, keys[k].is_dir) == Some((name, dir)),
    ensures
        child_names(children_spec(prefix, keys)).contains(name),
    decreases keys.len(),
{
    let prev = children_spec(prefix, keys.drop_last());
    if k == keys.len() - 1 {
        if child_names(prev).contains(name) {
        } else {
            let cur = prev.push((name, dir, keys.len() - 1));
            assert(child_names(cur)[prev.len() as int] == name);
        }
    } else {
        assert(keys.drop_last()[k] == keys[k]);
        lemma_child_kept(prefix, keys.drop_last(), k, name, dir);
        let j = choose|j: int| 0 <= j < child_names(prev).len() && child_names(prev)[j] == name;
        match child_of(prefix, keys.last().path@, keys.last().is_dir) {
            Some((n2, d2)) => {
                if !child_names(prev).contains(n2) {
                    let cur = prev.push((n2, d2, keys.len() - 1));
                    assert(child_names(cur)[j] == name);
                }
            },
            None => {},
        }
    }
}

/// A file uploaded as `dir/name` (as `name` at the top, where `dir` is
/// empty) is listed under its name among the children of `dir`, whatever
/// else the listing returns: its index key is the listing prefix of `dir`
/// followed by the name.
pub proof fn lemma_uploaded_file_is_listed(
    remote_prefix: Seq<char>,
    dir: Seq<char>,
    name: Seq<char>,
    keys: Seq<ListedKey>,
    k: int,
)
    requires
        name.len() > 0,
        forall|j: int| 0 <= j < name.len() ==> name[j] != '/',
        dir.len() == 0 || (dir[0] != '/' && dir.last() != '/'),
        0 <= k < keys.len(),
        keys[k].path@ == object_key(remote_prefix, "index"@, trim_start_char(item_id_spec(dir, name), '/')),
    ensures
        child_names(children_spec(listing_prefix_spec(remote_prefix, dir), keys)).contains(name),
{
    reveal_strlit("/index/");
    reveal_strlit("/");
    reveal_strlit("index");
    let tp = trim_end_char(remote_prefix, '/');
    let l = listing_prefix_spec(remote_prefix, dir);
    let key = keys[k].path@;
    if dir.len() == 0 {
        assert(trim_start_char(name, '/') == name);
        assert(key =~= l + name);
    } else {
        assert(trim_start_char(dir, '/') == dir);
        assert(trim_end_char(dir, '/') == dir);
        let id = dir + "/"@ + name;
        assert(id[0] == dir[0]);
        assert(trim_start_char(id, '/') == id);
        assert(key =~= l + name);
    }
    assert((l + name).subrange(0, l.len() as int) =~= l);
    assert((l + name).skip(l.len() as int) =~= name);
    assert(strip_prefix_spec(key, l) == name);
    assert(trim_start_char(name, '/') == name);
    lemma_first_index_none(name, '/');
    assert(child_of(l, key, keys[k].is_dir) == Some((name, keys[k].is_dir)));
    lemma_child_kept(l, keys, k, name, keys[k].is_dir);
}

} // verus!
