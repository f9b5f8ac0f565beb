//! The last name in a path, its stem and its extension.

use crate::text;
use vstd::prelude::*;

verus! {

/// The last position of `c`, or minus one where it does not occur.
pub open spec fn last_index_of(s: Seq<char>, c: char) -> int
    decreases s.len(),
{
    if s.len() == 0 {
        -1
    } else if s.last() == c {
        s.len() - 1
    } else {
        last_index_of(s.drop_last(), c)
    }
}

/// The last part of a path that names something: empty parts and single dots
/// name nothing.
pub open spec fn last_component(s: Seq<char>) -> Seq<char>
    decreases s.len(),
    via last_component_shrinks
{
    let i = last_index_of(s, '/');
    let tail = s.skip(i + 1);
    if tail.len() == 0 || tail == seq!['.'] {
        if i < 0 {
            Seq::empty()
        } else {
            last_component(s.take(i))
        }
    } else {
        tail
    }
}

#[via_fn]
proof fn last_component_shrinks(s: Seq<char>) {
    last_index_of_bounds(s, '/');
}

proof fn last_index_of_bounds(s: Seq<char>, c: char)
    ensures
        -1 <= last_index_of(s, c) < s.len() as int,
        last_index_of(s, c) >= 0 ==> s[last_index_of(s, c)] == c,
        forall|k: int| last_index_of(s, c) < k < s.len() ==> s[k] != c,
    decreases s.len(),
{
    if s.len() > 0 && s.last() != c {
        let t = s.drop_last();
        last_index_of_bounds(t, c);
        assert forall|k: int| last_index_of(s, c) < k < s.len() implies s[k] != c by {
            if k < s.len() - 1 {
                assert(s[k] == t[k]);
            }
        }
    }
}

/// The name of the file a path leads to, if it names one.
pub open spec fn file_name(s: Seq<char>) -> Option<Seq<char>> {
    let c = last_component(s);
    if c.len() == 0 || c == seq!['.', '.'] {
        None
    } else {
        Some(c)
    }
}

/// A file name without its extension: what stands before its last dot, unless
/// that is its first character.
pub open spec fn stem(name: Seq<char>) -> Seq<char> {
    let d = last_index_of(name, '.');
    if d <= 0 {
        name
    } else {
        name.take(d)
    }
}

/// The stem of the file a path leads to.
pub open spec fn file_stem(s: Seq<char>) -> Option<Seq<char>> {
    match file_name(s) {
        Some(name) => Some(stem(name)),
        None => None,
    }
}

/// Where `c` last occurs in the first `to` characters, one past it; nothing
/// where it does not.
pub fn after_last(v: &Vec<char>, from: usize, to: usize, c: char) -> (e: usize)
    requires
        from <= to <= v.len(),
    ensures
        from <= e <= to,
        e - from == last_index_of(v@.subrange(from as int, to as int), c) + 1,
{
    let mut e: usize = to;
    while e > from && v[e - 1] != c
        invariant
            from <= e <= to <= v.len(),
            last_index_of(v@.subrange(from as int, to as int), c) == last_index_of(
                v@.subrange(from as int, e as int),
                c,
            ),
        decreases e,
    {
        let ghost cut = v@.subrange(from as int, e as int);
        assert(cut.drop_last() =~= v@.subrange(from as int, e - 1));
        assert(cut.last() == v@[e - 1]);
        e -= 1;
    }
    let ghost cut = v@.subrange(from as int, e as int);
    assert(e > from ==> cut.last() == v@[e - 1]);
    e
}

/// Where the last part of a path that names something ends.
pub open spec fn name_stop(s: Seq<char>) -> int
    decreases s.len(),
    via name_stop_shrinks
{
    let i = last_index_of(s, '/');
    let tail = s.skip(i + 1);
    if tail.len() == 0 || tail == seq!['.'] {
        if i < 0 {
            0
        } else {
            name_stop(s.take(i))
        }
    } else {
        s.len() as int
    }
}

#[via_fn]
proof fn name_stop_shrinks(s: Seq<char>) {
    last_index_of_bounds(s, '/');
}

/// Where the name of the file a path leads to stands, if it names one.
fn locate_name(v: &Vec<char>) -> (r: Option<(usize, usize)>)
    ensures
        match file_name(v@) {
            Some(name) => {
                &&& r matches Some(w) && w.0 <= w.1 <= v@.len()
                &&& v@.subrange((r->0).0 as int, (r->0).1 as int) == name
                &&& (r->0).1 == name_stop(v@)
            },
            None => r is None,
        },
{
    let mut to: usize = v.len();
    assert(v@.take(to as int) =~= v@);
    loop
        invariant
            to <= v.len(),
            last_component(v@.take(to as int)) == last_component(v@),
            name_stop(v@.take(to as int)) == name_stop(v@),
        decreases to,
    {
        let ghost s = v@.take(to as int);
        assert(v@.subrange(0, to as int) =~= s);
        let b: usize = after_last(v, 0, to, '/');
        let ghost tail = s.skip(b as int);
        assert(tail =~= v@.subrange(b as int, to as int));
        if to == b || (to - b == 1 && v[b] == '.') {
            assert(tail.len() == 0 || tail =~= seq!['.']);
            if b == 0 {
                assert(last_component(s) =~= Seq::empty());
                return None;
            }
            assert(s.take(b - 1) =~= v@.take(b - 1));
            to = b - 1;
        } else {
            assert(tail != seq!['.']) by {
                if tail == seq!['.'] {
                    assert(tail[0] == '.');
                }
            }
            if to - b == 2 && v[b] == '.' && v[b + 1] == '.' {
                assert(tail =~= seq!['.', '.']);
                return None;
            }
            assert(tail != seq!['.', '.']) by {
                if tail == seq!['.', '.'] {
                    assert(tail[0] == '.' && tail[1] == '.');
                }
            }
            return Some((b, to));
        }
    }
}

/// The name of the file a path leads to, if it names one.
pub fn file_name_of(path: &str) -> (r: Option<String>)
    ensures
        match file_name(path@) {
            Some(s) => r is Some && (r->0)@ == s,
            None => r is None,
        },
{
    let v = text::chars_of(path);
    let (b, e) = locate_name(&v)?;
    Some(text::string_of_range(&v, b, e))
}

/// A path with another extension: what stands behind the stem of its file name
/// is replaced. A path that names no file stays as it is.
pub open spec fn with_extension(path: Seq<char>, ext: Seq<char>) -> Seq<char> {
    match file_name(path) {
        Some(name) => path.take(name_stop(path) - name.len() + stem(name).len()) + "."@ + ext,
        None => path,
    }
}

/// A path with another extension.
pub fn replace_extension(path: &str, ext: &str) -> (r: String)
    ensures
        r@ == with_extension(path@, ext@),
{
    let v = text::chars_of(path);
    match locate_name(&v) {
        None => text::owned(path),
        Some((b, e)) => {
            let ghost name = v@.subrange(b as int, e as int);
            let d: usize = after_last(&v, b, e, '.');
            let end: usize = if d <= b + 1 {
                e
            } else {
                d - 1
            };
            assert(end - b == stem(name).len());
            let mut r = text::string_of_range(&v, 0, end);
            assert(r@ =~= path@.take(end as int));
            r.append(".");
            r.append(ext);
            assert(r@ =~= with_extension(path@, ext@));
            r
        },
    }
}

/// The stem of the file a path leads to, if it names one.
pub fn stem_of(path: &str) -> (r: Option<String>)
    ensures
        match file_stem(path@) {
            Some(s) => r is Some && (r->0)@ == s,
            None => r is None,
        },
{
    let name = file_name_of(path)?;
    let v = text::chars_of(name.as_str());
    assert(v@.subrange(0, v@.len() as int) =~= v@);
    let d: usize = after_last(&v, 0, v.len(), '.');
    if d <= 1 {
        return Some(name);
    }
    let r = text::string_of_range(&v, 0, d - 1);
    assert(r@ =~= v@.take(d - 1));
    Some(r)
}

/// The extension of a file name: what stands behind its last dot, unless that
/// is its first character.
pub open spec fn extension(name: Seq<char>) -> Seq<char> {
    let d = last_index_of(name, '.');
    if d <= 0 {
        Seq::empty()
    } else {
        name.skip(d + 1)
    }
}

/// The extension of the file a path leads to, empty where it has none.
pub open spec fn file_extension(s: Seq<char>) -> Seq<char> {
    match file_name(s) {
        Some(name) => extension(name),
        None => Seq::empty(),
    }
}

/// The extension of the file a path leads to, empty where it has none.
pub fn extension_of(path: &str) -> (r: String)
    ensures
        r@ == file_extension(path@),
{
    match file_name_of(path) {
        None => {
            let r = String::new();
            assert(r@ =~= Seq::<char>::empty());
            r
        },
        Some(name) => {
            let v = text::chars_of(name.as_str());
            assert(v@.subrange(0, v@.len() as int) =~= v@);
            let d: usize = after_last(&v, 0, v.len(), '.');
            let r = if d <= 1 {
                String::new()
            } else {
                text::string_of_range(&v, d, v.len())
            };
            assert(r@ =~= extension(name@));
            r
        },
    }
}

proof fn the_last_is_before_the_rest(a: Seq<char>, c: char, rest: Seq<char>)
    requires
        !rest.contains(c),
    ensures
        last_index_of(a + seq![c] + rest, c) == a.len(),
    decreases rest.len(),
{
    let s = a + seq![c] + rest;
    if rest.len() > 0 {
        let n = rest.len() - 1;
        assert(rest.contains(rest[n]));
        assert(s.last() == rest[n]);
        let front = rest.drop_last();
        assert(!front.contains(c)) by {
            if front.contains(c) {
                let i = choose|i: int| 0 <= i < front.len() && front[i] == c;
                assert(rest[i] == c);
            }
        }
        the_last_is_before_the_rest(a, c, front);
        assert(s.drop_last() =~= a + seq![c] + front);
    } else {
        assert(s.last() == c);
    }
}

proof fn there_is_none(s: Seq<char>, c: char)
    requires
        !s.contains(c),
    ensures
        last_index_of(s, c) == -1,
    decreases s.len(),
{
    if s.len() > 0 {
        assert(s.contains(s[s.len() - 1]));
        let front = s.drop_last();
        assert(!front.contains(c)) by {
            if front.contains(c) {
                let i = choose|i: int| 0 <= i < front.len() && front[i] == c;
                assert(s[i] == c);
            }
        }
        there_is_none(front, c);
    }
}

/// A name is its stem, a dot and its extension, which has no dot of its own; one
/// without a dot, or with one at its beginning alone, is all stem.
pub proof fn a_name_is_its_stem_and_extension(start: Seq<char>, rest: Seq<char>)
    requires
        !rest.contains('.'),
    ensures
        start.len() > 0 ==> stem(start + seq!['.'] + rest) == start && extension(
            start + seq!['.'] + rest,
        ) == rest,
        stem(rest) == rest && extension(rest).len() == 0,
        stem(seq!['.'] + rest) == seq!['.'] + rest && extension(seq!['.'] + rest).len() == 0,
{
    the_last_is_before_the_rest(start, '.', rest);
    let s = start + seq!['.'] + rest;
    assert(s.take(start.len() as int) =~= start);
    assert(s.skip(start.len() as int + 1) =~= rest);
    there_is_none(rest, '.');
    the_last_is_before_the_rest(Seq::empty(), '.', rest);
    assert(Seq::empty() + seq!['.'] + rest =~= seq!['.'] + rest);
}

/// A file's name is what follows the last slash, and a new extension takes the
/// place of the old one and leaves the rest of the path.
pub proof fn a_file_is_named_after_the_last_slash(dir: Seq<char>, name: Seq<char>, ext: Seq<char>)
    requires
        name.len() > 0,
        !name.contains('/'),
        name != seq!['.'],
        name != seq!['.', '.'],
    ensures
        file_name(dir + seq!['/'] + name) == Some(name),
        file_name(name) == Some(name),
        with_extension(dir + seq!['/'] + name, ext) == dir + seq!['/'] + stem(name) + seq!['.']
            + ext,
        with_extension(name, ext) == stem(name) + seq!['.'] + ext,
{
    let s = dir + seq!['/'] + name;
    the_last_is_before_the_rest(dir, '/', name);
    there_is_none(name, '/');
    assert(s.skip(dir.len() as int + 1) =~= name);
    assert(name.skip(0) =~= name);
    reveal_strlit(".");
    assert("."@ =~= seq!['.']);
    let d = last_index_of(name, '.');
    last_is_inside(name, '.');
    let k = stem(name).len();
    assert(stem(name) =~= name.take(k as int));
    assert(s.take(dir.len() as int + 1 + k) =~= dir + seq!['/'] + stem(name));
    assert(name.take(k as int) =~= stem(name));
    assert(with_extension(s, ext) =~= dir + seq!['/'] + stem(name) + seq!['.'] + ext);
    assert(with_extension(name, ext) =~= stem(name) + seq!['.'] + ext);
}

proof fn last_is_inside(s: Seq<char>, c: char)
    ensures
        -1 <= last_index_of(s, c) < s.len(),
    decreases s.len(),
{
    if s.len() > 0 {
        last_is_inside(s.drop_last(), c);
    }
}

/// What a character stands last in front of is found by it, and a character that
/// does not occur stands nowhere.
pub proof fn the_last_is_found(a: Seq<char>, c: char, rest: Seq<char>)
    requires
        !rest.contains(c),
    ensures
        last_index_of(a + seq![c] + rest, c) == a.len(),
        last_index_of(rest, c) == -1,
{
    the_last_is_before_the_rest(a, c, rest);
    there_is_none(rest, c);
}

} // verus!
