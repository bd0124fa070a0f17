use vstd::prelude::*;
use vstd::string::*;

use crate::text::chars_of;

verus! {

/// A Unix path is absolute when it starts at the root.
pub open spec fn is_absolute(p: Seq<char>) -> bool {
    p.len() > 0 && p[0] == '/'
}

/// `base` extended by `p`, as `Path::join` does it on Unix: an absolute `p` replaces
/// `base`; otherwise `p` follows `base`, with a `/` between them where `base` is not empty
/// and does not end in one.
pub open spec fn path_join(base: Seq<char>, p: Seq<char>) -> Seq<char> {
    if is_absolute(p) {
        p
    } else if base.len() > 0 && base.last() != '/' {
        base + seq!['/'] + p
    } else {
        base + p
    }
}

/// `Path::join` on Unix paths held as text.
pub fn join_path(base: &str, p: &str) -> (joined: String)
    ensures
        joined@ == path_join(base@, p@),
{
    let pv = chars_of(p);
    if pv.len() > 0 && pv[0] == '/' {
        return String::from_str(p);
    }
    let bv = chars_of(base);
    let mut out = String::from_str(base);
    if bv.len() > 0 && bv[bv.len() - 1] != '/' {
        let sep = "/";
        proof {
            reveal_strlit("/");
        }
        out.append(sep);
    }
    out.append(p);
    out
}

/// The path that a configured `value` names: an absolute one as it is, a relative one
/// against the configuration file's directory where there is one.
pub open spec fn resolved_path(config_dir: Option<Seq<char>>, value: Seq<char>) -> Seq<char> {
    if is_absolute(value) {
        value
    } else {
        match config_dir {
            Some(dir) => path_join(dir, value),
            None => value,
        }
    }
}

/// The path that a configured `value` names, relative ones taken against `config_dir`.
pub fn resolve_path(config_dir: Option<&str>, value: &str) -> (path: String)
    ensures
        path@ == resolved_path(
            match config_dir {
                Some(d) => Some(d@),
                None => None,
            },
            value@,
        ),
{
    let v = chars_of(value);
    if v.len() > 0 && v[0] == '/' {
        return String::from_str(value);
    }
    match config_dir {
        Some(dir) => join_path(dir, value),
        None => String::from_str(value),
    }
}

/// The position of the last `c` in `s`.
pub open spec fn find_last(s: Seq<char>, c: char) -> Option<int>
    decreases s.len(),
{
    if s.len() == 0 {
        None
    } else if s.last() == c {
        Some(s.len() - 1)
    } else {
        find_last(s.drop_last(), c)
    }
}

/// A file name's stem and extension, as `Path::file_stem` and `Path::extension` split it:
/// at the last `.`, unless that dot starts the name (or the name is `..`), in which case
/// the whole name is the stem and there is no extension.
pub open spec fn stem_and_extension(name: Seq<char>) -> (Seq<char>, Option<Seq<char>>) {
    if name == seq!['.', '.'] {
        (name, None)
    } else {
        match find_last(name, '.') {
            None => (name, None),
            Some(k) => if k == 0 {
                (name, None)
            } else {
                (name.subrange(0, k), Some(name.subrange(k + 1, name.len() as int)))
            },
        }
    }
}

proof fn lemma_find_last_after(stem: Seq<char>, ext: Seq<char>, c: char)
    requires
        forall|i: int| 0 <= i < ext.len() ==> ext[i] != c,
    ensures
        find_last(stem + seq![c] + ext, c) == Some(stem.len() as int),
    decreases ext.len(),
{
    let s = stem + seq![c] + ext;
    if ext.len() == 0 {
        assert(s.last() == c);
    } else {
        let init = ext.drop_last();
        assert(s.drop_last() =~= stem + seq![c] + init);
        assert(s.last() == ext.last());
        lemma_find_last_after(stem, init, c);
    }
}

/// Law: a file name `stem.ext`, with a stem that is not empty and an extension without a
/// dot, splits into that stem and that extension (as `Path::file_stem` and
/// `Path::extension` do); the one exception is the name `..`.
pub proof fn law_file_name_splits_at_last_dot(stem: Seq<char>, ext: Seq<char>)
    requires
        stem.len() > 0,
        stem + seq!['.'] + ext != seq!['.', '.'],
        forall|i: int| 0 <= i < ext.len() ==> ext[i] != '.',
    ensures
        stem_and_extension(stem + seq!['.'] + ext) == (stem, Some(ext)),
{
    let name = stem + seq!['.'] + ext;
    lemma_find_last_after(stem, ext, '.');
    assert(name.subrange(0, stem.len() as int) =~= stem);
    assert(name.subrange(stem.len() as int + 1, name.len() as int) =~= ext);
}

/// The stem and extension of a file name.
pub fn split_file_name(name: &str) -> (r: (&str, Option<&str>))
    ensures
        (r.0@, match r.1 {
            Some(e) => Some(e@),
            None => None,
        }) == stem_and_extension(name@),
{
    let v = chars_of(name);
    let n = v.len();
    if n == 2 && v[0] == '.' && v[1] == '.' {
        assert(name@ =~= seq!['.', '.']);
        return (name, None);
    }
    assert(name@ != seq!['.', '.']);
    let mut i = n;
    assert(name@.subrange(0, n as int) =~= name@);
    while i > 0 && v[i - 1] != '.'
        invariant
            i <= n,
            n == v@.len(),
            v@ == name@,
            find_last(name@, '.') == find_last(name@.subrange(0, i as int), '.'),
        decreases i,
    {
        assert(name@.subrange(0, i as int).drop_last() =~= name@.subrange(0, i - 1));
        i = i - 1;
    }
    if i == 0 {
        return (name, None);
    }
    assert(name@.subrange(0, i as int).last() == '.');
    let k = i - 1;
    if k == 0 {
        return (name, None);
    }
    (name.substring_char(0, k), Some(name.substring_char(k + 1, n)))
}

} // verus!
