use vstd::prelude::*;
use vstd::string::*;

verus! {

/// The characters of `s`, in order.
pub fn chars_of(s: &str) -> (v: Vec<char>)
    ensures
        v@ == s@,
{
    let mut v: Vec<char> = Vec::new();
    for c in it: s.chars()
        invariant
            v@ == it.seq().take(it.index() as int),
            it.seq() == s@,
    {
        v.push(c);
    }
    v
}

/// Membership in the Unicode `White_Space` property, the set that `char::is_whitespace`
/// and `str::trim` use.
pub open spec fn is_whitespace(c: char) -> bool {
    let u = c as u32;
    ||| 0x09 <= u <= 0x0D
    ||| u == 0x20
    ||| u == 0x85
    ||| u == 0xA0
    ||| u == 0x1680
    ||| 0x2000 <= u <= 0x200A
    ||| u == 0x2028
    ||| u == 0x2029
    ||| u == 0x202F
    ||| u == 0x205F
    ||| u == 0x3000
}

pub fn is_whitespace_char(c: char) -> (b: bool)
    ensures
        b == is_whitespace(c),
{
    let u = c as u32;
    (0x09 <= u && u <= 0x0D) || u == 0x20 || u == 0x85 || u == 0xA0 || u == 0x1680 || (0x2000
        <= u && u <= 0x200A) || u == 0x2028 || u == 0x2029 || u == 0x202F || u == 0x205F || u
        == 0x3000
}

/// `s` without its leading whitespace.
pub open spec fn trim_start(s: Seq<char>) -> Seq<char>
    decreases s.len(),
{
    if s.len() > 0 && is_whitespace(s[0]) {
        trim_start(s.drop_first())
    } else {
        s
    }
}

/// `s` without its trailing whitespace.
pub open spec fn trim_end(s: Seq<char>) -> Seq<char>
    decreases s.len(),
{
    if s.len() > 0 && is_whitespace(s.last()) {
        trim_end(s.drop_last())
    } else {
        s
    }
}

/// `s` without leading and trailing whitespace, as `str::trim` gives it.
pub open spec fn trim(s: Seq<char>) -> Seq<char> {
    trim_end(trim_start(s))
}

/// `s` holds nothing but whitespace (or nothing at all).
pub open spec fn is_blank(s: Seq<char>) -> bool {
    trim(s).len() == 0
}

/// The slice of `s` that `str::trim` returns.
pub fn trim_str(s: &str) -> (r: &str)
    ensures
        r@ == trim(s@),
{
    let v = chars_of(s);
    let n = v.len();
    let mut a: usize = 0;
    assert(s@.subrange(0, n as int) =~= s@);
    while a < n && is_whitespace_char(v[a])
        invariant
            a <= n,
            n == v@.len(),
            v@ == s@,
            trim_start(s@) == trim_start(s@.subrange(a as int, n as int)),
        decreases n - a,
    {
        assert(s@.subrange(a as int, n as int).drop_first() =~= s@.subrange(a + 1, n as int));
        a = a + 1;
    }
    assert(trim_start(s@) == s@.subrange(a as int, n as int));
    let mut b: usize = n;
    while b > a && is_whitespace_char(v[b - 1])
        invariant
            a <= b <= n,
            n == v@.len(),
            v@ == s@,
            trim_end(s@.subrange(a as int, n as int)) == trim_end(s@.subrange(a as int, b as int)),
        decreases b - a,
    {
        assert(s@.subrange(a as int, b as int).drop_last() =~= s@.subrange(a as int, b - 1));
        b = b - 1;
    }
    assert(trim_end(s@.subrange(a as int, b as int)) == s@.subrange(a as int, b as int));
    s.substring_char(a, b)
}

/// Whether `s` holds nothing but whitespace, as `s.trim().is_empty()` tells.
pub fn is_blank_str(s: &str) -> (b: bool)
    ensures
        b == is_blank(s@),
{
    let t = trim_str(s);
    t.unicode_len() == 0
}


/// `p` occurs in `h` at position `i`.
pub open spec fn occurs_at(h: Seq<char>, p: Seq<char>, i: int) -> bool {
    0 <= i && i + p.len() <= h.len() && h.subrange(i, i + p.len()) == p
}

/// The first position at or after `i` where `p` occurs in `h`, as `str::find` on `&h[i..]`
/// reports it (here counted in characters from the start of `h`).
pub open spec fn find_from(h: Seq<char>, p: Seq<char>, i: int) -> Option<int>
    decreases h.len() + 1 - i,
{
    if i < 0 || i + p.len() > h.len() {
        None
    } else if occurs_at(h, p, i) {
        Some(i)
    } else {
        find_from(h, p, i + 1)
    }
}

/// Whether `p` occurs in `h` at position `i`.
pub fn matches_at(h: &Vec<char>, p: &Vec<char>, i: usize) -> (b: bool)
    requires
        i + p@.len() <= h@.len(),
    ensures
        b == occurs_at(h@, p@, i as int),
{
    let mut j: usize = 0;
    let hn = h.len();
    while j < p.len()
        invariant
            i + p@.len() <= h@.len(),
            h@.len() <= usize::MAX,
            j <= p@.len(),
            forall|k: int| 0 <= k < j ==> h@[i + k] == p@[k],
        decreases p@.len() - j,
    {
        if h[i + j] != p[j] {
            assert(h@.subrange(i as int, i + p@.len())[j as int] != p@[j as int]);
            return false;
        }
        j = j + 1;
    }
    assert(h@.subrange(i as int, i + p@.len()) =~= p@);
    true
}

/// The first position at or after `from` where `p` occurs in `h`.
pub fn find_chars(h: &Vec<char>, p: &Vec<char>, from: usize) -> (r: Option<usize>)
    ensures
        match r {
            Some(i) => find_from(h@, p@, from as int) == Some(i as int),
            None => find_from(h@, p@, from as int) is None,
        },
{
    if p.len() > h.len() {
        return None;
    }
    let last = h.len() - p.len();
    let mut i = from;
    while i <= last
        invariant
            last + p@.len() == h@.len(),
            from <= i,
            find_from(h@, p@, from as int) == find_from(h@, p@, i as int),
        decreases last + 1 - i,
    {
        if matches_at(h, p, i) {
            return Some(i);
        }
        if i == last {
            return None;
        }
        i = i + 1;
    }
    None
}

/// The position of the first `c` in `s`.
pub open spec fn find_char(s: Seq<char>, c: char) -> Option<int> {
    find_from(s, seq![c], 0)
}

/// The two parts of `s` around its first `c`, as `str::split_once` gives them.
pub open spec fn split_once(s: Seq<char>, c: char) -> Option<(Seq<char>, Seq<char>)> {
    match find_char(s, c) {
        Some(k) => Some((s.subrange(0, k), s.subrange(k + 1, s.len() as int))),
        None => None,
    }
}

/// The part of `s` before its first `c`, or all of `s` where it holds none, as
/// `s.split(c).next()` gives it.
pub open spec fn before_first(s: Seq<char>, c: char) -> Seq<char> {
    match find_char(s, c) {
        Some(k) => s.subrange(0, k),
        None => s,
    }
}

pub proof fn lemma_single_occurs(h: Seq<char>, c: char, i: int)
    ensures
        occurs_at(h, seq![c], i) <==> (0 <= i < h.len() && h[i] == c),
{
    if 0 <= i < h.len() && h[i] == c {
        assert(h.subrange(i, i + 1) =~= seq![c]);
    }
    if occurs_at(h, seq![c], i) {
        assert(h.subrange(i, i + 1)[0] == h[i]);
    }
}

/// Where `find_from` with a one-character pattern lands: on `c`, with no `c` before it.
pub proof fn lemma_find_char_from(h: Seq<char>, c: char, i: int)
    requires
        0 <= i,
    ensures
        match find_from(h, seq![c], i) {
            Some(k) => i <= k < h.len() && h[k] == c && forall|j: int| i <= j < k ==> h[j] != c,
            None => forall|j: int| i <= j < h.len() ==> h[j] != c,
        },
    decreases h.len() + 1 - i,
{
    lemma_single_occurs(h, c, i);
    if i + 1 > h.len() {
    } else if occurs_at(h, seq![c], i) {
    } else {
        lemma_find_char_from(h, c, i + 1);
    }
}

/// The first position of `c` in `s`.
pub fn find_char_in(s: &Vec<char>, c: char, from: usize) -> (r: Option<usize>)
    ensures
        match r {
            Some(i) => find_from(s@, seq![c], from as int) == Some(i as int),
            None => find_from(s@, seq![c], from as int) is None,
        },
{
    let mut pat: Vec<char> = Vec::new();
    pat.push(c);
    assert(pat@ =~= seq![c]);
    find_chars(s, &pat, from)
}

/// `str::split_once` with a one-character separator.
pub fn split_once_str(s: &str, c: char) -> (r: Option<(&str, &str)>)
    ensures
        match r {
            Some((a, b)) => split_once(s@, c) == Some((a@, b@)),
            None => split_once(s@, c) is None,
        },
{
    let v = chars_of(s);
    match find_char_in(&v, c, 0) {
        Some(k) => {
            proof {
                lemma_find_char_from(s@, c, 0);
            }
            Some((s.substring_char(0, k), s.substring_char(k + 1, v.len())))
        },
        None => None,
    }
}

/// `s.split(c).next()`: the part of `s` before its first `c`.
pub fn before_first_str(s: &str, c: char) -> (r: &str)
    ensures
        r@ == before_first(s@, c),
{
    let v = chars_of(s);
    match find_char_in(&v, c, 0) {
        Some(k) => {
            proof {
                lemma_find_char_from(s@, c, 0);
            }
            s.substring_char(0, k)
        },
        None => s,
    }
}

/// The code of `c` after ASCII lower-casing, as `char::to_ascii_lowercase` maps it.
pub open spec fn ascii_lower(c: char) -> u32 {
    let u = c as u32;
    if 65 <= u <= 90 {
        (u + 32) as u32
    } else {
        u
    }
}

pub fn ascii_lower_code(c: char) -> (r: u32)
    ensures
        r == ascii_lower(c),
{
    let u = c as u32;
    if 65 <= u && u <= 90 {
        u + 32
    } else {
        u
    }
}

/// `a` and `b` are equal when ASCII letters are compared without regard to case, as
/// `str::eq_ignore_ascii_case` decides.
pub open spec fn eq_ignore_ascii_case(a: Seq<char>, b: Seq<char>) -> bool {
    a.len() == b.len() && forall|i: int| 0 <= i < a.len() ==> ascii_lower(a[i]) == ascii_lower(b[i])
}

pub fn eq_ignore_ascii_case_chars(a: &Vec<char>, b: &Vec<char>) -> (r: bool)
    ensures
        r == eq_ignore_ascii_case(a@, b@),
{
    if a.len() != b.len() {
        return false;
    }
    let mut i: usize = 0;
    while i < a.len()
        invariant
            a@.len() == b@.len(),
            i <= a@.len(),
            forall|k: int| 0 <= k < i ==> ascii_lower(a@[k]) == ascii_lower(b@[k]),
        decreases a@.len() - i,
    {
        if ascii_lower_code(a[i]) != ascii_lower_code(b[i]) {
            return false;
        }
        i = i + 1;
    }
    true
}

/// `str::eq_ignore_ascii_case`.
pub fn eq_ignore_ascii_case_str(a: &str, b: &str) -> (r: bool)
    ensures
        r == eq_ignore_ascii_case(a@, b@),
{
    let va = chars_of(a);
    let vb = chars_of(b);
    eq_ignore_ascii_case_chars(&va, &vb)
}

/// `s` ends with `suffix` when ASCII letters are compared without regard to case.
pub open spec fn ends_with_ignore_ascii_case(s: Seq<char>, suffix: Seq<char>) -> bool {
    suffix.len() <= s.len() && eq_ignore_ascii_case(
        s.subrange(s.len() - suffix.len(), s.len() as int),
        suffix,
    )
}

pub fn ends_with_ignore_ascii_case_str(s: &str, suffix: &str) -> (r: bool)
    ensures
        r == ends_with_ignore_ascii_case(s@, suffix@),
{
    let vs = chars_of(s);
    let vx = chars_of(suffix);
    if vx.len() > vs.len() {
        return false;
    }
    let tail = s.substring_char(vs.len() - vx.len(), vs.len());
    eq_ignore_ascii_case_str(tail, suffix)
}


/// The views of a sequence of strings.
pub open spec fn views(v: Seq<String>) -> Seq<Seq<char>> {
    v.map_values(|x: String| x@)
}

/// The pieces of `s` between occurrences of `c`, as `str::split` with a character gives
/// them: one more piece than `s` holds `c`s, empty pieces included.
pub open spec fn split_char(s: Seq<char>, c: char) -> Seq<Seq<char>>
    decreases s.len(),
{
    if s.len() == 0 {
        seq![Seq::<char>::empty()]
    } else {
        let p = split_char(s.drop_last(), c);
        if s.last() == c {
            p.push(Seq::<char>::empty())
        } else {
            p.update(p.len() - 1, p.last().push(s.last()))
        }
    }
}

pub proof fn lemma_split_char_len(s: Seq<char>, c: char)
    ensures
        split_char(s, c).len() >= 1,
    decreases s.len(),
{
    if s.len() > 0 {
        lemma_split_char_len(s.drop_last(), c);
    }
}

/// `str::split` with a one-character separator, each piece copied out.
pub fn split_str(s: &str, c: char) -> (r: Vec<String>)
    ensures
        views(r@) == split_char(s@, c),
{
    let v = chars_of(s);
    let n = v.len();
    let mut out: Vec<String> = Vec::new();
    let mut start: usize = 0;
    let mut i: usize = 0;
    assert(s@.take(0) =~= Seq::<char>::empty());
    assert(views(out@).push(s@.subrange(0, 0)) =~= seq![Seq::<char>::empty()]);
    while i < n
        invariant
            n == v@.len(),
            v@ == s@,
            start <= i <= n,
            split_char(s@.take(i as int), c) == views(out@).push(s@.subrange(start as int, i as int)),
        decreases n - i,
    {
        let ghost prev = views(out@);
        proof {
            lemma_split_char_len(s@.take(i as int), c);
            assert(s@.take(i + 1).drop_last() =~= s@.take(i as int));
            assert(s@.take(i + 1).last() == v@[i as int]);
        }
        if v[i] == c {
            let piece = String::from_str(s.substring_char(start, i));
            out.push(piece);
            assert(views(out@) =~= prev.push(s@.subrange(start as int, i as int)));
            assert(s@.subrange(i + 1, i + 1) =~= Seq::<char>::empty());
            start = i + 1;
        } else {
            assert(s@.subrange(start as int, i + 1) =~= s@.subrange(start as int, i as int).push(
                v@[i as int],
            ));
            assert(prev.push(s@.subrange(start as int, i as int)).update(
                prev.len() as int,
                s@.subrange(start as int, i + 1),
            ) =~= prev.push(s@.subrange(start as int, i + 1)));
        }
        i = i + 1;
    }
    let last = String::from_str(s.substring_char(start, n));
    let ghost prev = views(out@);
    out.push(last);
    assert(s@.take(n as int) =~= s@);
    assert(views(out@) =~= prev.push(s@.subrange(start as int, n as int)));
    out
}

/// The trimmed pieces that are not empty after trimming, in order.
pub open spec fn nonblank_trimmed(parts: Seq<Seq<char>>) -> Seq<Seq<char>>
    decreases parts.len(),
{
    if parts.len() == 0 {
        Seq::empty()
    } else {
        let r = nonblank_trimmed(parts.drop_last());
        let t = trim(parts.last());
        if t.len() > 0 {
            r.push(t)
        } else {
            r
        }
    }
}

/// Each piece trimmed, the empty ones left out.
pub fn nonblank_trimmed_strs(parts: &Vec<String>) -> (r: Vec<String>)
    ensures
        views(r@) == nonblank_trimmed(views(parts@)),
{
    let mut out: Vec<String> = Vec::new();
    let mut i: usize = 0;
    assert(views(parts@).take(0) =~= Seq::<Seq<char>>::empty());
    while i < parts.len()
        invariant
            i <= parts@.len(),
            views(out@) == nonblank_trimmed(views(parts@).take(i as int)),
        decreases parts@.len() - i,
    {
        let ghost prev = views(out@);
        assert(views(parts@).take(i + 1).drop_last() =~= views(parts@).take(i as int));
        assert(views(parts@).take(i + 1).last() == parts@[i as int]@);
        let t = trim_str(parts[i].as_str());
        if t.unicode_len() > 0 {
            out.push(String::from_str(t));
            assert(views(out@) =~= prev.push(t@));
        }
        i = i + 1;
    }
    assert(views(parts@).take(parts@.len() as int) =~= views(parts@));
    out
}

/// The pieces joined with `sep` between each two, as `slice::join` gives them.
pub open spec fn join(parts: Seq<Seq<char>>, sep: Seq<char>) -> Seq<char>
    decreases parts.len(),
{
    if parts.len() == 0 {
        Seq::empty()
    } else if parts.len() == 1 {
        parts[0]
    } else {
        join(parts.drop_last(), sep) + sep + parts.last()
    }
}

/// `parts.join(sep)`.
pub fn join_strs(parts: &Vec<String>, sep: &str) -> (r: String)
    ensures
        r@ == join(views(parts@), sep@),
{
    let mut out = String::new();
    let mut i: usize = 0;
    assert(views(parts@).take(0) =~= Seq::<Seq<char>>::empty());
    while i < parts.len()
        invariant
            i <= parts@.len(),
            out@ == join(views(parts@).take(i as int), sep@),
        decreases parts@.len() - i,
    {
        assert(views(parts@).take(i + 1).drop_last() =~= views(parts@).take(i as int));
        assert(views(parts@).take(i + 1).last() == parts@[i as int]@);
        if i > 0 {
            out.append(sep);
        } else {
            assert(views(parts@).take(1)[0] == parts@[0]@);
            assert(out@ + parts@[0]@ =~= parts@[0]@);
        }
        out.append(parts[i].as_str());
        i = i + 1;
    }
    assert(views(parts@).take(parts@.len() as int) =~= views(parts@));
    out
}

/// `a` comes before `b` in the order of `str`'s `Ord`: code point by code point, a proper
/// prefix first.
pub open spec fn seq_less(a: Seq<char>, b: Seq<char>) -> bool
    decreases a.len(),
{
    if a.len() == 0 {
        b.len() > 0
    } else if b.len() == 0 {
        false
    } else if (a[0] as int) < (b[0] as int) {
        true
    } else if (a[0] as int) > (b[0] as int) {
        false
    } else {
        seq_less(a.drop_first(), b.drop_first())
    }
}

pub proof fn lemma_seq_less_irreflexive(a: Seq<char>)
    ensures
        !seq_less(a, a),
    decreases a.len(),
{
    if a.len() > 0 {
        lemma_seq_less_irreflexive(a.drop_first());
    }
}

pub proof fn lemma_seq_less_transitive(a: Seq<char>, b: Seq<char>, c: Seq<char>)
    requires
        seq_less(a, b),
        seq_less(b, c),
    ensures
        seq_less(a, c),
    decreases a.len(),
{
    if a.len() > 0 && b.len() > 0 && c.len() > 0 {
        if a[0] as int == b[0] as int && b[0] as int == c[0] as int {
            lemma_seq_less_transitive(a.drop_first(), b.drop_first(), c.drop_first());
        }
    }
}

pub proof fn lemma_seq_less_total(a: Seq<char>, b: Seq<char>)
    ensures
        a == b || seq_less(a, b) || seq_less(b, a),
    decreases a.len(),
{
    if a.len() > 0 && b.len() > 0 {
        if a[0] as int == b[0] as int {
            lemma_seq_less_total(a.drop_first(), b.drop_first());
            if a.drop_first() == b.drop_first() {
                assert(a[0] == b[0]);
                assert(a =~= seq![a[0]] + a.drop_first());
                assert(b =~= seq![b[0]] + b.drop_first());
            }
        }
    } else if a.len() == 0 && b.len() == 0 {
        assert(a =~= b);
    }
}

pub proof fn lemma_seq_less_asymmetric(a: Seq<char>, b: Seq<char>)
    requires
        seq_less(a, b),
    ensures
        !seq_less(b, a),
{
    if seq_less(b, a) {
        lemma_seq_less_transitive(a, b, a);
        lemma_seq_less_irreflexive(a);
    }
}

/// Whether `a` comes before `b` in the order of `str`'s `Ord`.
pub fn less_str(a: &str, b: &str) -> (r: bool)
    ensures
        r == seq_less(a@, b@),
{
    let va = chars_of(a);
    let vb = chars_of(b);
    let mut i: usize = 0;
    assert(a@.skip(0) =~= a@);
    assert(b@.skip(0) =~= b@);
    loop
        invariant
            va@ == a@,
            vb@ == b@,
            i <= va@.len(),
            i <= vb@.len(),
            seq_less(a@, b@) == seq_less(a@.skip(i as int), b@.skip(i as int)),
        decreases va@.len() - i,
    {
        if i == va.len() {
            return i < vb.len();
        }
        if i == vb.len() {
            return false;
        }
        let x = va[i];
        let y = vb[i];
        assert(a@.skip(i as int)[0] == a@[i as int]);
        assert(b@.skip(i as int)[0] == b@[i as int]);
        if x < y {
            return true;
        }
        if x > y {
            return false;
        }
        assert(a@.skip(i as int).drop_first() =~= a@.skip(i + 1));
        assert(b@.skip(i as int).drop_first() =~= b@.skip(i + 1));
        i = i + 1;
    }
}


/// `s` holds no `c`.
pub open spec fn lacks_char(s: Seq<char>, c: char) -> bool {
    forall|i: int| 0 <= i < s.len() ==> s[i] != c
}

pub proof fn lemma_trim_keeps_lacks(s: Seq<char>, c: char)
    requires
        lacks_char(s, c),
    ensures
        lacks_char(trim_start(s), c),
        lacks_char(trim_end(s), c),
        lacks_char(trim(s), c),
    decreases s.len(),
{
    if s.len() > 0 {
        assert(lacks_char(s.drop_first(), c));
        assert(lacks_char(s.drop_last(), c));
        lemma_trim_keeps_lacks(s.drop_first(), c);
        lemma_trim_keeps_lacks(s.drop_last(), c);
    }
    if lacks_char(trim_start(s), c) {
        lemma_trim_keeps_lacks_end(trim_start(s), c);
    }
}

proof fn lemma_trim_keeps_lacks_end(s: Seq<char>, c: char)
    requires
        lacks_char(s, c),
    ensures
        lacks_char(trim_end(s), c),
    decreases s.len(),
{
    if s.len() > 0 {
        assert(lacks_char(s.drop_last(), c));
        lemma_trim_keeps_lacks_end(s.drop_last(), c);
    }
}

/// The part of `s` before its first `c` holds no `c`.
pub proof fn lemma_before_first_lacks(s: Seq<char>, c: char)
    ensures
        lacks_char(before_first(s, c), c),
        match split_once(s, c) {
            Some((a, _)) => lacks_char(a, c),
            None => lacks_char(s, c),
        },
{
    lemma_find_char_from(s, c, 0);
}

/// Where `a` holds no `c`, the first `c` of `a + [c] + b` is the one after `a`.
pub proof fn lemma_split_after_prefix(a: Seq<char>, c: char, b: Seq<char>)
    requires
        lacks_char(a, c),
    ensures
        find_char(a + seq![c] + b, c) == Some(a.len() as int),
        before_first(a + seq![c] + b, c) == a,
        split_once(a + seq![c] + b, c) == Some((a, b)),
{
    let h = a + seq![c] + b;
    lemma_find_char_from(h, c, 0);
    assert(h[a.len() as int] == c);
    match find_from(h, seq![c], 0) {
        Some(k) => {
            if k < a.len() {
                assert(h[k] == a[k]);
            }
            assert(k == a.len());
        },
        None => {},
    }
    assert(h.subrange(0, a.len() as int) =~= a);
    assert(h.subrange(a.len() as int + 1, h.len() as int) =~= b);
}


/// A position that `find_from` reports is where the pattern occurs, inside `h`.
/// `find_from` reports the first occurrence at or after `i`: there is none before it,
/// and none at all where it reports none.
pub proof fn lemma_find_from_first(h: Seq<char>, p: Seq<char>, i: int)
    requires
        0 <= i,
    ensures
        match find_from(h, p, i) {
            Some(k) => i <= k && occurs_at(h, p, k) && forall|j: int| i <= j < k ==> !#[trigger] occurs_at(h, p, j),
            None => forall|j: int| i <= j ==> !#[trigger] occurs_at(h, p, j),
        },
    decreases h.len() + 1 - i,
{
    if i + p.len() > h.len() {
    } else if occurs_at(h, p, i) {
    } else {
        lemma_find_from_first(h, p, i + 1);
    }
}

pub proof fn lemma_find_from_bounds(h: Seq<char>, p: Seq<char>, i: int)
    ensures
        match find_from(h, p, i) {
            Some(k) => i <= k && k + p.len() <= h.len() && occurs_at(h, p, k),
            None => true,
        },
    decreases h.len() + 1 - i,
{
    if i < 0 || i + p.len() > h.len() {
    } else if occurs_at(h, p, i) {
    } else {
        lemma_find_from_bounds(h, p, i + 1);
    }
}


pub proof fn lemma_split_lacking(s: Seq<char>, c: char)
    requires
        lacks_char(s, c),
    ensures
        split_char(s, c) == seq![s],
    decreases s.len(),
{
    if s.len() == 0 {
        assert(s =~= Seq::<char>::empty());
    } else {
        assert(lacks_char(s.drop_last(), c));
        lemma_split_lacking(s.drop_last(), c);
        assert(s.drop_last().push(s.last()) =~= s);
        assert(seq![s.drop_last()].update(0, s) =~= seq![s]);
    }
}

pub proof fn lemma_split_concat(a: Seq<char>, c: char, b: Seq<char>)
    ensures
        split_char(a + seq![c] + b, c) == split_char(a, c) + split_char(b, c),
    decreases b.len(),
{
    let h = a + seq![c] + b;
    if b.len() == 0 {
        assert(h.drop_last() =~= a);
        assert(h.last() == c);
        assert(split_char(a, c) + seq![Seq::<char>::empty()] =~= split_char(a, c).push(Seq::<char>::empty()));
    } else {
        let b2 = b.drop_last();
        assert(h.drop_last() =~= a + seq![c] + b2);
        assert(h.last() == b.last());
        lemma_split_concat(a, c, b2);
        lemma_split_char_len(b2, c);
        lemma_split_char_len(a, c);
        let x = split_char(a, c);
        let y = split_char(b2, c);
        if b.last() == c {
            assert((x + y).push(Seq::<char>::empty()) =~= x + y.push(Seq::<char>::empty()));
        } else {
            assert((x + y).last() == y.last());
            assert((x + y).update((x + y).len() - 1, (x + y).last().push(b.last())) =~= x + y.update(
                y.len() - 1,
                y.last().push(b.last()),
            ));
        }
    }
}

pub proof fn lemma_trim_lengths(s: Seq<char>)
    ensures
        trim_start(s).len() <= s.len(),
        trim_end(s).len() <= s.len(),
        s.len() > 0 && is_whitespace(s[0]) ==> trim_start(s).len() < s.len(),
        s.len() > 0 && is_whitespace(s.last()) ==> trim_end(s).len() < s.len(),
    decreases s.len(),
{
    if s.len() > 0 {
        lemma_trim_lengths(s.drop_first());
        lemma_trim_lengths(s.drop_last());
    }
}

/// `s` is its own trim exactly when it is empty or starts and ends with a character that
/// is not whitespace.
pub proof fn lemma_trimmed_iff(s: Seq<char>)
    ensures
        (trim(s) == s) <==> (s.len() == 0 || (!is_whitespace(s[0]) && !is_whitespace(s.last()))),
{
    lemma_trim_lengths(s);
    lemma_trim_lengths(trim_start(s));
    if s.len() > 0 && is_whitespace(s[0]) {
        assert(trim(s).len() < s.len());
    } else if s.len() > 0 && is_whitespace(s.last()) {
        assert(trim_start(s) == s);
        assert(trim(s).len() < s.len());
    } else if s.len() > 0 {
        assert(trim_start(s) == s);
        assert(trim_end(s) == s);
    }
}

pub proof fn lemma_trim_after_space(x: Seq<char>)
    ensures
        trim(seq![' '] + x) == trim(x),
{
    let s = seq![' '] + x;
    assert(s[0] == ' ');
    assert(s.drop_first() =~= x);
}

pub proof fn lemma_trim_empty()
    ensures
        trim(Seq::<char>::empty()) == Seq::<char>::empty(),
{
}


/// Whether `a` and `b` hold the same text.
pub fn str_eq(a: &str, b: &str) -> (r: bool)
    ensures
        r == (a@ == b@),
{
    let va = chars_of(a);
    let vb = chars_of(b);
    if va.len() != vb.len() {
        return false;
    }
    let mut i: usize = 0;
    while i < va.len()
        invariant
            va@ == a@,
            vb@ == b@,
            va@.len() == vb@.len(),
            i <= va@.len(),
            forall|k: int| 0 <= k < i ==> va@[k] == vb@[k],
        decreases va@.len() - i,
    {
        if va[i] != vb[i] {
            return false;
        }
        i = i + 1;
    }
    assert(a@ =~= b@);
    true
}

} // verus!
