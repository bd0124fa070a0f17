use vstd::prelude::*;
use vstd::string::*;

use crate::text::{
    before_first, before_first_str, eq_ignore_ascii_case, eq_ignore_ascii_case_str, join, join_strs,
    nonblank_trimmed, nonblank_trimmed_strs, split_char, split_once, split_once_str, split_str, trim,
    trim_str, views, lacks_char, seq_less, less_str, lemma_trim_keeps_lacks, lemma_before_first_lacks,
    lemma_split_after_prefix, lemma_seq_less_irreflexive, lemma_seq_less_transitive,
    lemma_seq_less_total, lemma_seq_less_asymmetric, chars_of, find_chars, find_from, is_whitespace,
    lemma_split_lacking, lemma_split_concat, lemma_trimmed_iff, lemma_trim_after_space, lemma_trim_empty,
    lemma_split_char_len, occurs_at, lemma_find_from_first, lemma_find_char_from,
};

verus! {

/// The views of optional strings.
pub open spec fn opt_views(v: Seq<Option<String>>) -> Seq<Option<Seq<char>>> {
    v.map_values(|x: Option<String>| match x { Some(s) => Some(s@), None => None })
}

/// The `name=value` pairs that `Set-Cookie` header values carry: of each value that is
/// text, the part before its first `;`, trimmed, where that is not empty.
pub open spec fn cookie_pairs_of_headers(values: Seq<Option<Seq<char>>>) -> Seq<Seq<char>>
    decreases values.len(),
{
    if values.len() == 0 {
        Seq::empty()
    } else {
        let r = cookie_pairs_of_headers(values.drop_last());
        match values.last() {
            Some(v) => {
                let t = trim(before_first(v, ';'));
                if t.len() > 0 {
                    r.push(t)
                } else {
                    r
                }
            },
            None => r,
        }
    }
}

/// Law: a `Set-Cookie` value `pair; attributes` adds exactly its `pair` (when that is not
/// empty, is its own trim and holds no `;`) to the cookie pairs of the values before it,
/// whatever the attributes; a value that is not text adds nothing.
pub proof fn law_set_cookie_value_adds_its_pair(values: Seq<Option<Seq<char>>>, pair: Seq<char>, attributes: Seq<char>)
    requires
        pair.len() > 0,
        trim(pair) == pair,
        lacks_char(pair, ';'),
    ensures
        cookie_pairs_of_headers(values.push(Some(pair + seq![';'] + attributes))) == cookie_pairs_of_headers(
            values,
        ).push(pair),
        cookie_pairs_of_headers(values.push(Some(pair))) == cookie_pairs_of_headers(values).push(pair),
        cookie_pairs_of_headers(values.push(None)) == cookie_pairs_of_headers(values),
{
    let h = pair + seq![';'] + attributes;
    assert(values.push(Some(h)).drop_last() =~= values);
    assert(values.push(Some(pair)).drop_last() =~= values);
    assert(values.push(None::<Seq<char>>).drop_last() =~= values);
    lemma_find_char_from(h, ';', 0);
    assert(h[pair.len() as int] == ';');
    assert forall|j: int| 0 <= j < pair.len() implies h[j] != ';' by {
        assert(h[j] == pair[j]);
    }
    assert(h.subrange(0, pair.len() as int) =~= pair);
    assert(before_first(h, ';') == pair);
    lemma_find_char_from(pair, ';', 0);
    assert(before_first(pair, ';') == pair) by {
        assert(pair.subrange(0, pair.len() as int) =~= pair);
    }
}

/// The header values that are text, in order.
pub open spec fn text_values(values: Seq<Option<Seq<char>>>) -> Seq<Seq<char>>
    decreases values.len(),
{
    if values.len() == 0 {
        Seq::empty()
    } else {
        let r = text_values(values.drop_last());
        match values.last() {
            Some(v) => r.push(v),
            None => r,
        }
    }
}

/// The cookie pairs that a response's `Set-Cookie` header values set. A value is `None`
/// where the header value is not visible ASCII text.
pub fn extract_cookie_pairs(set_cookie_values: &Vec<Option<String>>) -> (pairs: Vec<String>)
    ensures
        views(pairs@) == cookie_pairs_of_headers(opt_views(set_cookie_values@)),
{
    let ghost vals = opt_views(set_cookie_values@);
    let mut out: Vec<String> = Vec::new();
    let mut i: usize = 0;
    assert(vals.take(0) =~= Seq::<Option<Seq<char>>>::empty());
    while i < set_cookie_values.len()
        invariant
            i <= set_cookie_values@.len(),
            vals == opt_views(set_cookie_values@),
            views(out@) == cookie_pairs_of_headers(vals.take(i as int)),
        decreases set_cookie_values@.len() - i,
    {
        let ghost prev = views(out@);
        assert(vals.take(i + 1).drop_last() =~= vals.take(i as int));
        assert(vals.take(i + 1).last() == vals[i as int]);
        match &set_cookie_values[i] {
            Some(v) => {
                let t = trim_str(before_first_str(v.as_str(), ';'));
                if t.unicode_len() > 0 {
                    out.push(String::from_str(t));
                    assert(views(out@) =~= prev.push(t@));
                }
            },
            None => {},
        }
        i = i + 1;
    }
    assert(vals.take(set_cookie_values@.len() as int) =~= vals);
    out
}

/// The `Set-Cookie` header values that are text, as they came.
pub fn extract_set_cookie_headers(set_cookie_values: &Vec<Option<String>>) -> (headers: Vec<
    String,
>)
    ensures
        views(headers@) == text_values(opt_views(set_cookie_values@)),
{
    let ghost vals = opt_views(set_cookie_values@);
    let mut out: Vec<String> = Vec::new();
    let mut i: usize = 0;
    assert(vals.take(0) =~= Seq::<Option<Seq<char>>>::empty());
    while i < set_cookie_values.len()
        invariant
            i <= set_cookie_values@.len(),
            vals == opt_views(set_cookie_values@),
            views(out@) == text_values(vals.take(i as int)),
        decreases set_cookie_values@.len() - i,
    {
        let ghost prev = views(out@);
        assert(vals.take(i + 1).drop_last() =~= vals.take(i as int));
        assert(vals.take(i + 1).last() == vals[i as int]);
        match &set_cookie_values[i] {
            Some(v) => {
                out.push(v.clone());
                assert(views(out@) =~= prev.push(v@));
            },
            None => {},
        }
        i = i + 1;
    }
    assert(vals.take(set_cookie_values@.len() as int) =~= vals);
    out
}

/// The pairs of a `Cookie` header value: its `;`-separated pieces, trimmed, the empty ones
/// left out.
pub open spec fn cookie_header_pairs(header: Seq<char>) -> Seq<Seq<char>> {
    nonblank_trimmed(split_char(header, ';'))
}

/// The pairs of a `Cookie` header value.
pub fn parse_cookie_header_pairs(cookie_header: &str) -> (pairs: Vec<String>)
    ensures
        views(pairs@) == cookie_header_pairs(cookie_header@),
{
    let pieces = split_str(cookie_header, ';');
    nonblank_trimmed_strs(&pieces)
}

/// The `Cookie` header value made of `pairs`: joined with `"; "`.
pub open spec fn cookie_header(pairs: Seq<Seq<char>>) -> Seq<char> {
    join(pairs, seq![';', ' '])
}

/// The `Cookie` header value made of `cookie_pairs`.
pub fn format_cookie_header(cookie_pairs: Vec<String>) -> (header: String)
    ensures
        header@ == cookie_header(views(cookie_pairs@)),
{
    let sep = "; ";
    proof {
        reveal_strlit("; ");
        assert(sep@ =~= seq![';', ' ']);
    }
    join_strs(&cookie_pairs, sep)
}

/// `pair` is a `name=value` pair whose trimmed name is `expected`, ASCII case aside.
pub open spec fn pair_has_name(pair: Seq<char>, expected: Seq<char>) -> bool {
    match split_once(pair, '=') {
        Some((n, _)) => eq_ignore_ascii_case(trim(n), expected),
        None => false,
    }
}

/// The `Cookie` header value holds a pair named `expected`, ASCII case aside.
pub open spec fn header_has_cookie(header: Seq<char>, expected: Seq<char>) -> bool {
    exists|i: int|
        0 <= i < cookie_header_pairs(header).len() && #[trigger] pair_has_name(
            cookie_header_pairs(header)[i],
            expected,
        )
}

/// Whether the `Cookie` header value holds a pair named `expected_name`, ASCII case aside.
pub fn contains_cookie_name(cookie_header: &str, expected_name: &str) -> (found: bool)
    ensures
        found == header_has_cookie(cookie_header@, expected_name@),
{
    let pairs = parse_cookie_header_pairs(cookie_header);
    let ghost ps = cookie_header_pairs(cookie_header@);
    let mut i: usize = 0;
    while i < pairs.len()
        invariant
            i <= pairs@.len(),
            views(pairs@) == ps,
            ps == cookie_header_pairs(cookie_header@),
            forall|k: int| 0 <= k < i ==> !#[trigger] pair_has_name(ps[k], expected_name@),
        decreases pairs@.len() - i,
    {
        assert(ps[i as int] == pairs@[i as int]@);
        match split_once_str(pairs[i].as_str(), '=') {
            Some((name, _)) => {
                if eq_ignore_ascii_case_str(trim_str(name), expected_name) {
                    assert(pair_has_name(ps[i as int], expected_name@));
                    return true;
                }
            },
            None => {},
        }
        i = i + 1;
    }
    false
}


/// The cookie jar after `pair` arrives: a `name=value` pair sets the trimmed name to the
/// trimmed value; a piece without `=` changes nothing.
pub open spec fn jar_after(m: Map<Seq<char>, Seq<char>>, pair: Seq<char>) -> Map<Seq<char>, Seq<char>> {
    match split_once(pair, '=') {
        Some((n, v)) => m.insert(trim(n), trim(v)),
        None => m,
    }
}

/// The cookie jar that `pairs` leave behind, taken in order: a later value for a name
/// replaces an earlier one.
pub open spec fn merged_cookies(pairs: Seq<Seq<char>>) -> Map<Seq<char>, Seq<char>>
    decreases pairs.len(),
{
    if pairs.len() == 0 {
        Map::empty()
    } else {
        jar_after(merged_cookies(pairs.drop_last()), pairs.last())
    }
}

/// The name of a `name=value` pair: what comes before its first `=`.
pub open spec fn cookie_name(pair: Seq<char>) -> Seq<char> {
    before_first(pair, '=')
}

/// `out` lists the jar `m` as `name=value` pairs, one per name, in ascending name order.
pub open spec fn is_cookie_listing(out: Seq<Seq<char>>, m: Map<Seq<char>, Seq<char>>) -> bool {
    &&& forall|i: int|
        0 <= i < out.len() ==> m.contains_key(#[trigger] cookie_name(out[i])) && out[i]
            == cookie_name(out[i]) + seq!['='] + m[cookie_name(out[i])]
    &&& forall|i: int, j: int|
        0 <= i < j < out.len() ==> seq_less(
            #[trigger] cookie_name(out[i]),
            #[trigger] cookie_name(out[j]),
        )
    &&& forall|k: Seq<char>|
        m.contains_key(k) ==> exists|i: int| 0 <= i < out.len() && #[trigger] cookie_name(out[i]) == k
}

/// The names are in strictly ascending order.
pub open spec fn strictly_sorted(names: Seq<Seq<char>>) -> bool {
    forall|i: int, j: int| 0 <= i < j < names.len() ==> seq_less(#[trigger] names[i], #[trigger] names[j])
}

/// Parallel name and value lists that hold the jar `m`.
pub open spec fn holds_jar(names: Seq<Seq<char>>, values: Seq<Seq<char>>, m: Map<Seq<char>, Seq<char>>) -> bool {
    &&& names.len() == values.len()
    &&& strictly_sorted(names)
    &&& forall|i: int| 0 <= i < names.len() ==> lacks_char(#[trigger] names[i], '=')
    &&& forall|i: int|
        0 <= i < names.len() ==> m.contains_key(#[trigger] names[i]) && m[names[i]] == values[i]
    &&& forall|k: Seq<char>| m.contains_key(k) ==> exists|i: int| 0 <= i < names.len() && #[trigger] names[i] == k
}

proof fn lemma_sorted_insert(names: Seq<Seq<char>>, j: int, n: Seq<char>)
    requires
        strictly_sorted(names),
        0 <= j <= names.len(),
        forall|k: int| 0 <= k < j ==> seq_less(#[trigger] names[k], n),
        j < names.len() ==> seq_less(n, names[j]),
    ensures
        strictly_sorted(names.insert(j, n)),
{
    let s = names.insert(j, n);
    assert forall|a: int, b: int| 0 <= a < b < s.len() implies seq_less(#[trigger] s[a], #[trigger] s[b]) by {
        if a < j && b < j {
        } else if a < j && b == j {
        } else if a < j && b > j {
            assert(s[b] == names[b - 1]);
            if b - 1 == j {
                lemma_seq_less_transitive(names[a], n, names[j]);
            } else {
                assert(seq_less(names[a], names[b - 1]));
            }
        } else if a == j {
            assert(s[b] == names[b - 1]);
            if b - 1 > j {
                assert(seq_less(names[j], names[b - 1]));
                lemma_seq_less_transitive(n, names[j], names[b - 1]);
            }
        } else {
            assert(s[a] == names[a - 1]);
            assert(s[b] == names[b - 1]);
        }
    }
}

/// Puts one piece into the jar held by `names` and `values`.
fn add_to_jar(names: &mut Vec<String>, values: &mut Vec<String>, pair: &str, Ghost(m): Ghost<Map<Seq<char>, Seq<char>>>)
    requires
        holds_jar(views(old(names)@), views(old(values)@), m),
    ensures
        holds_jar(views(final(names)@), views(final(values)@), jar_after(m, pair@)),
{
    match split_once_str(pair, '=') {
        None => {},
        Some((raw_name, raw_value)) => {
            let ghost ns = views(names@);
            let ghost vs = views(values@);
            let n = trim_str(raw_name);
            let v = trim_str(raw_value);
            proof {
                lemma_before_first_lacks(pair@, '=');
                lemma_trim_keeps_lacks(raw_name@, '=');
            }
            let ghost m2 = m.insert(n@, v@);
            let mut j: usize = 0;
            while j < names.len() && less_str(names[j].as_str(), n)
                invariant
                    j <= names@.len(),
                    ns == views(names@),
                    forall|k: int| 0 <= k < j ==> seq_less(#[trigger] ns[k], n@),
                decreases names@.len() - j,
            {
                j = j + 1;
            }
            let name_s = String::from_str(n);
            let value_s = String::from_str(v);
            if j < names.len() && names[j] == name_s {
                values.set(j, value_s);
                proof {
                    let vs2 = views(values@);
                    assert(vs2 =~= vs.update(j as int, v@));
                    assert forall|i: int| 0 <= i < ns.len() implies m2.contains_key(#[trigger] ns[i]) && m2[ns[i]] == vs2[i] by {
                        if i != j {
                            if i < j {
                                assert(seq_less(ns[i], ns[j as int]));
                            } else {
                                assert(seq_less(ns[j as int], ns[i]));
                            }
                            lemma_seq_less_irreflexive(ns[i]);
                        }
                    }
                    assert forall|k: Seq<char>| m2.contains_key(k) implies exists|i: int| 0 <= i < ns.len() && #[trigger] ns[i] == k by {
                        if k == n@ {
                            assert(ns[j as int] == k);
                        }
                    }
                }
            } else {
                proof {
                    if j < ns.len() {
                        lemma_seq_less_total(ns[j as int], n@);
                    }
                    lemma_sorted_insert(ns, j as int, n@);
                    if m.contains_key(n@) {
                        let i = choose|i: int| 0 <= i < ns.len() && #[trigger] ns[i] == n@;
                        if i < j {
                            lemma_seq_less_irreflexive(n@);
                        } else if i > j {
                            assert(seq_less(ns[j as int], ns[i]));
                        }
                    }
                }
                names.insert(j, name_s);
                values.insert(j, value_s);
                proof {
                    let ns2 = views(names@);
                    let vs2 = views(values@);
                    assert(ns2 =~= ns.insert(j as int, n@));
                    assert(vs2 =~= vs.insert(j as int, v@));
                    assert forall|i: int| 0 <= i < ns2.len() implies m2.contains_key(#[trigger] ns2[i]) && m2[ns2[i]] == vs2[i] by {
                        if i < j {
                            assert(ns2[i] == ns[i]);
                            assert(seq_less(ns[i], n@));
                            lemma_seq_less_irreflexive(n@);
                        } else if i > j {
                            assert(ns2[i] == ns[i - 1]);
                            assert(vs2[i] == vs[i - 1]);
                            if ns[i - 1] == n@ {
                                assert(m.contains_key(n@));
                            }
                        }
                    }
                    assert forall|k: Seq<char>| m2.contains_key(k) implies exists|i: int| 0 <= i < ns2.len() && #[trigger] ns2[i] == k by {
                        if k == n@ {
                            assert(ns2[j as int] == k);
                        } else {
                            let i = choose|i: int| 0 <= i < ns.len() && #[trigger] ns[i] == k;
                            if i < j {
                                assert(ns2[i] == k);
                            } else {
                                assert(ns2[i + 1] == k);
                            }
                        }
                    }
                    assert forall|i: int| 0 <= i < ns2.len() implies lacks_char(#[trigger] ns2[i], '=') by {
                        if i < j {
                            assert(ns2[i] == ns[i]);
                        } else if i > j {
                            assert(ns2[i] == ns[i - 1]);
                        }
                    }
                }
            }
        },
    }
}

/// The cookie pairs of `primary` and then `secondary` merged into one jar, listed as
/// `name=value` pairs in ascending name order, a later value for a name replacing an
/// earlier one.
pub fn merge_cookie_pairs(primary: Vec<String>, secondary: Vec<String>) -> (merged: Vec<String>)
    ensures
        is_cookie_listing(views(merged@), merged_cookies(views(primary@) + views(secondary@))),
{
    let ghost all = views(primary@) + views(secondary@);
    let mut names: Vec<String> = Vec::new();
    let mut values: Vec<String> = Vec::new();
    assert(all.take(0) =~= Seq::<Seq<char>>::empty());
    let mut i: usize = 0;
    while i < primary.len()
        invariant
            i <= primary@.len(),
            all == views(primary@) + views(secondary@),
            holds_jar(views(names@), views(values@), merged_cookies(all.take(i as int))),
        decreases primary@.len() - i,
    {
        assert(all.take(i + 1).drop_last() =~= all.take(i as int));
        assert(all.take(i + 1).last() == primary@[i as int]@);
        add_to_jar(&mut names, &mut values, primary[i].as_str(), Ghost(merged_cookies(all.take(i as int))));
        i = i + 1;
    }
    let mut k: usize = 0;
    while k < secondary.len()
        invariant
            k <= secondary@.len(),
            i == primary@.len(),
            all == views(primary@) + views(secondary@),
            holds_jar(views(names@), views(values@), merged_cookies(all.take(i + k))),
        decreases secondary@.len() - k,
    {
        assert(all.take(i + k + 1).drop_last() =~= all.take(i + k));
        assert(all.take(i + k + 1).last() == secondary@[k as int]@);
        add_to_jar(&mut names, &mut values, secondary[k].as_str(), Ghost(merged_cookies(all.take(i + k))));
        k = k + 1;
    }
    assert(all.take(i + k) =~= all);
    let ghost m = merged_cookies(all);
    let ghost ns = views(names@);
    let ghost vs = views(values@);
    let mut out: Vec<String> = Vec::new();
    let mut t: usize = 0;
    let eq = "=";
    proof {
        reveal_strlit("=");
        assert(eq@ =~= seq!['=']);
    }
    while t < names.len()
        invariant
            t <= names@.len(),
            ns == views(names@),
            vs == views(values@),
            eq@ == seq!['='],
            holds_jar(ns, vs, m),
            out@.len() == t,
            forall|x: int| 0 <= x < t ==> #[trigger] out@[x]@ == ns[x] + seq!['='] + vs[x],
        decreases names@.len() - t,
    {
        let mut s = String::from_str(names[t].as_str());
        s.append(eq);
        s.append(values[t].as_str());
        out.push(s);
        t = t + 1;
    }
    proof {
        let o = views(out@);
        assert forall|x: int| 0 <= x < o.len() implies #[trigger] cookie_name(o[x]) == ns[x] by {
            lemma_split_after_prefix(ns[x], '=', vs[x]);
        }
        assert forall|x: int, y: int| 0 <= x < y < o.len() implies seq_less(
            #[trigger] cookie_name(o[x]),
            #[trigger] cookie_name(o[y]),
        ) by {
            assert(cookie_name(o[x]) == ns[x]);
            assert(cookie_name(o[y]) == ns[y]);
        }
        assert forall|key: Seq<char>| m.contains_key(key) implies exists|x: int| 0 <= x < o.len() && #[trigger] cookie_name(o[x]) == key by {
            let x = choose|x: int| 0 <= x < ns.len() && #[trigger] ns[x] == key;
            assert(cookie_name(o[x]) == ns[x]);
        }
        assert forall|x: int| 0 <= x < o.len() implies m.contains_key(#[trigger] cookie_name(o[x])) && o[x]
            == cookie_name(o[x]) + seq!['='] + m[cookie_name(o[x])] by {
            assert(cookie_name(o[x]) == ns[x]);
            assert(o[x] == out@[x]@);
        }
    }
    out
}


/// The marker that names the login form's CSRF field.
pub open spec fn login_csrf_marker() -> Seq<char> {
    "name=\"_csrf_token\""@
}

/// The text that opens an attribute value.
pub open spec fn value_prefix() -> Seq<char> {
    "value=\""@
}

/// The token of the login page: after the first `name="_csrf_token"`, the first
/// `value="`, and from there up to the next `"`.
pub open spec fn login_csrf_token(html: Seq<char>) -> Option<Seq<char>> {
    match find_from(html, login_csrf_marker(), 0) {
        None => None,
        Some(n) => match find_from(html, value_prefix(), n) {
            None => None,
            Some(v) => {
                let start = v + value_prefix().len();
                match find_from(html, seq!['"'], start) {
                    None => None,
                    Some(e) => Some(html.subrange(start, e)),
                }
            },
        },
    }
}

/// Law: a login token lies in the page's first CSRF field: the page holds
/// `name="_csrf_token"` first at `m`, the first `value="` at or after `m` is at `v`, and the
/// token is the text after that `value="` up to the next `"`, which it does not contain.
pub proof fn law_login_token_follows_its_field(html: Seq<char>)
    ensures
        login_csrf_token(html) matches Some(t) ==> exists|m: int, v: int|
            #![trigger occurs_at(html, login_csrf_marker(), m), occurs_at(html, value_prefix(), v)]
            {
                &&& occurs_at(html, login_csrf_marker(), m)
                &&& (forall|j: int| 0 <= j < m ==> !#[trigger] occurs_at(html, login_csrf_marker(), j))
                &&& m <= v
                &&& occurs_at(html, value_prefix(), v)
                &&& (forall|j: int| m <= j < v ==> !#[trigger] occurs_at(html, value_prefix(), j))
                &&& html.subrange(v + value_prefix().len(), v + value_prefix().len() + t.len()) == t
                &&& v + value_prefix().len() + t.len() < html.len()
                &&& html[v + value_prefix().len() + t.len()] == '"'
                &&& !t.contains('"')
            },
{
    lemma_find_from_first(html, login_csrf_marker(), 0);
    if let Some(m) = find_from(html, login_csrf_marker(), 0) {
        lemma_find_from_first(html, value_prefix(), m);
        if let Some(v) = find_from(html, value_prefix(), m) {
            let start = v + value_prefix().len();
            lemma_find_char_from(html, '"', start);
            if let Some(e) = find_from(html, seq!['"'], start) {
                let t = html.subrange(start, e);
                assert(!t.contains('"')) by {
                    assert forall|x: int| 0 <= x < t.len() implies t[x] != '"' by {
                        assert(t[x] == html[start + x]);
                    }
                }
                assert(occurs_at(html, login_csrf_marker(), m));
                assert(occurs_at(html, value_prefix(), v));
            }
        }
    }
}

/// Law: a login page holds a token wherever it has the CSRF field's name, then (at or
/// after it) a `value="` and, after that, a closing `"`.
pub proof fn law_login_token_found(html: Seq<char>, m: int, v: int, q: int)
    requires
        occurs_at(html, login_csrf_marker(), m),
        m <= v,
        occurs_at(html, value_prefix(), v),
        v + value_prefix().len() <= q < html.len(),
        html[q] == '"',
    ensures
        login_csrf_token(html) is Some,
{
    lemma_find_from_first(html, login_csrf_marker(), 0);
    let m0 = find_from(html, login_csrf_marker(), 0)->0;
    assert(m0 <= m);
    lemma_find_from_first(html, value_prefix(), m0);
    let v0 = find_from(html, value_prefix(), m0)->0;
    assert(v0 <= v);
    lemma_find_char_from(html, '"', v0 + value_prefix().len());
}

/// The text from `start` up to the next `"` of `html`, if there is one.
pub fn quoted_until(html: &str, chars: &Vec<char>, start: usize) -> (r: Option<String>)
    requires
        chars@ == html@,
        start <= html@.len(),
    ensures
        match find_from(html@, seq!['"'], start as int) {
            None => r is None,
            Some(e) => r is Some && r->0@ == html@.subrange(start as int, e),
        },
{
    let quote = chars_of("\"");
    proof {
        reveal_strlit("\"");
        assert(quote@ =~= seq!['"']);
    }
    match find_chars(chars, &quote, start) {
        None => None,
        Some(e) => {
            proof {
                crate::text::lemma_find_char_from(html@, '"', start as int);
            }
            Some(String::from_str(html.substring_char(start, e)))
        },
    }
}

/// The CSRF token of the login page, if the page holds one.
pub fn extract_csrf_token(html: &str) -> (token: Option<String>)
    ensures
        match login_csrf_token(html@) {
            Some(t) => token is Some && token->0@ == t,
            None => token is None,
        },
{
    let chars = chars_of(html);
    let marker = chars_of("name=\"_csrf_token\"");
    let prefix = chars_of("value=\"");
    let name_index = match find_chars(&chars, &marker, 0) {
        Some(i) => i,
        None => return None,
    };
    let value_index = match find_chars(&chars, &prefix, name_index) {
        Some(i) => i,
        None => return None,
    };
    proof {
        reveal_strlit("value=\"");
        crate::text::lemma_find_from_bounds(html@, prefix@, name_index as int);
    }
    let n = chars.len();
    assert(value_index + prefix@.len() <= n);
    let token_start = value_index + prefix.len();
    quoted_until(html, &chars, token_start)
}


proof fn lemma_nonblank_push(x: Seq<Seq<char>>, y: Seq<char>)
    ensures
        nonblank_trimmed(x.push(y)) == if trim(y).len() > 0 {
            nonblank_trimmed(x).push(trim(y))
        } else {
            nonblank_trimmed(x)
        },
{
    assert(x.push(y).drop_last() =~= x);
}

/// Pairs that a `Cookie` header value can carry back unchanged: each is not empty, is its
/// own trim, and holds no `;`.
pub open spec fn header_safe(pairs: Seq<Seq<char>>) -> bool {
    forall|i: int|
        0 <= i < pairs.len() ==> #[trigger] pairs[i].len() > 0 && trim(pairs[i]) == pairs[i]
            && lacks_char(pairs[i], ';')
}

/// Law: reading back a `Cookie` header value gives the pairs it was made of, where those
/// pairs are not empty, are their own trim and hold no `;`.
pub proof fn law_cookie_header_round_trip(pairs: Seq<Seq<char>>)
    requires
        header_safe(pairs),
    ensures
        cookie_header_pairs(cookie_header(pairs)) == pairs,
    decreases pairs.len(),
{
    if pairs.len() == 0 {
        lemma_trim_empty();
        assert(split_char(Seq::<char>::empty(), ';') == seq![Seq::<char>::empty()]);
        assert(seq![Seq::<char>::empty()] =~= Seq::<Seq<char>>::empty().push(Seq::<char>::empty()));
        lemma_nonblank_push(Seq::<Seq<char>>::empty(), Seq::<char>::empty());
        assert(cookie_header(pairs) == Seq::<char>::empty());
        assert(pairs =~= Seq::<Seq<char>>::empty());
    } else if pairs.len() == 1 {
        assert(pairs[0].len() > 0);
        lemma_split_lacking(pairs[0], ';');
        assert(seq![pairs[0]] =~= Seq::<Seq<char>>::empty().push(pairs[0]));
        lemma_nonblank_push(Seq::<Seq<char>>::empty(), pairs[0]);
        assert(cookie_header(pairs) == pairs[0]);
        assert(split_char(pairs[0], ';') == seq![pairs[0]]);
        assert(nonblank_trimmed(Seq::<Seq<char>>::empty()) == Seq::<Seq<char>>::empty());
        assert(seq![pairs[0]] =~= pairs);
    } else {
        let init = pairs.drop_last();
        let last = pairs.last();
        assert(pairs[pairs.len() - 1].len() > 0);
        assert(header_safe(init)) by {
            assert forall|i: int| 0 <= i < init.len() implies #[trigger] init[i].len() > 0 && trim(init[i]) == init[i]
                && lacks_char(init[i], ';') by {
                assert(init[i] == pairs[i]);
            }
        }
        law_cookie_header_round_trip(init);
        let tail = seq![' '] + last;
        assert(join(pairs, seq![';', ' ']) =~= join(init, seq![';', ' ']) + seq![';'] + tail);
        lemma_split_concat(join(init, seq![';', ' ']), ';', tail);
        assert(lacks_char(tail, ';')) by {
            assert forall|i: int| 0 <= i < tail.len() implies tail[i] != ';' by {
                if i > 0 {
                    assert(tail[i] == last[i - 1]);
                }
            }
        }
        lemma_split_lacking(tail, ';');
        lemma_trim_after_space(last);
        let x = split_char(join(init, seq![';', ' ']), ';');
        assert(x + seq![tail] =~= x.push(tail));
        lemma_nonblank_push(x, tail);
        assert(trim(tail) == last);
        assert(nonblank_trimmed(x) == init);
        assert(split_char(cookie_header(pairs), ';') == x.push(tail));
        assert(nonblank_trimmed(x.push(tail)) == init.push(last));
        assert(init.push(last) =~= pairs);
    }
}

/// The keys and values of a jar whose pairs hold no `;` are their own trim and hold no `;`.
pub open spec fn jar_clean(m: Map<Seq<char>, Seq<char>>) -> bool {
    forall|k: Seq<char>|
        #[trigger] m.contains_key(k) ==> trim(k) == k && lacks_char(k, ';') && trim(m[k]) == m[k]
            && lacks_char(m[k], ';')
}

proof fn lemma_trim_idempotent(s: Seq<char>)
    ensures
        trim(trim(s)) == trim(s),
{
    lemma_trimmed_iff(trim(s));
    crate::text::lemma_trim_lengths(s);
    lemma_trim_start_first(s);
    lemma_trim_end_last(trim_start_of(s));
}

spec fn trim_start_of(s: Seq<char>) -> Seq<char> {
    crate::text::trim_start(s)
}

proof fn lemma_trim_start_first(s: Seq<char>)
    ensures
        crate::text::trim_start(s).len() == 0 || !is_whitespace(crate::text::trim_start(s)[0]),
    decreases s.len(),
{
    if s.len() > 0 && is_whitespace(s[0]) {
        lemma_trim_start_first(s.drop_first());
    }
}

proof fn lemma_trim_end_last(s: Seq<char>)
    ensures
        crate::text::trim_end(s).len() == 0 || !is_whitespace(crate::text::trim_end(s).last()),
        crate::text::trim_end(s).len() > 0 && s.len() > 0 ==> crate::text::trim_end(s)[0] == s[0],
    decreases s.len(),
{
    if s.len() > 0 && is_whitespace(s.last()) {
        lemma_trim_end_last(s.drop_last());
    }
}

proof fn lemma_jar_clean(pairs: Seq<Seq<char>>)
    requires
        forall|i: int| 0 <= i < pairs.len() ==> lacks_char(#[trigger] pairs[i], ';'),
    ensures
        jar_clean(merged_cookies(pairs)),
    decreases pairs.len(),
{
    if pairs.len() > 0 {
        let init = pairs.drop_last();
        assert forall|i: int| 0 <= i < init.len() implies lacks_char(#[trigger] init[i], ';') by {
            assert(init[i] == pairs[i]);
        }
        lemma_jar_clean(init);
        let p = pairs.last();
        assert(lacks_char(p, ';'));
        crate::text::lemma_find_char_from(p, '=', 0);
        match split_once(p, '=') {
            Some((n, v)) => {
                assert(lacks_char(n, ';'));
                assert(lacks_char(v, ';'));
                lemma_trim_keeps_lacks(n, ';');
                lemma_trim_keeps_lacks(v, ';');
                lemma_trim_idempotent(n);
                lemma_trim_idempotent(v);
            },
            None => {},
        }
    }
}

/// Law: the pairs that `merge_cookie_pairs` lists, from pairs that hold no `;`, make a
/// `Cookie` header value that reads back as the same pairs: the session cookie survives
/// being written out and read in again.
pub proof fn law_merged_cookies_survive_header(
    primary: Seq<Seq<char>>,
    secondary: Seq<Seq<char>>,
    listing: Seq<Seq<char>>,
)
    requires
        forall|i: int| 0 <= i < primary.len() ==> lacks_char(#[trigger] primary[i], ';'),
        forall|i: int| 0 <= i < secondary.len() ==> lacks_char(#[trigger] secondary[i], ';'),
        is_cookie_listing(listing, merged_cookies(primary + secondary)),
    ensures
        cookie_header_pairs(cookie_header(listing)) == listing,
{
    let all = primary + secondary;
    assert forall|i: int| 0 <= i < all.len() implies lacks_char(#[trigger] all[i], ';') by {
        if i < primary.len() {
            assert(all[i] == primary[i]);
        } else {
            assert(all[i] == secondary[i - primary.len()]);
        }
    }
    lemma_jar_clean(all);
    let m = merged_cookies(all);
    assert forall|i: int| 0 <= i < listing.len() implies #[trigger] listing[i].len() > 0 && trim(listing[i])
        == listing[i] && lacks_char(listing[i], ';') by {
        let k = cookie_name(listing[i]);
        let v = m[k];
        assert(m.contains_key(k));
        let s = k + seq!['='] + v;
        assert(listing[i] == s);
        lemma_trimmed_iff(k);
        lemma_trimmed_iff(v);
        lemma_trimmed_iff(s);
        if k.len() > 0 {
            assert(s[0] == k[0]);
        } else {
            assert(s[0] == '=');
        }
        if v.len() > 0 {
            assert(s.last() == v.last());
        } else {
            assert(s.last() == '=');
        }
        assert forall|j: int| 0 <= j < s.len() implies s[j] != ';' by {
            if j < k.len() {
                assert(s[j] == k[j]);
            } else if j > k.len() {
                assert(s[j] == v[j - k.len() - 1]);
            }
        }
    }
    law_cookie_header_round_trip(listing);
}

/// Law: merging two runs of cookie pairs gives the jar of the first run overridden by the
/// jar of the second: a cookie that the later replies set takes their value, and a cookie
/// that only the earlier ones set keeps its value.
pub proof fn law_later_cookies_override(primary: Seq<Seq<char>>, secondary: Seq<Seq<char>>)
    ensures
        merged_cookies(primary + secondary) == merged_cookies(primary).union_prefer_right(
            merged_cookies(secondary),
        ),
    decreases secondary.len(),
{
    if secondary.len() == 0 {
        assert(primary + secondary =~= primary);
        assert(merged_cookies(primary).union_prefer_right(merged_cookies(secondary)) =~= merged_cookies(
            primary,
        ));
    } else {
        let init = secondary.drop_last();
        let last = secondary.last();
        law_later_cookies_override(primary, init);
        assert((primary + secondary).drop_last() =~= primary + init);
        assert((primary + secondary).last() == last);
        let m = merged_cookies(primary);
        let a = merged_cookies(init);
        match split_once(last, '=') {
            Some((n, v)) => {
                assert(m.union_prefer_right(a).insert(trim(n), trim(v)) =~= m.union_prefer_right(
                    a.insert(trim(n), trim(v)),
                ));
            },
            None => {},
        }
    }
}

} // verus!
