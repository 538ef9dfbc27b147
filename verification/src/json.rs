//! The serialized property form: a document's property bag is a list of
//! `(key, value)` string pairs with distinct keys, kept in insertion order,
//! and its canonical text is the JSON object `{"key":"value",...}` with `"`
//! and `\` escaped.  This module defines the mathematical bag operations,
//! the canonical rendering, the parser of the object text, and the verified
//! executable code for each.

use vstd::prelude::*;
use vstd::pervasive::VecAdditionalExecFns;

use crate::text::is_ws;
use crate::text::push_char;
use crate::text::skip_ws_x;
use crate::text::spec_skip_ws;
use crate::text::lemma_skip_ws_bounds;

verus! {

/// The model of a property bag: `(key, value)` pairs in insertion order.
pub type PropsModel = Seq<(Seq<char>, Seq<char>)>;

/// The view of the executable property list.
pub open spec fn props_view(ps: Seq<(String, String)>) -> PropsModel {
    ps.map_values(|p: (String, String)| (p.0@, p.1@))
}

/// The index of the first pair holding `key`, or `-1` when none does.
pub open spec fn find_key_idx(ps: PropsModel, key: Seq<char>) -> int
    decreases ps.len(),
{
    if ps.len() == 0 {
        -1
    } else if ps[0].0 == key {
        0
    } else {
        let r = find_key_idx(ps.skip(1), key);
        if r == -1 {
            -1
        } else {
            r + 1
        }
    }
}

pub proof fn lemma_find_key_idx(ps: PropsModel, key: Seq<char>)
    ensures
        -1 <= find_key_idx(ps, key) < ps.len(),
        find_key_idx(ps, key) >= 0 ==> ps[find_key_idx(ps, key)].0 == key,
        forall|j: int| 0 <= j < ps.len() && (j < find_key_idx(ps, key) || find_key_idx(ps, key) == -1)
            ==> (#[trigger] ps[j]).0 != key,
    decreases ps.len(),
{
    if ps.len() > 0 && ps[0].0 != key {
        lemma_find_key_idx(ps.skip(1), key);
        assert(forall|j: int| 1 <= j < ps.len() ==> #[trigger] ps[j] == ps.skip(1)[j - 1]);
    }
}

/// Whether the bag holds `key`.
pub open spec fn has_key(ps: PropsModel, key: Seq<char>) -> bool {
    find_key_idx(ps, key) >= 0
}

/// The value stored under `key`, if any.
pub open spec fn obj_get(ps: PropsModel, key: Seq<char>) -> Option<Seq<char>> {
    if has_key(ps, key) {
        Some(ps[find_key_idx(ps, key)].1)
    } else {
        None
    }
}

/// The bag with `key` set to `value`: replaced in place when present,
/// appended when absent.
pub open spec fn obj_set(ps: PropsModel, key: Seq<char>, value: Seq<char>) -> PropsModel {
    if has_key(ps, key) {
        ps.update(find_key_idx(ps, key), (key, value))
    } else {
        ps.push((key, value))
    }
}

/// All keys of the bag are distinct.
pub open spec fn unique_keys(ps: PropsModel) -> bool {
    forall|a: int, b: int| 0 <= a < b < ps.len() ==> (#[trigger] ps[a]).0 != (#[trigger] ps[b]).0
}

pub proof fn lemma_obj_set_unique(ps: PropsModel, key: Seq<char>, value: Seq<char>)
    requires
        unique_keys(ps),
    ensures
        unique_keys(obj_set(ps, key, value)),
        obj_get(obj_set(ps, key, value), key) == Some(value),
{
    lemma_find_key_idx(ps, key);
    let ps2 = obj_set(ps, key, value);
    let fi = find_key_idx(ps, key);
    lemma_find_key_idx(ps2, key);
    let fi2 = find_key_idx(ps2, key);
    if fi >= 0 {
        assert(ps2 == ps.update(fi, (key, value)));
        assert(ps2[fi] == (key, value));
        assert(forall|j: int| 0 <= j < ps2.len() && j != fi ==> #[trigger] ps2[j] == ps[j]);
        assert(forall|j: int| 0 <= j < ps2.len() ==> (#[trigger] ps2[j]).0 == ps[j].0) by {
            assert(ps[fi].0 == key);
        }
        assert(unique_keys(ps2));
        if fi2 == -1 {
            assert(ps2[fi].0 != key);
            assert(false);
        } else if fi2 < fi {
            assert(ps[fi2].0 != key);
            assert(ps2[fi2].0 == key);
            assert(ps2[fi2] == ps[fi2]);
            assert(false);
        } else if fi2 > fi {
            assert(ps2[fi].0 != key);
            assert(false);
        }
        assert(fi2 == fi);
    } else {
        assert(ps2 == ps.push((key, value)));
        assert(ps2[ps.len() as int] == (key, value));
        assert(forall|j: int| 0 <= j < ps.len() ==> #[trigger] ps2[j] == ps[j]);
        assert forall|a: int, b: int| 0 <= a < b < ps2.len() implies (#[trigger] ps2[a]).0 != (
        #[trigger] ps2[b]).0 by {
            if b == ps.len() {
                assert(ps2[a] == ps[a]);
                assert(ps[a].0 != key);
            } else {
                assert(ps2[a] == ps[a]);
                assert(ps2[b] == ps[b]);
            }
        }
        if fi2 == -1 {
            assert(ps2[ps.len() as int].0 != key);
            assert(false);
        } else if fi2 < ps.len() {
            assert(ps2[fi2] == ps[fi2]);
            assert(ps[fi2].0 != key);
            assert(ps2[fi2].0 == key);
            assert(false);
        }
        assert(fi2 == ps.len());
    }
}

/// The escaped form of one character inside a string literal.
pub open spec fn esc_char(c: char) -> Seq<char> {
    if c == '"' || c == '\\' {
        seq!['\\', c]
    } else {
        seq![c]
    }
}

/// The escaped form of a whole string.
pub open spec fn esc(s: Seq<char>) -> Seq<char>
    decreases s.len(),
{
    if s.len() == 0 {
        Seq::empty()
    } else {
        esc_char(s[0]) + esc(s.skip(1))
    }
}

/// The rendering of one pair: `"key":"value"`.
pub open spec fn ser_pair(p: (Seq<char>, Seq<char>)) -> Seq<char> {
    seq!['"'] + esc(p.0) + seq!['"', ':', '"'] + esc(p.1) + seq!['"']
}

/// The comma-separated renderings of the pairs.
pub open spec fn ser_items(ps: PropsModel) -> Seq<char>
    decreases ps.len(),
{
    if ps.len() == 0 {
        Seq::empty()
    } else if ps.len() == 1 {
        ser_pair(ps[0])
    } else {
        ser_pair(ps[0]) + seq![','] + ser_items(ps.skip(1))
    }
}

/// The canonical text of the whole bag: `{` items `}`.
pub open spec fn ser_props(ps: PropsModel) -> Seq<char> {
    seq!['{'] + ser_items(ps) + seq!['}']
}

proof fn lemma_app_assoc(a: Seq<char>, b: Seq<char>, c: Seq<char>)
    ensures
        (a + b) + c == a + (b + c),
{
    assert((a + b) + c =~= a + (b + c));
}

proof fn lemma_esc_snoc(s: Seq<char>, c: char)
    ensures
        esc(s.push(c)) == esc(s) + esc_char(c),
    decreases s.len(),
{
    if s.len() == 0 {
        assert(s.push(c).len() == 1);
        assert(s.push(c)[0] == c);
        assert(s.push(c).skip(1) =~= Seq::<char>::empty());
        assert(esc(s.push(c)) == esc_char(c) + esc(Seq::<char>::empty()));
        assert(esc(Seq::<char>::empty()) == Seq::<char>::empty());
        assert(esc_char(c) + Seq::<char>::empty() =~= esc_char(c));
        assert(esc(s) == Seq::<char>::empty());
        assert(Seq::<char>::empty() + esc_char(c) =~= esc_char(c));
    } else {
        assert(s.push(c)[0] == s[0]);
        assert(s.push(c).skip(1) =~= s.skip(1).push(c));
        assert(esc(s.push(c)) == esc_char(s[0]) + esc(s.skip(1).push(c)));
        lemma_esc_snoc(s.skip(1), c);
        assert(esc(s.push(c)) == esc_char(s[0]) + (esc(s.skip(1)) + esc_char(c)));
        lemma_app_assoc(esc_char(s[0]), esc(s.skip(1)), esc_char(c));
        assert(esc(s) == esc_char(s[0]) + esc(s.skip(1)));
    }
}

proof fn lemma_ser_items_snoc(ps: PropsModel, p: (Seq<char>, Seq<char>))
    ensures
        ps.len() == 0 ==> ser_items(ps.push(p)) == ser_pair(p),
        ps.len() > 0 ==> ser_items(ps.push(p)) == ser_items(ps) + seq![','] + ser_pair(p),
    decreases ps.len(),
{
    if ps.len() == 0 {
        assert(ps.push(p)[0] == p);
    } else if ps.len() == 1 {
        assert(ps.push(p)[0] == ps[0]);
        assert(ps.push(p).skip(1) =~= seq![p]);
        assert(ser_items(seq![p]) == ser_pair(p)) by {
            assert(seq![p][0] == p);
        }
        lemma_app_assoc(ser_pair(ps[0]), seq![','], ser_pair(p));
        assert(ser_items(ps) == ser_pair(ps[0]));
    } else {
        assert(ps.push(p)[0] == ps[0]);
        assert(ps.push(p).skip(1) =~= ps.skip(1).push(p));
        lemma_ser_items_snoc(ps.skip(1), p);
        assert(ser_items(ps.push(p)) == ser_pair(ps[0]) + seq![','] + (ser_items(ps.skip(1))
            + seq![','] + ser_pair(p)));
        assert(ser_pair(ps[0]) + seq![','] + (ser_items(ps.skip(1)) + seq![','] + ser_pair(p))
            =~= (ser_pair(ps[0]) + seq![','] + ser_items(ps.skip(1))) + seq![','] + ser_pair(p));
    }
}

/// Appends the escaped form of `s` to `out`.
fn append_escaped(out: &mut String, s: &str)
    ensures
        final(out)@ == old(out)@ + esc(s@),
{
    let n = s.unicode_len();
    proof {
        assert(esc(s@.take(0)) =~= Seq::<char>::empty());
        assert(out@ + esc(s@.take(0)) =~= out@);
    }
    let mut i: usize = 0;
    while i < n
        invariant
            n == s@.len(),
            i <= n,
            out@ == old(out)@ + esc(s@.take(i as int)),
        decreases n - i,
    {
        let c = s.get_char(i);
        let ghost pre = out@;
        if c == '"' || c == '\\' {
            push_char(out, '\\');
            push_char(out, c);
            proof {
                assert(out@ =~= pre + esc_char(c));
            }
        } else {
            push_char(out, c);
            proof {
                assert(out@ =~= pre + esc_char(c));
            }
        }
        proof {
            lemma_esc_snoc(s@.take(i as int), c);
            assert(s@.take(i as int).push(c) =~= s@.take(i + 1 as int));
            lemma_app_assoc(old(out)@, esc(s@.take(i as int)), esc_char(c));
        }
        i = i + 1;
    }
    proof {
        assert(s@.take(n as int) =~= s@);
    }
}

/// Renders the property list as its canonical object text.
pub(crate) fn props_to_json(props: &Vec<(String, String)>) -> (r: String)
    ensures
        r@ == ser_props(props_view(props@)),
{
    let ghost m = props_view(props@);
    let mut out = String::new();
    push_char(&mut out, '{');
    proof {
        assert(out@ =~= seq!['{'] + ser_items(m.take(0)));
    }
    let mut i: usize = 0;
    while i < props.len()
        invariant
            m == props_view(props@),
            i <= props.len(),
            m.len() == props.len(),
            out@ == seq!['{'] + ser_items(m.take(i as int)),
        decreases props.len() - i,
    {
        let ghost pre = out@;
        if i > 0 {
            push_char(&mut out, ',');
        }
        push_char(&mut out, '"');
        append_escaped(&mut out, props[i].0.as_str());
        push_char(&mut out, '"');
        push_char(&mut out, ':');
        push_char(&mut out, '"');
        append_escaped(&mut out, props[i].1.as_str());
        push_char(&mut out, '"');
        proof {
            let p = m[i as int];
            assert(p == (props@[i as int].0@, props@[i as int].1@));
            lemma_ser_items_snoc(m.take(i as int), p);
            assert(m.take(i as int).push(p) =~= m.take(i + 1 as int));
            if i > 0 {
                assert(out@ =~= pre + seq![','] + ser_pair(p));
                lemma_app_assoc(seq!['{'], ser_items(m.take(i as int)) + seq![','] + ser_pair(p), Seq::empty());
                assert(pre + seq![','] + ser_pair(p) =~= seq!['{'] + (ser_items(m.take(i as int))
                    + seq![','] + ser_pair(p)));
            } else {
                assert(out@ =~= pre + ser_pair(p));
                assert(ser_items(m.take(0)) =~= Seq::<char>::empty());
                assert(pre + ser_pair(p) =~= seq!['{'] + ser_items(m.take(1)));
            }
        }
        i = i + 1;
    }
    push_char(&mut out, '}');
    proof {
        assert(m.take(props.len() as int) =~= m);
        assert(out@ =~= ser_props(m));
    }
    out
}

/// The first position of `key` in the list, scanning from the front.
pub(crate) fn find_key(props: &Vec<(String, String)>, key: &String) -> (r: Option<usize>)
    ensures
        (match r {
            Some(i) => i < props.len() && find_key_idx(props_view(props@), key@) == i,
            None => find_key_idx(props_view(props@), key@) == -1,
        }),
{
    let ghost m = props_view(props@);
    let mut i: usize = 0;
    while i < props.len()
        invariant
            m == props_view(props@),
            m.len() == props.len(),
            i <= props.len(),
            forall|j: int| 0 <= j < i ==> (#[trigger] m[j]).0 != key@,
        decreases props.len() - i,
    {
        if props[i].0 == *key {
            proof {
                assert(m[i as int] == (props@[i as int].0@, props@[i as int].1@));
                assert(m[i as int].0 == key@);
                lemma_find_key_idx(m, key@);
                let fi = find_key_idx(m, key@);
                if fi == -1 {
                    assert(m[i as int].0 != key@);
                } else if fi < i {
                    assert(m[fi].0 != key@);
                    assert(m[fi].0 == key@);
                } else if fi > i {
                    assert(m[i as int].0 != key@);
                }
            }
            return Some(i);
        }
        proof {
            assert(m[i as int] == (props@[i as int].0@, props@[i as int].1@));
            assert(m[i as int].0 != key@);
        }
        i = i + 1;
    }
    proof {
        lemma_find_key_idx(m, key@);
        let fi = find_key_idx(m, key@);
        if fi >= 0 {
            assert(m[fi].0 == key@);
            assert(m[fi].0 != key@);
        }
    }
    None
}

/// The body of a string literal, read at `i` (just past the opening quote):
/// the decoded content and the position just past the closing quote.  Only
/// `\"` and `\\` escapes exist; a bare `\` before anything else, or a
/// missing closing quote, is malformed.
pub open spec fn spec_str_body(s: Seq<char>, i: int) -> Option<(Seq<char>, int)>
    decreases s.len() - i,
{
    if i < 0 || i >= s.len() {
        None
    } else if s[i] == '"' {
        Some((Seq::empty(), i + 1))
    } else if s[i] == '\\' {
        if i + 1 < s.len() && (s[i + 1] == '"' || s[i + 1] == '\\') {
            match spec_str_body(s, i + 2) {
                Some((t, j)) => Some((seq![s[i + 1]] + t, j)),
                None => None,
            }
        } else {
            None
        }
    } else {
        match spec_str_body(s, i + 1) {
            Some((t, j)) => Some((seq![s[i]] + t, j)),
            None => None,
        }
    }
}

pub proof fn lemma_str_body_bounds(s: Seq<char>, i: int)
    ensures
        spec_str_body(s, i) matches Some(p) ==> i < p.1 <= s.len(),
    decreases s.len() - i,
{
    if 0 <= i < s.len() {
        if s[i] == '"' {
        } else if s[i] == '\\' {
            if i + 1 < s.len() && (s[i + 1] == '"' || s[i + 1] == '\\') {
                lemma_str_body_bounds(s, i + 2);
            }
        } else {
            lemma_str_body_bounds(s, i + 1);
        }
    }
}

/// A quoted string expected directly at `i`.
pub open spec fn spec_quoted(s: Seq<char>, i: int) -> Option<(Seq<char>, int)> {
    if 0 <= i < s.len() && s[i] == '"' {
        spec_str_body(s, i + 1)
    } else {
        None
    }
}

/// One `"key" : "value"` pair, with surrounding whitespace allowed.
pub open spec fn spec_pair(s: Seq<char>, i: int) -> Option<((Seq<char>, Seq<char>), int)> {
    let i1 = spec_skip_ws(s, i);
    match spec_quoted(s, i1) {
        None => None,
        Some((k, j)) => {
            let j1 = spec_skip_ws(s, j);
            if 0 <= j1 < s.len() && s[j1] == ':' {
                let j2 = spec_skip_ws(s, j1 + 1);
                match spec_quoted(s, j2) {
                    None => None,
                    Some((v, m)) => Some(((k, v), m)),
                }
            } else {
                None
            }
        },
    }
}

pub proof fn lemma_pair_bounds(s: Seq<char>, i: int)
    requires
        0 <= i <= s.len(),
    ensures
        spec_pair(s, i) matches Some(p) ==> i < p.1 <= s.len(),
{
    lemma_skip_ws_bounds(s, i);
    let i1 = spec_skip_ws(s, i);
    lemma_str_body_bounds(s, i1 + 1);
    if spec_quoted(s, i1) is Some {
        let j = spec_quoted(s, i1)->Some_0.1;
        lemma_skip_ws_bounds(s, j);
        let j1 = spec_skip_ws(s, j);
        if 0 <= j1 < s.len() && s[j1] == ':' {
            lemma_skip_ws_bounds(s, j1 + 1);
            let j2 = spec_skip_ws(s, j1 + 1);
            lemma_str_body_bounds(s, j2 + 1);
        }
    }
}

/// The members of a non-empty object, read at `i` (just past `{` or a `,`):
/// the pairs and the position just past the closing `}`.  The two embedded
/// range guards never fail (see `lemma_pair_bounds`); they keep the
/// recursion visibly well-founded.
pub open spec fn spec_members(s: Seq<char>, i: int) -> Option<(PropsModel, int)>
    decreases s.len() - i,
{
    match spec_pair(s, i) {
        None => None,
        Some((p, j)) => {
            if !(i < j <= s.len()) {
                None
            } else {
                let k = spec_skip_ws(s, j);
                if !(j <= k <= s.len()) {
                    None
                } else if k < s.len() && s[k] == ',' {
                    match spec_members(s, k + 1) {
                        None => None,
                        Some((ps, m)) => Some((seq![p] + ps, m)),
                    }
                } else if k < s.len() && s[k] == '}' {
                    Some((seq![p], k + 1))
                } else {
                    None
                }
            }
        },
    }
}

/// A whole object, read at `i`: `{}` or `{` members `}`.
pub open spec fn spec_obj(s: Seq<char>, i: int) -> Option<(PropsModel, int)> {
    let i1 = spec_skip_ws(s, i);
    if 0 <= i1 < s.len() && s[i1] == '{' {
        let i2 = spec_skip_ws(s, i1 + 1);
        if i2 < s.len() && s[i2] == '}' {
            Some((Seq::empty(), i2 + 1))
        } else {
            spec_members(s, i1 + 1)
        }
    } else {
        None
    }
}

/// The property bag a serialized form denotes, if the form is a well-formed
/// object followed by nothing but whitespace.
pub open spec fn parse_props(s: Seq<char>) -> Option<PropsModel> {
    match spec_obj(s, 0) {
        None => None,
        Some((ps, j)) => {
            if 0 <= j <= s.len() && spec_skip_ws(s, j) == s.len() {
                Some(ps)
            } else {
                None
            }
        },
    }
}

/// Reads a string body at `i` (just past the opening quote).
fn parse_str_body_x(s: &str, n: usize, i: usize) -> (r: Option<(String, usize)>)
    requires
        n == s@.len(),
        i <= n,
    ensures
        (match r {
            Some(p) => spec_str_body(s@, i as int) == Some((p.0@, p.1 as int)) && p.1 <= n,
            None => spec_str_body(s@, i as int) is None,
        }),
{
    let mut out = String::new();
    let mut j = i;
    proof {
        lemma_str_body_bounds(s@, i as int);
        if spec_str_body(s@, i as int) is Some {
            let (t, m) = spec_str_body(s@, i as int)->Some_0;
            assert(out@ + t =~= t);
        }
    }
    loop
        invariant
            i <= j <= n,
            n == s@.len(),
            (match spec_str_body(s@, j as int) {
                Some((t, m)) => spec_str_body(s@, i as int) == Some((out@ + t, m)) && m <= n,
                None => spec_str_body(s@, i as int) is None,
            }),
        decreases n - j,
    {
        proof {
            lemma_str_body_bounds(s@, j as int);
        }
        if j >= n {
            return None;
        }
        let c = s.get_char(j);
        if c == '"' {
            proof {
                assert(out@ + Seq::<char>::empty() =~= out@);
            }
            return Some((out, j + 1));
        } else if c == '\\' {
            if j + 1 < n {
                let c2 = s.get_char(j + 1);
                if c2 == '"' || c2 == '\\' {
                    let ghost pre = out@;
                    push_char(&mut out, c2);
                    proof {
                        lemma_str_body_bounds(s@, j + 2 as int);
                        if spec_str_body(s@, j + 2 as int) is Some {
                            let (t, m) = spec_str_body(s@, j + 2 as int)->Some_0;
                            assert(out@ + t =~= pre + (seq![c2] + t));
                        }
                    }
                    j = j + 2;
                } else {
                    return None;
                }
            } else {
                return None;
            }
        } else {
            let ghost pre = out@;
            push_char(&mut out, c);
            proof {
                lemma_str_body_bounds(s@, j + 1 as int);
                if spec_str_body(s@, j + 1 as int) is Some {
                    let (t, m) = spec_str_body(s@, j + 1 as int)->Some_0;
                    assert(out@ + t =~= pre + (seq![c] + t));
                }
            }
            j = j + 1;
        }
    }
}

/// Reads a quoted string whose opening quote stands directly at `i`.
fn parse_quoted_x(s: &str, n: usize, i: usize) -> (r: Option<(String, usize)>)
    requires
        n == s@.len(),
        i <= n,
    ensures
        (match r {
            Some(p) => spec_quoted(s@, i as int) == Some((p.0@, p.1 as int)) && p.1 <= n,
            None => spec_quoted(s@, i as int) is None,
        }),
{
    if i < n && s.get_char(i) == '"' {
        parse_str_body_x(s, n, i + 1)
    } else {
        None
    }
}

/// Reads one `"key":"value"` pair beginning at `i`.
fn parse_pair_x(s: &str, n: usize, i: usize) -> (r: Option<((String, String), usize)>)
    requires
        n == s@.len(),
        i <= n,
    ensures
        (match r {
            Some(p) => spec_pair(s@, i as int) == Some(((p.0.0@, p.0.1@), p.1 as int)) && i < p.1
                <= n,
            None => spec_pair(s@, i as int) is None,
        }),
{
    proof {
        lemma_pair_bounds(s@, i as int);
    }
    let i1 = skip_ws_x(s, n, i);
    let kr = parse_quoted_x(s, n, i1);
    match kr {
        None => None,
        Some((k, j)) => {
            let j1 = skip_ws_x(s, n, j);
            if j1 < n && s.get_char(j1) == ':' {
                let j2 = skip_ws_x(s, n, j1 + 1);
                let vr = parse_quoted_x(s, n, j2);
                match vr {
                    None => None,
                    Some((v, m)) => Some(((k, v), m)),
                }
            } else {
                None
            }
        },
    }
}

/// Reads the members of a non-empty object beginning at `i`.
fn parse_members_x(s: &str, n: usize, i: usize) -> (r: Option<(Vec<(String, String)>, usize)>)
    requires
        n == s@.len(),
        i <= n,
    ensures
        (match r {
            Some(p) => spec_members(s@, i as int) == Some((props_view(p.0@), p.1 as int)) && p.1
                <= n,
            None => spec_members(s@, i as int) is None,
        }),
{
    let mut acc: Vec<(String, String)> = Vec::new();
    let mut cur = i;
    proof {
        assert(props_view(acc@) =~= Seq::<(Seq<char>, Seq<char>)>::empty());
    }
    loop
        invariant
            i <= cur <= n,
            n == s@.len(),
            (match spec_members(s@, cur as int) {
                Some((ps, m)) => spec_members(s@, i as int) == Some((props_view(acc@) + ps, m)),
                None => spec_members(s@, i as int) is None,
            }),
        decreases n - cur,
    {
        let pr = parse_pair_x(s, n, cur);
        match pr {
            None => {
                return None;
            },
            Some(((k, v), j)) => {
                let ghost pm = (k@, v@);
                let k2 = skip_ws_x(s, n, j);
                if k2 < n && s.get_char(k2) == ',' {
                    let ghost accpre = acc@;
                    acc.push((k, v));
                    proof {
                        assert(props_view(acc@) =~= props_view(accpre).push(pm));
                        if spec_members(s@, k2 + 1 as int) is Some {
                            let (ps, m) = spec_members(s@, k2 + 1 as int)->Some_0;
                            assert(props_view(accpre) + (seq![pm] + ps) =~= props_view(acc@) + ps);
                        }
                    }
                    cur = k2 + 1;
                } else if k2 < n && s.get_char(k2) == '}' {
                    let ghost accpre = acc@;
                    acc.push((k, v));
                    proof {
                        assert(props_view(acc@) =~= props_view(accpre).push(pm));
                        assert(spec_members(s@, cur as int) == Some((seq![pm], k2 + 1 as int)));
                        assert(props_view(accpre) + seq![pm] =~= props_view(acc@));
                    }
                    return Some((acc, k2 + 1));
                } else {
                    return None;
                }
            },
        }
    }
}

/// Reads a whole object beginning at `i`.
fn parse_obj_x(s: &str, n: usize, i: usize) -> (r: Option<(Vec<(String, String)>, usize)>)
    requires
        n == s@.len(),
        i <= n,
    ensures
        (match r {
            Some(p) => spec_obj(s@, i as int) == Some((props_view(p.0@), p.1 as int)) && p.1 <= n,
            None => spec_obj(s@, i as int) is None,
        }),
{
    let i1 = skip_ws_x(s, n, i);
    if i1 < n && s.get_char(i1) == '{' {
        let i2 = skip_ws_x(s, n, i1 + 1);
        if i2 < n && s.get_char(i2) == '}' {
            let empty: Vec<(String, String)> = Vec::new();
            proof {
                assert(props_view(empty@) =~= Seq::<(Seq<char>, Seq<char>)>::empty());
            }
            Some((empty, i2 + 1))
        } else {
            parse_members_x(s, n, i1 + 1)
        }
    } else {
        None
    }
}

/// Parses a serialized form into its property list.
pub(crate) fn parse_props_x(s: &str) -> (r: Option<Vec<(String, String)>>)
    ensures
        (match r {
            Some(ps) => parse_props(s@) == Some(props_view(ps@)),
            None => parse_props(s@) is None,
        }),
{
    let n = s.unicode_len();
    let or = parse_obj_x(s, n, 0);
    match or {
        None => None,
        Some((ps, j)) => {
            if skip_ws_x(s, n, j) == n {
                Some(ps)
            } else {
                None
            }
        },
    }
}

/// Scans the tail of a string array, read at `i` (just past a string):
/// `, "..."` members until the closing `]`; the position just past it.
/// The embedded range guards never fail; they keep the recursion visibly
/// well-founded.
pub open spec fn spec_path_arr_rest(s: Seq<char>, i: int) -> Option<int>
    decreases s.len() - i,
{
    if !(0 <= i <= s.len()) {
        None
    } else {
        let k = spec_skip_ws(s, i);
        if !(i <= k <= s.len()) {
            None
        } else if k < s.len() && s[k] == ',' {
            let k2 = spec_skip_ws(s, k + 1);
            if !(k < k2 <= s.len()) {
                None
            } else {
                match spec_quoted(s, k2) {
                    None => None,
                    Some((t, j)) => {
                        if !(k2 < j <= s.len()) {
                            None
                        } else {
                            spec_path_arr_rest(s, j)
                        }
                    },
                }
            }
        } else if k < s.len() && s[k] == ']' {
            Some(k + 1)
        } else {
            None
        }
    }
}

/// Scans one array of strings whose `[` stands directly at `i`: the
/// position just past its `]`.
pub open spec fn spec_path_arr(s: Seq<char>, i: int) -> Option<int> {
    if 0 <= i < s.len() && s[i] == '[' {
        let i1 = spec_skip_ws(s, i + 1);
        match spec_quoted(s, i1) {
            None => None,
            Some((t, j)) => spec_path_arr_rest(s, j),
        }
    } else {
        None
    }
}

/// Scans the tail of the outer array, read at `i` (just past an inner
/// array): `, [...]` members until the closing `]`.
pub open spec fn spec_expr_arrs_rest(s: Seq<char>, i: int) -> Option<int>
    decreases s.len() - i,
{
    if !(0 <= i <= s.len()) {
        None
    } else {
        let k = spec_skip_ws(s, i);
        if !(i <= k <= s.len()) {
            None
        } else if k < s.len() && s[k] == ',' {
            let k2 = spec_skip_ws(s, k + 1);
            if !(k < k2 <= s.len()) {
                None
            } else {
                match spec_path_arr(s, k2) {
                    None => None,
                    Some(j) => {
                        if !(k2 < j <= s.len()) {
                            None
                        } else {
                            spec_expr_arrs_rest(s, j)
                        }
                    },
                }
            }
        } else if k < s.len() && s[k] == ']' {
            Some(k + 1)
        } else {
            None
        }
    }
}

/// A well-formed index key expression: a JSON array of one or more arrays
/// of one or more strings (each inner array one property path), with
/// nothing but whitespace around it.
pub open spec fn valid_index_expr(s: Seq<char>) -> bool {
    let i0 = spec_skip_ws(s, 0);
    if 0 <= i0 < s.len() && s[i0] == '[' {
        let i1 = spec_skip_ws(s, i0 + 1);
        match spec_path_arr(s, i1) {
            None => false,
            Some(j) => {
                if !(0 <= j <= s.len()) {
                    false
                } else {
                    match spec_expr_arrs_rest(s, j) {
                        None => false,
                        Some(m) => 0 <= m <= s.len() && spec_skip_ws(s, m) == s.len(),
                    }
                }
            },
        }
    } else {
        false
    }
}

/// Scans the tail of a string array at `i`.
fn path_arr_rest_x(s: &str, n: usize, i: usize) -> (r: Option<usize>)
    requires
        n == s@.len(),
        i <= n,
    ensures
        (match r {
            Some(j) => spec_path_arr_rest(s@, i as int) == Some(j as int) && j <= n,
            None => spec_path_arr_rest(s@, i as int) is None,
        }),
{
    let mut cur = i;
    loop
        invariant
            i <= cur <= n,
            n == s@.len(),
            spec_path_arr_rest(s@, i as int) == spec_path_arr_rest(s@, cur as int),
        decreases n - cur,
    {
        let k = skip_ws_x(s, n, cur);
        if k < n && s.get_char(k) == ',' {
            let k2 = skip_ws_x(s, n, k + 1);
            proof {
                lemma_str_body_bounds(s@, k2 + 1 as int);
            }
            let q = parse_quoted_x(s, n, k2);
            match q {
                None => {
                    return None;
                },
                Some((_, j)) => {
                    cur = j;
                },
            }
        } else if k < n && s.get_char(k) == ']' {
            return Some(k + 1);
        } else {
            return None;
        }
    }
}

/// Scans one `["path", ...]` array whose `[` stands directly at `i`.
fn path_arr_x(s: &str, n: usize, i: usize) -> (r: Option<usize>)
    requires
        n == s@.len(),
        i <= n,
    ensures
        (match r {
            Some(j) => spec_path_arr(s@, i as int) == Some(j as int) && j <= n,
            None => spec_path_arr(s@, i as int) is None,
        }),
{
    if i < n && s.get_char(i) == '[' {
        let i1 = skip_ws_x(s, n, i + 1);
        proof {
            lemma_str_body_bounds(s@, i1 + 1 as int);
        }
        let q = parse_quoted_x(s, n, i1);
        match q {
            None => None,
            Some((_, j)) => path_arr_rest_x(s, n, j),
        }
    } else {
        None
    }
}

/// Checks an index key expression against its grammar.
pub(crate) fn valid_index_expr_x(s: &str) -> (r: bool)
    ensures
        r == valid_index_expr(s@),
{
    let n = s.unicode_len();
    let i0 = skip_ws_x(s, n, 0);
    if !(i0 < n && s.get_char(i0) == '[') {
        return false;
    }
    let i1 = skip_ws_x(s, n, i0 + 1);
    let first = path_arr_x(s, n, i1);
    match first {
        None => false,
        Some(j) => {
            let mut cur = j;
            loop
                invariant
                    cur <= n,
                    n == s@.len(),
                    valid_index_expr(s@) == (match spec_expr_arrs_rest(s@, cur as int) {
                        None => false,
                        Some(m) => 0 <= m <= s@.len() && spec_skip_ws(s@, m) == s@.len(),
                    }),
                decreases n - cur,
            {
                let k = skip_ws_x(s, n, cur);
                if k < n && s.get_char(k) == ',' {
                    let k2 = skip_ws_x(s, n, k + 1);
                    let arr = path_arr_x(s, n, k2);
                    match arr {
                        None => {
                            return false;
                        },
                        Some(j2) => {
                            proof {
                                lemma_path_arr_advances(s@, k2 as int);
                            }
                            cur = j2;
                        },
                    }
                } else if k < n && s.get_char(k) == ']' {
                    let m = k + 1;
                    return skip_ws_x(s, n, m) == n;
                } else {
                    return false;
                }
            }
        },
    }
}

pub proof fn lemma_path_arr_advances(s: Seq<char>, i: int)
    requires
        0 <= i <= s.len(),
    ensures
        spec_path_arr(s, i) matches Some(j) ==> i < j,
{
    if 0 <= i < s.len() && s[i] == '[' {
        lemma_skip_ws_bounds(s, i + 1);
        let i1 = spec_skip_ws(s, i + 1);
        lemma_str_body_bounds(s, i1 + 1);
        if spec_quoted(s, i1) is Some {
            let j0 = spec_quoted(s, i1)->Some_0.1;
            lemma_path_arr_rest_lower(s, j0);
        }
    }
}

pub proof fn lemma_path_arr_rest_lower(s: Seq<char>, i: int)
    ensures
        spec_path_arr_rest(s, i) matches Some(j) ==> i < j,
    decreases s.len() - i,
{
    if 0 <= i <= s.len() {
        let k = spec_skip_ws(s, i);
        lemma_skip_ws_bounds(s, i);
        if i <= k <= s.len() && k < s.len() && s[k] == ',' {
            let k2 = spec_skip_ws(s, k + 1);
            if k < k2 <= s.len() && spec_quoted(s, k2) is Some {
                let j0 = spec_quoted(s, k2)->Some_0.1;
                if k2 < j0 <= s.len() {
                    lemma_path_arr_rest_lower(s, j0);
                }
            }
        }
    }
}

/// The pair list with repeated keys resolved last-wins: each key keeps
/// its first position and its last value, as a repeated key in a JSON
/// object conventionally does.
pub open spec fn dedup_props(ps: PropsModel) -> PropsModel
    decreases ps.len(),
{
    if ps.len() == 0 {
        Seq::empty()
    } else {
        obj_set(dedup_props(ps.drop_last()), ps.last().0, ps.last().1)
    }
}

pub proof fn lemma_dedup_props_unique(ps: PropsModel)
    ensures
        unique_keys(dedup_props(ps)),
    decreases ps.len(),
{
    if ps.len() == 0 {
        assert(unique_keys(Seq::<(Seq<char>, Seq<char>)>::empty()));
    } else {
        lemma_dedup_props_unique(ps.drop_last());
        lemma_obj_set_unique(dedup_props(ps.drop_last()), ps.last().0, ps.last().1);
    }
}

/// Resolves repeated keys in a parsed pair list, last value winning.
pub(crate) fn dedup_pairs(pairs: Vec<(String, String)>) -> (r: Vec<(String, String)>)
    ensures
        props_view(r@) == dedup_props(props_view(pairs@)),
        unique_keys(props_view(r@)),
{
    let ghost m = props_view(pairs@);
    let mut acc: Vec<(String, String)> = Vec::new();
    let mut i: usize = 0;
    proof {
        assert(props_view(acc@) =~= Seq::<(Seq<char>, Seq<char>)>::empty());
        assert(m.take(0) =~= Seq::<(Seq<char>, Seq<char>)>::empty());
    }
    while i < pairs.len()
        invariant
            m == props_view(pairs@),
            m.len() == pairs.len(),
            i <= pairs.len(),
            props_view(acc@) == dedup_props(m.take(i as int)),
            unique_keys(props_view(acc@)),
        decreases pairs.len() - i,
    {
        proof {
            assert(m[i as int] == (pairs@[i as int].0@, pairs@[i as int].1@));
        }
        let key = pairs[i].0.clone();
        let value = pairs[i].1.clone();
        let ghost kv = (key@, value@);
        proof {
            lemma_obj_set_unique(props_view(acc@), kv.0, kv.1);
        }
        let found = find_key(&acc, &key);
        match found {
            Some(k) => {
                let ghost pre = props_view(acc@);
                acc.set(k, (key, value));
                proof {
                    lemma_find_key_idx(pre, kv.0);
                    assert(pre[k as int].0 == kv.0);
                    assert(props_view(acc@) =~= pre.update(k as int, kv));
                }
            },
            None => {
                let ghost pre = props_view(acc@);
                acc.push((key, value));
                proof {
                    assert(props_view(acc@) =~= pre.push(kv));
                }
            },
        }
        proof {
            assert(m.take(i + 1 as int).drop_last() =~= m.take(i as int));
            assert(m.take(i + 1 as int).last() == m[i as int]);
        }
        i = i + 1;
    }
    proof {
        assert(m.take(pairs.len() as int) =~= m);
    }
    acc
}

} // verus!
