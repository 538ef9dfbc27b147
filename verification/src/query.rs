//! A compiled query: `SELECT` of named columns over the stored records,
//! with an optional `WHERE key='value'` equality filter.  A selector draws
//! from the record id (`_id`), the revision (`_rev`), the whole record
//! (`*`, serialized), or one named property, and carries an alias
//! (`AS name`; without one the source names itself).  Keywords are matched
//! case-insensitively.  Compilation happens once, at `new_query`; a
//! compiled query may be executed any number of times, each execution
//! reading the records as they then stand.

use vstd::prelude::*;

use crate::database::docs_view;
use crate::database::Database;
use crate::database::DbModel;
use crate::document::lemma_doc_view;
use crate::document::DocModel;
use crate::document::Document;
use crate::errors::engine_error;
use crate::errors::engine_error_at;
use crate::errors::spec_engine_error;
use crate::errors::spec_engine_error_at;
use crate::errors::CouchbaseLiteError;
use crate::errors::CODE_NOT_OPEN;
use crate::errors::CODE_PARSE;
use crate::json::find_key;
use crate::json::lemma_find_key_idx;
use crate::json::obj_get;
use crate::json::obj_set;
use crate::json::props_to_json;
use crate::json::props_view;
use crate::json::ser_props;
use crate::resultset::row_view;
use crate::resultset::rows_view;
use crate::resultset::ColumnValue;
use crate::resultset::ColumnValueModel;
use crate::resultset::ResultSet;
use crate::resultset::RowModel;
use crate::resultset::RsModel;
use crate::text::dec_str;
use crate::text::is_ident_char;
use crate::text::is_ident_char_x;
use crate::text::lemma_skip_ws_bounds;
use crate::text::skip_ws_x;
use crate::text::spec_skip_ws;
use crate::text::u64_to_dec;
use vstd::string::StringExecFns;

verus! {

/// Where a column draws its value from.
pub enum Source {
    DocId,
    Rev,
    All,
    Prop(String),
}

/// The model of a column source.
#[verifier::ext_equal]
pub enum SourceModel {
    DocId,
    Rev,
    All,
    Prop(Seq<char>),
}

impl View for Source {
    type V = SourceModel;

    open spec fn view(&self) -> SourceModel {
        match self {
            Source::DocId => SourceModel::DocId,
            Source::Rev => SourceModel::Rev,
            Source::All => SourceModel::All,
            Source::Prop(p) => SourceModel::Prop(p@),
        }
    }
}

/// One selected column: a source and the alias it is returned under.
pub struct Selector {
    pub(crate) source: Source,
    pub(crate) alias: String,
}

/// The model of a selector.
#[verifier::ext_equal]
pub struct SelectorModel {
    pub source: SourceModel,
    pub alias: Seq<char>,
}

impl View for Selector {
    type V = SelectorModel;

    closed spec fn view(&self) -> SelectorModel {
        SelectorModel { source: self.source@, alias: self.alias@ }
    }
}

/// The view of a selector list.
pub open spec fn sels_view(sels: Seq<Selector>) -> Seq<SelectorModel> {
    sels.map_values(|s: Selector| s@)
}

/// The model of a compiled query.
#[verifier::ext_equal]
pub struct QueryModel {
    pub selectors: Seq<SelectorModel>,
    pub filter: Option<(Seq<char>, Seq<char>)>,
}

/// A compiled, reusable query bound to one query string.
pub struct Query {
    selectors: Vec<Selector>,
    filter: Option<(String, String)>,
}

impl View for Query {
    type V = QueryModel;

    closed spec fn view(&self) -> QueryModel {
        QueryModel {
            selectors: sels_view(self.selectors@),
            filter: match &self.filter {
                None => None,
                Some(f) => Some((f.0@, f.1@)),
            },
        }
    }
}

/// The greedy identifier starting at `i`: its characters and the position
/// just past them.  Empty when `i` holds no identifier character.
pub open spec fn spec_ident(s: Seq<char>, i: int) -> (Seq<char>, int)
    decreases s.len() - i,
{
    if 0 <= i < s.len() && is_ident_char(s[i]) {
        let r = spec_ident(s, i + 1);
        (seq![s[i]] + r.0, r.1)
    } else {
        (Seq::empty(), i)
    }
}

pub proof fn lemma_ident_bounds(s: Seq<char>, i: int)
    requires
        0 <= i <= s.len(),
    ensures
        i <= spec_ident(s, i).1 <= s.len(),
        spec_ident(s, i).0.len() == spec_ident(s, i).1 - i,
    decreases s.len() - i,
{
    if i < s.len() && is_ident_char(s[i]) {
        lemma_ident_bounds(s, i + 1);
    }
}

/// The keyword `SELECT`, case-insensitively, ending at a token boundary.
pub open spec fn is_select_at(s: Seq<char>, i: int) -> bool {
    &&& 0 <= i
    &&& i + 6 <= s.len()
    &&& (s[i] == 's' || s[i] == 'S')
    &&& (s[i + 1] == 'e' || s[i + 1] == 'E')
    &&& (s[i + 2] == 'l' || s[i + 2] == 'L')
    &&& (s[i + 3] == 'e' || s[i + 3] == 'E')
    &&& (s[i + 4] == 'c' || s[i + 4] == 'C')
    &&& (s[i + 5] == 't' || s[i + 5] == 'T')
    &&& (i + 6 == s.len() || !is_ident_char(s[i + 6]))
}

/// The keyword `AS`, case-insensitively, ending at a token boundary.
pub open spec fn is_as_at(s: Seq<char>, i: int) -> bool {
    &&& 0 <= i
    &&& i + 2 <= s.len()
    &&& (s[i] == 'a' || s[i] == 'A')
    &&& (s[i + 1] == 's' || s[i + 1] == 'S')
    &&& (i + 2 == s.len() || !is_ident_char(s[i + 2]))
}

/// The keyword `WHERE`, case-insensitively, ending at a token boundary.
pub open spec fn is_where_at(s: Seq<char>, i: int) -> bool {
    &&& 0 <= i
    &&& i + 5 <= s.len()
    &&& (s[i] == 'w' || s[i] == 'W')
    &&& (s[i + 1] == 'h' || s[i + 1] == 'H')
    &&& (s[i + 2] == 'e' || s[i + 2] == 'E')
    &&& (s[i + 3] == 'r' || s[i + 3] == 'R')
    &&& (s[i + 4] == 'e' || s[i + 4] == 'E')
    &&& (i + 5 == s.len() || !is_ident_char(s[i + 5]))
}

/// The alias a selector carries when no `AS` names one: the source's own
/// spelling.
pub open spec fn default_alias(src: SourceModel) -> Seq<char> {
    match src {
        SourceModel::DocId => seq!['_', 'i', 'd'],
        SourceModel::Rev => seq!['_', 'r', 'e', 'v'],
        SourceModel::All => seq!['*'],
        SourceModel::Prop(p) => p,
    }
}

/// The column source starting at `i` (whitespace allowed first): `*` or an
/// identifier, with `_id` and `_rev` recognised.  A failure carries the
/// position at which the parse stopped.
pub open spec fn spec_source(s: Seq<char>, i: int) -> Result<(SourceModel, int), int> {
    let i1 = spec_skip_ws(s, i);
    if 0 <= i1 < s.len() && s[i1] == '*' {
        Ok((SourceModel::All, i1 + 1))
    } else {
        let r = spec_ident(s, i1);
        if r.0.len() == 0 {
            Err(i1)
        } else if r.0 == seq!['_', 'i', 'd'] {
            Ok((SourceModel::DocId, r.1))
        } else if r.0 == seq!['_', 'r', 'e', 'v'] {
            Ok((SourceModel::Rev, r.1))
        } else {
            Ok((SourceModel::Prop(r.0), r.1))
        }
    }
}

pub proof fn lemma_source_bounds(s: Seq<char>, i: int)
    requires
        0 <= i <= s.len(),
    ensures
        spec_source(s, i) matches Ok(p) ==> i < p.1 <= s.len(),
{
    lemma_skip_ws_bounds(s, i);
    let i1 = spec_skip_ws(s, i);
    lemma_ident_bounds(s, i1);
}

/// One selector starting at `i`: a source, optionally followed by
/// `AS alias`.  A failure carries the position at which the parse stopped.
pub open spec fn spec_selector(s: Seq<char>, i: int) -> Result<(SelectorModel, int), int> {
    match spec_source(s, i) {
        Err(e) => Err(e),
        Ok((src, j)) => {
            let j1 = spec_skip_ws(s, j);
            if is_as_at(s, j1) {
                let j2 = spec_skip_ws(s, j1 + 2);
                let r = spec_ident(s, j2);
                if r.0.len() == 0 {
                    Err(j2)
                } else {
                    Ok((SelectorModel { source: src, alias: r.0 }, r.1))
                }
            } else {
                Ok((SelectorModel { source: src, alias: default_alias(src) }, j))
            }
        },
    }
}

pub proof fn lemma_selector_bounds(s: Seq<char>, i: int)
    requires
        0 <= i <= s.len(),
    ensures
        spec_selector(s, i) matches Ok(p) ==> i < p.1 <= s.len(),
{
    lemma_source_bounds(s, i);
    if spec_source(s, i) is Ok {
        let j = spec_source(s, i)->Ok_0.1;
        lemma_skip_ws_bounds(s, j);
        let j1 = spec_skip_ws(s, j);
        if is_as_at(s, j1) {
            lemma_skip_ws_bounds(s, j1 + 2);
            let j2 = spec_skip_ws(s, j1 + 2);
            lemma_ident_bounds(s, j2);
        }
    }
}

/// The comma-separated selector list starting at `i`; ends, with trailing
/// whitespace consumed, before whatever follows it.  The embedded range
/// guards never fail (see `lemma_selector_bounds`); they keep the recursion
/// visibly well-founded.
pub open spec fn spec_selectors(s: Seq<char>, i: int) -> Result<(Seq<SelectorModel>, int), int>
    decreases s.len() - i,
{
    match spec_selector(s, i) {
        Err(e) => Err(e),
        Ok((sel, j)) => {
            if !(i < j <= s.len()) {
                Err(j)
            } else {
                let k = spec_skip_ws(s, j);
                if !(j <= k <= s.len()) {
                    Err(k)
                } else if k < s.len() && s[k] == ',' {
                    match spec_selectors(s, k + 1) {
                        Err(e) => Err(e),
                        Ok((sels, m)) => Ok((seq![sel] + sels, m)),
                    }
                } else {
                    Ok((seq![sel], k))
                }
            }
        },
    }
}

/// The body of a `'...'` literal, read at `i` (just past the opening
/// quote): its characters and the position just past the closing quote.
/// An unterminated literal fails at the end of the string.
pub open spec fn spec_lit_body(s: Seq<char>, i: int) -> Result<(Seq<char>, int), int>
    decreases s.len() - i,
{
    if i < 0 {
        Err(0)
    } else if i >= s.len() {
        Err(s.len() as int)
    } else if s[i] == '\'' {
        Ok((Seq::empty(), i + 1))
    } else {
        match spec_lit_body(s, i + 1) {
            Ok((t, j)) => Ok((seq![s[i]] + t, j)),
            Err(e) => Err(e),
        }
    }
}

/// The filter clause read just past the `WHERE` keyword:
/// `key = 'value'`.  A failure carries the position at which the parse
/// stopped.
pub open spec fn spec_where(s: Seq<char>, i: int) -> Result<((Seq<char>, Seq<char>), int), int> {
    let i1 = spec_skip_ws(s, i);
    let r = spec_ident(s, i1);
    if r.0.len() == 0 {
        Err(i1)
    } else {
        let j1 = spec_skip_ws(s, r.1);
        if 0 <= j1 < s.len() && s[j1] == '=' {
            let j2 = spec_skip_ws(s, j1 + 1);
            if 0 <= j2 < s.len() && s[j2] == '\'' {
                match spec_lit_body(s, j2 + 1) {
                    Err(e) => Err(e),
                    Ok((v, m)) => Ok(((r.0, v), m)),
                }
            } else {
                Err(j2)
            }
        } else {
            Err(j1)
        }
    }
}

/// The query a string denotes, if it is well-formed in this dialect; a
/// malformed string gives the position at which the parse stopped.
pub open spec fn spec_query(s: Seq<char>) -> Result<QueryModel, int> {
    let i0 = spec_skip_ws(s, 0);
    if !is_select_at(s, i0) {
        Err(i0)
    } else {
        match spec_selectors(s, i0 + 6) {
            Err(e) => Err(e),
            Ok((sels, j)) => {
                if j == s.len() {
                    Ok(QueryModel { selectors: sels, filter: None })
                } else if is_where_at(s, j) {
                    match spec_where(s, j + 5) {
                        Err(e) => Err(e),
                        Ok((f, m)) => {
                            if !(0 <= m <= s.len()) {
                                Err(m)
                            } else if spec_skip_ws(s, m) == s.len() {
                                Ok(QueryModel { selectors: sels, filter: Some(f) })
                            } else {
                                Err(spec_skip_ws(s, m))
                            }
                        },
                    }
                } else {
                    Err(j)
                }
            },
        }
    }
}

/// Reads the greedy identifier at `i`.
fn parse_ident_x(s: &str, n: usize, i: usize) -> (r: (String, usize))
    requires
        n == s@.len(),
        i <= n,
    ensures
        spec_ident(s@, i as int) == (r.0@, r.1 as int),
        i <= r.1 <= n,
{
    let mut out = String::new();
    let mut j = i;
    proof {
        lemma_ident_bounds(s@, i as int);
        assert(out@ + spec_ident(s@, i as int).0 =~= spec_ident(s@, i as int).0);
    }
    while j < n && is_ident_char_x(s.get_char(j))
        invariant
            i <= j <= n,
            n == s@.len(),
            spec_ident(s@, i as int).0 == out@ + spec_ident(s@, j as int).0,
            spec_ident(s@, i as int).1 == spec_ident(s@, j as int).1,
        decreases n - j,
    {
        let c = s.get_char(j);
        let ghost pre = out@;
        crate::text::push_char(&mut out, c);
        proof {
            lemma_ident_bounds(s@, j + 1 as int);
            assert(out@ + spec_ident(s@, j + 1 as int).0 =~= pre + (seq![c] + spec_ident(
                s@,
                j + 1 as int,
            ).0));
        }
        j = j + 1;
    }
    proof {
        assert(spec_ident(s@, j as int).0 =~= Seq::<char>::empty());
        assert(out@ + Seq::<char>::empty() =~= out@);
    }
    (out, j)
}

/// Whether the keyword `SELECT` stands at `i`.
fn is_select_at_x(s: &str, n: usize, i: usize) -> (r: bool)
    requires
        n == s@.len(),
        i <= n,
    ensures
        r == is_select_at(s@, i as int),
{
    if n - i < 6 {
        return false;
    }
    let c0 = s.get_char(i);
    let c1 = s.get_char(i + 1);
    let c2 = s.get_char(i + 2);
    let c3 = s.get_char(i + 3);
    let c4 = s.get_char(i + 4);
    let c5 = s.get_char(i + 5);
    let kw = (c0 == 's' || c0 == 'S') && (c1 == 'e' || c1 == 'E') && (c2 == 'l' || c2 == 'L') && (
    c3 == 'e' || c3 == 'E') && (c4 == 'c' || c4 == 'C') && (c5 == 't' || c5 == 'T');
    kw && (i + 6 == n || !is_ident_char_x(s.get_char(i + 6)))
}

/// Whether the keyword `AS` stands at `i`.
fn is_as_at_x(s: &str, n: usize, i: usize) -> (r: bool)
    requires
        n == s@.len(),
        i <= n,
    ensures
        r == is_as_at(s@, i as int),
{
    if n - i < 2 {
        return false;
    }
    let c0 = s.get_char(i);
    let c1 = s.get_char(i + 1);
    (c0 == 'a' || c0 == 'A') && (c1 == 's' || c1 == 'S') && (i + 2 == n || !is_ident_char_x(
        s.get_char(i + 2),
    ))
}

/// Whether the keyword `WHERE` stands at `i`.
fn is_where_at_x(s: &str, n: usize, i: usize) -> (r: bool)
    requires
        n == s@.len(),
        i <= n,
    ensures
        r == is_where_at(s@, i as int),
{
    if n - i < 5 {
        return false;
    }
    let c0 = s.get_char(i);
    let c1 = s.get_char(i + 1);
    let c2 = s.get_char(i + 2);
    let c3 = s.get_char(i + 3);
    let c4 = s.get_char(i + 4);
    (c0 == 'w' || c0 == 'W') && (c1 == 'h' || c1 == 'H') && (c2 == 'e' || c2 == 'E') && (c3 == 'r'
        || c3 == 'R') && (c4 == 'e' || c4 == 'E') && (i + 5 == n || !is_ident_char_x(
        s.get_char(i + 5),
    ))
}

/// Reads the column source at `i`.
fn parse_source_x(s: &str, n: usize, i: usize) -> (r: Result<(Source, usize), usize>)
    requires
        n == s@.len(),
        i <= n,
    ensures
        (match r {
            Ok(p) => spec_source(s@, i as int) == Ok::<(SourceModel, int), int>((p.0@, p.1 as int))
                && i < p.1 <= n,
            Err(e) => spec_source(s@, i as int) == Err::<(SourceModel, int), int>(e as int) && e
                <= n,
        }),
{
    proof {
        lemma_source_bounds(s@, i as int);
    }
    let i1 = skip_ws_x(s, n, i);
    if i1 < n && s.get_char(i1) == '*' {
        return Ok((Source::All, i1 + 1));
    }
    let (t, j) = parse_ident_x(s, n, i1);
    if t.as_str().is_empty() {
        proof {
            lemma_ident_bounds(s@, i1 as int);
            assert(spec_ident(s@, i1 as int).0.len() == 0);
        }
        return Err(i1);
    }
    proof {
        assert(spec_ident(s@, i1 as int).0.len() > 0);
        reveal_strlit("_id");
        reveal_strlit("_rev");
        assert("_id"@ =~= seq!['_', 'i', 'd']);
        assert("_rev"@ =~= seq!['_', 'r', 'e', 'v']);
    }
    let kw_id = String::from_str("_id");
    let kw_rev = String::from_str("_rev");
    if t == kw_id {
        Ok((Source::DocId, j))
    } else if t == kw_rev {
        Ok((Source::Rev, j))
    } else {
        Ok((Source::Prop(t), j))
    }
}

/// Reads one selector at `i`.
fn parse_selector_x(s: &str, n: usize, i: usize) -> (r: Result<(Selector, usize), usize>)
    requires
        n == s@.len(),
        i <= n,
    ensures
        (match r {
            Ok(p) => spec_selector(s@, i as int) == Ok::<(SelectorModel, int), int>(
                (p.0@, p.1 as int),
            ) && i < p.1 <= n,
            Err(e) => spec_selector(s@, i as int) == Err::<(SelectorModel, int), int>(e as int)
                && e <= n,
        }),
{
    proof {
        lemma_selector_bounds(s@, i as int);
    }
    let src = parse_source_x(s, n, i);
    match src {
        Err(e) => Err(e),
        Ok((source, j)) => {
            let j1 = skip_ws_x(s, n, j);
            if is_as_at_x(s, n, j1) {
                let j2 = skip_ws_x(s, n, j1 + 2);
                let (t, k) = parse_ident_x(s, n, j2);
                if t.as_str().is_empty() {
                    proof {
                        assert(spec_ident(s@, j2 as int).0.len() == 0);
                    }
                    Err(j2)
                } else {
                    proof {
                        assert(spec_ident(s@, j2 as int).0.len() > 0);
                    }
                    Ok((Selector { source, alias: t }, k))
                }
            } else {
                let alias: String = match &source {
                    Source::DocId => {
                        let a = String::from_str("_id");
                        proof {
                            reveal_strlit("_id");
                            assert(a@ =~= seq!['_', 'i', 'd']);
                        }
                        a
                    },
                    Source::Rev => {
                        let a = String::from_str("_rev");
                        proof {
                            reveal_strlit("_rev");
                            assert(a@ =~= seq!['_', 'r', 'e', 'v']);
                        }
                        a
                    },
                    Source::All => {
                        let a = String::from_str("*");
                        proof {
                            reveal_strlit("*");
                            assert(a@ =~= seq!['*']);
                        }
                        a
                    },
                    Source::Prop(p) => p.clone(),
                };
                proof {
                    assert(alias@ == default_alias(source@));
                }
                Ok((Selector { source, alias }, j))
            }
        },
    }
}

/// Reads the selector list at `i`.
fn parse_selectors_x(s: &str, n: usize, i: usize) -> (r: Result<(Vec<Selector>, usize), usize>)
    requires
        n == s@.len(),
        i <= n,
    ensures
        (match r {
            Ok(p) => spec_selectors(s@, i as int) == Ok::<(Seq<SelectorModel>, int), int>(
                (sels_view(p.0@), p.1 as int),
            ) && p.1 <= n,
            Err(e) => spec_selectors(s@, i as int) == Err::<(Seq<SelectorModel>, int), int>(
                e as int,
            ) && e <= n,
        }),
{
    let mut acc: Vec<Selector> = Vec::new();
    let mut cur = i;
    proof {
        assert(sels_view(acc@) =~= Seq::<SelectorModel>::empty());
    }
    loop
        invariant
            i <= cur <= n,
            n == s@.len(),
            (match spec_selectors(s@, cur as int) {
                Ok((sels, m)) => spec_selectors(s@, i as int) == Ok::<
                    (Seq<SelectorModel>, int),
                    int,
                >((sels_view(acc@) + sels, m)),
                Err(e) => spec_selectors(s@, i as int) == Err::<(Seq<SelectorModel>, int), int>(e),
            }),
        decreases n - cur,
    {
        let pr = parse_selector_x(s, n, cur);
        match pr {
            Err(e) => {
                return Err(e);
            },
            Ok((sel, j)) => {
                let ghost selm = sel@;
                let k = skip_ws_x(s, n, j);
                if k < n && s.get_char(k) == ',' {
                    let ghost accpre = acc@;
                    acc.push(sel);
                    proof {
                        assert(sels_view(acc@) =~= sels_view(accpre).push(selm));
                        if spec_selectors(s@, k + 1 as int) is Ok {
                            let (ps, m) = spec_selectors(s@, k + 1 as int)->Ok_0;
                            assert(sels_view(accpre) + (seq![selm] + ps) =~= sels_view(acc@) + ps);
                        }
                    }
                    cur = k + 1;
                } else {
                    let ghost accpre = acc@;
                    acc.push(sel);
                    proof {
                        assert(sels_view(acc@) =~= sels_view(accpre).push(selm));
                        assert(spec_selectors(s@, cur as int) == Ok::<
                            (Seq<SelectorModel>, int),
                            int,
                        >((seq![selm], k as int)));
                        assert(sels_view(accpre) + seq![selm] =~= sels_view(acc@));
                    }
                    return Ok((acc, k));
                }
            },
        }
    }
}

/// Reads a `'...'` literal body at `i`.
fn parse_lit_body_x(s: &str, n: usize, i: usize) -> (r: Result<(String, usize), usize>)
    requires
        n == s@.len(),
        i <= n,
    ensures
        (match r {
            Ok(p) => spec_lit_body(s@, i as int) == Ok::<(Seq<char>, int), int>(
                (p.0@, p.1 as int),
            ) && p.1 <= n,
            Err(e) => spec_lit_body(s@, i as int) == Err::<(Seq<char>, int), int>(e as int) && e
                <= n,
        }),
{
    let mut out = String::new();
    let mut j = i;
    proof {
        lemma_lit_body_bounds(s@, i as int);
        if spec_lit_body(s@, i as int) is Ok {
            let (t, m) = spec_lit_body(s@, i as int)->Ok_0;
            assert(out@ + t =~= t);
        }
    }
    loop
        invariant
            i <= j <= n,
            n == s@.len(),
            (match spec_lit_body(s@, j as int) {
                Ok((t, m)) => spec_lit_body(s@, i as int) == Ok::<(Seq<char>, int), int>(
                    (out@ + t, m),
                ) && m <= n,
                Err(e) => spec_lit_body(s@, i as int) == Err::<(Seq<char>, int), int>(e) && e
                    <= n,
            }),
        decreases n - j,
    {
        proof {
            lemma_lit_body_bounds(s@, j as int);
        }
        if j >= n {
            return Err(n);
        }
        let c = s.get_char(j);
        if c == '\'' {
            proof {
                assert(out@ + Seq::<char>::empty() =~= out@);
            }
            return Ok((out, j + 1));
        }
        let ghost pre = out@;
        crate::text::push_char(&mut out, c);
        proof {
            lemma_lit_body_bounds(s@, j + 1 as int);
            if spec_lit_body(s@, j + 1 as int) is Ok {
                let (t, m) = spec_lit_body(s@, j + 1 as int)->Ok_0;
                assert(out@ + t =~= pre + (seq![c] + t));
            }
        }
        j = j + 1;
    }
}

pub proof fn lemma_lit_body_bounds(s: Seq<char>, i: int)
    ensures
        spec_lit_body(s, i) matches Ok(p) ==> i < p.1 <= s.len(),
        spec_lit_body(s, i) matches Err(e) ==> 0 <= e <= s.len(),
    decreases s.len() - i,
{
    if 0 <= i < s.len() && s[i] != '\'' {
        lemma_lit_body_bounds(s, i + 1);
    }
}

/// Reads the filter clause just past the `WHERE` keyword.
fn parse_where_x(s: &str, n: usize, i: usize) -> (r: Result<((String, String), usize), usize>)
    requires
        n == s@.len(),
        i <= n,
    ensures
        (match r {
            Ok(p) => spec_where(s@, i as int) == Ok::<((Seq<char>, Seq<char>), int), int>(
                ((p.0.0@, p.0.1@), p.1 as int),
            ) && p.1 <= n,
            Err(e) => spec_where(s@, i as int) == Err::<((Seq<char>, Seq<char>), int), int>(
                e as int,
            ) && e <= n,
        }),
{
    let i1 = skip_ws_x(s, n, i);
    let (k, j) = parse_ident_x(s, n, i1);
    if k.as_str().is_empty() {
        proof {
            assert(spec_ident(s@, i1 as int).0.len() == 0);
        }
        return Err(i1);
    }
    proof {
        assert(spec_ident(s@, i1 as int).0.len() > 0);
    }
    let j1 = skip_ws_x(s, n, j);
    if j1 < n && s.get_char(j1) == '=' {
        let j2 = skip_ws_x(s, n, j1 + 1);
        if j2 < n && s.get_char(j2) == '\'' {
            let lit = parse_lit_body_x(s, n, j2 + 1);
            match lit {
                Err(e) => Err(e),
                Ok((v, m)) => Ok(((k, v), m)),
            }
        } else {
            Err(j2)
        }
    } else {
        Err(j1)
    }
}

/// Compiles a query string; a malformed one gives the position at which
/// the parse stopped.
fn parse_query_x(s: &str) -> (r: Result<Query, usize>)
    ensures
        (match r {
            Ok(q) => spec_query(s@) == Ok::<QueryModel, int>(q@),
            Err(e) => spec_query(s@) == Err::<QueryModel, int>(e as int),
        }),
{
    let n = s.unicode_len();
    let i0 = skip_ws_x(s, n, 0);
    if !is_select_at_x(s, n, i0) {
        return Err(i0);
    }
    let sels = parse_selectors_x(s, n, i0 + 6);
    match sels {
        Err(e) => Err(e),
        Ok((selectors, j)) => {
            if j == n {
                let q = Query { selectors, filter: None };
                proof {
                    assert(q@ =~= spec_query(s@)->Ok_0);
                }
                Ok(q)
            } else if is_where_at_x(s, n, j) {
                let w = parse_where_x(s, n, j + 5);
                match w {
                    Err(e) => Err(e),
                    Ok((f, m)) => {
                        let t = skip_ws_x(s, n, m);
                        if t == n {
                            let q = Query { selectors, filter: Some(f) };
                            proof {
                                assert(q@ =~= spec_query(s@)->Ok_0);
                            }
                            Ok(q)
                        } else {
                            Err(t)
                        }
                    },
                }
            } else {
                Err(j)
            }
        },
    }
}

/// What one column holds for one record.
pub open spec fn eval_source(src: SourceModel, d: DocModel) -> ColumnValueModel {
    match src {
        SourceModel::DocId => ColumnValueModel::Scalar(d.id),
        SourceModel::Rev => ColumnValueModel::Scalar(dec_str(d.sequence as nat)),
        SourceModel::All => ColumnValueModel::Compound(ser_props(d.props)),
        SourceModel::Prop(p) => ColumnValueModel::Scalar(
            match obj_get(d.props, p) {
                Some(v) => v,
                None => Seq::empty(),
            },
        ),
    }
}

/// The row a query produces for one record.
pub open spec fn row_of(q: QueryModel, d: DocModel) -> RowModel {
    q.selectors.map_values(|sel: SelectorModel| (sel.alias, eval_source(sel.source, d)))
}

/// Whether a record contributes a row: it is live (not a tombstone) and,
/// under a filter, holds exactly the filtered value.
pub open spec fn doc_matches(q: QueryModel, d: DocModel) -> bool {
    d.props.len() > 0 && (match q.filter {
        None => true,
        Some(f) => obj_get(d.props, f.0) == Some(f.1),
    })
}

/// The rows a query produces over the records, in storage order.
pub open spec fn rows_of(q: QueryModel, docs: Seq<DocModel>) -> Seq<RowModel>
    decreases docs.len(),
{
    if docs.len() == 0 {
        Seq::empty()
    } else {
        (if doc_matches(q, docs[0]) {
            seq![row_of(q, docs[0])]
        } else {
            Seq::empty()
        }) + rows_of(q, docs.skip(1))
    }
}

pub proof fn lemma_rows_of_snoc(q: QueryModel, docs: Seq<DocModel>, d: DocModel)
    ensures
        doc_matches(q, d) ==> rows_of(q, docs.push(d)) == rows_of(q, docs) + seq![row_of(q, d)],
        !doc_matches(q, d) ==> rows_of(q, docs.push(d)) == rows_of(q, docs),
    decreases docs.len(),
{
    if docs.len() == 0 {
        assert(docs.push(d)[0] == d);
        assert(docs.push(d).skip(1) =~= Seq::<DocModel>::empty());
        assert(rows_of(q, Seq::<DocModel>::empty()) == Seq::<RowModel>::empty());
        assert(rows_of(q, docs) == Seq::<RowModel>::empty());
        assert(rows_of(q, docs.push(d)) == (if doc_matches(q, d) {
            seq![row_of(q, d)]
        } else {
            Seq::<RowModel>::empty()
        }) + Seq::<RowModel>::empty());
        if doc_matches(q, d) {
            assert(seq![row_of(q, d)] + Seq::<RowModel>::empty() =~= Seq::<RowModel>::empty()
                + seq![row_of(q, d)]);
        } else {
            assert(Seq::<RowModel>::empty() + Seq::<RowModel>::empty()
                =~= Seq::<RowModel>::empty());
        }
    } else {
        assert(docs.push(d)[0] == docs[0]);
        assert(docs.push(d).skip(1) =~= docs.skip(1).push(d));
        lemma_rows_of_snoc(q, docs.skip(1), d);
        let head: Seq<RowModel> = if doc_matches(q, docs[0]) {
            seq![row_of(q, docs[0])]
        } else {
            Seq::empty()
        };
        assert(rows_of(q, docs.push(d)) == head + rows_of(q, docs.skip(1).push(d)));
        assert(rows_of(q, docs) == head + rows_of(q, docs.skip(1)));
        if doc_matches(q, d) {
            assert(rows_of(q, docs.skip(1).push(d)) == rows_of(q, docs.skip(1)) + seq![row_of(
                q,
                d,
            )]);
            assert(head + (rows_of(q, docs.skip(1)) + seq![row_of(q, d)]) =~= (head + rows_of(
                q,
                docs.skip(1),
            )) + seq![row_of(q, d)]);
        }
    }
}

/// A secondary index never changes what a query returns: the rows depend
/// on the stored records alone, and recording an index leaves the records
/// untouched.
pub proof fn lemma_index_preserves_query_results(
    db: DbModel,
    name: Seq<char>,
    expr: Seq<char>,
    q: QueryModel,
)
    ensures
        rows_of(q, (DbModel { indexes: obj_set(db.indexes, name, expr), ..db }).docs) == rows_of(
            q,
            db.docs,
        ),
{
}

impl Query {
    /// Whether a record contributes a row to this query.
    fn matches_doc(&self, d: &Document) -> (r: bool)
        ensures
            r == doc_matches(self@, d@),
    {
        proof {
            lemma_doc_view(*d);
        }
        if d.props.len() == 0 {
            return false;
        }
        match &self.filter {
            None => true,
            Some(f) => {
                proof {
                    lemma_find_key_idx(d@.props, f.0@);
                }
                let found = find_key(&d.props, &f.0);
                match found {
                    None => false,
                    Some(i) => {
                        proof {
                            assert(d@.props[i as int] == (d.props@[i as int].0@, d.props@[i as int].1@));
                        }
                        d.props[i].1 == f.1
                    },
                }
            },
        }
    }

    /// The row this query produces for one record.
    fn eval_row(&self, d: &Document) -> (row: Vec<(String, ColumnValue)>)
        ensures
            row_view(row@) == row_of(self@, d@),
    {
        proof {
            lemma_doc_view(*d);
        }
        let mut row: Vec<(String, ColumnValue)> = Vec::new();
        let mut i: usize = 0;
        proof {
            assert(row_view(row@) =~= row_of(self@, d@).take(0));
        }
        while i < self.selectors.len()
            invariant
                i <= self.selectors.len(),
                row_of(self@, d@).len() == self.selectors.len(),
                row_view(row@) == row_of(self@, d@).take(i as int),
                d@ == (DocModel { id: d.id@, sequence: d.sequence, props: props_view(d.props@) }),
            decreases self.selectors.len() - i,
        {
            let sel = &self.selectors[i];
            let ghost selm = self@.selectors[i as int];
            proof {
                assert(selm == self.selectors@[i as int]@);
            }
            let alias = sel.alias.clone();
            let col: ColumnValue = match &sel.source {
                Source::DocId => ColumnValue::scalar(d.id.clone()),
                Source::Rev => ColumnValue::scalar(u64_to_dec(d.sequence)),
                Source::All => ColumnValue::compound(props_to_json(&d.props)),
                Source::Prop(p) => {
                    proof {
                        lemma_find_key_idx(d@.props, p@);
                    }
                    let found = find_key(&d.props, p);
                    match found {
                        Some(k) => {
                            proof {
                                assert(d@.props[k as int] == (
                                    d.props@[k as int].0@,
                                    d.props@[k as int].1@,
                                ));
                            }
                            ColumnValue::scalar(d.props[k].1.clone())
                        },
                        None => ColumnValue::scalar(String::new()),
                    }
                },
            };
            proof {
                assert(col@ == eval_source(selm.source, d@));
            }
            let ghost rowpre = row_view(row@);
            row.push((alias, col));
            proof {
                assert(row_view(row@) =~= rowpre.push((selm.alias, eval_source(selm.source, d@))));
                assert(row_of(self@, d@)[i as int] == (selm.alias, eval_source(selm.source, d@)));
                assert(row_of(self@, d@).take(i as int).push(row_of(self@, d@)[i as int]) =~= row_of(
                    self@,
                    d@,
                ).take(i + 1 as int));
            }
            i = i + 1;
        }
        proof {
            assert(row_of(self@, d@).take(self.selectors.len() as int) =~= row_of(self@, d@));
        }
        row
    }

    /// Runs the query against the session's records as they now stand.
    /// Each execution yields an independent, fresh cursor.  Errs exactly
    /// when the session is closed.
    pub fn execute(&self, database: &Database) -> (r: Result<ResultSet, CouchbaseLiteError>)
        ensures
            (if database@.open {
                r matches Ok(rs) && rs@ == (RsModel {
                    rows: rows_of(self@, database@.docs),
                    cursor: 0,
                })
            } else {
                r == Err::<ResultSet, CouchbaseLiteError>(
                    CouchbaseLiteError::CannotExecuteQuery(spec_engine_error(CODE_NOT_OPEN)),
                )
            }),
    {
        if !database.is_open_x() {
            return Err(CouchbaseLiteError::CannotExecuteQuery(engine_error(CODE_NOT_OPEN)));
        }
        let docs = database.docs_ref();
        let ghost dm = docs_view(docs@);
        let mut rows: Vec<Vec<(String, ColumnValue)>> = Vec::new();
        let mut i: usize = 0;
        proof {
            assert(rows_view(rows@) =~= rows_of(self@, dm.take(0)));
        }
        while i < docs.len()
            invariant
                i <= docs.len(),
                dm == docs_view(docs@),
                dm == database@.docs,
                dm.len() == docs.len(),
                rows_view(rows@) == rows_of(self@, dm.take(i as int)),
            decreases docs.len() - i,
        {
            proof {
                assert(dm[i as int] == docs@[i as int]@);
                lemma_rows_of_snoc(self@, dm.take(i as int), dm[i as int]);
                assert(dm.take(i as int).push(dm[i as int]) =~= dm.take(i + 1 as int));
            }
            if self.matches_doc(&docs[i]) {
                let row = self.eval_row(&docs[i]);
                let ghost rowspre = rows_view(rows@);
                rows.push(row);
                proof {
                    assert(rows_view(rows@) =~= rowspre.push(row_of(self@, dm[i as int])));
                    assert(rowspre.push(row_of(self@, dm[i as int])) =~= rowspre + seq![row_of(
                        self@,
                        dm[i as int],
                    )]);
                }
            }
            i = i + 1;
        }
        proof {
            assert(dm.take(docs.len() as int) =~= dm);
        }
        Ok(ResultSet::from_rows(rows))
    }
}

impl Database {
    /// Compiles the query string at once; a malformed string is reported
    /// as a compile error whose context word is the character position at
    /// which the parse stopped, a closed session as a closed-resource
    /// error.  The compiled query is immutable and bound to no session
    /// state.
    pub fn new_query(&self, n1ql_query: String) -> (r: Result<Query, CouchbaseLiteError>)
        ensures
            (if !self@.open {
                r == Err::<Query, CouchbaseLiteError>(
                    CouchbaseLiteError::CannotCreateNewQuery(spec_engine_error(CODE_NOT_OPEN)),
                )
            } else {
                match spec_query(n1ql_query@) {
                    Ok(qm) => r matches Ok(q) && q@ == qm,
                    Err(pos) => r == Err::<Query, CouchbaseLiteError>(
                        CouchbaseLiteError::CannotCreateNewQuery(
                            spec_engine_error_at(CODE_PARSE, pos as u32),
                        ),
                    ),
                }
            }),
    {
        if !self.is_open_x() {
            return Err(CouchbaseLiteError::CannotCreateNewQuery(engine_error(CODE_NOT_OPEN)));
        }
        let parsed = parse_query_x(n1ql_query.as_str());
        match parsed {
            Ok(q) => Ok(q),
            Err(pos) => {
                let info: u32 = #[verifier::truncate] (pos as u32);
                Err(CouchbaseLiteError::CannotCreateNewQuery(engine_error_at(CODE_PARSE, info)))
            },
        }
    }
}

} // verus!
