//! The database session: an exclusive, move-only handle on an open store.
//! It owns the stored records, assigns revision sequence numbers, answers
//! fetches, brackets batches atomically, and closes idempotently.

use vstd::prelude::*;
use vstd::pervasive::VecAdditionalExecFns;
use vstd::string::StringExecFns;

use crate::document::doc_wf;
use crate::document::lemma_doc_view;
use crate::document::DocModel;
use crate::document::Document;
use crate::errors::engine_error;
use crate::errors::spec_engine_error;
use crate::errors::CouchbaseLiteError;
use crate::errors::CODE_BATCH;
use crate::errors::CODE_INVALID_INDEX;
use crate::errors::CODE_INVALID_NAME;
use crate::errors::CODE_NOT_FOUND;
use crate::errors::CODE_NOT_OPEN;
use crate::json::find_key;
use crate::json::lemma_find_key_idx;
use crate::json::lemma_obj_set_unique;
use crate::json::obj_set;
use crate::json::props_view;
use crate::json::unique_keys;
use crate::json::valid_index_expr;
use crate::json::valid_index_expr_x;
use crate::json::PropsModel;

verus! {

/// The mathematical content of a database session.
#[verifier::ext_equal]
pub struct DbModel {
    pub directory: Seq<char>,
    pub name: Seq<char>,
    pub path: Seq<char>,
    pub open: bool,
    pub docs: Seq<DocModel>,
    pub last_seq: u64,
    pub indexes: PropsModel,
}

/// The view of a stored record list.
pub open spec fn docs_view(ds: Seq<Document>) -> Seq<DocModel> {
    ds.map_values(|d: Document| d@)
}

/// The store's filesystem path: `{directory}/{name}.cblite2/`.
pub open spec fn db_path(directory: Seq<char>, name: Seq<char>) -> Seq<char> {
    directory + seq!['/'] + name + seq!['.', 'c', 'b', 'l', 'i', 't', 'e', '2', '/']
}

/// The characters a database name may hold.
pub open spec fn is_db_name_char(c: char) -> bool {
    ('a' <= c && c <= 'z') || ('A' <= c && c <= 'Z') || ('0' <= c && c <= '9') || c == '_' || c
        == '-'
}

/// A database name is non-empty and made of letters, digits, `_` and `-`.
pub open spec fn valid_db_name(name: Seq<char>) -> bool {
    name.len() > 0 && forall|j: int| 0 <= j < name.len() ==> is_db_name_char(#[trigger] name[j])
}

/// The index of the record with the given id, or `-1` when none exists.
pub open spec fn find_doc_idx(docs: Seq<DocModel>, id: Seq<char>) -> int
    decreases docs.len(),
{
    if docs.len() == 0 {
        -1
    } else if docs[0].id == id {
        0
    } else {
        let r = find_doc_idx(docs.skip(1), id);
        if r == -1 {
            -1
        } else {
            r + 1
        }
    }
}

pub proof fn lemma_find_doc_idx(docs: Seq<DocModel>, id: Seq<char>)
    ensures
        -1 <= find_doc_idx(docs, id) < docs.len(),
        find_doc_idx(docs, id) >= 0 ==> docs[find_doc_idx(docs, id)].id == id,
        forall|j: int|
            0 <= j < docs.len() && (j < find_doc_idx(docs, id) || find_doc_idx(docs, id) == -1)
                ==> (#[trigger] docs[j]).id != id,
    decreases docs.len(),
{
    if docs.len() > 0 && docs[0].id != id {
        lemma_find_doc_idx(docs.skip(1), id);
        assert(forall|j: int| 1 <= j < docs.len() ==> #[trigger] docs[j] == docs.skip(1)[j - 1]);
    }
}

/// No two stored records share an id.
pub open spec fn unique_doc_ids(docs: Seq<DocModel>) -> bool {
    forall|a: int, b: int|
        0 <= a < b < docs.len() ==> (#[trigger] docs[a]).id != (#[trigger] docs[b]).id
}

/// Every stored record is well-formed and its sequence lies between 1 and
/// the session's last assigned sequence: the store assigned it at a save
/// or a delete, so it is never the unsaved 0.
pub open spec fn docs_ok(docs: Seq<DocModel>, last_seq: u64) -> bool {
    forall|j: int|
        0 <= j < docs.len() ==> 1 <= (#[trigger] docs[j]).sequence <= last_seq && doc_wf(docs[j])
}

/// A well-formed session.
pub open spec fn db_wf(db: DbModel) -> bool {
    unique_doc_ids(db.docs) && docs_ok(db.docs, db.last_seq) && unique_keys(db.indexes)
        && db.path == db_path(db.directory, db.name)
}

/// The number of live (non-tombstone) records.
pub open spec fn live_count(docs: Seq<DocModel>) -> nat
    decreases docs.len(),
{
    if docs.len() == 0 {
        0
    } else {
        (if docs[0].props.len() > 0 {
            1nat
        } else {
            0nat
        }) + live_count(docs.skip(1))
    }
}

pub proof fn lemma_live_count_snoc(docs: Seq<DocModel>, d: DocModel)
    ensures
        live_count(docs.push(d)) == live_count(docs) + (if d.props.len() > 0 {
            1nat
        } else {
            0nat
        }),
    decreases docs.len(),
{
    if docs.len() == 0 {
        assert(docs.push(d)[0] == d);
        assert(docs.push(d).skip(1) =~= Seq::<DocModel>::empty());
        assert(live_count(docs.push(d)) == (if d.props.len() > 0 {
            1nat
        } else {
            0nat
        }) + live_count(Seq::<DocModel>::empty()));
        assert(live_count(Seq::<DocModel>::empty()) == 0);
        assert(live_count(docs) == 0);
    } else {
        assert(docs.push(d)[0] == docs[0]);
        assert(docs.push(d).skip(1) =~= docs.skip(1).push(d));
        lemma_live_count_snoc(docs.skip(1), d);
        assert(live_count(docs.push(d)) == (if docs[0].props.len() > 0 {
            1nat
        } else {
            0nat
        }) + live_count(docs.skip(1).push(d)));
        assert(live_count(docs) == (if docs[0].props.len() > 0 {
            1nat
        } else {
            0nat
        }) + live_count(docs.skip(1)));
    }
}

/// What saving `d` does to the session: rejected when the session is closed
/// or the property bag is empty; otherwise the store assigns the next
/// sequence number and keeps the record under its id, replacing in place.
pub open spec fn spec_save(db: DbModel, d: DocModel) -> Result<
    (DbModel, DocModel),
    CouchbaseLiteError,
> {
    if !db.open {
        Err(CouchbaseLiteError::CannotSaveDocument(spec_engine_error(CODE_NOT_OPEN)))
    } else if d.props.len() == 0 {
        Err(CouchbaseLiteError::CannotSaveEmptyDocument)
    } else {
        let new_seq = (db.last_seq + 1) as u64;
        let saved = DocModel { id: d.id, sequence: new_seq, props: d.props };
        let i = find_doc_idx(db.docs, d.id);
        let docs2 = if i >= 0 {
            db.docs.update(i, saved)
        } else {
            db.docs.push(saved)
        };
        Ok((DbModel { docs: docs2, last_seq: new_seq, ..db }, saved))
    }
}

/// What deleting `d` does to the session: an error when the session is
/// closed or no record has `d`'s id; otherwise the record becomes a
/// tombstone (empty property bag) under a fresh sequence number.
pub open spec fn spec_delete_doc(db: DbModel, d: DocModel) -> Result<
    (DbModel, bool),
    CouchbaseLiteError,
> {
    if !db.open {
        Err(CouchbaseLiteError::CannotDeleteDocument(spec_engine_error(CODE_NOT_OPEN)))
    } else {
        let i = find_doc_idx(db.docs, d.id);
        if i == -1 {
            Err(CouchbaseLiteError::CannotDeleteDocument(spec_engine_error(CODE_NOT_FOUND)))
        } else {
            let new_seq = (db.last_seq + 1) as u64;
            let tomb = DocModel { id: d.id, sequence: new_seq, props: Seq::empty() };
            Ok((DbModel { docs: db.docs.update(i, tomb), last_seq: new_seq, ..db }, true))
        }
    }
}

/// What a fetch returns: the record with the given id, unless the session
/// is closed, no record exists, or the record is a tombstone.  A deleted id
/// and a never-created id are indistinguishable here: both give `None`.
pub open spec fn spec_get(db: DbModel, id: Seq<char>) -> Option<DocModel> {
    if !db.open {
        None
    } else {
        let i = find_doc_idx(db.docs, id);
        if i == -1 {
            None
        } else if db.docs[i].props.len() == 0 {
            None
        } else {
            Some(db.docs[i])
        }
    }
}

pub proof fn lemma_spec_save_wf(db: DbModel, d: DocModel)
    requires
        db_wf(db),
        doc_wf(d),
        db.last_seq < u64::MAX,
    ensures
        spec_save(db, d) matches Ok(p) ==> db_wf(p.0) && doc_wf(p.1) && p.0.last_seq
            == db.last_seq + 1,
{
    if db.open && d.props.len() > 0 {
        lemma_find_doc_idx(db.docs, d.id);
        let i = find_doc_idx(db.docs, d.id);
        let new_seq = (db.last_seq + 1) as u64;
        let saved = DocModel { id: d.id, sequence: new_seq, props: d.props };
        if i >= 0 {
            let docs2 = db.docs.update(i, saved);
            assert(forall|j: int|
                0 <= j < docs2.len() && j != i ==> #[trigger] docs2[j] == db.docs[j]);
            assert(docs2[i] == saved);
            assert(db.docs[i].id == d.id);
            assert(forall|j: int|
                0 <= j < docs2.len() ==> (#[trigger] docs2[j]).id == db.docs[j].id);
            assert(unique_doc_ids(docs2));
            assert(docs_ok(docs2, new_seq));
        } else {
            let docs2 = db.docs.push(saved);
            assert(forall|j: int| 0 <= j < db.docs.len() ==> #[trigger] docs2[j] == db.docs[j]);
            assert(docs2[db.docs.len() as int] == saved);
            assert forall|a: int, b: int| 0 <= a < b < docs2.len() implies (#[trigger] docs2[a]).id
                != (#[trigger] docs2[b]).id by {
                if b == db.docs.len() {
                    assert(docs2[a] == db.docs[a]);
                    assert(db.docs[a].id != d.id);
                } else {
                    assert(docs2[a] == db.docs[a]);
                    assert(docs2[b] == db.docs[b]);
                }
            }
            assert(docs_ok(docs2, new_seq));
        }
    }
}

pub proof fn lemma_spec_delete_wf(db: DbModel, d: DocModel)
    requires
        db_wf(db),
        db.last_seq < u64::MAX,
    ensures
        spec_delete_doc(db, d) matches Ok(p) ==> db_wf(p.0) && p.0.last_seq == db.last_seq + 1,
{
    if db.open {
        lemma_find_doc_idx(db.docs, d.id);
        let i = find_doc_idx(db.docs, d.id);
        if i >= 0 {
            let new_seq = (db.last_seq + 1) as u64;
            let tomb = DocModel { id: d.id, sequence: new_seq, props: Seq::empty() };
            let docs2 = db.docs.update(i, tomb);
            assert(forall|j: int|
                0 <= j < docs2.len() && j != i ==> #[trigger] docs2[j] == db.docs[j]);
            assert(docs2[i] == tomb);
            assert(db.docs[i].id == d.id);
            assert(forall|j: int|
                0 <= j < docs2.len() ==> (#[trigger] docs2[j]).id == db.docs[j].id);
            assert(unique_doc_ids(docs2));
            assert(docs_ok(docs2, new_seq));
        }
    }
}

/// Saving a document with an empty property bag never succeeds, whatever
/// the session's prior state; on an open session the failure is the
/// dedicated empty-document error, raised before the store is touched.
pub proof fn lemma_save_empty_rejected(db: DbModel, d: DocModel)
    requires
        d.props.len() == 0,
    ensures
        spec_save(db, d) is Err,
        db.open ==> spec_save(db, d) == Err::<(DbModel, DocModel), CouchbaseLiteError>(
            CouchbaseLiteError::CannotSaveEmptyDocument,
        ),
{
}

/// A successful save hands back the persisted record: it carries the
/// saved properties under the saved id, its sequence is the next one the
/// store assigns — strictly above the input document's own — and a fetch
/// of the id straight after returns exactly that record.
pub proof fn lemma_save_round_trip(db: DbModel, d: DocModel)
    requires
        db_wf(db),
        db.last_seq < u64::MAX,
        d.sequence <= db.last_seq,
    ensures
        spec_save(db, d) matches Ok(p) ==> {
            &&& p.1.sequence == db.last_seq + 1
            &&& p.1.sequence > d.sequence
            &&& p.1.props == d.props
            &&& p.1.id == d.id
            &&& spec_get(p.0, d.id) == Some(p.1)
        },
{
    if db.open && d.props.len() > 0 {
        lemma_find_doc_idx(db.docs, d.id);
        let i = find_doc_idx(db.docs, d.id);
        let new_seq = (db.last_seq + 1) as u64;
        let saved = DocModel { id: d.id, sequence: new_seq, props: d.props };
        if i >= 0 {
            let docs2 = db.docs.update(i, saved);
            lemma_find_doc_idx(docs2, d.id);
            let fi2 = find_doc_idx(docs2, d.id);
            assert(docs2[i] == saved);
            assert(forall|j: int|
                0 <= j < docs2.len() && j != i ==> #[trigger] docs2[j] == db.docs[j]);
            if fi2 == -1 {
                assert(docs2[i].id != d.id);
                assert(false);
            } else if fi2 < i {
                assert(db.docs[fi2].id != d.id);
                assert(docs2[fi2].id == d.id);
                assert(docs2[fi2] == db.docs[fi2]);
                assert(false);
            } else if fi2 > i {
                assert(docs2[i].id != d.id);
                assert(false);
            }
            assert(fi2 == i);
        } else {
            let docs2 = db.docs.push(saved);
            lemma_find_doc_idx(docs2, d.id);
            let fi2 = find_doc_idx(docs2, d.id);
            assert(docs2[db.docs.len() as int] == saved);
            assert(forall|j: int| 0 <= j < db.docs.len() ==> #[trigger] docs2[j] == db.docs[j]);
            if fi2 == -1 {
                assert(docs2[db.docs.len() as int].id != d.id);
                assert(false);
            } else if fi2 < db.docs.len() {
                assert(docs2[fi2] == db.docs[fi2]);
                assert(db.docs[fi2].id != d.id);
                assert(docs2[fi2].id == d.id);
                assert(false);
            }
            assert(fi2 == db.docs.len());
        }
    }
}

/// A fetch cannot tell a deleted id from one never created: straight
/// after a successful delete the id fetches as `None`, exactly as an id
/// no record ever had does.
pub proof fn lemma_deleted_fetches_as_missing(db: DbModel, d: DocModel, id: Seq<char>)
    requires
        db_wf(db),
    ensures
        spec_delete_doc(db, d) matches Ok(p) ==> spec_get(p.0, d.id) is None,
        find_doc_idx(db.docs, id) == -1 ==> spec_get(db, id) is None,
{
    if db.open {
        lemma_find_doc_idx(db.docs, d.id);
        let i = find_doc_idx(db.docs, d.id);
        if i >= 0 {
            let new_seq = (db.last_seq + 1) as u64;
            let tomb = DocModel { id: d.id, sequence: new_seq, props: Seq::empty() };
            let docs2 = db.docs.update(i, tomb);
            lemma_find_doc_idx(docs2, d.id);
            let fi2 = find_doc_idx(docs2, d.id);
            assert(docs2[i] == tomb);
            assert(forall|j: int|
                0 <= j < docs2.len() && j != i ==> #[trigger] docs2[j] == db.docs[j]);
            if fi2 == -1 {
                assert(docs2[i].id != d.id);
                assert(false);
            } else if fi2 < i {
                assert(db.docs[fi2].id != d.id);
                assert(docs2[fi2].id == d.id);
                assert(docs2[fi2] == db.docs[fi2]);
                assert(false);
            } else if fi2 > i {
                assert(docs2[i].id != d.id);
                assert(false);
            }
            assert(fi2 == i);
            assert(docs2[i].props.len() == 0);
        }
    }
}

/// One write of a batch: save a document, or delete one.
pub enum BatchOp {
    Save(Document),
    Delete(Document),
}

/// What one batch write produced.
pub enum BatchOutcome {
    Saved(Document),
    Deleted(bool),
}

/// The model of a batch write.
pub enum OpModel {
    Save(DocModel),
    Delete(DocModel),
}

/// The model of a batch outcome.
#[verifier::ext_equal]
pub enum OutcomeModel {
    Saved(DocModel),
    Deleted(bool),
}

impl View for BatchOp {
    type V = OpModel;

    open spec fn view(&self) -> OpModel {
        match self {
            BatchOp::Save(d) => OpModel::Save(d@),
            BatchOp::Delete(d) => OpModel::Delete(d@),
        }
    }
}

impl View for BatchOutcome {
    type V = OutcomeModel;

    open spec fn view(&self) -> OutcomeModel {
        match self {
            BatchOutcome::Saved(d) => OutcomeModel::Saved(d@),
            BatchOutcome::Deleted(b) => OutcomeModel::Deleted(*b),
        }
    }
}

impl BatchOp {
    /// The document the write carries is well-formed.
    pub open spec fn wf(&self) -> bool {
        match self {
            BatchOp::Save(d) => d.wf(),
            BatchOp::Delete(d) => d.wf(),
        }
    }
}

/// The view of a batch write list.
pub open spec fn ops_view(ops: Seq<BatchOp>) -> Seq<OpModel> {
    ops.map_values(|o: BatchOp| o@)
}

/// The view of a batch outcome list.
pub open spec fn outs_view(outs: Seq<BatchOutcome>) -> Seq<OutcomeModel> {
    outs.map_values(|o: BatchOutcome| o@)
}

/// What applying the writes of a batch in order does to the session: the
/// final state and the outcomes, or the first failure.
pub open spec fn spec_apply_ops(db: DbModel, ops: Seq<OpModel>) -> Result<
    (DbModel, Seq<OutcomeModel>),
    CouchbaseLiteError,
>
    decreases ops.len(),
{
    if ops.len() == 0 {
        Ok((db, Seq::empty()))
    } else {
        let step = match ops[0] {
            OpModel::Save(d) => match spec_save(db, d) {
                Ok(p) => Ok((p.0, OutcomeModel::Saved(p.1))),
                Err(e) => Err(e),
            },
            OpModel::Delete(d) => match spec_delete_doc(db, d) {
                Ok(p) => Ok((p.0, OutcomeModel::Deleted(p.1))),
                Err(e) => Err(e),
            },
        };
        match step {
            Err(e) => Err(e),
            Ok((db2, out)) => match spec_apply_ops(db2, ops.skip(1)) {
                Err(e) => Err(e),
                Ok((db3, outs)) => Ok((db3, seq![out] + outs)),
            },
        }
    }
}

/// Copies a property list.
fn clone_props(props: &Vec<(String, String)>) -> (r: Vec<(String, String)>)
    ensures
        props_view(r@) == props_view(props@),
{
    let mut r: Vec<(String, String)> = Vec::new();
    let mut i: usize = 0;
    while i < props.len()
        invariant
            i <= props.len(),
            props_view(r@) == props_view(props@).take(i as int),
        decreases props.len() - i,
    {
        let ghost pre = props_view(r@);
        r.push((props[i].0.clone(), props[i].1.clone()));
        proof {
            assert(props_view(r@) =~= pre.push((props@[i as int].0@, props@[i as int].1@)));
            assert(props_view(props@).take(i + 1 as int) =~= props_view(props@).take(
                i as int,
            ).push((props@[i as int].0@, props@[i as int].1@)));
        }
        i = i + 1;
    }
    proof {
        assert(props_view(props@).take(props.len() as int) =~= props_view(props@));
    }
    r
}

/// Copies a document.
fn clone_doc(d: &Document) -> (r: Document)
    ensures
        r@ == d@,
{
    let r = Document { id: d.id.clone(), sequence: d.sequence, props: clone_props(&d.props) };
    proof {
        lemma_doc_view(*d);
        lemma_doc_view(r);
        assert(r@ =~= d@);
    }
    r
}

/// Copies a record list.
fn clone_docs(docs: &Vec<Document>) -> (r: Vec<Document>)
    ensures
        docs_view(r@) == docs_view(docs@),
{
    let mut r: Vec<Document> = Vec::new();
    let mut i: usize = 0;
    while i < docs.len()
        invariant
            i <= docs.len(),
            docs_view(r@) == docs_view(docs@).take(i as int),
        decreases docs.len() - i,
    {
        let ghost pre = docs_view(r@);
        r.push(clone_doc(&docs[i]));
        proof {
            assert(docs_view(r@) =~= pre.push(docs@[i as int]@));
            assert(docs_view(docs@).take(i + 1 as int) =~= docs_view(docs@).take(i as int).push(
                docs@[i as int]@,
            ));
        }
        i = i + 1;
    }
    proof {
        assert(docs_view(docs@).take(docs.len() as int) =~= docs_view(docs@));
    }
    r
}

/// The position of the record with the given id.
fn find_doc_index(docs: &Vec<Document>, id: &String) -> (r: Option<usize>)
    ensures
        (match r {
            Some(i) => i < docs.len() && find_doc_idx(docs_view(docs@), id@) == i,
            None => find_doc_idx(docs_view(docs@), id@) == -1,
        }),
{
    let ghost m = docs_view(docs@);
    let mut i: usize = 0;
    while i < docs.len()
        invariant
            m == docs_view(docs@),
            m.len() == docs.len(),
            i <= docs.len(),
            forall|j: int| 0 <= j < i ==> (#[trigger] m[j]).id != id@,
        decreases docs.len() - i,
    {
        proof {
            assert(m[i as int] == docs@[i as int]@);
            lemma_doc_view(docs@[i as int]);
        }
        if docs[i].id == *id {
            proof {
                lemma_find_doc_idx(m, id@);
                let fi = find_doc_idx(m, id@);
                if fi == -1 {
                    assert(m[i as int].id != id@);
                } else if fi < i {
                    assert(m[fi].id != id@);
                    assert(m[fi].id == id@);
                } else if fi > i {
                    assert(m[i as int].id != id@);
                }
            }
            return Some(i);
        }
        proof {
            assert(m[i as int].id != id@);
        }
        i = i + 1;
    }
    proof {
        lemma_find_doc_idx(m, id@);
        let fi = find_doc_idx(m, id@);
        if fi >= 0 {
            assert(m[fi].id == id@);
            assert(m[fi].id != id@);
        }
    }
    None
}

/// An exclusive session on an open store.  The handle is move-only: one
/// logical session has exactly one authoritative open/closed state.
pub struct Database {
    directory: String,
    name: String,
    path: String,
    open: bool,
    docs: Vec<Document>,
    last_seq: u64,
    indexes: Vec<(String, String)>,
}

impl View for Database {
    type V = DbModel;

    closed spec fn view(&self) -> DbModel {
        DbModel {
            directory: self.directory@,
            name: self.name@,
            path: self.path@,
            open: self.open,
            docs: docs_view(self.docs@),
            last_seq: self.last_seq,
            indexes: props_view(self.indexes@),
        }
    }
}

impl Database {
    /// The session is well-formed.
    pub open spec fn wf(&self) -> bool {
        db_wf(self@)
    }

    /// Opens (creating if absent) the store `{directory}/{name}.cblite2/`.
    /// Succeeds exactly on valid names; the fresh session is open, holds no
    /// records, and has assigned no sequence number.
    pub fn open(directory: String, name: &str) -> (r: Result<Database, CouchbaseLiteError>)
        ensures
            (if valid_db_name(name@) {
                r matches Ok(db) && db.wf() && db@ == (DbModel {
                    directory: directory@,
                    name: name@,
                    path: db_path(directory@, name@),
                    open: true,
                    docs: Seq::empty(),
                    last_seq: 0,
                    indexes: Seq::empty(),
                })
            } else {
                r == Err::<Database, CouchbaseLiteError>(
                    CouchbaseLiteError::CannotOpenDatabase(spec_engine_error(CODE_INVALID_NAME)),
                )
            }),
    {
        let n = name.unicode_len();
        if n == 0 {
            proof {
                assert(!valid_db_name(name@));
            }
            return Err(CouchbaseLiteError::CannotOpenDatabase(engine_error(CODE_INVALID_NAME)));
        }
        let mut i: usize = 0;
        while i < n
            invariant
                n == name@.len(),
                i <= n,
                forall|j: int| 0 <= j < i ==> is_db_name_char(#[trigger] name@[j]),
            decreases n - i,
        {
            let c = name.get_char(i);
            let ok = ('a' <= c && c <= 'z') || ('A' <= c && c <= 'Z') || ('0' <= c && c <= '9')
                || c == '_' || c == '-';
            if !ok {
                proof {
                    assert(!is_db_name_char(name@[i as int]));
                }
                return Err(
                    CouchbaseLiteError::CannotOpenDatabase(engine_error(CODE_INVALID_NAME)),
                );
            }
            i = i + 1;
        }
        let mut path = directory.clone();
        path.append("/");
        path.append(name);
        path.append(".cblite2/");
        proof {
            reveal_strlit("/");
            reveal_strlit(".cblite2/");
            assert(path@ =~= db_path(directory@, name@));
        }
        let db = Database {
            directory,
            name: name.to_owned(),
            path,
            open: true,
            docs: Vec::new(),
            last_seq: 0,
            indexes: Vec::new(),
        };
        proof {
            assert(docs_view(db.docs@) =~= Seq::<DocModel>::empty());
            assert(props_view(db.indexes@) =~= Seq::<(Seq<char>, Seq<char>)>::empty());
            assert(db@ =~= (DbModel {
                directory: db.directory@,
                name: name@,
                path: db.path@,
                open: true,
                docs: Seq::empty(),
                last_seq: 0,
                indexes: Seq::empty(),
            }));
        }
        Ok(db)
    }

    /// Whether the session is still open.
    pub(crate) fn is_open_x(&self) -> (r: bool)
        ensures
            r == self@.open,
    {
        self.open
    }

    /// The stored records, for the query evaluator.
    pub(crate) fn docs_ref(&self) -> (r: &Vec<Document>)
        ensures
            docs_view(r@) == self@.docs,
    {
        &self.docs
    }

    /// A new, empty, unsaved document.  It joins the store only when saved.
    pub fn create_document(&self, id: String) -> (d: Document)
        ensures
            d@ == (DocModel { id: id@, sequence: 0, props: Seq::empty() }),
            d.wf(),
    {
        Document::new(id)
    }

    /// Fetches the record with the given id; `None` when the session is
    /// closed, the id was never saved, or the record was deleted.  The last
    /// two cases cannot be told apart through this call.
    pub fn get_document(&self, id: String) -> (r: Option<Document>)
        requires
            self.wf(),
        ensures
            (match spec_get(self@, id@) {
                Some(dm) => r matches Some(d) && d@ == dm && d.wf() && d@.sequence >= 1,
                None => r is None,
            }),
    {
        if !self.open {
            return None;
        }
        let found = find_doc_index(&self.docs, &id);
        match found {
            None => None,
            Some(i) => {
                proof {
                    assert(self@.docs[i as int] == self.docs@[i as int]@);
                    lemma_doc_view(self.docs@[i as int]);
                    assert(doc_wf(self@.docs[i as int]));
                }
                if self.docs[i].props.len() == 0 {
                    None
                } else {
                    let d = clone_doc(&self.docs[i]);
                    Some(d)
                }
            },
        }
    }

    /// Saves a document: rejected when the session is closed or the bag is
    /// empty; otherwise the record is stored under the next sequence number
    /// and a fresh document wrapping the persisted record is returned.  The
    /// input is consumed, not mutated: save produces, it does not commit in
    /// place.
    pub fn save_document(&mut self, document: Document) -> (r: Result<
        Document,
        CouchbaseLiteError,
    >)
        requires
            old(self).wf(),
            document.wf(),
            old(self)@.last_seq < u64::MAX,
        ensures
            final(self).wf(),
            (match spec_save(old(self)@, document@) {
                Ok(p) => r matches Ok(d) && d@ == p.1 && d.wf() && final(self)@ == p.0,
                Err(e) => r == Err::<Document, CouchbaseLiteError>(e) && final(self)@ == old(
                    self,
                )@,
            }),
    {
        let ghost dm = document@;
        proof {
            lemma_doc_view(document);
            lemma_spec_save_wf(self@, dm);
        }
        if !self.open {
            return Err(CouchbaseLiteError::CannotSaveDocument(engine_error(CODE_NOT_OPEN)));
        }
        if document.props.len() == 0 {
            proof {
                assert(dm.props.len() == 0);
            }
            return Err(CouchbaseLiteError::CannotSaveEmptyDocument);
        }
        proof {
            assert(dm.props.len() > 0);
        }
        let new_seq = self.last_seq + 1;
        self.last_seq = new_seq;
        let returned = Document {
            id: document.id.clone(),
            sequence: new_seq,
            props: clone_props(&document.props),
        };
        let stored = Document { id: document.id, sequence: new_seq, props: document.props };
        let ghost sm = stored@;
        proof {
            lemma_doc_view(stored);
            lemma_doc_view(returned);
            assert(sm =~= (DocModel { id: dm.id, sequence: new_seq, props: dm.props }));
            assert(returned@ =~= sm);
        }
        let found = find_doc_index(&self.docs, &stored.id);
        let ghost pre = docs_view(self.docs@);
        match found {
            Some(i) => {
                self.docs.set(i, stored);
                proof {
                    assert(docs_view(self.docs@) =~= pre.update(i as int, sm));
                }
            },
            None => {
                self.docs.push(stored);
                proof {
                    assert(docs_view(self.docs@) =~= pre.push(sm));
                }
            },
        }
        proof {
            assert(self@ =~= spec_save(old(self)@, dm)->Ok_0.0);
        }
        Ok(returned)
    }

    /// Deletes the record with the document's id, leaving a tombstone: a
    /// later fetch returns `None`.  Errs when the session is closed or no
    /// record has that id.  The document itself stays with the caller.
    pub fn delete_document(&mut self, document: Document) -> (r: Result<
        bool,
        CouchbaseLiteError,
    >)
        requires
            old(self).wf(),
            old(self)@.last_seq < u64::MAX,
        ensures
            final(self).wf(),
            (match spec_delete_doc(old(self)@, document@) {
                Ok(p) => r == Ok::<bool, CouchbaseLiteError>(p.1) && final(self)@ == p.0,
                Err(e) => r == Err::<bool, CouchbaseLiteError>(e) && final(self)@ == old(self)@,
            }),
    {
        let ghost dm = document@;
        proof {
            lemma_doc_view(document);
            lemma_spec_delete_wf(self@, dm);
        }
        if !self.open {
            return Err(CouchbaseLiteError::CannotDeleteDocument(engine_error(CODE_NOT_OPEN)));
        }
        let found = find_doc_index(&self.docs, &document.id);
        match found {
            None => Err(CouchbaseLiteError::CannotDeleteDocument(engine_error(CODE_NOT_FOUND))),
            Some(i) => {
                let new_seq = self.last_seq + 1;
                self.last_seq = new_seq;
                let tomb = Document { id: document.id, sequence: new_seq, props: Vec::new() };
                let ghost tm = tomb@;
                let ghost pre = docs_view(self.docs@);
                proof {
                    lemma_doc_view(tomb);
                    assert(props_view(tomb.props@) =~= Seq::<(Seq<char>, Seq<char>)>::empty());
                    assert(tm =~= (DocModel { id: dm.id, sequence: new_seq, props: Seq::empty() }));
                }
                self.docs.set(i, tomb);
                proof {
                    assert(docs_view(self.docs@) =~= pre.update(i as int, tm));
                    assert(self@ =~= spec_delete_doc(old(self)@, dm)->Ok_0.0);
                }
                Ok(true)
            },
        }
    }

    /// The session's logical name.  Metadata stays readable after close.
    pub fn get_name(&self) -> (r: String)
        ensures
            r@ == self@.name,
    {
        self.name.clone()
    }

    /// The store's filesystem path, `{directory}/{name}.cblite2/`.
    pub fn get_path(&self) -> (r: String)
        ensures
            r@ == self@.path,
    {
        self.path.clone()
    }

    /// The number of live records: tombstones are not counted.  Like the
    /// name and the path, the count stays readable after close.
    pub fn count(&self) -> (r: u64)
        ensures
            r as nat == live_count(self@.docs),
    {
        let ghost m = docs_view(self.docs@);
        let mut c: u64 = 0;
        let mut i: usize = 0;
        proof {
            assert(m.take(0) =~= Seq::<DocModel>::empty());
        }
        while i < self.docs.len()
            invariant
                m == docs_view(self.docs@),
                m.len() == self.docs.len(),
                i <= self.docs.len(),
                c as nat == live_count(m.take(i as int)),
                c <= i,
            decreases self.docs.len() - i,
        {
            proof {
                assert(m[i as int] == self.docs@[i as int]@);
                lemma_doc_view(self.docs@[i as int]);
                lemma_live_count_snoc(m.take(i as int), m[i as int]);
                assert(m.take(i as int).push(m[i as int]) =~= m.take(i + 1 as int));
            }
            if self.docs[i].props.len() > 0 {
                c = c + 1;
            }
            i = i + 1;
        }
        proof {
            assert(m.take(self.docs.len() as int) =~= m);
        }
        c
    }

    /// The last revision sequence number the store assigned, 0 before any
    /// write.  Lets a caller see that the counter has room for another
    /// write before asking for one.
    pub fn last_sequence(&self) -> (r: u64)
        ensures
            r == self@.last_seq,
    {
        self.last_seq
    }

    /// Records a secondary value index under the given name, replacing one
    /// already so named.  Indexes never change what is stored or what a
    /// query returns; they exist to speed queries up.  Errs exactly when
    /// the session is closed or the key expression breaks its grammar.
    pub fn create_index(&mut self, name: &str, column_expression: &str) -> (r: Result<
        (),
        CouchbaseLiteError,
    >)
        requires
            old(self).wf(),
        ensures
            final(self).wf(),
            (if !old(self)@.open {
                r == Err::<(), CouchbaseLiteError>(
                    CouchbaseLiteError::CannotCreateIndex(spec_engine_error(CODE_NOT_OPEN)),
                ) && final(self)@ == old(self)@
            } else if !valid_index_expr(column_expression@) {
                r == Err::<(), CouchbaseLiteError>(
                    CouchbaseLiteError::CannotCreateIndex(spec_engine_error(CODE_INVALID_INDEX)),
                ) && final(self)@ == old(self)@
            } else {
                r == Ok::<(), CouchbaseLiteError>(()) && final(self)@ == (DbModel {
                    indexes: obj_set(old(self)@.indexes, name@, column_expression@),
                    ..old(self)@
                })
            }),
    {
        if !self.open {
            return Err(CouchbaseLiteError::CannotCreateIndex(engine_error(CODE_NOT_OPEN)));
        }
        if !valid_index_expr_x(column_expression) {
            return Err(CouchbaseLiteError::CannotCreateIndex(engine_error(CODE_INVALID_INDEX)));
        }
        proof {
            lemma_obj_set_unique(props_view(self.indexes@), name@, column_expression@);
        }
        let key = name.to_owned();
        let value = column_expression.to_owned();
        let ghost kv = (key@, value@);
        let found = find_key(&self.indexes, &key);
        match found {
            Some(i) => {
                let ghost pre = props_view(self.indexes@);
                self.indexes.set(i, (key, value));
                proof {
                    lemma_find_key_idx(pre, kv.0);
                    assert(pre[i as int].0 == kv.0);
                    assert(props_view(self.indexes@) =~= pre.update(i as int, kv));
                }
            },
            None => {
                let ghost pre = props_view(self.indexes@);
                self.indexes.push((key, value));
                proof {
                    assert(props_view(self.indexes@) =~= pre.push(kv));
                }
            },
        }
        proof {
            assert(self@ =~= (DbModel {
                indexes: obj_set(old(self)@.indexes, name@, column_expression@),
                ..old(self)@
            }));
        }
        Ok(())
    }

    /// Applies the writes as one atomic batch: either every write is applied
    /// and the outcomes are returned in order, or none is and the session is
    /// exactly as it was.  Errs when the session is closed or any write
    /// fails.
    pub fn in_batch_with_result(&mut self, ops: Vec<BatchOp>) -> (r: Result<
        Vec<BatchOutcome>,
        CouchbaseLiteError,
    >)
        requires
            old(self).wf(),
            forall|j: int| 0 <= j < ops@.len() ==> (#[trigger] ops@[j]).wf(),
            old(self)@.last_seq + ops@.len() <= u64::MAX,
        ensures
            final(self).wf(),
            (if !old(self)@.open {
                r == Err::<Vec<BatchOutcome>, CouchbaseLiteError>(
                    CouchbaseLiteError::ErrorInBatch(spec_engine_error(CODE_NOT_OPEN)),
                ) && final(self)@ == old(self)@
            } else {
                match spec_apply_ops(old(self)@, ops_view(ops@)) {
                    Ok(p) => r matches Ok(outs) && outs_view(outs@) == p.1 && final(self)@ == p.0,
                    Err(_) => r == Err::<Vec<BatchOutcome>, CouchbaseLiteError>(
                        CouchbaseLiteError::ErrorInBatch(spec_engine_error(CODE_BATCH)),
                    ) && final(self)@ == old(self)@,
                }
            }),
    {
        if !self.open {
            return Err(CouchbaseLiteError::ErrorInBatch(engine_error(CODE_NOT_OPEN)));
        }
        let snap_docs = clone_docs(&self.docs);
        let snap_seq = self.last_seq;
        let mut mops = ops;
        let mut outs: Vec<BatchOutcome> = Vec::new();
        proof {
            assert(ops_view(mops@) =~= ops_view(ops@));
            assert(outs_view(outs@) =~= Seq::<OutcomeModel>::empty());
        }
        loop
            invariant
                self.wf(),
                old(self).wf(),
                self@ == (DbModel { docs: self@.docs, last_seq: self@.last_seq, ..old(self)@ }),
                self@.open,
                old(self)@.open,
                docs_view(snap_docs@) == old(self)@.docs,
                snap_seq == old(self)@.last_seq,
                forall|j: int| 0 <= j < mops@.len() ==> (#[trigger] mops@[j]).wf(),
                self@.last_seq + mops@.len() <= u64::MAX,
                (match spec_apply_ops(self@, ops_view(mops@)) {
                    Ok(p) => spec_apply_ops(old(self)@, ops_view(ops@)) == Ok::<
                        (DbModel, Seq<OutcomeModel>),
                        CouchbaseLiteError,
                    >((p.0, outs_view(outs@) + p.1)),
                    Err(_) => spec_apply_ops(old(self)@, ops_view(ops@)) is Err,
                }),
            decreases mops@.len(),
        {
            if mops.len() == 0 {
                proof {
                    assert(ops_view(mops@) =~= Seq::<OpModel>::empty());
                    assert(outs_view(outs@) + Seq::<OutcomeModel>::empty() =~= outs_view(outs@));
                }
                return Ok(outs);
            }
            let ghost mops_pre = ops_view(mops@);
            let ghost mseq_pre = mops@;
            let op = mops.remove(0);
            proof {
                assert(mops@ =~= mseq_pre.skip(1));
                assert(ops_view(mops@) =~= mops_pre.skip(1));
                assert(op@ == mops_pre[0]);
            }
            let step_ok: BatchOutcome;
            let ghost db_pre = self@;
            match op {
                BatchOp::Save(d) => {
                    let saved = self.save_document(d);
                    match saved {
                        Ok(sd) => {
                            step_ok = BatchOutcome::Saved(sd);
                        },
                        Err(_) => {
                            self.docs = clone_docs(&snap_docs);
                            self.last_seq = snap_seq;
                            proof {
                                assert(self@ =~= old(self)@);
                            }
                            return Err(CouchbaseLiteError::ErrorInBatch(engine_error(CODE_BATCH)));
                        },
                    }
                },
                BatchOp::Delete(d) => {
                    let deleted = self.delete_document(d);
                    match deleted {
                        Ok(b) => {
                            step_ok = BatchOutcome::Deleted(b);
                        },
                        Err(_) => {
                            self.docs = clone_docs(&snap_docs);
                            self.last_seq = snap_seq;
                            proof {
                                assert(self@ =~= old(self)@);
                            }
                            return Err(CouchbaseLiteError::ErrorInBatch(engine_error(CODE_BATCH)));
                        },
                    }
                },
            }
            let ghost outs_pre = outs_view(outs@);
            let ghost out_m = step_ok@;
            outs.push(step_ok);
            proof {
                assert(outs_view(outs@) =~= outs_pre.push(out_m));
                if spec_apply_ops(self@, ops_view(mops@)) is Ok {
                    let p = spec_apply_ops(self@, ops_view(mops@))->Ok_0;
                    assert(spec_apply_ops(db_pre, mops_pre) == Ok::<
                        (DbModel, Seq<OutcomeModel>),
                        CouchbaseLiteError,
                    >((p.0, seq![out_m] + p.1)));
                    assert(outs_pre + (seq![out_m] + p.1) =~= outs_view(outs@) + p.1);
                }
            }
        }
    }

    /// Applies the writes as one atomic batch, discarding the outcomes.
    pub fn in_batch(&mut self, ops: Vec<BatchOp>) -> (r: Result<(), CouchbaseLiteError>)
        requires
            old(self).wf(),
            forall|j: int| 0 <= j < ops@.len() ==> (#[trigger] ops@[j]).wf(),
            old(self)@.last_seq + ops@.len() <= u64::MAX,
        ensures
            final(self).wf(),
            (if !old(self)@.open {
                r == Err::<(), CouchbaseLiteError>(
                    CouchbaseLiteError::ErrorInBatch(spec_engine_error(CODE_NOT_OPEN)),
                ) && final(self)@ == old(self)@
            } else {
                match spec_apply_ops(old(self)@, ops_view(ops@)) {
                    Ok(p) => r == Ok::<(), CouchbaseLiteError>(()) && final(self)@ == p.0,
                    Err(_) => r == Err::<(), CouchbaseLiteError>(
                        CouchbaseLiteError::ErrorInBatch(spec_engine_error(CODE_BATCH)),
                    ) && final(self)@ == old(self)@,
                }
            }),
    {
        let outcome = self.in_batch_with_result(ops);
        match outcome {
            Ok(_) => Ok(()),
            Err(e) => Err(e),
        }
    }

    /// Closes the session.  Idempotent: closing a closed session is also
    /// `Ok`, and nothing else about the session changes either time.
    pub fn close(&mut self) -> (r: Result<(), CouchbaseLiteError>)
        ensures
            r == Ok::<(), CouchbaseLiteError>(()),
            final(self)@ == (DbModel { open: false, ..old(self)@ }),
            old(self).wf() ==> final(self).wf(),
    {
        self.open = false;
        proof {
            assert(self@ =~= (DbModel { open: false, ..old(self)@ }));
        }
        Ok(())
    }

    /// Deletes the store and closes the session: every record, index and
    /// assigned sequence number is gone.  Errs when already closed.
    pub fn delete(&mut self) -> (r: Result<(), CouchbaseLiteError>)
        ensures
            (if old(self)@.open {
                r == Ok::<(), CouchbaseLiteError>(()) && final(self)@ == (DbModel {
                    open: false,
                    docs: Seq::empty(),
                    last_seq: 0,
                    indexes: Seq::empty(),
                    ..old(self)@
                })
            } else {
                r == Err::<(), CouchbaseLiteError>(
                    CouchbaseLiteError::CannotDeleteDatabase(spec_engine_error(CODE_NOT_OPEN)),
                ) && final(self)@ == old(self)@
            }),
            old(self).wf() ==> final(self).wf(),
    {
        if !self.open {
            return Err(CouchbaseLiteError::CannotDeleteDatabase(engine_error(CODE_NOT_OPEN)));
        }
        self.open = false;
        self.docs = Vec::new();
        self.last_seq = 0;
        self.indexes = Vec::new();
        proof {
            assert(docs_view(self.docs@) =~= Seq::<DocModel>::empty());
            assert(props_view(self.indexes@) =~= Seq::<(Seq<char>, Seq<char>)>::empty());
            assert(self@ =~= (DbModel {
                open: false,
                docs: Seq::empty(),
                last_seq: 0,
                indexes: Seq::empty(),
                ..old(self)@
            }));
        }
        Ok(())
    }
}

} // verus!
