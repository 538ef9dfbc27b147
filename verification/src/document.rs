//! A named record: a mutable property bag with the revision sequence number
//! the store assigned at its last save.  An unsaved document has sequence 0;
//! a persisted one carries the sequence the store gave it.

use vstd::prelude::*;
use vstd::pervasive::VecAdditionalExecFns;

use crate::errors::spec_engine_error;
use crate::errors::engine_error;
use crate::errors::CouchbaseLiteError;
use crate::errors::CODE_PARSE;
use crate::json::dedup_pairs;
use crate::json::dedup_props;
use crate::json::find_key;
use crate::json::lemma_find_key_idx;
use crate::json::lemma_obj_set_unique;
use crate::json::obj_set;
use crate::json::parse_props;
use crate::json::parse_props_x;
use crate::json::props_to_json;
use crate::json::props_view;
use crate::json::ser_props;
use crate::json::unique_keys;
use crate::json::PropsModel;

verus! {

/// The mathematical content of a document.
#[verifier::ext_equal]
pub struct DocModel {
    pub id: Seq<char>,
    pub sequence: u64,
    pub props: PropsModel,
}

/// A well-formed document holds each key at most once.
pub open spec fn doc_wf(d: DocModel) -> bool {
    unique_keys(d.props)
}

/// A named record with a property bag and a revision sequence number.
pub struct Document {
    pub(crate) id: String,
    pub(crate) sequence: u64,
    pub(crate) props: Vec<(String, String)>,
}

impl View for Document {
    type V = DocModel;

    closed spec fn view(&self) -> DocModel {
        DocModel { id: self.id@, sequence: self.sequence, props: props_view(self.props@) }
    }
}

/// Spells the view of a document out for the neighbouring modules of the
/// crate, which see the view function itself as opaque.
pub(crate) proof fn lemma_doc_view(d: Document)
    ensures
        d@ == (DocModel { id: d.id@, sequence: d.sequence, props: props_view(d.props@) }),
{
}

impl Document {
    /// Whether the document's property bag is well-formed.
    pub open spec fn wf(&self) -> bool {
        doc_wf(self@)
    }

    /// A new, unsaved document: empty property bag, sequence 0.
    pub fn new(id: String) -> (d: Document)
        ensures
            d@ == (DocModel { id: id@, sequence: 0, props: Seq::empty() }),
            d.wf(),
    {
        let d = Document { id, sequence: 0, props: Vec::new() };
        proof {
            assert(props_view(d.props@) =~= Seq::<(Seq<char>, Seq<char>)>::empty());
            assert(d@ =~= (DocModel { id: d.id@, sequence: 0, props: Seq::empty() }));
        }
        d
    }

    /// The document's id.
    pub fn id(&self) -> (r: String)
        ensures
            r@ == self@.id,
    {
        self.id.clone()
    }

    /// The revision sequence number the store assigned at the last save,
    /// or 0 for a document that was never saved.
    pub fn sequence(&self) -> (r: u64)
        ensures
            r == self@.sequence,
    {
        self.sequence
    }

    /// The canonical serialized form of the property bag; `{}` when empty.
    pub fn jsonify(&self) -> (r: String)
        ensures
            r@ == ser_props(self@.props),
    {
        props_to_json(&self.props)
    }

    /// Sets or overwrites one property.  A present key keeps its position;
    /// an absent one is appended.
    pub fn set_value(&mut self, value_string: String, for_key: String)
        requires
            old(self).wf(),
        ensures
            final(self).wf(),
            final(self)@.id == old(self)@.id,
            final(self)@.sequence == old(self)@.sequence,
            final(self)@.props == obj_set(old(self)@.props, for_key@, value_string@),
    {
        proof {
            lemma_obj_set_unique(props_view(self.props@), for_key@, value_string@);
        }
        let ghost kv = (for_key@, value_string@);
        let found = find_key(&self.props, &for_key);
        match found {
            Some(i) => {
                let ghost pre = props_view(self.props@);
                self.props.set(i, (for_key, value_string));
                proof {
                    lemma_find_key_idx(pre, kv.0);
                    assert(pre[i as int].0 == kv.0);
                    assert(props_view(self.props@) =~= pre.update(i as int, kv));
                }
            },
            None => {
                let ghost pre = props_view(self.props@);
                self.props.push((for_key, value_string));
                proof {
                    assert(props_view(self.props@) =~= pre.push(kv));
                }
            },
        }
    }

    /// Replaces the whole property bag with the one the serialized form
    /// denotes: prior properties are discarded, not merged, and the id and
    /// sequence stay as they were.  The accepted forms are this library's
    /// serialized dialect (`parse_props`): a JSON object whose values are
    /// strings, with any whitespace between tokens; a repeated key keeps
    /// its first position and its last value.  Any other text — including
    /// an object with a non-string value, which the dialect does not model
    /// — is malformed: the call fails and the document is unchanged.
    pub fn fill(&mut self, json: String) -> (r: Result<bool, CouchbaseLiteError>)
        ensures
            final(self)@.id == old(self)@.id,
            final(self)@.sequence == old(self)@.sequence,
            (match parse_props(json@) {
                Some(ps) => r == Ok::<bool, CouchbaseLiteError>(true) && final(self)@.props
                    == dedup_props(ps) && final(self).wf(),
                None => r == Err::<bool, CouchbaseLiteError>(
                    CouchbaseLiteError::CannotFillDocumentFromJson(spec_engine_error(CODE_PARSE)),
                ) && final(self)@ == old(self)@,
            }),
    {
        let parsed = parse_props_x(json.as_str());
        match parsed {
            Some(ps) => {
                self.props = dedup_pairs(ps);
                Ok(true)
            },
            None => Err(CouchbaseLiteError::CannotFillDocumentFromJson(engine_error(CODE_PARSE))),
        }
    }
}

} // verus!
