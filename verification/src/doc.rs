//! A small tagged-union document model for the loosely typed data this
//! library traverses: decoded header blobs and JSON response envelopes.
//! Accessors never fail on a shape mismatch; they return `None` or a
//! documented default instead, which is the skip-on-noise policy the
//! credential pipeline needs.

use plist::Value as PlistValue;
use serde_json::Value as JsonValue;
use vstd::prelude::*;

use crate::text::{i64_to_dec, parse_i64_or_zero, spec_i64_dec, spec_parse_i64, str_eq};

verus! {

broadcast use vstd::std_specs::vec::group_vec_axioms;

/// One decoded document value. Numbers that fit a signed 64-bit integer are
/// held as `Int`; any other number is held as `Real`, carrying its decimal
/// rendering, which is all the pipeline ever reads of such a value.
pub enum DocValue {
    Null,
    Bool(bool),
    Int(i64),
    Real(String),
    Str(String),
    Arr(Vec<DocValue>),
    Dict(Vec<(String, DocValue)>),
}

/// The mathematical shape of a document value.
#[verifier::ext_equal]
pub enum DocView {
    Null,
    Bool(bool),
    Int(i64),
    Real(Seq<char>),
    Str(Seq<char>),
    Arr(Seq<DocView>),
    Dict(Seq<(Seq<char>, DocView)>),
}

/// Deep abstraction of a document value.
pub open spec fn doc_view(d: DocValue) -> DocView
    decreases d, 1int,
    via doc_view_decreases
{
    match d {
        DocValue::Null => DocView::Null,
        DocValue::Bool(b) => DocView::Bool(b),
        DocValue::Int(n) => DocView::Int(n),
        DocValue::Real(s) => DocView::Real(s@),
        DocValue::Str(s) => DocView::Str(s@),
        DocValue::Arr(items) => DocView::Arr(docs_view(items@)),
        DocValue::Dict(entries) => DocView::Dict(entries_view(entries@)),
    }
}

/// Deep abstraction of a sequence of document values.
pub open spec fn docs_view(items: Seq<DocValue>) -> Seq<DocView>
    decreases items, 0int,
    via docs_view_decreases
{
    if items.len() == 0 {
        Seq::empty()
    } else {
        docs_view(items.drop_last()).push(doc_view(items.last()))
    }
}

/// Deep abstraction of a sequence of key-value entries.
pub open spec fn entries_view(entries: Seq<(String, DocValue)>) -> Seq<(Seq<char>, DocView)>
    decreases entries, 0int,
    via entries_view_decreases
{
    if entries.len() == 0 {
        Seq::empty()
    } else {
        entries_view(entries.drop_last()).push(
            (entries.last().0@, doc_view(entries.last().1)),
        )
    }
}

#[via_fn]
proof fn doc_view_decreases(d: DocValue) {
    match d {
        DocValue::Arr(items) => {
            assert(decreases_to!(d => items));
            assert(decreases_to!(items => items@));
        },
        DocValue::Dict(entries) => {
            assert(decreases_to!(d => entries));
            assert(decreases_to!(entries => entries@));
        },
        _ => {},
    }
}

#[via_fn]
proof fn docs_view_decreases(items: Seq<DocValue>) {
    if items.len() > 0 {
        assert(decreases_to!(items => items.drop_last()));
        assert(decreases_to!(items => items.last()));
    }
}

#[via_fn]
proof fn entries_view_decreases(entries: Seq<(String, DocValue)>) {
    if entries.len() > 0 {
        assert(decreases_to!(entries => entries.drop_last()));
        assert(decreases_to!(entries => entries.last()));
        assert(decreases_to!(entries.last() => entries.last().1));
    }
}

impl View for DocValue {
    type V = DocView;

    open spec fn view(&self) -> DocView {
        doc_view(*self)
    }
}

/// Element-indexed form of `docs_view`.
pub broadcast proof fn lemma_docs_view(items: Seq<DocValue>)
    ensures
        (#[trigger] docs_view(items)).len() == items.len(),
        forall|i: int| 0 <= i < items.len() ==> docs_view(items)[i] == doc_view(#[trigger] items[i]),
    decreases items.len(),
{
    if items.len() > 0 {
        lemma_docs_view(items.drop_last());
        assert forall|i: int| 0 <= i < items.len() implies docs_view(items)[i] == doc_view(
            #[trigger] items[i],
        ) by {
            if i < items.len() - 1 {
                assert(items.drop_last()[i] == items[i]);
            }
        }
    }
}

/// Element-indexed form of `entries_view`.
pub broadcast proof fn lemma_entries_view(entries: Seq<(String, DocValue)>)
    ensures
        (#[trigger] entries_view(entries)).len() == entries.len(),
        forall|i: int|
            0 <= i < entries.len() ==> entries_view(entries)[i] == (
                (#[trigger] entries[i]).0@,
                doc_view(entries[i].1),
            ),
    decreases entries.len(),
{
    if entries.len() > 0 {
        lemma_entries_view(entries.drop_last());
        assert forall|i: int| 0 <= i < entries.len() implies entries_view(entries)[i] == (
            (#[trigger] entries[i]).0@,
            doc_view(entries[i].1),
        ) by {
            if i < entries.len() - 1 {
                assert(entries.drop_last()[i] == entries[i]);
            }
        }
    }
}

// ---------------------------------------------------------------------------
// Spec-level accessors
// ---------------------------------------------------------------------------

/// Lookup in a key-value entry list: the first entry whose key matches.
pub open spec fn spec_map_get(entries: Seq<(Seq<char>, DocView)>, key: Seq<char>) -> Option<
    DocView,
>
    decreases entries.len(),
{
    if entries.len() == 0 {
        None
    } else if entries[0].0 == key {
        Some(entries[0].1)
    } else {
        spec_map_get(entries.drop_first(), key)
    }
}

/// Field lookup: `None` unless the document is a map holding the key.
pub open spec fn spec_get(doc: DocView, key: Seq<char>) -> Option<DocView> {
    match doc {
        DocView::Dict(entries) => spec_map_get(entries, key),
        _ => None,
    }
}

/// String coercion of a single value: strings verbatim, numbers by their
/// decimal rendering, everything else refused.
pub open spec fn spec_value_string(doc: DocView) -> Option<Seq<char>> {
    match doc {
        DocView::Str(s) => Some(s),
        DocView::Int(n) => Some(spec_i64_dec(n as int)),
        DocView::Real(s) => Some(s),
        _ => None,
    }
}

/// String coercion of an optional value.
pub open spec fn spec_opt_value_string(doc: Option<DocView>) -> Option<Seq<char>> {
    match doc {
        Some(d) => spec_value_string(d),
        None => None,
    }
}

/// The integer a field holds: an `Int` verbatim, a string by decimal
/// parsing, anything else 0.
pub open spec fn spec_json_i64(doc: DocView, key: Seq<char>) -> int {
    match spec_get(doc, key) {
        Some(DocView::Int(n)) => n as int,
        Some(DocView::Str(s)) => spec_parse_i64(s),
        _ => 0,
    }
}

/// The string a field holds, or empty when absent or not a string.
pub open spec fn spec_json_string(doc: DocView, key: Seq<char>) -> Seq<char> {
    match spec_get(doc, key) {
        Some(DocView::Str(s)) => s,
        _ => Seq::empty(),
    }
}

/// The boolean a field holds, or `or` when absent or not a boolean.
pub open spec fn spec_json_bool_or(doc: DocView, key: Seq<char>, or: bool) -> bool {
    match spec_get(doc, key) {
        Some(DocView::Bool(b)) => b,
        _ => or,
    }
}

/// The array a field holds, or empty when absent or not an array.
pub open spec fn spec_json_array(doc: DocView, key: Seq<char>) -> Seq<DocView> {
    match spec_get(doc, key) {
        Some(DocView::Arr(items)) => items,
        _ => Seq::empty(),
    }
}

// ---------------------------------------------------------------------------
// Executable accessors
// ---------------------------------------------------------------------------

/// Field lookup on a document.
#[verifier::loop_isolation(false)]
pub fn doc_get<'a>(doc: &'a DocValue, key: &str) -> (r: Option<&'a DocValue>)
    ensures
        match r {
            Some(d) => spec_get(doc@, key@) == Some(d@),
            None => spec_get(doc@, key@) is None,
        },
{
    match doc {
        DocValue::Dict(entries) => {
            let ghost es = entries_view(entries@);
            proof {
                lemma_entries_view(entries@);
                assert(es.skip(0) =~= es);
            }
            let mut i: usize = 0;
            while i < entries.len()
                invariant
                    i <= entries@.len(),
                    spec_map_get(es, key@) == spec_map_get(es.skip(i as int), key@),
                decreases entries@.len() - i,
            {
                proof {
                    assert(es.skip(i as int)[0] == es[i as int]);
                }
                if str_eq(entries[i].0.as_str(), key) {
                    return Some(&entries[i].1);
                }
                proof {
                    assert(es.skip(i as int).drop_first() =~= es.skip(i + 1));
                }
                i += 1;
            }
            proof {
                assert(es.skip(i as int) =~= Seq::<(Seq<char>, DocView)>::empty());
            }
            None
        },
        _ => None,
    }
}

/// Whether the document is a map containing `key`.
pub fn doc_has_key(doc: &DocValue, key: &str) -> (r: bool)
    ensures
        r <==> spec_get(doc@, key@) is Some,
{
    doc_get(doc, key).is_some()
}

/// Coerce an optionally present value to its string form: strings pass
/// through, integers and other numbers render in decimal, anything else
/// (or absence) yields `None`.
pub fn value_as_string(value: Option<&DocValue>) -> (r: Option<String>)
    ensures
        match value {
            Some(d) => match (r, spec_value_string(d@)) {
                (Some(s), Some(t)) => s@ == t,
                (None, None) => true,
                _ => false,
            },
            None => r is None,
        },
{
    match value {
        Some(DocValue::Str(s)) => Some(s.clone()),
        Some(DocValue::Int(n)) => Some(i64_to_dec(*n)),
        Some(DocValue::Real(s)) => Some(s.clone()),
        _ => None,
    }
}

/// The integer a field holds, defaulting to 0: integers verbatim, strings
/// by decimal parsing, everything else 0.
pub fn json_i64(v: &DocValue, key: &str) -> (r: i64)
    ensures
        r as int == spec_json_i64(v@, key@),
{
    match doc_get(v, key) {
        Some(DocValue::Int(n)) => *n,
        Some(DocValue::Str(s)) => parse_i64_or_zero(s.as_str()),
        _ => 0,
    }
}

/// The string a field holds, or empty.
pub fn json_string(v: &DocValue, key: &str) -> (r: String)
    ensures
        r@ == spec_json_string(v@, key@),
{
    match doc_get(v, key) {
        Some(DocValue::Str(s)) => s.clone(),
        _ => String::new(),
    }
}

/// The boolean a field holds, or `or`.
pub fn json_bool_or(v: &DocValue, key: &str, or: bool) -> (r: bool)
    ensures
        r == spec_json_bool_or(v@, key@, or),
{
    match doc_get(v, key) {
        Some(DocValue::Bool(b)) => *b,
        _ => or,
    }
}

// ---------------------------------------------------------------------------
// Deep copy
// ---------------------------------------------------------------------------

/// Structural copy of a document value.
#[verifier::loop_isolation(false)]
pub fn clone_doc(d: &DocValue) -> (r: DocValue)
    ensures
        r@ == d@,
    decreases *d,
{
    match d {
        DocValue::Null => DocValue::Null,
        DocValue::Bool(b) => DocValue::Bool(*b),
        DocValue::Int(n) => DocValue::Int(*n),
        DocValue::Real(s) => DocValue::Real(s.clone()),
        DocValue::Str(s) => DocValue::Str(s.clone()),
        DocValue::Arr(items) => {
            let mut out: Vec<DocValue> = Vec::new();
            let mut i: usize = 0;
            while i < items.len()
                invariant
                    i <= items@.len(),
                    out@.len() == i,
                    forall|j: int| 0 <= j < i ==> (#[trigger] out@[j])@ == items@[j]@,
                decreases items@.len() - i,
            {
                out.push(clone_doc(&items[i]));
                i += 1;
            }
            proof {
                lemma_docs_view(out@);
                lemma_docs_view(items@);
                assert forall|k: int| 0 <= k < items@.len() implies docs_view(out@)[k]
                    == docs_view(items@)[k] by {
                    assert((out@[k])@ == items@[k]@);
                }
                assert(docs_view(out@) =~= docs_view(items@));
            }
            DocValue::Arr(out)
        },
        DocValue::Dict(entries) => {
            let mut out: Vec<(String, DocValue)> = Vec::new();
            let mut i: usize = 0;
            while i < entries.len()
                invariant
                    i <= entries@.len(),
                    out@.len() == i,
                    forall|j: int|
                        0 <= j < i ==> (#[trigger] out@[j]).0@ == entries@[j].0@ && out@[j].1@
                            == entries@[j].1@,
                decreases entries@.len() - i,
            {
                out.push((entries[i].0.clone(), clone_doc(&entries[i].1)));
                i += 1;
            }
            proof {
                lemma_entries_view(out@);
                lemma_entries_view(entries@);
                assert forall|k: int| 0 <= k < entries@.len() implies entries_view(out@)[k]
                    == entries_view(entries@)[k] by {
                    assert((out@[k]).0@ == entries@[k].0@ && out@[k].1@ == entries@[k].1@);
                }
                assert(entries_view(out@) =~= entries_view(entries@));
            }
            DocValue::Dict(out)
        },
    }
}

impl Clone for DocValue {
    /// Structural copy.
    fn clone(&self) -> (r: Self)
        ensures
            r@ == self@,
    {
        clone_doc(self)
    }
}

/// Structural copy of a list of document values.
#[verifier::loop_isolation(false)]
pub fn clone_docs(items: &Vec<DocValue>) -> (r: Vec<DocValue>)
    ensures
        docs_view(r@) == docs_view(items@),
{
    let mut out: Vec<DocValue> = Vec::new();
    let mut i: usize = 0;
    while i < items.len()
        invariant
            i <= items@.len(),
            out@.len() == i,
            forall|j: int| 0 <= j < i ==> (#[trigger] out@[j])@ == items@[j]@,
        decreases items@.len() - i,
    {
        out.push(clone_doc(&items[i]));
        i += 1;
    }
    proof {
        lemma_docs_view(out@);
        lemma_docs_view(items@);
        assert forall|k: int| 0 <= k < items@.len() implies docs_view(out@)[k] == docs_view(
            items@,
        )[k] by {
            assert((out@[k])@ == items@[k]@);
        }
        assert(docs_view(out@) =~= docs_view(items@));
    }
    out
}

// ---------------------------------------------------------------------------
// Trusted decoders
// ---------------------------------------------------------------------------

/// The document that the property-list decoder yields for these bytes, or
/// `None` when they do not decode. The result is a function of the bytes
/// alone.
pub uninterp spec fn plist_doc_of(bytes: Seq<u8>) -> Option<DocView>;

/// Relies on plist::Value's public enum shape: each variant is mapped to
/// the corresponding document variant, integers through
/// plist::Integer::as_signed, other numbers through their decimal
/// rendering; data, date and uid values carry nothing the pipeline reads
/// and become null.
#[verifier::external_body]
fn plist_value_to_doc(v: plist::Value) -> DocValue {
    match v {
        PlistValue::String(s) => DocValue::Str(s),
        PlistValue::Integer(n) => n.as_signed().map_or_else(
            || DocValue::Real(n.to_string()),
            DocValue::Int,
        ),
        PlistValue::Real(x) => DocValue::Real(x.to_string()),
        PlistValue::Boolean(b) => DocValue::Bool(b),
        PlistValue::Array(a) => DocValue::Arr(a.into_iter().map(plist_value_to_doc).collect()),
        PlistValue::Dictionary(m) => DocValue::Dict(
            m.into_iter().map(|e| (e.0, plist_value_to_doc(e.1))).collect(),
        ),
        _ => DocValue::Null,
    }
}

/// Relies on plist::Value::from_reader: decodes a property list of any
/// encoding from an in-memory byte buffer; the result depends on the bytes
/// alone.
#[verifier::external_body]
pub fn decode_plist(bytes: &[u8]) -> (r: Option<DocValue>)
    ensures
        match r {
            Some(d) => plist_doc_of(bytes@) == Some(d@),
            None => plist_doc_of(bytes@) is None,
        },
{
    plist::Value::from_reader(std::io::Cursor::new(bytes)).ok().map(plist_value_to_doc)
}

/// The document that the JSON parser yields for this text, or `None` when
/// it is not a JSON document. The result is a function of the text alone.
pub uninterp spec fn json_doc_of(text: Seq<char>) -> Option<DocView>;

/// Relies on serde_json::Value's public enum shape: each variant is mapped
/// to the corresponding document variant, numbers through
/// serde_json::Number::as_i64 / as_u64, any other number through its
/// decimal rendering.
#[verifier::external_body]
fn json_value_to_doc(v: serde_json::Value) -> DocValue {
    match v {
        JsonValue::Null => DocValue::Null,
        JsonValue::Bool(b) => DocValue::Bool(b),
        JsonValue::Number(n) => match (n.as_i64(), n.as_u64()) {
            (Some(i), _) => DocValue::Int(i),
            (None, Some(u)) => DocValue::Int(u as i64),
            _ => DocValue::Real(n.to_string()),
        },
        JsonValue::String(s) => DocValue::Str(s),
        JsonValue::Array(a) => DocValue::Arr(a.into_iter().map(json_value_to_doc).collect()),
        JsonValue::Object(m) => DocValue::Dict(
            m.into_iter().map(|e| (e.0, json_value_to_doc(e.1))).collect(),
        ),
    }
}

/// Relies on serde_json::from_str::<serde_json::Value>: parses a JSON
/// document from text; the result depends on the text alone.
#[verifier::external_body]
pub fn parse_json(text: &str) -> (r: Option<DocValue>)
    ensures
        match r {
            Some(d) => json_doc_of(text@) == Some(d@),
            None => json_doc_of(text@) is None,
        },
{
    serde_json::from_str::<serde_json::Value>(text).ok().map(json_value_to_doc)
}

#[verifier::external_type_specification]
#[verifier::external_body]
pub struct ExPlistValue(plist::Value);

#[verifier::external_type_specification]
#[verifier::external_body]
pub struct ExJsonValue(serde_json::Value);

} // verus!
