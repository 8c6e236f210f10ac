//! In-memory store of open editor buffers, keyed by URI.
//!
//! Each open buffer is one entry; a change replaces the entry and closing
//! the buffer removes it. The store holds text only; parsing happens on
//! demand in the queries.

use vstd::prelude::*;

use dashmap::DashMap;

verus! {

#[verifier::external_type_specification]
#[verifier::external_body]
#[verifier::reject_recursive_types(K)]
#[verifier::reject_recursive_types(V)]
#[verifier::reject_recursive_types(S)]
pub struct ExDashMap<K, V, S>(DashMap<K, V, S>);

/// One open editor buffer.
#[derive(Debug, Clone)]
pub struct Document {
    pub uri: String,
    pub text: String,
    /// The editor's version number of the buffer.
    pub version: i32,
}

/// A buffer as plain values: URI, text and version.
pub open spec fn doc_view(d: Document) -> (Seq<char>, Seq<char>, i32) {
    (d.uri@, d.text@, d.version)
}

impl Document {
    /// A copy of this buffer.
    pub fn copy(&self) -> (r: Document)
        ensures
            doc_view(r) == doc_view(*self),
    {
        Document { uri: self.uri.clone(), text: self.text.clone(), version: self.version }
    }
}

/// What a `DashMap` of buffers holds: each key's text mapped to its buffer.
pub uninterp spec fn buffers(m: DashMap<String, Document>) -> Map<Seq<char>, (Seq<char>, Seq<char>, i32)>;

/// No buffers at all.
pub open spec fn no_buffers() -> Map<Seq<char>, (Seq<char>, Seq<char>, i32)> {
    Map::empty()
}

/// `DashMap::new`: an empty map.
#[verifier::external_body]
fn map_new() -> (r: DashMap<String, Document>)
    ensures
        buffers(r) == no_buffers(),
{
    DashMap::new()
}

/// `DashMap::insert`: afterwards `key` maps to `value`; every other entry
/// is unchanged.
#[verifier::external_body]
fn map_insert(m: &mut DashMap<String, Document>, key: String, value: Document)
    ensures
        buffers(*final(m)) == buffers(*old(m)).insert(key@, doc_view(value)),
{
    m.insert(key, value);
}

/// `DashMap::get`, copying the value out: the buffer stored under `key`,
/// if any.
#[verifier::external_body]
fn map_get(m: &DashMap<String, Document>, key: &str) -> (r: Option<Document>)
    ensures
        r is Some <==> buffers(*m).contains_key(key@),
        r matches Some(d) ==> doc_view(d) == buffers(*m)[key@],
{
    m.get(key).map(|e| e.value().clone())
}

/// `DashMap::remove`: takes out the entry under `key`, returning its value.
#[verifier::external_body]
fn map_remove(m: &mut DashMap<String, Document>, key: &str) -> (r: Option<Document>)
    ensures
        buffers(*final(m)) == buffers(*old(m)).remove(key@),
        r is Some <==> buffers(*old(m)).contains_key(key@),
        r matches Some(d) ==> doc_view(d) == buffers(*old(m))[key@],
{
    m.remove(key).map(|(_, v)| v)
}

/// `DashMap::len`: the number of entries.
#[verifier::external_body]
fn map_len(m: &DashMap<String, Document>) -> (r: usize)
    ensures
        r == buffers(*m).dom().len(),
{
    m.len()
}

/// Open buffers by URI.
pub struct DocStore {
    docs: DashMap<String, Document>,
}

impl View for DocStore {
    type V = Map<Seq<char>, (Seq<char>, Seq<char>, i32)>;

    closed spec fn view(&self) -> Map<Seq<char>, (Seq<char>, Seq<char>, i32)> {
        buffers(self.docs)
    }
}

impl DocStore {
    /// An empty store.
    pub fn new() -> (r: DocStore)
        ensures
            r@ == no_buffers(),
    {
        DocStore { docs: map_new() }
    }

    /// Insert or replace the buffer at `uri`; returns the stored buffer.
    pub fn upsert(&mut self, uri: &str, text: String, version: i32) -> (r: Document)
        ensures
            doc_view(r) == (uri@, text@, version),
            final(self)@ == old(self)@.insert(uri@, (uri@, text@, version)),
    {
        let doc = Document { uri: uri.to_owned(), text, version };
        map_insert(&mut self.docs, uri.to_owned(), doc.copy());
        doc
    }

    /// The buffer at `uri`, if the editor has it open.
    pub fn get(&self, uri: &str) -> (r: Option<Document>)
        ensures
            r is Some <==> self@.contains_key(uri@),
            r matches Some(d) ==> doc_view(d) == self@[uri@],
    {
        map_get(&self.docs, uri)
    }

    /// Remove the buffer at `uri`, returning it if it was there.
    pub fn remove(&mut self, uri: &str) -> (r: Option<Document>)
        ensures
            final(self)@ == old(self)@.remove(uri@),
            r is Some <==> old(self)@.contains_key(uri@),
            r matches Some(d) ==> doc_view(d) == old(self)@[uri@],
    {
        map_remove(&mut self.docs, uri)
    }

    /// How many buffers are open.
    pub fn len(&self) -> (r: usize)
        ensures
            r == self@.dom().len(),
    {
        map_len(&self.docs)
    }

    /// Whether no buffer is open.
    pub fn is_empty(&self) -> (r: bool)
        ensures
            r == (self@.dom().len() == 0),
    {
        map_len(&self.docs) == 0
    }
}

/// A read after a write gives back what was written: after `upsert` the
/// buffer at `uri` is the new one and every other buffer is unchanged;
/// after `remove` no buffer is at `uri`.
pub proof fn law_store_read_after_write(
    store: DocStore,
    uri: Seq<char>,
    text: Seq<char>,
    version: i32,
    other: Seq<char>,
)
    requires
        other != uri,
    ensures
        store@.insert(uri, (uri, text, version)).contains_key(uri),
        store@.insert(uri, (uri, text, version))[uri] == (uri, text, version),
        store@.insert(uri, (uri, text, version)).contains_key(other) == store@.contains_key(other),
        store@.contains_key(other) ==> store@.insert(uri, (uri, text, version))[other] == store@[other],
        !store@.remove(uri).contains_key(uri),
        store@.remove(uri).contains_key(other) == store@.contains_key(other),
{
}

} // verus!
