//! The open documents, each under its identifier.

use crate::completion::{complete, completion_of, Completion, CompletionView, Position};
use crate::keymap::Keymap;
use crate::trie::Trie;
use dashmap::DashMap;
use vstd::prelude::*;

verus! {

/// `dashmap::DashMap`, a concurrent hash map. Nothing inside it is seen
/// here: what it holds goes by the name `stored_texts`.
#[verifier::external_type_specification]
#[verifier::external_body]
#[verifier::reject_recursive_types(K)]
#[verifier::reject_recursive_types(V)]
#[verifier::reject_recursive_types(S)]
pub struct ExDashMap<K, V, S>(DashMap<K, V, S>);

/// What a map of documents holds: for each identifier that has an entry,
/// the text stored under it.
pub uninterp spec fn stored_texts(documents: DashMap<String, String>) -> Map<Seq<char>, Seq<char>>;

/// The map without entries.
pub open spec fn no_texts() -> Map<Seq<char>, Seq<char>> {
    Map::empty()
}

/// `DashMap::new`: a map without entries.
#[verifier::external_body]
fn no_documents() -> (created: DashMap<String, String>)
    ensures
        stored_texts(created) == no_texts(),
{
    DashMap::new()
}

/// `DashMap::insert`: afterwards the map holds `text` under `id`, in place
/// of what it held under `id` before; the other entries are as they were.
/// The caller has the map to itself, so no reference into it is held and
/// the call returns.
#[verifier::external_body]
fn store_text(documents: &mut DashMap<String, String>, id: String, text: String)
    ensures
        stored_texts(*final(documents)) == stored_texts(*old(documents)).insert(id@, text@),
{
    documents.insert(id, text);
}

/// `DashMap::remove`: afterwards the map holds nothing under `id`; the
/// other entries are as they were. The caller has the map to itself, so no
/// reference into it is held and the call returns.
#[verifier::external_body]
fn drop_text(documents: &mut DashMap<String, String>, id: &str)
    ensures
        stored_texts(*final(documents)) == stored_texts(*old(documents)).remove(id@),
{
    documents.remove(id);
}

/// `DashMap::get`, and a copy of the value it refers to: the text held
/// under `id`, or `None` where the map holds nothing under `id`.
#[verifier::external_body]
fn stored_text(documents: &DashMap<String, String>, id: &str) -> (text: Option<String>)
    ensures
        match text {
            Some(found) => stored_texts(*documents).contains_key(id@) && found@ == stored_texts(
                *documents,
            )[id@],
            None => !stored_texts(*documents).contains_key(id@),
        },
{
    documents.get(id).map(|entry| entry.value().clone())
}

/// The answer to a completion request at `position` in the document `id`:
/// no suggestions where no document is open under `id`, else the answer
/// for the text that the store holds under `id`.
pub open spec fn completion_in(
    documents: Map<Seq<char>, Seq<char>>,
    keymap: Trie,
    id: Seq<char>,
    position: Position,
) -> Option<CompletionView> {
    if documents.contains_key(id) {
        completion_of(keymap, documents[id], position)
    } else {
        None
    }
}

/// The documents that are open, each under its identifier.
pub struct DocumentStore {
    documents: DashMap<String, String>,
}

impl View for DocumentStore {
    type V = Map<Seq<char>, Seq<char>>;

    closed spec fn view(&self) -> Map<Seq<char>, Seq<char>> {
        stored_texts(self.documents)
    }
}

impl DocumentStore {
    /// A store without documents.
    pub fn new() -> (store: DocumentStore)
        ensures
            store@ == no_texts(),
    {
        DocumentStore { documents: no_documents() }
    }

    /// A document was opened: the store holds `text` under `id`.
    pub fn did_open(&mut self, id: String, text: String)
        ensures
            final(self)@ == old(self)@.insert(id@, text@),
    {
        store_text(&mut self.documents, id, text);
    }

    /// A document was changed: the store holds `text` under `id`, and
    /// nothing of what it held under `id` before.
    pub fn did_change(&mut self, id: String, text: String)
        ensures
            final(self)@ == old(self)@.insert(id@, text@),
    {
        store_text(&mut self.documents, id, text);
    }

    /// A document was closed: the store holds nothing under `id`.
    pub fn did_close(&mut self, id: &str)
        ensures
            final(self)@ == old(self)@.remove(id@),
    {
        drop_text(&mut self.documents, id);
    }

    /// The text of the document `id`, if it is open.
    pub fn text(&self, id: &str) -> (text: Option<String>)
        ensures
            match text {
                Some(found) => self@.contains_key(id@) && found@ == self@[id@],
                None => !self@.contains_key(id@),
            },
    {
        stored_text(&self.documents, id)
    }

    /// Answers a completion request at `position` in the document `id`.
    /// `None` is "no suggestions": no document is open under `id`, or its
    /// text has nothing to complete at `position`.
    pub fn completion(&self, keymap: &Keymap, id: &str, position: Position) -> (answer: Option<
        Completion,
    >)
        ensures
            answer.deep_view() == completion_in(self@, keymap@, id@, position),
    {
        match self.text(id) {
            Some(document) => complete(keymap, document.as_str(), position),
            None => None,
        }
    }
}

/// After a change of the document `id`, a completion request in it is
/// answered from the new text alone, whatever the store held under `id`
/// before; requests in the other documents are answered as before.
pub proof fn law_change_replaces_text(
    documents: Map<Seq<char>, Seq<char>>,
    keymap: Trie,
    id: Seq<char>,
    text: Seq<char>,
    other: Seq<char>,
    position: Position,
)
    ensures
        completion_in(documents.insert(id, text), keymap, id, position) == completion_of(
            keymap,
            text,
            position,
        ),
        other != id ==> completion_in(documents.insert(id, text), keymap, other, position)
            == completion_in(documents, keymap, other, position),
{
}

/// After a document was closed, a completion request in it gets no
/// suggestions.
pub proof fn law_closed_document_no_suggestions(
    documents: Map<Seq<char>, Seq<char>>,
    keymap: Trie,
    id: Seq<char>,
    position: Position,
)
    ensures
        completion_in(documents.remove(id), keymap, id, position) is None,
{
}

} // verus!
