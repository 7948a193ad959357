//! The store: tables of nodes and documents, and an index from each
//! document to the IDs of the nodes inserted for it.
//!
//! Every operation's effect is stated over `StoreView`, the three maps that
//! the store holds; the laws at the end of this file relate the operations.
use vstd::prelude::*;
use crate::error::{is_document_not_found, is_node_not_found, ReasonError};
use crate::model::{Document, DocumentView, PageNode, PageNodeView};
use crate::table::Table;
use crate::text::{key_lt, strs, string_eq, to_string};

verus! {

/// The IDs of the nodes of one document, in insertion order.
pub struct NodeIdList {
    ids: Vec<String>,
}

impl View for NodeIdList {
    type V = Seq<Seq<char>>;

    closed spec fn view(&self) -> Seq<Seq<char>> {
        strs(self.ids@)
    }
}

/// What a store holds: nodes by ID, documents by ID, and for each document
/// the IDs of the nodes inserted for it.
pub struct StoreView {
    pub nodes: Map<Seq<char>, PageNodeView>,
    pub documents: Map<Seq<char>, DocumentView>,
    pub doc_nodes: Map<Seq<char>, Seq<Seq<char>>>,
}

/// Database statistics.
#[derive(Debug, Clone)]
pub struct StoreStats {
    pub total_nodes: usize,
    pub total_documents: usize,
}

/// The node IDs that the index lists for a document (none if it has no entry).
pub open spec fn indexed_ids(index: Map<Seq<char>, Seq<Seq<char>>>, doc: Seq<char>) -> Seq<
    Seq<char>,
> {
    if index.contains_key(doc) {
        index[doc]
    } else {
        Seq::empty()
    }
}

/// The index after recording that node `node` belongs to document `doc`:
/// the ID is appended to the document's list unless it is already there.
pub open spec fn index_with(
    index: Map<Seq<char>, Seq<Seq<char>>>,
    doc: Seq<char>,
    node: Seq<char>,
) -> Map<Seq<char>, Seq<Seq<char>>> {
    if indexed_ids(index, doc).contains(node) {
        index
    } else {
        index.insert(doc, indexed_ids(index, doc).push(node))
    }
}

/// The node stored under `id`, if any.
pub open spec fn lookup_node(s: StoreView, id: Seq<char>) -> Option<PageNodeView> {
    if s.nodes.contains_key(id) {
        Some(s.nodes[id])
    } else {
        None
    }
}

/// The document stored under `id`, if any.
pub open spec fn lookup_document(s: StoreView, id: Seq<char>) -> Option<DocumentView> {
    if s.documents.contains_key(id) {
        Some(s.documents[id])
    } else {
        None
    }
}

/// The store after inserting (or overwriting) node `n` and indexing it
/// under its document.
pub open spec fn store_insert_node(s: StoreView, n: PageNodeView) -> StoreView {
    StoreView {
        nodes: s.nodes.insert(n.id, n),
        doc_nodes: index_with(s.doc_nodes, n.document_id, n.id),
        ..s
    }
}

/// The store after deleting node `id` (the index is not touched).
pub open spec fn store_delete_node(s: StoreView, id: Seq<char>) -> StoreView {
    StoreView { nodes: s.nodes.remove(id), ..s }
}

/// The store after storing `n` under its ID without touching the index (the
/// effect of a successful `update_node`).
pub open spec fn store_put_node(s: StoreView, n: PageNodeView) -> StoreView {
    StoreView { nodes: s.nodes.insert(n.id, n), ..s }
}

/// The store after storing document `d` under its ID.
pub open spec fn store_put_document(s: StoreView, d: DocumentView) -> StoreView {
    StoreView { documents: s.documents.insert(d.id, d), ..s }
}

/// The store after inserting the nodes `ns` one after another.
pub open spec fn store_insert_nodes(s: StoreView, ns: Seq<PageNodeView>) -> StoreView
    decreases ns.len(),
{
    if ns.len() == 0 {
        s
    } else {
        store_insert_node(store_insert_nodes(s, ns.drop_last()), ns.last())
    }
}

/// The store after deleting document `id`, the nodes that the index lists
/// for it, and its index entry.
pub open spec fn store_delete_document(s: StoreView, id: Seq<char>) -> StoreView {
    StoreView {
        nodes: s.nodes.remove_keys(indexed_ids(s.doc_nodes, id).to_set()),
        documents: s.documents.remove(id),
        doc_nodes: s.doc_nodes.remove(id),
    }
}

/// The nodes stored under the IDs `ids`, in order, skipping IDs without a
/// node.
pub open spec fn present_nodes(nodes: Map<Seq<char>, PageNodeView>, ids: Seq<Seq<char>>) -> Seq<
    PageNodeView,
>
    decreases ids.len(),
{
    if ids.len() == 0 {
        Seq::empty()
    } else {
        present_nodes(nodes, ids.drop_last()) + if nodes.contains_key(ids.last()) {
            seq![nodes[ids.last()]]
        } else {
            Seq::empty()
        }
    }
}

/// What holds of every store: each node and each document is stored under
/// its own ID, and no document's index lists a node twice.
pub open spec fn store_invariant(s: StoreView) -> bool {
    &&& forall|k: Seq<char>| #[trigger] s.nodes.contains_key(k) ==> s.nodes[k].id == k
    &&& forall|k: Seq<char>| #[trigger] s.documents.contains_key(k) ==> s.documents[k].id == k
    &&& forall|d: Seq<char>| #[trigger] s.doc_nodes.contains_key(d) ==> s.doc_nodes[d].no_duplicates()
}

/// `v` lists the documents of `documents` once each, in ascending order of
/// their IDs.
pub open spec fn in_id_order(documents: Map<Seq<char>, DocumentView>, v: Seq<DocumentView>) -> bool {
    &&& v.len() == documents.dom().len()
    &&& forall|i: int|
        0 <= i < v.len() ==> documents.contains_key((#[trigger] v[i]).id) && documents[v[i].id]
            == v[i]
    &&& forall|i: int, j: int| 0 <= i < j < v.len() ==> key_lt((#[trigger] v[i]).id, (#[trigger] v[j]).id)
    &&& forall|id: Seq<char>| #[trigger]
        documents.contains_key(id) ==> exists|i: int| 0 <= i < v.len() && (#[trigger] v[i]).id == id
}

/// The views of a sequence of nodes.
pub open spec fn node_views(ns: Seq<PageNode>) -> Seq<PageNodeView> {
    ns.map_values(|n: PageNode| n@)
}

/// The views of a sequence of documents.
pub open spec fn document_views(ds: Seq<Document>) -> Seq<DocumentView> {
    ds.map_values(|d: Document| d@)
}

/// Storage engine for ReasonDB: nodes, documents and the document-to-nodes
/// index.
pub struct NodeStore {
    nodes: Table<PageNode>,
    documents: Table<Document>,
    doc_nodes: Table<NodeIdList>,
}

impl View for NodeStore {
    type V = StoreView;

    closed spec fn view(&self) -> StoreView {
        StoreView {
            nodes: self.nodes.view(),
            documents: self.documents.view(),
            doc_nodes: self.doc_nodes.view(),
        }
    }
}

impl NodeStore {
    /// Every store keeps `store_invariant`.
    #[verifier::type_invariant]
    closed spec fn inv(&self) -> bool {
        store_invariant(self@)
    }
}

impl NodeStore {
    /// An empty store.
    pub fn new() -> (s: Self)
        ensures
            store_invariant(s@),
            s@.nodes == Map::<Seq<char>, PageNodeView>::empty(),
            s@.documents == Map::<Seq<char>, DocumentView>::empty(),
            s@.doc_nodes == Map::<Seq<char>, Seq<Seq<char>>>::empty(),
    {
        NodeStore { nodes: Table::new(), documents: Table::new(), doc_nodes: Table::new() }
    }

    // ==================== Field updates ====================

    /// Store `node` under its ID.
    fn put_node_entry(&mut self, node: &PageNode)
        ensures
            final(self)@ == (StoreView { nodes: old(self)@.nodes.insert(node@.id, node@), ..old(self)@ }),
    {
        proof {
            use_type_invariant(&*self);
        }
        let ghost s0 = self@;
        let mut t: Table<PageNode> = Table::new();
        std::mem::swap(&mut t, &mut self.nodes);
        let _ = t.insert(node.id.clone(), node.copy());
        assert(store_invariant(StoreView { nodes: t.view(), ..s0 }));
        std::mem::swap(&mut t, &mut self.nodes);
    }

    /// Remove the node stored under `id`; whether there was one.
    fn remove_node_entry(&mut self, id: &str) -> (r: bool)
        ensures
            r == old(self)@.nodes.contains_key(id@),
            final(self)@ == (StoreView { nodes: old(self)@.nodes.remove(id@), ..old(self)@ }),
    {
        proof {
            use_type_invariant(&*self);
        }
        let ghost s0 = self@;
        let mut t: Table<PageNode> = Table::new();
        std::mem::swap(&mut t, &mut self.nodes);
        let removed = t.remove(id);
        assert(store_invariant(StoreView { nodes: t.view(), ..s0 }));
        std::mem::swap(&mut t, &mut self.nodes);
        removed.is_some()
    }

    /// Store `doc` under its ID.
    fn put_document_entry(&mut self, doc: &Document)
        ensures
            final(self)@ == (StoreView {
                documents: old(self)@.documents.insert(doc@.id, doc@),
                ..old(self)@
            }),
    {
        proof {
            use_type_invariant(&*self);
        }
        let ghost s0 = self@;
        let mut t: Table<Document> = Table::new();
        std::mem::swap(&mut t, &mut self.documents);
        let _ = t.insert(doc.id.clone(), doc.copy());
        assert(store_invariant(StoreView { documents: t.view(), ..s0 }));
        std::mem::swap(&mut t, &mut self.documents);
    }

    /// Remove the document stored under `id`; whether there was one.
    fn remove_document_entry(&mut self, id: &str) -> (r: bool)
        ensures
            r == old(self)@.documents.contains_key(id@),
            final(self)@ == (StoreView { documents: old(self)@.documents.remove(id@), ..old(self)@ }),
    {
        proof {
            use_type_invariant(&*self);
        }
        let ghost s0 = self@;
        let mut t: Table<Document> = Table::new();
        std::mem::swap(&mut t, &mut self.documents);
        let removed = t.remove(id);
        assert(store_invariant(StoreView { documents: t.view(), ..s0 }));
        std::mem::swap(&mut t, &mut self.documents);
        removed.is_some()
    }

    /// Set the index list of `document_id` to `ids` (which hold no ID twice).
    fn put_index_entry(&mut self, document_id: String, ids: Vec<String>)
        requires
            strs(ids@).no_duplicates(),
        ensures
            final(self)@ == (StoreView {
                doc_nodes: old(self)@.doc_nodes.insert(document_id@, strs(ids@)),
                ..old(self)@
            }),
    {
        proof {
            use_type_invariant(&*self);
        }
        let ghost s0 = self@;
        let ghost l = strs(ids@);
        let mut t: Table<NodeIdList> = Table::new();
        std::mem::swap(&mut t, &mut self.doc_nodes);
        let _ = t.insert(document_id, NodeIdList { ids });
        assert(store_invariant(StoreView { doc_nodes: t.view(), ..s0 }));
        std::mem::swap(&mut t, &mut self.doc_nodes);
    }

    /// Remove the index list of `document_id`.
    fn remove_index_entry(&mut self, document_id: &str)
        ensures
            final(self)@ == (StoreView { doc_nodes: old(self)@.doc_nodes.remove(document_id@), ..old(self)@ }),
    {
        proof {
            use_type_invariant(&*self);
        }
        let ghost s0 = self@;
        let mut t: Table<NodeIdList> = Table::new();
        std::mem::swap(&mut t, &mut self.doc_nodes);
        let _ = t.remove(document_id);
        assert(store_invariant(StoreView { doc_nodes: t.view(), ..s0 }));
        std::mem::swap(&mut t, &mut self.doc_nodes);
    }

    // ==================== Node Operations ====================

    /// Record in the index that node `node_id` belongs to `document_id`.
    fn update_doc_node_index(&mut self, document_id: &String, node_id: &String)
        ensures
            final(self)@ == (StoreView {
                doc_nodes: index_with(old(self)@.doc_nodes, document_id@, node_id@),
                ..old(self)@
            }),
    {
        let ghost index = self@.doc_nodes;
        let existing: Option<Vec<String>> = match self.doc_nodes.get(document_id.as_str()) {
            Some(list) => Some(list.ids.clone()),
            None => None,
        };
        let mut ids: Vec<String> = match existing {
            Some(v) => v,
            None => Vec::new(),
        };
        proof {
            assert(strs(ids@) =~= indexed_ids(index, document_id@));
        }
        let n = ids.len();
        let mut i: usize = 0;
        let mut present = false;
        while i < n
            invariant
                n == ids@.len(),
                i <= n,
                present == exists|j: int| 0 <= j < i && (#[trigger] ids@[j])@ == node_id@,
            decreases n - i,
        {
            if string_eq(&ids[i], node_id) {
                present = true;
            }
            i += 1;
        }
        proof {
            let list = strs(ids@);
            if present {
                let j = choose|j: int| 0 <= j < n && (#[trigger] ids@[j])@ == node_id@;
                assert(list[j] == node_id@);
            } else {
                if list.contains(node_id@) {
                    let j = choose|j: int| 0 <= j < list.len() && list[j] == node_id@;
                    assert(ids@[j]@ == node_id@);
                }
            }
        }
        if !present {
            let ghost before = strs(ids@);
            ids.push(node_id.clone());
            assert(strs(ids@) =~= before.push(node_id@));
            proof {
                use_type_invariant(&*self);
                let l = strs(ids@);
                assert(before.no_duplicates());
                assert forall|i: int, j: int| 0 <= i < l.len() && 0 <= j < l.len() && i != j implies l[i]
                    != l[j] by {
                    if i == before.len() as int {
                        assert(before[j] == l[j]);
                    } else if j == before.len() as int {
                        assert(before[i] == l[i]);
                    } else {
                        assert(before[i] == l[i] && before[j] == l[j]);
                    }
                }
            }
            self.put_index_entry(document_id.clone(), ids);
        }
    }

    /// Insert (or overwrite) a node and index it under its document.
    pub fn insert_node(&mut self, node: &PageNode) -> (r: Result<(), ReasonError>)
        ensures
            store_invariant(final(self)@),
            r is Ok,
            final(self)@ == store_insert_node(old(self)@, node@),
    {
        proof {
            use_type_invariant(&*self);
        }
        self.put_node_entry(node);
        self.update_doc_node_index(&node.document_id, &node.id);
        proof {
            use_type_invariant(&*self);
        }
        Ok(())
    }

    /// Insert several nodes, as `insert_node` does one after another.
    pub fn insert_nodes(&mut self, nodes: &[PageNode]) -> (r: Result<(), ReasonError>)
        ensures
            store_invariant(final(self)@),
            r is Ok,
            final(self)@ == store_insert_nodes(old(self)@, node_views(nodes@)),
    {
        proof {
            use_type_invariant(&*self);
        }
        let n = nodes.len();
        let mut i: usize = 0;
        while i < n
            invariant
                n == nodes@.len(),
                i <= n,
                self@ == store_insert_nodes(old(self)@, node_views(nodes@.take(i as int))),
            decreases n - i,
        {
            let _ = self.insert_node(&nodes[i]);
            proof {
                let prefix = node_views(nodes@.take(i + 1));
                assert(prefix.drop_last() =~= node_views(nodes@.take(i as int)));
                assert(prefix.last() == nodes@[i as int]@);
            }
            i += 1;
        }
        assert(nodes@.take(n as int) =~= nodes@);
        proof {
            use_type_invariant(&*self);
        }
        Ok(())
    }

    /// Get a node by its ID: `Ok(Some(node))` if found, `Ok(None)` if not.
    pub fn get_node(&self, id: &str) -> (r: Result<Option<PageNode>, ReasonError>)
        ensures
            match r {
                Ok(Some(n)) => lookup_node(self@, id@) == Some(n@),
                Ok(None) => lookup_node(self@, id@) is None,
                Err(_) => false,
            },
    {
        match self.nodes.get(id) {
            Some(n) => Ok(Some(n.copy())),
            None => Ok(None),
        }
    }

    /// Get a node, returning `NodeNotFound` if there is none.
    pub fn get_node_required(&self, id: &str) -> (r: Result<PageNode, ReasonError>)
        ensures
            match r {
                Ok(n) => lookup_node(self@, id@) == Some(n@),
                Err(e) => lookup_node(self@, id@) is None && is_node_not_found(e, id@),
            },
    {
        match self.get_node(id) {
            Ok(Some(n)) => Ok(n),
            Ok(None) => Err(ReasonError::NodeNotFound(to_string(id))),
            Err(e) => Err(e),
        }
    }

    /// Update an existing node; `NodeNotFound` (and no change) if there is
    /// no node with its ID. The index is not touched.
    pub fn update_node(&mut self, node: &PageNode) -> (r: Result<(), ReasonError>)
        ensures
            store_invariant(final(self)@),
            match r {
                Ok(()) => old(self)@.nodes.contains_key(node@.id) && final(self)@ == store_put_node(
                    old(self)@,
                    node@,
                ),
                Err(e) => !old(self)@.nodes.contains_key(node@.id) && final(self)@ == old(self)@
                    && is_node_not_found(e, node@.id),
            },
    {
        proof {
            use_type_invariant(&*self);
        }
        if !self.nodes.contains_key(node.id.as_str()) {
            return Err(ReasonError::NodeNotFound(node.id.clone()));
        }
        self.put_node_entry(node);
        proof {
            use_type_invariant(&*self);
        }
        Ok(())
    }

    /// Delete a node by its ID; `true` if it existed. The index is not
    /// touched.
    pub fn delete_node(&mut self, id: &str) -> (r: Result<bool, ReasonError>)
        ensures
            store_invariant(final(self)@),
            r == Ok::<bool, ReasonError>(old(self)@.nodes.contains_key(id@)),
            final(self)@ == store_delete_node(old(self)@, id@),
    {
        proof {
            use_type_invariant(&*self);
        }
        let removed = self.remove_node_entry(id);
        proof {
            use_type_invariant(&*self);
        }
        Ok(removed)
    }

    /// The nodes stored under the given IDs, in order, skipping missing ones.
    fn nodes_for_ids(&self, ids: &Vec<String>) -> (r: Vec<PageNode>)
        ensures
            node_views(r@) == present_nodes(self@.nodes, strs(ids@)),
    {
        let mut out: Vec<PageNode> = Vec::new();
        let n = ids.len();
        let mut i: usize = 0;
        while i < n
            invariant
                n == ids@.len(),
                i <= n,
                node_views(out@) == present_nodes(self@.nodes, strs(ids@.take(i as int))),
            decreases n - i,
        {
            let ghost before = out@;
            match self.nodes.get(ids[i].as_str()) {
                Some(node) => {
                    out.push(node.copy());
                },
                None => {},
            }
            proof {
                let pre = strs(ids@.take(i + 1));
                assert(pre.drop_last() =~= strs(ids@.take(i as int)));
                assert(pre.last() == ids@[i as int]@);
                assert(node_views(out@) =~= present_nodes(self@.nodes, pre));
            }
            i += 1;
        }
        assert(ids@.take(n as int) =~= ids@);
        out
    }

    /// Get all children of a node: the stored nodes under its child IDs, in
    /// order, skipping IDs without a stored node.
    pub fn get_children(&self, node: &PageNode) -> (r: Result<Vec<PageNode>, ReasonError>)
        ensures
            match r {
                Ok(v) => node_views(v@) == present_nodes(self@.nodes, node@.children_ids),
                Err(_) => false,
            },
    {
        Ok(self.nodes_for_ids(&node.children_ids))
    }

    /// Get the parent of a node, if it has a parent ID and that node exists.
    pub fn get_parent(&self, node: &PageNode) -> (r: Result<Option<PageNode>, ReasonError>)
        ensures
            match r {
                Ok(Some(p)) => node@.parent_id matches Some(pid) && lookup_node(self@, pid) == Some(
                    p@,
                ),
                Ok(None) => node@.parent_id is None || (node@.parent_id matches Some(pid)
                    && lookup_node(self@, pid) is None),
                Err(_) => false,
            },
    {
        match &node.parent_id {
            Some(parent_id) => self.get_node(parent_id.as_str()),
            None => Ok(None),
        }
    }

    /// Get the nodes of a document: the stored nodes under the IDs that the
    /// index lists for it, in insertion order, skipping deleted ones.
    pub fn get_nodes_for_document(&self, document_id: &str) -> (r: Result<
        Vec<PageNode>,
        ReasonError,
    >)
        ensures
            store_invariant(self@),
            match r {
                Ok(v) => node_views(v@) == present_nodes(
                    self@.nodes,
                    indexed_ids(self@.doc_nodes, document_id@),
                ),
                Err(_) => false,
            },
    {
        proof {
            use_type_invariant(&*self);
        }
        match self.doc_nodes.get(document_id) {
            Some(list) => Ok(self.nodes_for_ids(&list.ids)),
            None => {
                let v: Vec<PageNode> = Vec::new();
                assert(node_views(v@) =~= Seq::<PageNodeView>::empty());
                Ok(v)
            },
        }
    }

    /// The node IDs that the index lists for a document, in insertion order
    /// (deleted nodes included; none if the document has no entry).
    pub fn indexed_node_ids(&self, document_id: &str) -> (r: Vec<String>)
        ensures
            strs(r@) == indexed_ids(self@.doc_nodes, document_id@),
    {
        match self.doc_nodes.get(document_id) {
            Some(list) => {
                let ids = list.ids.clone();
                assert(strs(ids@) =~= strs(list.ids@));
                ids
            },
            None => {
                let v: Vec<String> = Vec::new();
                assert(strs(v@) =~= Seq::<Seq<char>>::empty());
                v
            },
        }
    }

    /// Set the index list of a document to `ids`, as a store that is being
    /// loaded had it; a `Serialization` error (and no change) if `ids` lists
    /// an ID twice.
    pub fn restore_index_entry(&mut self, document_id: &str, ids: &Vec<String>) -> (r: Result<
        (),
        ReasonError,
    >)
        ensures
            store_invariant(final(self)@),
            match r {
                Ok(()) => strs(ids@).no_duplicates() && final(self)@ == (StoreView {
                    doc_nodes: old(self)@.doc_nodes.insert(document_id@, strs(ids@)),
                    ..old(self)@
                }),
                Err(e) => !strs(ids@).no_duplicates() && final(self)@ == old(self)@
                    && e is Serialization,
            },
    {
        proof {
            use_type_invariant(&*self);
        }
        let n = ids.len();
        let mut i: usize = 0;
        while i < n
            invariant
                n == ids@.len(),
                i <= n,
                forall|a: int, b: int| 0 <= a < b < i ==> (#[trigger] ids@[a])@ != (#[trigger] ids@[b])@,
            decreases n - i,
        {
            let mut j: usize = 0;
            while j < i
                invariant
                    n == ids@.len(),
                    j <= i < n,
                    forall|a: int| 0 <= a < j ==> (#[trigger] ids@[a])@ != ids@[i as int]@,
                decreases i - j,
            {
                if string_eq(&ids[j], &ids[i]) {
                    assert(strs(ids@)[j as int] == strs(ids@)[i as int]);
                    proof {
                        use_type_invariant(&*self);
                    }
                    return Err(ReasonError::Serialization(to_string("Duplicate node ID in index")));
                }
                j += 1;
            }
            i += 1;
        }
        assert(strs(ids@).no_duplicates()) by {
            assert forall|a: int, b: int| 0 <= a < strs(ids@).len() && 0 <= b < strs(ids@).len() && a != b implies
                strs(ids@)[a] != strs(ids@)[b] by {
                if a < b {
                    assert(ids@[a]@ != ids@[b]@);
                } else {
                    assert(ids@[b]@ != ids@[a]@);
                }
            }
        }
        self.put_index_entry(to_string(document_id), ids.clone());
        proof {
            use_type_invariant(&*self);
        }
        Ok(())
    }

    // ==================== Document Operations ====================

    /// Insert (or overwrite) a document.
    pub fn insert_document(&mut self, doc: &Document) -> (r: Result<(), ReasonError>)
        ensures
            store_invariant(final(self)@),
            r is Ok,
            final(self)@ == store_put_document(old(self)@, doc@),
    {
        proof {
            use_type_invariant(&*self);
        }
        self.put_document_entry(doc);
        proof {
            use_type_invariant(&*self);
        }
        Ok(())
    }

    /// Get a document by its ID: `Ok(Some(doc))` if found, `Ok(None)` if not.
    pub fn get_document(&self, id: &str) -> (r: Result<Option<Document>, ReasonError>)
        ensures
            match r {
                Ok(Some(d)) => lookup_document(self@, id@) == Some(d@),
                Ok(None) => lookup_document(self@, id@) is None,
                Err(_) => false,
            },
    {
        match self.documents.get(id) {
            Some(d) => Ok(Some(d.copy())),
            None => Ok(None),
        }
    }

    /// Get a document, returning `DocumentNotFound` if there is none.
    pub fn get_document_required(&self, id: &str) -> (r: Result<Document, ReasonError>)
        ensures
            match r {
                Ok(d) => lookup_document(self@, id@) == Some(d@),
                Err(e) => lookup_document(self@, id@) is None
                    && is_document_not_found(e, id@),
            },
    {
        match self.get_document(id) {
            Ok(Some(d)) => Ok(d),
            Ok(None) => Err(ReasonError::DocumentNotFound(to_string(id))),
            Err(e) => Err(e),
        }
    }

    /// Update an existing document; `DocumentNotFound` (and no change) if
    /// there is no document with its ID.
    pub fn update_document(&mut self, doc: &Document) -> (r: Result<(), ReasonError>)
        ensures
            store_invariant(final(self)@),
            match r {
                Ok(()) => old(self)@.documents.contains_key(doc@.id) && final(self)@
                    == store_put_document(old(self)@, doc@),
                Err(e) => !old(self)@.documents.contains_key(doc@.id) && final(self)@ == old(
                    self,
                )@ && is_document_not_found(e, doc@.id),
            },
    {
        proof {
            use_type_invariant(&*self);
        }
        if !self.documents.contains_key(doc.id.as_str()) {
            return Err(ReasonError::DocumentNotFound(doc.id.clone()));
        }
        self.put_document_entry(doc);
        proof {
            use_type_invariant(&*self);
        }
        Ok(())
    }

    /// Delete a document, the nodes that the index lists for it, and its
    /// index entry; `true` if the document existed.
    pub fn delete_document(&mut self, id: &str) -> (r: Result<bool, ReasonError>)
        ensures
            store_invariant(final(self)@),
            r == Ok::<bool, ReasonError>(old(self)@.documents.contains_key(id@)),
            final(self)@ == store_delete_document(old(self)@, id@),
    {
        proof {
            use_type_invariant(&*self);
        }
        let ghost s0 = self@;
        let node_ids: Vec<String> = match self.doc_nodes.get(id) {
            Some(list) => list.ids.clone(),
            None => Vec::new(),
        };
        proof {
            assert(strs(node_ids@) =~= indexed_ids(s0.doc_nodes, id@));
        }
        let n = node_ids.len();
        let mut i: usize = 0;
        assert(strs(node_ids@.take(0)).to_set() =~= Set::<Seq<char>>::empty());
        assert(s0.nodes.remove_keys(Set::<Seq<char>>::empty()) =~= s0.nodes);
        while i < n
            invariant
                n == node_ids@.len(),
                i <= n,
                self@ == (StoreView {
                    nodes: s0.nodes.remove_keys(strs(node_ids@.take(i as int)).to_set()),
                    ..s0
                }),
            decreases n - i,
        {
            let _ = self.remove_node_entry(node_ids[i].as_str());
            proof {
                let pre = strs(node_ids@.take(i + 1));
                assert(pre.drop_last() =~= strs(node_ids@.take(i as int)));
                assert(pre.last() == node_ids@[i as int]@);
                assert(pre =~= pre.drop_last().push(pre.last()));
                assert(pre.to_set() =~= strs(node_ids@.take(i as int)).to_set().insert(
                    node_ids@[i as int]@,
                ));
                assert(self@.nodes =~= s0.nodes.remove_keys(pre.to_set()));
            }
            i += 1;
        }
        assert(node_ids@.take(n as int) =~= node_ids@);
        let removed = self.remove_document_entry(id);
        self.remove_index_entry(id);
        proof {
            use_type_invariant(&*self);
        }
        Ok(removed)
    }

    /// List all documents, once each, in ascending order of their IDs.
    pub fn list_documents(&self) -> (r: Result<Vec<Document>, ReasonError>)
        ensures
            store_invariant(self@),
            match r {
                Ok(v) => in_id_order(self@.documents, document_views(v@)),
                Err(_) => false,
            },
    {
        proof {
            use_type_invariant(self);
        }
        let n = self.documents.len();
        let mut out: Vec<Document> = Vec::new();
        let mut i: usize = 0;
        while i < n
            invariant
                n == self.documents.values().len(),
                n == self.documents.keys().len(),
                i <= n,
                document_views(out@) == self.documents.values().take(i as int),
            decreases n - i,
        {
            let d = self.documents.value_at(i);
            let ghost before = out@;
            out.push(d.copy());
            assert(out@ == before.push(out@.last()));
            assert(document_views(out@) =~= document_views(before).push(out@.last()@));
            assert(document_views(out@) =~= self.documents.values().take(i + 1));
            i += 1;
        }
        assert(self.documents.values().take(n as int) =~= self.documents.values());
        proof {
            let v = document_views(out@);
            let keys = self.documents.keys();
            let m = self@.documents;
            assert forall|i: int| 0 <= i < v.len() implies #[trigger] v[i].id == keys[i] by {
                assert(m.contains_key(keys[i]));
            }
            assert forall|i: int| 0 <= i < v.len() implies m.contains_key((#[trigger] v[i]).id)
                && m[v[i].id] == v[i] by {
                assert(v[i].id == keys[i]);
            }
            assert forall|i: int, j: int| 0 <= i < j < v.len() implies key_lt(
                (#[trigger] v[i]).id,
                (#[trigger] v[j]).id,
            ) by {
                assert(v[i].id == keys[i] && v[j].id == keys[j]);
            }
            assert forall|id: Seq<char>| #[trigger] m.contains_key(id) implies exists|i: int|
                0 <= i < v.len() && (#[trigger] v[i]).id == id by {
                assert(keys.contains(id));
                let i = choose|i: int| 0 <= i < keys.len() && keys[i] == id;
                assert(v[i].id == keys[i]);
            }
        }
        Ok(out)
    }

    /// Get the root node of a document: none if the document does not exist
    /// or has no root ID set; otherwise the node under its root ID, if any.
    pub fn get_root_node(&self, document_id: &str) -> (r: Result<Option<PageNode>, ReasonError>)
        ensures
            match r {
                Ok(Some(n)) => lookup_document(self@, document_id@) matches Some(d) && d.root_node_id.len()
                    > 0 && lookup_node(self@, d.root_node_id) == Some(n@),
                Ok(None) => match lookup_document(self@, document_id@) {
                    None => true,
                    Some(d) => d.root_node_id.len() == 0 || lookup_node(self@, d.root_node_id) is None,
                },
                Err(_) => false,
            },
    {
        let doc = match self.get_document(document_id) {
            Ok(Some(d)) => d,
            Ok(None) => return Ok(None),
            Err(e) => return Err(e),
        };
        if doc.root_node_id.as_str().is_empty() {
            return Ok(None);
        }
        self.get_node(doc.root_node_id.as_str())
    }

    /// Database statistics: the numbers of stored nodes and documents.
    pub fn stats(&self) -> (r: Result<StoreStats, ReasonError>)
        ensures
            store_invariant(self@),
            match r {
                Ok(st) => st.total_nodes == self@.nodes.dom().len() && st.total_documents
                    == self@.documents.dom().len(),
                Err(_) => false,
            },
    {
        proof {
            use_type_invariant(&*self);
        }
        Ok(StoreStats { total_nodes: self.nodes.len(), total_documents: self.documents.len() })
    }
}

} // verus!

verus! {

// ==================== Laws ====================

/// A node that the index lists for a document, and that is stored, is among
/// the nodes returned for that document.
pub proof fn lemma_present_nodes_contains(
    nodes: Map<Seq<char>, PageNodeView>,
    ids: Seq<Seq<char>>,
    id: Seq<char>,
)
    requires
        ids.contains(id),
        nodes.contains_key(id),
    ensures
        present_nodes(nodes, ids).contains(nodes[id]),
    decreases ids.len(),
{
    let pre = present_nodes(nodes, ids.drop_last());
    if ids.last() == id {
        assert(present_nodes(nodes, ids)[pre.len() as int] == nodes[id]);
    } else {
        let j = choose|j: int| 0 <= j < ids.len() && ids[j] == id;
        assert(ids.drop_last()[j] == id);
        lemma_present_nodes_contains(nodes, ids.drop_last(), id);
        let k = choose|k: int| 0 <= k < pre.len() && pre[k] == nodes[id];
        assert(present_nodes(nodes, ids)[k] == nodes[id]);
    }
}

/// Read after write: after `insert_node(n)`, `get_node(n.id)` gives back `n`,
/// and every other node is unchanged.
pub proof fn law_get_after_insert_node(s: StoreView, n: PageNodeView, other: Seq<char>)
    ensures
        lookup_node(store_insert_node(s, n), n.id) == Some(n),
        other != n.id ==> lookup_node(store_insert_node(s, n), other) == lookup_node(s, other),
        store_insert_node(s, n).documents == s.documents,
{
}

/// After `insert_node(n)` the index lists `n` for its document, so
/// `get_nodes_for_document(n.document_id)` returns it.
pub proof fn law_inserted_node_listed_for_document(s: StoreView, n: PageNodeView)
    ensures
        indexed_ids(store_insert_node(s, n).doc_nodes, n.document_id).contains(n.id),
        present_nodes(
            store_insert_node(s, n).nodes,
            indexed_ids(store_insert_node(s, n).doc_nodes, n.document_id),
        ).contains(n),
{
    let t = store_insert_node(s, n);
    let ids = indexed_ids(s.doc_nodes, n.document_id);
    if !ids.contains(n.id) {
        assert(indexed_ids(t.doc_nodes, n.document_id) == ids.push(n.id));
        assert(ids.push(n.id)[ids.len() as int] == n.id);
    }
    lemma_present_nodes_contains(t.nodes, indexed_ids(t.doc_nodes, n.document_id), n.id);
}

/// Inserting the same node twice changes nothing the second time.
pub proof fn law_insert_node_idempotent(s: StoreView, n: PageNodeView)
    ensures
        store_insert_node(store_insert_node(s, n), n) == store_insert_node(s, n),
{
    let t = store_insert_node(s, n);
    law_inserted_node_listed_for_document(s, n);
    assert(t.nodes.insert(n.id, n) =~= t.nodes);
}

/// The index never lists a node twice for a document: inserting a node
/// keeps every list free of duplicates.
pub proof fn law_index_without_duplicates(s: StoreView, n: PageNodeView)
    requires
        forall|d: Seq<char>| #[trigger] s.doc_nodes.contains_key(d) ==> s.doc_nodes[d].no_duplicates(),
    ensures
        forall|d: Seq<char>| #[trigger] store_insert_node(s, n).doc_nodes.contains_key(d)
            ==> store_insert_node(s, n).doc_nodes[d].no_duplicates(),
{
    let ids = indexed_ids(s.doc_nodes, n.document_id);
    let t = store_insert_node(s, n);
    assert forall|d: Seq<char>| #[trigger] t.doc_nodes.contains_key(d) implies t.doc_nodes[d].no_duplicates() by {
        if d == n.document_id && !ids.contains(n.id) {
            let l = ids.push(n.id);
            assert(t.doc_nodes[d] == l);
            assert forall|i: int, j: int| 0 <= i < l.len() && 0 <= j < l.len() && i != j implies l[i] != l[j] by {
                if i == ids.len() as int {
                    assert(ids[j] == l[j]);
                } else if j == ids.len() as int {
                    assert(ids[i] == l[i]);
                } else {
                    assert(ids[i] == l[i] && ids[j] == l[j]);
                }
            }
        }
    }
}

/// After `delete_node(id)`, `get_node(id)` finds nothing, and every other
/// node is unchanged.
pub proof fn law_get_after_delete_node(s: StoreView, id: Seq<char>, other: Seq<char>)
    ensures
        lookup_node(store_delete_node(s, id), id) is None,
        other != id ==> lookup_node(store_delete_node(s, id), other) == lookup_node(s, other),
{
}

/// After a successful `update_node(n)`, `get_node(n.id)` gives back `n`; the
/// index is unchanged.
pub proof fn law_get_after_update_node(s: StoreView, n: PageNodeView)
    ensures
        lookup_node(store_put_node(s, n), n.id) == Some(n),
        store_put_node(s, n).doc_nodes == s.doc_nodes,
{
}

/// Read after write for documents: after `insert_document(d)`,
/// `get_document(d.id)` gives back `d`; other documents are unchanged.
pub proof fn law_get_after_insert_document(s: StoreView, d: DocumentView, other: Seq<char>)
    ensures
        lookup_document(store_put_document(s, d), d.id) == Some(d),
        other != d.id ==> lookup_document(store_put_document(s, d), other) == lookup_document(
            s,
            other,
        ),
{
}

/// Deleting a document cascades: the document, every node that the index
/// lists for it, and its index entry are gone, so no node is returned for
/// it any more; nodes not listed for it stay.
pub proof fn law_delete_document_cascades(s: StoreView, d: Seq<char>, id: Seq<char>)
    ensures
        lookup_document(store_delete_document(s, d), d) is None,
        indexed_ids(s.doc_nodes, d).contains(id) ==> lookup_node(store_delete_document(s, d), id) is None,
        !indexed_ids(s.doc_nodes, d).contains(id) ==> lookup_node(store_delete_document(s, d), id)
            == lookup_node(s, id),
        present_nodes(
            store_delete_document(s, d).nodes,
            indexed_ids(store_delete_document(s, d).doc_nodes, d),
        ) == Seq::<PageNodeView>::empty(),
{
    let t = store_delete_document(s, d);
    assert(indexed_ids(t.doc_nodes, d) == Seq::<Seq<char>>::empty());
    if indexed_ids(s.doc_nodes, d).contains(id) {
        assert(indexed_ids(s.doc_nodes, d).to_set().contains(id));
    } else {
        assert(!indexed_ids(s.doc_nodes, d).to_set().contains(id));
    }
}

/// Inserting a node under an ID not yet stored adds one to the node count;
/// overwriting keeps the count.
pub proof fn law_insert_node_count(s: StoreView, n: PageNodeView)
    requires
        s.nodes.dom().finite(),
    ensures
        store_insert_node(s, n).nodes.dom().finite(),
        !s.nodes.contains_key(n.id) ==> store_insert_node(s, n).nodes.dom().len() == s.nodes.dom().len()
            + 1,
        s.nodes.contains_key(n.id) ==> store_insert_node(s, n).nodes.dom().len() == s.nodes.dom().len(),
{
    if s.nodes.contains_key(n.id) {
        assert(s.nodes.insert(n.id, n).dom() =~= s.nodes.dom());
    }
}

/// Inserting `k` nodes with distinct IDs none of which is stored yet adds
/// `k` to the node count, and `get_node` then finds each of them.
pub proof fn law_insert_nodes_count(s: StoreView, ns: Seq<PageNodeView>)
    requires
        s.nodes.dom().finite(),
        forall|i: int, j: int| 0 <= i < j < ns.len() ==> (#[trigger] ns[i]).id != (#[trigger] ns[j]).id,
        forall|i: int| 0 <= i < ns.len() ==> !s.nodes.contains_key((#[trigger] ns[i]).id),
    ensures
        store_insert_nodes(s, ns).nodes.dom().finite(),
        store_insert_nodes(s, ns).nodes.dom().len() == s.nodes.dom().len() + ns.len(),
        forall|i: int| 0 <= i < ns.len() ==> lookup_node(store_insert_nodes(s, ns), (#[trigger] ns[i]).id)
            == Some(ns[i]),
    decreases ns.len(),
{
    if ns.len() > 0 {
        let pre = ns.drop_last();
        assert forall|i: int, j: int| 0 <= i < j < pre.len() implies (#[trigger] pre[i]).id != (
        #[trigger] pre[j]).id by {
            assert(pre[i] == ns[i] && pre[j] == ns[j]);
        }
        assert forall|i: int| 0 <= i < pre.len() implies !s.nodes.contains_key((#[trigger] pre[i]).id) by {
            assert(pre[i] == ns[i]);
        }
        law_insert_nodes_count(s, pre);
        let t = store_insert_nodes(s, pre);
        let last = ns.last();
        if t.nodes.contains_key(last.id) {
            if s.nodes.contains_key(last.id) {
                assert(ns[ns.len() - 1] == last);
            } else {
                assert(t.nodes.dom() =~= s.nodes.dom().union(pre.map_values(|n: PageNodeView| n.id).to_set())) by {
                    lemma_insert_nodes_dom(s, pre);
                }
                let pids = pre.map_values(|n: PageNodeView| n.id);
                assert(pids.to_set().contains(last.id));
                let j = choose|j: int| 0 <= j < pids.len() && #[trigger] pids[j] == last.id;
                assert(pre[j] == ns[j]);
                assert(ns[j].id == ns[ns.len() - 1].id);
            }
        }
        law_insert_node_count(t, last);
        assert forall|i: int| 0 <= i < ns.len() implies lookup_node(store_insert_nodes(s, ns), (
        #[trigger] ns[i]).id) == Some(ns[i]) by {
            if i < ns.len() - 1 {
                assert(pre[i] == ns[i]);
                assert(ns[i].id != ns[ns.len() - 1].id);
            }
        }
    }
}

/// The stored node IDs after inserting `ns` are the old ones and those of `ns`.
proof fn lemma_insert_nodes_dom(s: StoreView, ns: Seq<PageNodeView>)
    ensures
        store_insert_nodes(s, ns).nodes.dom() == s.nodes.dom().union(
            ns.map_values(|n: PageNodeView| n.id).to_set(),
        ),
    decreases ns.len(),
{
    if ns.len() == 0 {
        assert(ns.map_values(|n: PageNodeView| n.id).to_set() =~= Set::<Seq<char>>::empty());
        assert(s.nodes.dom().union(Set::<Seq<char>>::empty()) =~= s.nodes.dom());
    } else {
        let pre = ns.drop_last();
        lemma_insert_nodes_dom(s, pre);
        let ids = ns.map_values(|n: PageNodeView| n.id);
        let pids = pre.map_values(|n: PageNodeView| n.id);
        assert(ids =~= pids.push(ns.last().id));
        assert(ids.to_set() =~= pids.to_set().insert(ns.last().id)) by {
            assert forall|x: Seq<char>| ids.to_set().contains(x) implies pids.to_set().insert(
                ns.last().id,
            ).contains(x) by {
                let j = choose|j: int| 0 <= j < ids.len() && ids[j] == x;
                if j < pids.len() {
                    assert(pids[j] == x);
                }
            }
            assert forall|x: Seq<char>| pids.to_set().insert(ns.last().id).contains(x) implies ids.to_set().contains(
                x,
            ) by {
                if x == ns.last().id {
                    assert(ids[ids.len() - 1] == x);
                } else {
                    let j = choose|j: int| 0 <= j < pids.len() && pids[j] == x;
                    assert(ids[j] == x);
                }
            }
        }
        assert(store_insert_nodes(s, ns).nodes.dom() =~= s.nodes.dom().union(ids.to_set()));
    }
}

// ==================== A faithful index ====================

/// The index is faithful: no node ID is listed for two documents, and every
/// stored node is listed for its own document. It holds of the empty store
/// and is kept by every operation, as long as a node ID is only ever
/// inserted under one document and `update_node` keeps a node's document
/// (see the laws below).
pub open spec fn index_faithful(s: StoreView) -> bool {
    &&& forall|d1: Seq<char>, d2: Seq<char>, k: Seq<char>|
        #![trigger indexed_ids(s.doc_nodes, d1).contains(k), indexed_ids(s.doc_nodes, d2).contains(k)]
        indexed_ids(s.doc_nodes, d1).contains(k) && indexed_ids(s.doc_nodes, d2).contains(k) ==> d1
            == d2
    &&& forall|k: Seq<char>| #[trigger]
        s.nodes.contains_key(k) ==> indexed_ids(s.doc_nodes, s.nodes[k].document_id).contains(k)
}

/// Node `n` may be inserted into `s` keeping the index faithful: its ID is
/// listed for no document but its own.
pub open spec fn insertable(s: StoreView, n: PageNodeView) -> bool {
    forall|d: Seq<char>| #[trigger] indexed_ids(s.doc_nodes, d).contains(n.id) ==> d == n.document_id
}

/// The empty store's index is faithful.
pub proof fn law_empty_index_faithful(s: StoreView)
    requires
        s.nodes == Map::<Seq<char>, PageNodeView>::empty(),
        s.doc_nodes == Map::<Seq<char>, Seq<Seq<char>>>::empty(),
    ensures
        index_faithful(s),
{
}

/// Inserting a node whose ID is listed for no other document keeps the
/// index faithful.
pub proof fn law_insert_node_keeps_faithful(s: StoreView, n: PageNodeView)
    requires
        index_faithful(s),
        insertable(s, n),
    ensures
        index_faithful(store_insert_node(s, n)),
{
    let t = store_insert_node(s, n);
    let old_ids = indexed_ids(s.doc_nodes, n.document_id);
    assert forall|d: Seq<char>, k: Seq<char>|
        indexed_ids(t.doc_nodes, d).contains(k) implies indexed_ids(s.doc_nodes, d).contains(k) || (d
        == n.document_id && k == n.id) by {
        if d == n.document_id && !old_ids.contains(n.id) {
            let l = old_ids.push(n.id);
            let i = choose|i: int| 0 <= i < l.len() && l[i] == k;
            if i < old_ids.len() {
                assert(old_ids[i] == k);
            }
        }
    }
    assert forall|d: Seq<char>, k: Seq<char>|
        indexed_ids(s.doc_nodes, d).contains(k) implies indexed_ids(t.doc_nodes, d).contains(k) by {
        if d == n.document_id && !old_ids.contains(n.id) {
            let i = choose|i: int| 0 <= i < old_ids.len() && old_ids[i] == k;
            assert(old_ids.push(n.id)[i] == k);
        }
    }
    law_inserted_node_listed_for_document(s, n);
}

/// A successful `update_node` that keeps the node's document keeps the
/// index faithful.
pub proof fn law_update_node_keeps_faithful(s: StoreView, n: PageNodeView)
    requires
        index_faithful(s),
        s.nodes.contains_key(n.id),
        s.nodes[n.id].document_id == n.document_id,
    ensures
        index_faithful(store_put_node(s, n)),
{
}

/// Deleting a node keeps the index faithful.
pub proof fn law_delete_node_keeps_faithful(s: StoreView, id: Seq<char>)
    requires
        index_faithful(s),
    ensures
        index_faithful(store_delete_node(s, id)),
{
}

/// Storing a document keeps the index faithful.
pub proof fn law_put_document_keeps_faithful(s: StoreView, d: DocumentView)
    requires
        index_faithful(s),
    ensures
        index_faithful(store_put_document(s, d)),
{
}

/// Deleting a document keeps the index faithful.
pub proof fn law_delete_document_keeps_faithful(s: StoreView, id: Seq<char>)
    requires
        index_faithful(s),
    ensures
        index_faithful(store_delete_document(s, id)),
{
    let t = store_delete_document(s, id);
    let gone = indexed_ids(s.doc_nodes, id).to_set();
    assert forall|d: Seq<char>, k: Seq<char>|
        indexed_ids(t.doc_nodes, d).contains(k) implies indexed_ids(s.doc_nodes, d).contains(k) by {
    }
    assert forall|k: Seq<char>| #[trigger] t.nodes.contains_key(k) implies indexed_ids(
        t.doc_nodes,
        t.nodes[k].document_id,
    ).contains(k) by {
        assert(s.nodes.contains_key(k) && !gone.contains(k));
        assert(indexed_ids(s.doc_nodes, s.nodes[k].document_id).contains(k));
        if s.nodes[k].document_id == id {
            assert(gone.contains(k));
        }
    }
}

/// With a faithful index, deleting a document deletes exactly the nodes of
/// that document: every other node stays as it was, and so does every
/// other document.
pub proof fn law_delete_document_removes_its_nodes(
    s: StoreView,
    id: Seq<char>,
    k: Seq<char>,
    other: Seq<char>,
)
    requires
        index_faithful(s),
    ensures
        s.nodes.contains_key(k) ==> (store_delete_document(s, id).nodes.contains_key(k) <==> s.nodes[k].document_id
            != id),
        s.nodes.contains_key(k) && s.nodes[k].document_id != id ==> store_delete_document(
            s,
            id,
        ).nodes[k] == s.nodes[k],
        !s.nodes.contains_key(k) ==> !store_delete_document(s, id).nodes.contains_key(k),
        !store_delete_document(s, id).documents.contains_key(id),
        other != id ==> lookup_document(store_delete_document(s, id), other) == lookup_document(s, other),
{
    let gone = indexed_ids(s.doc_nodes, id).to_set();
    if s.nodes.contains_key(k) {
        let d = s.nodes[k].document_id;
        assert(indexed_ids(s.doc_nodes, d).contains(k));
        if d == id {
            assert(gone.contains(k));
        } else if gone.contains(k) {
            assert(indexed_ids(s.doc_nodes, id).contains(k));
        }
    }
}

/// The nodes stored under `ids` are stored under their own IDs, which `ids`
/// list; without repeated IDs in `ids`, no node comes twice.
proof fn lemma_present_nodes_members(nodes: Map<Seq<char>, PageNodeView>, ids: Seq<Seq<char>>)
    requires
        forall|k: Seq<char>| #[trigger] nodes.contains_key(k) ==> nodes[k].id == k,
    ensures
        forall|i: int|
            0 <= i < present_nodes(nodes, ids).len() ==> ids.contains(
                (#[trigger] present_nodes(nodes, ids)[i]).id,
            ) && nodes.contains_key(present_nodes(nodes, ids)[i].id) && nodes[present_nodes(
                nodes,
                ids,
            )[i].id] == present_nodes(nodes, ids)[i],
        ids.no_duplicates() ==> forall|i: int, j: int|
            0 <= i < j < present_nodes(nodes, ids).len() ==> (#[trigger] present_nodes(nodes, ids)[i]).id
                != (#[trigger] present_nodes(nodes, ids)[j]).id,
    decreases ids.len(),
{
    if ids.len() > 0 {
        let pre = ids.drop_last();
        lemma_present_nodes_members(nodes, pre);
        let v = present_nodes(nodes, ids);
        let p = present_nodes(nodes, pre);
        assert forall|i: int| 0 <= i < v.len() implies ids.contains((#[trigger] v[i]).id) && nodes.contains_key(
            v[i].id,
        ) && nodes[v[i].id] == v[i] by {
            if i < p.len() {
                assert(v[i] == p[i]);
                let j = choose|j: int| 0 <= j < pre.len() && pre[j] == p[i].id;
                assert(ids[j] == pre[j]);
            } else {
                assert(v[i] == nodes[ids.last()]);
                assert(ids[ids.len() - 1] == ids.last());
            }
        }
        if ids.no_duplicates() {
            assert(pre.no_duplicates()) by {
                assert forall|i: int, j: int| 0 <= i < pre.len() && 0 <= j < pre.len() && i != j implies pre[i]
                    != pre[j] by {
                    assert(pre[i] == ids[i] && pre[j] == ids[j]);
                }
            }
            assert forall|i: int, j: int| 0 <= i < j < v.len() implies (#[trigger] v[i]).id != (
            #[trigger] v[j]).id by {
                if j >= p.len() {
                    assert(v[i] == p[i]);
                    assert(v[j] == nodes[ids.last()]);
                    let m = choose|m: int| 0 <= m < pre.len() && pre[m] == p[i].id;
                    assert(ids[m] == pre[m]);
                    assert(ids[ids.len() - 1] == ids.last());
                } else {
                    assert(v[i] == p[i] && v[j] == p[j]);
                }
            }
        }
    }
}

/// With a faithful index, `get_nodes_for_document(d)` gives exactly the
/// stored nodes of document `d`, each once.
pub proof fn law_nodes_for_document_exact(s: StoreView, d: Seq<char>, k: Seq<char>)
    requires
        store_invariant(s),
        index_faithful(s),
    ensures
        forall|i: int|
            0 <= i < present_nodes(s.nodes, indexed_ids(s.doc_nodes, d)).len() ==> lookup_node(
                s,
                (#[trigger] present_nodes(s.nodes, indexed_ids(s.doc_nodes, d))[i]).id,
            ) == Some(present_nodes(s.nodes, indexed_ids(s.doc_nodes, d))[i])
                && present_nodes(s.nodes, indexed_ids(s.doc_nodes, d))[i].document_id == d,
        forall|i: int, j: int|
            0 <= i < j < present_nodes(s.nodes, indexed_ids(s.doc_nodes, d)).len() ==> (
            #[trigger] present_nodes(s.nodes, indexed_ids(s.doc_nodes, d))[i]).id != (
            #[trigger] present_nodes(s.nodes, indexed_ids(s.doc_nodes, d))[j]).id,
        s.nodes.contains_key(k) && s.nodes[k].document_id == d ==> present_nodes(
            s.nodes,
            indexed_ids(s.doc_nodes, d),
        ).contains(s.nodes[k]),
{
    let ids = indexed_ids(s.doc_nodes, d);
    let v = present_nodes(s.nodes, ids);
    lemma_present_nodes_members(s.nodes, ids);
    assert forall|i: int| 0 <= i < v.len() implies lookup_node(s, (#[trigger] v[i]).id) == Some(v[i])
        && v[i].document_id == d by {
        let key = v[i].id;
        assert(indexed_ids(s.doc_nodes, s.nodes[key].document_id).contains(key));
        assert(ids.contains(key));
    }
    if s.nodes.contains_key(k) && s.nodes[k].document_id == d {
        lemma_present_nodes_contains(s.nodes, ids, k);
    }
}

/// In every store, after `insert_node(n)`, `get_nodes_for_document` of
/// `n`'s document returns `n`, and no other node with `n`'s ID: the node
/// comes back exactly once.
pub proof fn law_inserted_node_returned_once(s: StoreView, n: PageNodeView)
    requires
        store_invariant(s),
    ensures
        ({
            let t = store_insert_node(s, n);
            let v = present_nodes(t.nodes, indexed_ids(t.doc_nodes, n.document_id));
            &&& store_invariant(t)
            &&& v.contains(n)
            &&& forall|i: int, j: int|
                0 <= i < v.len() && 0 <= j < v.len() && (#[trigger] v[i]).id == n.id && (#[trigger] v[j]).id
                    == n.id ==> i == j
        }),
{
    let t = store_insert_node(s, n);
    law_index_without_duplicates(s, n);
    law_inserted_node_listed_for_document(s, n);
    let ids = indexed_ids(t.doc_nodes, n.document_id);
    assert(ids.no_duplicates()) by {
        if !t.doc_nodes.contains_key(n.document_id) {
            assert(ids.len() == 0);
        }
    }
    lemma_present_nodes_members(t.nodes, ids);
}

/// After inserting node `n`, a document's list holds what it held, and
/// `n`'s own list also `n`.
proof fn lemma_insert_node_lists(s: StoreView, n: PageNodeView, d: Seq<char>, k: Seq<char>)
    ensures
        indexed_ids(store_insert_node(s, n).doc_nodes, d).contains(k) ==> indexed_ids(s.doc_nodes, d).contains(k)
            || (d == n.document_id && k == n.id),
{
    let old_ids = indexed_ids(s.doc_nodes, n.document_id);
    if indexed_ids(store_insert_node(s, n).doc_nodes, d).contains(k) && d == n.document_id
        && !old_ids.contains(n.id) {
        let l = old_ids.push(n.id);
        let i = choose|i: int| 0 <= i < l.len() && l[i] == k;
        if i < old_ids.len() {
            assert(old_ids[i] == k);
        }
    }
}

/// After inserting the nodes `ns`, a document's list holds what it held and
/// the IDs of the inserted nodes of that document.
proof fn lemma_insert_nodes_lists(s: StoreView, ns: Seq<PageNodeView>, d: Seq<char>, k: Seq<char>)
    ensures
        indexed_ids(store_insert_nodes(s, ns).doc_nodes, d).contains(k) ==> indexed_ids(s.doc_nodes, d).contains(k)
            || exists|i: int| 0 <= i < ns.len() && (#[trigger] ns[i]).id == k && ns[i].document_id == d,
    decreases ns.len(),
{
    if ns.len() > 0 {
        let pre = ns.drop_last();
        lemma_insert_nodes_lists(s, pre, d, k);
        lemma_insert_node_lists(store_insert_nodes(s, pre), ns.last(), d, k);
        if indexed_ids(store_insert_nodes(s, pre).doc_nodes, d).contains(k) && !indexed_ids(s.doc_nodes, d).contains(k) {
            let i = choose|i: int| 0 <= i < pre.len() && (#[trigger] pre[i]).id == k && pre[i].document_id == d;
            assert(ns[i] == pre[i]);
        }
        assert(ns[ns.len() - 1] == ns.last());
    }
}

/// Inserting nodes keeps the index faithful when none of their IDs is
/// listed for another document and nodes that share an ID share their
/// document.
pub proof fn law_insert_nodes_keeps_faithful(s: StoreView, ns: Seq<PageNodeView>)
    requires
        index_faithful(s),
        forall|i: int| 0 <= i < ns.len() ==> insertable(s, #[trigger] ns[i]),
        forall|i: int, j: int|
            0 <= i < ns.len() && 0 <= j < ns.len() && (#[trigger] ns[i]).id == (#[trigger] ns[j]).id
                ==> ns[i].document_id == ns[j].document_id,
    ensures
        index_faithful(store_insert_nodes(s, ns)),
    decreases ns.len(),
{
    if ns.len() > 0 {
        let pre = ns.drop_last();
        let last = ns.last();
        assert(ns[ns.len() - 1] == last);
        assert forall|i: int| 0 <= i < pre.len() implies insertable(s, #[trigger] pre[i]) by {
            assert(pre[i] == ns[i]);
        }
        assert forall|i: int, j: int|
            0 <= i < pre.len() && 0 <= j < pre.len() && (#[trigger] pre[i]).id == (#[trigger] pre[j]).id
                implies pre[i].document_id == pre[j].document_id by {
            assert(pre[i] == ns[i] && pre[j] == ns[j]);
        }
        law_insert_nodes_keeps_faithful(s, pre);
        let t = store_insert_nodes(s, pre);
        assert forall|d: Seq<char>| #[trigger] indexed_ids(t.doc_nodes, d).contains(last.id) implies d
            == last.document_id by {
            lemma_insert_nodes_lists(s, pre, d, last.id);
            if !indexed_ids(s.doc_nodes, d).contains(last.id) {
                let i = choose|i: int| 0 <= i < pre.len() && (#[trigger] pre[i]).id == last.id && pre[i].document_id == d;
                assert(pre[i] == ns[i]);
            }
        }
        law_insert_node_keeps_faithful(t, last);
    }
}

} // verus!
