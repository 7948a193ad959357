//! Data models: the `PageNode` of the reasoning tree, the `Document` that
//! owns a tree, and the `NodeMetadata` of a node.
//!
//! Timestamps are microseconds since the Unix epoch (UTC).
use vstd::prelude::*;
use crate::table::Table;
use crate::text::{copy_opt_string, copy_strings, opt_str, push_str, strs, to_string};

verus! {

/// Unique identifier for nodes.
pub type NodeId = String;

/// Unique identifier for documents.
pub type DocumentId = String;

/// The shape of a hyphenated UUID: 36 characters with hyphens at
/// positions 8, 13, 18 and 23.
pub open spec fn uuid_shaped(id: Seq<char>) -> bool {
    &&& id.len() == 36
    &&& id[8] == '-' && id[13] == '-' && id[18] == '-' && id[23] == '-'
}

/// A fresh identifier: a random (version 4) UUID in its hyphenated
/// lower-case text form (`uuid::Uuid::new_v4` then `to_string`). The value
/// is random; the contract states only its shape.
#[verifier::external_body]
fn new_uuid() -> (id: String)
    ensures
        uuid_shaped(id@),
{
    uuid::Uuid::new_v4().to_string()
}

/// The current time in microseconds since the Unix epoch
/// (`chrono::Utc::now().timestamp_micros()`). Nothing is stated of the
/// value: it is the clock's.
#[verifier::external_body]
fn now_micros() -> (t: i64) {
    chrono::Utc::now().timestamp_micros()
}

/// Additional metadata for a node.
#[derive(Debug, Clone, PartialEq)]
pub struct NodeMetadata {
    /// Page number in the source document (if applicable).
    pub page_number: Option<u32>,
    /// Type of section (e.g., "chapter", "section", "paragraph").
    pub section_type: Option<String>,
    /// Confidence score from summarization (0.0 - 1.0), held as the bit
    /// pattern of the IEEE-754 single-precision value.
    pub confidence_score_bits: Option<u32>,
    /// Approximate token count of the content.
    pub token_count: Option<u32>,
    /// Custom key-value attributes.
    pub attributes: Table<String>,
}

/// What a `NodeMetadata` holds.
pub struct NodeMetadataView {
    pub page_number: Option<u32>,
    pub section_type: Option<Seq<char>>,
    pub confidence_score_bits: Option<u32>,
    pub token_count: Option<u32>,
    pub attributes: Map<Seq<char>, Seq<char>>,
}

impl View for NodeMetadata {
    type V = NodeMetadataView;

    open spec fn view(&self) -> NodeMetadataView {
        NodeMetadataView {
            page_number: self.page_number,
            section_type: opt_str(self.section_type),
            confidence_score_bits: self.confidence_score_bits,
            token_count: self.token_count,
            attributes: self.attributes.view(),
        }
    }
}

/// Metadata with nothing set.
pub open spec fn empty_metadata() -> NodeMetadataView {
    NodeMetadataView {
        page_number: None,
        section_type: None,
        confidence_score_bits: None,
        token_count: None,
        attributes: Map::empty(),
    }
}

impl Default for NodeMetadata {
    fn default() -> (m: Self)
        ensures
            m@ == empty_metadata(),
    {
        NodeMetadata {
            page_number: None,
            section_type: None,
            confidence_score_bits: None,
            token_count: None,
            attributes: Table::new(),
        }
    }
}

impl NodeMetadata {
    /// Metadata with nothing set.
    pub fn empty() -> (m: Self)
        ensures
            m@ == empty_metadata(),
    {
        NodeMetadata {
            page_number: None,
            section_type: None,
            confidence_score_bits: None,
            token_count: None,
            attributes: Table::new(),
        }
    }

    /// Create metadata with a section type.
    pub fn with_section_type(section_type: &str) -> (m: Self)
        ensures
            m@ == (NodeMetadataView { section_type: Some(section_type@), ..empty_metadata() }),
    {
        let mut m = Self::empty();
        m.section_type = Some(to_string(section_type));
        m
    }

    /// Set the page number.
    pub fn with_page(self, page: u32) -> (m: Self)
        ensures
            m@ == (NodeMetadataView { page_number: Some(page), ..self@ }),
    {
        let mut m = self;
        m.page_number = Some(page);
        m
    }

    /// Add a custom attribute.
    pub fn with_attribute(self, key: &str, value: &str) -> (m: Self)
        ensures
            m@ == (NodeMetadataView {
                attributes: self@.attributes.insert(key@, value@),
                ..self@
            }),
    {
        let mut m = self;
        let _ = m.attributes.insert(to_string(key), to_string(value));
        m
    }

    /// A copy of this metadata.
    pub fn copy(&self) -> (m: Self)
        ensures
            m@ == self@,
    {
        NodeMetadata {
            page_number: self.page_number,
            section_type: copy_opt_string(&self.section_type),
            confidence_score_bits: self.confidence_score_bits,
            token_count: self.token_count,
            attributes: self.attributes.copy(),
        }
    }
}

/// The fundamental unit of the reasoning tree: a section of a document at
/// any level of the hierarchy. Leaf nodes contain content; internal nodes
/// contain summaries of their children.
#[derive(Debug, Clone, PartialEq)]
pub struct PageNode {
    /// Unique identifier for this node.
    pub id: NodeId,
    /// Reference to the parent document.
    pub document_id: DocumentId,
    /// Human-readable title (e.g., "Chapter 1", "Section 2.1").
    pub title: String,
    /// Summary describing what this node contains.
    pub summary: String,
    /// Depth level in the tree (0 = root).
    pub depth: u8,
    /// Character offset where this section starts in the source document.
    pub start_index: usize,
    /// Character offset where this section ends in the source document.
    pub end_index: usize,
    /// Parent node ID (None for root nodes).
    pub parent_id: Option<NodeId>,
    /// IDs of child nodes.
    pub children_ids: Vec<NodeId>,
    /// Actual content (only present for leaf nodes).
    pub content: Option<String>,
    /// Path to associated image.
    pub image_path: Option<String>,
    /// Additional metadata.
    pub metadata: NodeMetadata,
    /// When this node was created (microseconds since the Unix epoch).
    pub created_at: i64,
    /// When this node was last updated (microseconds since the Unix epoch).
    pub updated_at: i64,
}

/// What a `PageNode` holds.
pub struct PageNodeView {
    pub id: Seq<char>,
    pub document_id: Seq<char>,
    pub title: Seq<char>,
    pub summary: Seq<char>,
    pub depth: u8,
    pub start_index: usize,
    pub end_index: usize,
    pub parent_id: Option<Seq<char>>,
    pub children_ids: Seq<Seq<char>>,
    pub content: Option<Seq<char>>,
    pub image_path: Option<Seq<char>>,
    pub metadata: NodeMetadataView,
    pub created_at: i64,
    pub updated_at: i64,
}

impl View for PageNode {
    type V = PageNodeView;

    open spec fn view(&self) -> PageNodeView {
        PageNodeView {
            id: self.id@,
            document_id: self.document_id@,
            title: self.title@,
            summary: self.summary@,
            depth: self.depth,
            start_index: self.start_index,
            end_index: self.end_index,
            parent_id: opt_str(self.parent_id),
            children_ids: strs(self.children_ids@),
            content: opt_str(self.content),
            image_path: opt_str(self.image_path),
            metadata: self.metadata@,
            created_at: self.created_at,
            updated_at: self.updated_at,
        }
    }
}

/// Placeholder returned by `get_content` for a node without content.
pub open spec fn no_content_placeholder() -> Seq<char> {
    "[No content - internal node]"@
}

/// The context line block `ID: <id>\nTitle: <title>\nSummary: <summary>`.
pub open spec fn llm_context(n: PageNodeView) -> Seq<char> {
    "ID: "@ + n.id + "\nTitle: "@ + n.title + "\nSummary: "@ + n.summary
}

impl PageNode {
    /// Create a new PageNode with a generated ID: no parent, no children, no
    /// content, empty metadata, offsets 0, and equal creation and update
    /// times.
    pub fn new(document_id: DocumentId, title: String, summary: Option<String>, depth: u8) -> (n:
        Self)
        ensures
            uuid_shaped(n@.id),
            n@.document_id == document_id@,
            n@.title == title@,
            n@.summary == (match summary {
                Some(s) => s@,
                None => Seq::<char>::empty(),
            }),
            n@.depth == depth,
            n@.start_index == 0,
            n@.end_index == 0,
            n@.parent_id == None::<Seq<char>>,
            n@.children_ids == Seq::<Seq<char>>::empty(),
            n@.content == None::<Seq<char>>,
            n@.image_path == None::<Seq<char>>,
            n@.metadata == empty_metadata(),
            n@.created_at == n@.updated_at,
    {
        let now = now_micros();
        let summary = match summary {
            Some(s) => s,
            None => String::new(),
        };
        let n = PageNode {
            id: new_uuid(),
            document_id,
            title,
            summary,
            depth,
            start_index: 0,
            end_index: 0,
            parent_id: None,
            children_ids: Vec::new(),
            content: None,
            image_path: None,
            metadata: NodeMetadata::empty(),
            created_at: now,
            updated_at: now,
        };
        assert(n@.children_ids =~= Seq::<Seq<char>>::empty());
        n
    }

    /// Create a new root node for a document (depth 0, empty summary).
    pub fn new_root(document_id: DocumentId, title: String) -> (n: Self)
        ensures
            uuid_shaped(n@.id),
            n@.document_id == document_id@,
            n@.title == title@,
            n@.summary == Seq::<char>::empty(),
            n@.depth == 0,
            n@.start_index == 0,
            n@.end_index == 0,
            n@.parent_id == None::<Seq<char>>,
            n@.children_ids == Seq::<Seq<char>>::empty(),
            n@.content == None::<Seq<char>>,
            n@.image_path == None::<Seq<char>>,
            n@.metadata == empty_metadata(),
            n@.created_at == n@.updated_at,
    {
        Self::new(document_id, title, None, 0)
    }

    /// Create a new leaf node with content.
    pub fn new_leaf(
        document_id: DocumentId,
        title: String,
        content: String,
        summary: String,
        depth: u8,
    ) -> (n: Self)
        ensures
            uuid_shaped(n@.id),
            n@.document_id == document_id@,
            n@.title == title@,
            n@.summary == summary@,
            n@.depth == depth,
            n@.start_index == 0,
            n@.end_index == 0,
            n@.parent_id == None::<Seq<char>>,
            n@.children_ids == Seq::<Seq<char>>::empty(),
            n@.content == Some(content@),
            n@.image_path == None::<Seq<char>>,
            n@.metadata == empty_metadata(),
            n@.created_at == n@.updated_at,
    {
        let mut node = Self::new(document_id, title, Some(summary), depth);
        node.content = Some(content);
        node
    }

    /// Whether this is a leaf node (it has no children).
    pub fn is_leaf(&self) -> (r: bool)
        ensures
            r == (self@.children_ids.len() == 0),
    {
        self.children_ids.len() == 0
    }

    /// Whether this is a root node (it has no parent).
    pub fn is_root(&self) -> (r: bool)
        ensures
            r == (self@.parent_id is None),
    {
        self.parent_id.is_none()
    }

    /// Add a child node ID at the end of the children and touch the update
    /// time.
    pub fn add_child(&mut self, child_id: NodeId)
        ensures
            final(self)@ == (PageNodeView {
                children_ids: old(self)@.children_ids.push(child_id@),
                updated_at: final(self)@.updated_at,
                ..old(self)@
            }),
    {
        self.children_ids.push(child_id);
        self.updated_at = now_micros();
        assert(self@.children_ids =~= old(self)@.children_ids.push(child_id@));
    }

    /// Set the parent node ID and touch the update time.
    pub fn set_parent(&mut self, parent_id: NodeId)
        ensures
            final(self)@ == (PageNodeView {
                parent_id: Some(parent_id@),
                updated_at: final(self)@.updated_at,
                ..old(self)@
            }),
    {
        self.parent_id = Some(parent_id);
        self.updated_at = now_micros();
    }

    /// Set the content and mark the node as a leaf (it keeps no child IDs),
    /// and touch the update time.
    pub fn set_content(&mut self, content: String)
        ensures
            final(self)@ == (PageNodeView {
                content: Some(content@),
                children_ids: Seq::<Seq<char>>::empty(),
                updated_at: final(self)@.updated_at,
                ..old(self)@
            }),
    {
        self.content = Some(content);
        self.children_ids = Vec::new();
        self.updated_at = now_micros();
        assert(self@.children_ids =~= Seq::<Seq<char>>::empty());
    }

    /// Set the summary and touch the update time.
    pub fn set_summary(&mut self, summary: String)
        ensures
            final(self)@ == (PageNodeView {
                summary: summary@,
                updated_at: final(self)@.updated_at,
                ..old(self)@
            }),
    {
        self.summary = summary;
        self.updated_at = now_micros();
    }

    /// A compact representation for LLM context during traversal.
    pub fn to_llm_context(&self) -> (s: String)
        ensures
            s@ == llm_context(self@),
    {
        let mut s = String::new();
        push_str(&mut s, "ID: ");
        push_str(&mut s, self.id.as_str());
        push_str(&mut s, "\nTitle: ");
        push_str(&mut s, self.title.as_str());
        push_str(&mut s, "\nSummary: ");
        push_str(&mut s, self.summary.as_str());
        assert(s@ =~= llm_context(self@));
        s
    }

    /// The content, or a placeholder for a node without content.
    pub fn get_content(&self) -> (s: &str)
        ensures
            s@ == (match self@.content {
                Some(c) => c,
                None => no_content_placeholder(),
            }),
    {
        match &self.content {
            Some(c) => c.as_str(),
            None => "[No content - internal node]",
        }
    }

    /// A copy of this node.
    pub fn copy(&self) -> (n: Self)
        ensures
            n@ == self@,
    {
        PageNode {
            id: self.id.clone(),
            document_id: self.document_id.clone(),
            title: self.title.clone(),
            summary: self.summary.clone(),
            depth: self.depth,
            start_index: self.start_index,
            end_index: self.end_index,
            parent_id: copy_opt_string(&self.parent_id),
            children_ids: copy_strings(&self.children_ids),
            content: copy_opt_string(&self.content),
            image_path: copy_opt_string(&self.image_path),
            metadata: self.metadata.copy(),
            created_at: self.created_at,
            updated_at: self.updated_at,
        }
    }
}

/// Root-level document metadata: a complete ingested document, described
/// without holding its nodes.
#[derive(Debug, Clone, PartialEq)]
pub struct Document {
    /// Unique identifier for this document.
    pub id: DocumentId,
    /// Human-readable title.
    pub title: String,
    /// ID of the root node in the tree (empty until set).
    pub root_node_id: NodeId,
    /// Total number of nodes in the tree.
    pub total_nodes: usize,
    /// Maximum depth of the tree.
    pub max_depth: u8,
    /// Original source file path or URL.
    pub source_path: String,
    /// MIME type of the source document.
    pub mime_type: Option<String>,
    /// File size in bytes (if applicable).
    pub file_size: Option<u64>,
    /// When this document was ingested (microseconds since the Unix epoch).
    pub created_at: i64,
    /// When this document was last updated (microseconds since the Unix
    /// epoch).
    pub updated_at: i64,
    /// Custom metadata.
    pub metadata: Table<String>,
}

/// What a `Document` holds.
pub struct DocumentView {
    pub id: Seq<char>,
    pub title: Seq<char>,
    pub root_node_id: Seq<char>,
    pub total_nodes: usize,
    pub max_depth: u8,
    pub source_path: Seq<char>,
    pub mime_type: Option<Seq<char>>,
    pub file_size: Option<u64>,
    pub created_at: i64,
    pub updated_at: i64,
    pub metadata: Map<Seq<char>, Seq<char>>,
}

impl View for Document {
    type V = DocumentView;

    open spec fn view(&self) -> DocumentView {
        DocumentView {
            id: self.id@,
            title: self.title@,
            root_node_id: self.root_node_id@,
            total_nodes: self.total_nodes,
            max_depth: self.max_depth,
            source_path: self.source_path@,
            mime_type: opt_str(self.mime_type),
            file_size: self.file_size,
            created_at: self.created_at,
            updated_at: self.updated_at,
            metadata: self.metadata.view(),
        }
    }
}

impl Document {
    /// Create a new Document with a generated ID and nothing else set.
    pub fn new(title: String) -> (d: Self)
        ensures
            uuid_shaped(d@.id),
            d@.title == title@,
            d@.root_node_id == Seq::<char>::empty(),
            d@.total_nodes == 0,
            d@.max_depth == 0,
            d@.source_path == Seq::<char>::empty(),
            d@.mime_type == None::<Seq<char>>,
            d@.file_size == None::<u64>,
            d@.created_at == d@.updated_at,
            d@.metadata == Map::<Seq<char>, Seq<char>>::empty(),
    {
        let id = new_uuid();
        let now = now_micros();
        Document {
            id,
            title,
            root_node_id: String::new(),
            total_nodes: 0,
            max_depth: 0,
            source_path: String::new(),
            mime_type: None,
            file_size: None,
            created_at: now,
            updated_at: now,
            metadata: Table::new(),
        }
    }

    /// Create a document from a file path.
    pub fn from_path(title: String, path: &str) -> (d: Self)
        ensures
            uuid_shaped(d@.id),
            d@.title == title@,
            d@.root_node_id == Seq::<char>::empty(),
            d@.total_nodes == 0,
            d@.max_depth == 0,
            d@.source_path == path@,
            d@.mime_type == None::<Seq<char>>,
            d@.file_size == None::<u64>,
            d@.created_at == d@.updated_at,
            d@.metadata == Map::<Seq<char>, Seq<char>>::empty(),
    {
        let mut doc = Self::new(title);
        doc.source_path = to_string(path);
        doc
    }

    /// Set the root node ID and touch the update time.
    pub fn set_root_node(&mut self, root_id: NodeId)
        ensures
            final(self)@ == (DocumentView {
                root_node_id: root_id@,
                updated_at: final(self)@.updated_at,
                ..old(self)@
            }),
    {
        self.root_node_id = root_id;
        self.updated_at = now_micros();
    }

    /// Update tree statistics and touch the update time.
    pub fn update_stats(&mut self, total_nodes: usize, max_depth: u8)
        ensures
            final(self)@ == (DocumentView {
                total_nodes,
                max_depth,
                updated_at: final(self)@.updated_at,
                ..old(self)@
            }),
    {
        self.total_nodes = total_nodes;
        self.max_depth = max_depth;
        self.updated_at = now_micros();
    }

    /// Add custom metadata and touch the update time.
    pub fn add_metadata(&mut self, key: &str, value: &str)
        ensures
            final(self)@ == (DocumentView {
                metadata: old(self)@.metadata.insert(key@, value@),
                updated_at: final(self)@.updated_at,
                ..old(self)@
            }),
    {
        let _ = self.metadata.insert(to_string(key), to_string(value));
        self.updated_at = now_micros();
    }

    /// A copy of this document.
    pub fn copy(&self) -> (d: Self)
        ensures
            d@ == self@,
    {
        Document {
            id: self.id.clone(),
            title: self.title.clone(),
            root_node_id: self.root_node_id.clone(),
            total_nodes: self.total_nodes,
            max_depth: self.max_depth,
            source_path: self.source_path.clone(),
            mime_type: copy_opt_string(&self.mime_type),
            file_size: self.file_size,
            created_at: self.created_at,
            updated_at: self.updated_at,
            metadata: self.metadata.copy(),
        }
    }
}

} // verus!
