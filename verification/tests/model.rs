use reasondb_core::model::{Document, NodeMetadata, PageNode};

#[test]
fn test_page_node_creation() {
    let node = PageNode::new(
        "doc_1".to_string(),
        "Test Node".to_string(),
        Some("A test summary".to_string()),
        1,
    );

    assert!(!node.id.is_empty());
    assert_eq!(node.document_id, "doc_1");
    assert_eq!(node.title, "Test Node");
    assert_eq!(node.summary, "A test summary");
    assert_eq!(node.depth, 1);
    assert!(node.is_leaf()); // No children yet
}

#[test]
fn test_page_node_leaf() {
    let node = PageNode::new_leaf(
        "doc_1".to_string(),
        "Leaf Node".to_string(),
        "This is the content".to_string(),
        "Summary of content".to_string(),
        2,
    );

    assert!(node.is_leaf());
    assert_eq!(node.content, Some("This is the content".to_string()));
}

#[test]
fn test_page_node_hierarchy() {
    let mut parent = PageNode::new_root("doc_1".to_string(), "Root".to_string());
    let mut child = PageNode::new("doc_1".to_string(), "Child".to_string(), None, 1);

    child.set_parent(parent.id.clone());
    parent.add_child(child.id.clone());

    assert!(parent.is_root());
    assert!(!child.is_root());
    assert_eq!(parent.children_ids.len(), 1);
    assert_eq!(child.parent_id, Some(parent.id.clone()));
}

#[test]
fn test_document_creation() {
    let doc = Document::new("Test Document".to_string());

    assert!(!doc.id.is_empty());
    assert_eq!(doc.title, "Test Document");
    assert_eq!(doc.total_nodes, 0);
}

#[test]
fn test_llm_context() {
    let node = PageNode::new(
        "doc_1".to_string(),
        "Introduction".to_string(),
        Some("This chapter covers basics".to_string()),
        0,
    );

    let context = node.to_llm_context();
    assert!(context.contains("Introduction"));
    assert!(context.contains("This chapter covers basics"));
}

// ==================== Further model scenarios ====================

#[test]
fn node_ids_are_uuids_and_distinct() {
    let a = PageNode::new("d".to_string(), "A".to_string(), None, 0);
    let b = PageNode::new("d".to_string(), "B".to_string(), None, 0);
    assert_eq!(a.id.len(), 36);
    assert_ne!(a.id, b.id);
    assert_eq!(a.summary, "");
    assert_eq!(a.parent_id, None);
}

#[test]
fn leaf_content_and_summary() {
    let mut node = PageNode::new("d".to_string(), "N".to_string(), None, 3);
    assert_eq!(node.get_content(), "[No content - internal node]");
    node.set_content("body".to_string());
    assert_eq!(node.get_content(), "body");
    node.set_summary("short".to_string());
    assert_eq!(node.summary, "short");
    node.add_child("c1".to_string());
    assert!(!node.is_leaf());
}

#[test]
fn llm_context_exact_text() {
    let node = PageNode::new("d".to_string(), "Title".to_string(), Some("Sum".to_string()), 0);
    assert_eq!(node.to_llm_context(), format!("ID: {}\nTitle: Title\nSummary: Sum", node.id));
}

#[test]
fn metadata_builders() {
    let m = NodeMetadata::with_section_type("chapter").with_page(7).with_attribute("lang", "en");
    assert_eq!(m.section_type, Some("chapter".to_string()));
    assert_eq!(m.page_number, Some(7));
    assert_eq!(m.attributes.get("lang"), Some(&"en".to_string()));
    let d = NodeMetadata::default();
    assert_eq!(d.page_number, None);
    assert_eq!(d.attributes.len(), 0);
}

#[test]
fn document_updates() {
    let mut doc = Document::from_path("Report".to_string(), "/tmp/report.pdf");
    assert_eq!(doc.source_path, "/tmp/report.pdf");
    doc.set_root_node("root-1".to_string());
    assert_eq!(doc.root_node_id, "root-1");
    doc.update_stats(12, 4);
    assert_eq!(doc.total_nodes, 12);
    assert_eq!(doc.max_depth, 4);
    doc.add_metadata("owner", "alice");
    assert_eq!(doc.metadata.get("owner"), Some(&"alice".to_string()));
}

#[test]
fn set_content_marks_leaf() {
    let mut node = PageNode::new("d".to_string(), "N".to_string(), None, 0);
    node.add_child("c1".to_string());
    node.add_child("c2".to_string());
    assert!(!node.is_leaf());
    node.set_content("text".to_string());
    assert!(node.is_leaf());
    assert_eq!(node.content, Some("text".to_string()));
}
