use reasondb_core::error::ReasonError;
use reasondb_core::model::{Document, PageNode};
use reasondb_core::store::NodeStore;

fn create_test_store() -> NodeStore {
    NodeStore::new()
}

#[test]
fn test_node_crud() {
    let mut store = create_test_store();

    // Create
    let node = PageNode::new(
        "doc_1".to_string(),
        "Test Node".to_string(),
        Some("A summary".to_string()),
        0,
    );
    store.insert_node(&node).unwrap();

    // Read
    let retrieved = store.get_node(&node.id).unwrap().unwrap();
    assert_eq!(retrieved.title, "Test Node");

    // Update
    let mut updated = retrieved.clone();
    updated.set_summary("Updated summary".to_string());
    store.update_node(&updated).unwrap();

    let retrieved2 = store.get_node(&node.id).unwrap().unwrap();
    assert_eq!(retrieved2.summary, "Updated summary");

    // Delete
    let deleted = store.delete_node(&node.id).unwrap();
    assert!(deleted);

    let not_found = store.get_node(&node.id).unwrap();
    assert!(not_found.is_none());
}

#[test]
fn test_document_crud() {
    let mut store = create_test_store();

    // Create
    let doc = Document::new("Test Document".to_string());
    store.insert_document(&doc).unwrap();

    // Read
    let retrieved = store.get_document(&doc.id).unwrap().unwrap();
    assert_eq!(retrieved.title, "Test Document");

    // Update
    let mut updated = retrieved.clone();
    updated.add_metadata("key", "value");
    store.update_document(&updated).unwrap();

    let retrieved2 = store.get_document(&doc.id).unwrap().unwrap();
    assert_eq!(retrieved2.metadata.get("key"), Some(&"value".to_string()));

    // Delete
    let deleted = store.delete_document(&doc.id).unwrap();
    assert!(deleted);
}

#[test]
fn test_batch_insert() {
    let mut store = create_test_store();

    let nodes: Vec<PageNode> = (0..10)
        .map(|i| {
            PageNode::new(
                "doc_1".to_string(),
                format!("Node {}", i),
                Some(format!("Summary {}", i)),
                0,
            )
        })
        .collect();

    store.insert_nodes(&nodes).unwrap();

    let stats = store.stats().unwrap();
    assert_eq!(stats.total_nodes, 10);
}

#[test]
fn test_document_nodes_index() {
    let mut store = create_test_store();

    let doc = Document::new("Test Doc".to_string());
    store.insert_document(&doc).unwrap();

    let nodes: Vec<PageNode> = (0..5)
        .map(|i| PageNode::new(doc.id.clone(), format!("Node {}", i), None, 0))
        .collect();

    store.insert_nodes(&nodes).unwrap();

    let doc_nodes = store.get_nodes_for_document(&doc.id).unwrap();
    assert_eq!(doc_nodes.len(), 5);
}

#[test]
fn test_tree_traversal() {
    let mut store = create_test_store();

    // Create a tree: root -> child1, child2
    let doc = Document::new("Test".to_string());
    store.insert_document(&doc).unwrap();

    let mut root = PageNode::new_root(doc.id.clone(), "Root".to_string());
    let mut child1 = PageNode::new(doc.id.clone(), "Child 1".to_string(), None, 1);
    let mut child2 = PageNode::new(doc.id.clone(), "Child 2".to_string(), None, 1);

    child1.set_parent(root.id.clone());
    child2.set_parent(root.id.clone());
    root.add_child(child1.id.clone());
    root.add_child(child2.id.clone());

    store.insert_node(&root).unwrap();
    store.insert_node(&child1).unwrap();
    store.insert_node(&child2).unwrap();

    // Test get_children
    let children = store.get_children(&root).unwrap();
    assert_eq!(children.len(), 2);

    // Test get_parent
    let parent = store.get_parent(&child1).unwrap().unwrap();
    assert_eq!(parent.id, root.id);
}

#[test]
fn test_delete_document_cascades() {
    let mut store = create_test_store();

    let doc = Document::new("Test".to_string());
    store.insert_document(&doc).unwrap();

    let nodes: Vec<PageNode> = (0..3)
        .map(|i| PageNode::new(doc.id.clone(), format!("Node {}", i), None, 0))
        .collect();
    store.insert_nodes(&nodes).unwrap();

    // Verify nodes exist
    let stats_before = store.stats().unwrap();
    assert_eq!(stats_before.total_nodes, 3);

    // Delete document (should cascade to nodes)
    store.delete_document(&doc.id).unwrap();

    // Verify nodes are deleted
    let stats_after = store.stats().unwrap();
    assert_eq!(stats_after.total_nodes, 0);
    assert_eq!(stats_after.total_documents, 0);
}

#[test]
fn test_list_documents() {
    let mut store = create_test_store();

    store.insert_document(&Document::new("Doc 1".to_string())).unwrap();
    store.insert_document(&Document::new("Doc 2".to_string())).unwrap();
    store.insert_document(&Document::new("Doc 3".to_string())).unwrap();

    let docs = store.list_documents().unwrap();
    assert_eq!(docs.len(), 3);
}

// ==================== Further store scenarios ====================

#[test]
fn missing_items_give_errors() {
    let mut store = create_test_store();
    assert!(matches!(store.get_node_required("nope"), Err(ReasonError::NodeNotFound(_))));
    assert!(matches!(store.get_document_required("nope"), Err(ReasonError::DocumentNotFound(_))));
    let node = PageNode::new("d".to_string(), "N".to_string(), None, 0);
    assert!(matches!(store.update_node(&node), Err(ReasonError::NodeNotFound(_))));
    let doc = Document::new("D".to_string());
    assert!(matches!(store.update_document(&doc), Err(ReasonError::DocumentNotFound(_))));
    assert_eq!(store.delete_node("nope").unwrap(), false);
    assert_eq!(store.delete_document("nope").unwrap(), false);
    assert!(store.get_root_node("nope").unwrap().is_none());
}

#[test]
fn insert_node_twice_keeps_one_index_entry() {
    let mut store = create_test_store();
    let node = PageNode::new("doc".to_string(), "N".to_string(), None, 0);
    store.insert_node(&node).unwrap();
    store.insert_node(&node).unwrap();
    assert_eq!(store.get_nodes_for_document("doc").unwrap().len(), 1);
    assert_eq!(store.stats().unwrap().total_nodes, 1);
}

#[test]
fn delete_node_leaves_document_index() {
    let mut store = create_test_store();
    let a = PageNode::new("doc".to_string(), "A".to_string(), None, 0);
    let b = PageNode::new("doc".to_string(), "B".to_string(), None, 0);
    store.insert_node(&a).unwrap();
    store.insert_node(&b).unwrap();
    assert!(store.delete_node(&a.id).unwrap());
    let remaining = store.get_nodes_for_document("doc").unwrap();
    assert_eq!(remaining.len(), 1);
    assert_eq!(remaining[0].id, b.id);
}

#[test]
fn root_node_of_document() {
    let mut store = create_test_store();
    let mut doc = Document::new("D".to_string());
    let root = PageNode::new_root(doc.id.clone(), "Root".to_string());
    doc.set_root_node(root.id.clone());
    store.insert_document(&doc).unwrap();
    assert!(store.get_root_node(&doc.id).unwrap().is_none());
    store.insert_node(&root).unwrap();
    assert_eq!(store.get_root_node(&doc.id).unwrap().unwrap().id, root.id);
}

#[test]
fn deleting_one_document_keeps_others() {
    let mut store = create_test_store();
    let d1 = Document::new("One".to_string());
    let d2 = Document::new("Two".to_string());
    store.insert_document(&d1).unwrap();
    store.insert_document(&d2).unwrap();
    store.insert_node(&PageNode::new(d1.id.clone(), "a".to_string(), None, 0)).unwrap();
    store.insert_node(&PageNode::new(d2.id.clone(), "b".to_string(), None, 0)).unwrap();
    assert!(store.delete_document(&d1.id).unwrap());
    let stats = store.stats().unwrap();
    assert_eq!(stats.total_documents, 1);
    assert_eq!(stats.total_nodes, 1);
    assert_eq!(store.get_nodes_for_document(&d2.id).unwrap().len(), 1);
    assert!(store.get_document(&d1.id).unwrap().is_none());
}

#[test]
fn readme_basic_usage() {
    let mut store = create_test_store();
    let doc = Document::new("Annual Report 2024".to_string());
    store.insert_document(&doc).unwrap();

    let mut root = PageNode::new_root(doc.id.clone(), "Report".to_string());
    let mut chapter1 = PageNode::new(
        doc.id.clone(),
        "Chapter 1: Financials".to_string(),
        Some("This chapter covers Q1-Q4 financial results...".to_string()),
        1,
    );
    chapter1.set_parent(root.id.clone());
    root.add_child(chapter1.id.clone());
    store.insert_node(&root).unwrap();
    store.insert_node(&chapter1).unwrap();

    let children = store.get_children(&root).unwrap();
    assert_eq!(children.len(), 1);
    assert_eq!(children[0].title, "Chapter 1: Financials");
    assert_eq!(store.get_parent(&chapter1).unwrap().unwrap().id, root.id);
    assert_eq!(store.get_nodes_for_document(&doc.id).unwrap().len(), 2);
}

#[test]
fn list_documents_in_id_order() {
    let mut store = create_test_store();
    let mut ids = Vec::new();
    for t in ["b", "a", "c"] {
        let d = Document::new(t.to_string());
        ids.push(d.id.clone());
        store.insert_document(&d).unwrap();
    }
    let mut again = Document::new("again".to_string());
    again.id = ids[0].clone();
    store.insert_document(&again).unwrap();
    ids.sort();
    let listed: Vec<String> = store.list_documents().unwrap().iter().map(|d| d.id.clone()).collect();
    assert_eq!(listed, ids);
}

#[test]
fn restore_index_entry_sets_list_or_refuses_duplicates() {
    let mut store = create_test_store();
    let a = PageNode::new("doc".to_string(), "A".to_string(), None, 0);
    let b = PageNode::new("doc".to_string(), "B".to_string(), None, 0);
    store.insert_node(&a).unwrap();
    store.insert_node(&b).unwrap();
    store.restore_index_entry("doc", &vec![b.id.clone(), a.id.clone()]).unwrap();
    let listed = store.get_nodes_for_document("doc").unwrap();
    assert_eq!(listed.len(), 2);
    assert_eq!(listed[0].id, b.id);
    assert_eq!(listed[1].id, a.id);
    let err = store.restore_index_entry("doc", &vec![a.id.clone(), a.id.clone()]);
    assert!(matches!(err, Err(ReasonError::Serialization(_))));
    let again = store.get_nodes_for_document("doc").unwrap();
    assert_eq!(again[0].id, b.id);
}
