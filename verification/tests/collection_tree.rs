use cartero::error::CarteroError;
use cartero::objects::Collection;
use cartero::objects::Endpoint;
use cartero::objects::KeyValueItem;
use cartero::widgets::Activation;
use cartero::widgets::CollectionTree;
use cartero::widgets::ListItem;
use cartero::widgets::TreeNode;
use cartero::widgets::TreeRow;

fn collection(name: &str, urls: &[&str]) -> Collection {
    let mut collection = Collection::new_with_title(name);
    for url in urls {
        collection.add_request(&Endpoint::new("GET", url));
    }
    collection
}

fn root_row(root: u32, expanded: bool) -> TreeRow {
    TreeRow { node: TreeNode::Collection { root }, depth: 0, expanded, parent: None }
}

fn child_row(root: u32, child: u32) -> TreeRow {
    TreeRow {
        node: TreeNode::Endpoint { root, child },
        depth: 1,
        expanded: false,
        parent: Some(root),
    }
}

fn rows(tree: &CollectionTree) -> Vec<TreeRow> {
    (0..tree.n_rows()).map(|pos| tree.row(pos).unwrap()).collect()
}

fn labels(tree: &CollectionTree) -> Vec<String> {
    rows(tree).iter().map(|row| tree.label(&row.node).unwrap()).collect()
}

#[test]
fn new_tree_has_no_rows() {
    let tree = CollectionTree::new();
    assert_eq!(tree.root_count(), 0);
    assert_eq!(tree.n_rows(), 0);
    assert_eq!(tree.row(0), None);
    assert_eq!(tree.on_activate(0), Activation::Ignored);
}

#[test]
fn appended_collection_is_a_collapsed_row_at_the_end() {
    let mut tree = CollectionTree::new();
    tree.append_collection(&collection("first", &["a", "b"]));
    assert_eq!(rows(&tree), vec![root_row(0, false)]);

    tree.toggle(0);
    tree.append_collection(&collection("second", &["c"]));
    assert_eq!(tree.root_count(), 2);
    assert_eq!(
        rows(&tree),
        vec![root_row(0, true), child_row(0, 0), child_row(0, 1), root_row(1, false)]
    );
    assert_eq!(labels(&tree), vec!["first", "a", "b", "second"]);
}

#[test]
fn inserted_collections_keep_their_order() {
    let mut tree = CollectionTree::new();
    tree.append_collection(&collection("zero", &[]));
    tree.insert_collections(&[
        collection("one", &[]),
        collection("two", &["x"]),
        collection("three", &[]),
    ]);
    assert_eq!(tree.root_count(), 4);
    assert_eq!(labels(&tree), vec!["zero", "one", "two", "three"]);
    assert_eq!(
        rows(&tree),
        vec![root_row(0, false), root_row(1, false), root_row(2, false), root_row(3, false)]
    );

    tree.insert_collections(&[]);
    assert_eq!(tree.root_count(), 4);
}

#[test]
fn collections_with_the_same_name_are_two_nodes_in_insertion_order() {
    let mut tree = CollectionTree::new();
    tree.append_collection(&collection("same", &["b"]));
    tree.append_collection(&collection("same", &["a"]));
    tree.append_collection(&collection("a first by name", &[]));
    assert_eq!(tree.n_rows(), 3);
    assert_eq!(labels(&tree), vec!["same", "same", "a first by name"]);

    assert_eq!(tree.toggle(1), Some(true));
    assert_eq!(labels(&tree), vec!["same", "same", "a", "a first by name"]);
    assert_eq!(tree.row(0), Some(root_row(0, false)));
    assert_eq!(tree.row(1), Some(root_row(1, true)));
}

#[test]
fn expanding_shows_the_children_in_order_right_behind_the_collection() {
    let mut tree = CollectionTree::new();
    tree.append_collection(&collection("before", &["p"]));
    tree.append_collection(&collection("api", &["x", "y"]));
    tree.append_collection(&collection("behind", &["q"]));

    assert_eq!(tree.toggle(1), Some(true));
    let expanded = rows(&tree);
    assert_eq!(
        expanded,
        vec![
            root_row(0, false),
            root_row(1, true),
            child_row(1, 0),
            child_row(1, 1),
            root_row(2, false),
        ]
    );
    let expanded_labels = labels(&tree);
    assert_eq!(expanded_labels, vec!["before", "api", "x", "y", "behind"]);

    assert_eq!(tree.toggle(1), Some(false));
    assert_eq!(rows(&tree), vec![root_row(0, false), root_row(1, false), root_row(2, false)]);
    assert!(!tree.resolves(&TreeNode::Endpoint { root: 1, child: 0 }));

    assert_eq!(tree.toggle(1), Some(true));
    assert_eq!(rows(&tree), expanded);
    assert_eq!(labels(&tree), expanded_labels);
}

#[test]
fn expanding_a_collection_without_children_adds_no_row() {
    let mut tree = CollectionTree::new();
    tree.append_collection(&collection("empty", &[]));
    tree.append_collection(&collection("next", &[]));

    assert_eq!(tree.toggle(0), Some(true));
    assert_eq!(rows(&tree), vec![root_row(0, true), root_row(1, false)]);
    assert_eq!(tree.toggle(0), Some(false));
    assert_eq!(rows(&tree), vec![root_row(0, false), root_row(1, false)]);
    assert_eq!(tree.toggle(0), Some(true));
    assert_eq!(rows(&tree), vec![root_row(0, true), root_row(1, false)]);
}

#[test]
fn toggling_a_leaf_or_a_missing_row_changes_nothing() {
    let mut tree = CollectionTree::new();
    tree.append_collection(&collection("api", &["x", "y"]));
    tree.toggle(0);
    let before = rows(&tree);

    assert_eq!(tree.toggle(1), None);
    assert_eq!(tree.toggle(2), None);
    assert_eq!(tree.toggle(3), None);
    assert_eq!(tree.toggle(usize::MAX), None);
    assert_eq!(rows(&tree), before);
}

#[test]
fn children_are_built_when_the_collection_is_expanded_not_before() {
    let mut tree = CollectionTree::new();
    tree.append_collection(&collection("api", &["x"]));
    assert!(!tree.resolves(&TreeNode::Endpoint { root: 0, child: 0 }));
    assert_eq!(tree.label(&TreeNode::Endpoint { root: 0, child: 0 }), None);

    tree.toggle(0);
    assert!(tree.resolves(&TreeNode::Endpoint { root: 0, child: 0 }));
    assert_eq!(tree.label(&TreeNode::Endpoint { root: 0, child: 0 }), Some("x".to_string()));
    assert!(!tree.resolves(&TreeNode::Endpoint { root: 0, child: 1 }));
}

#[test]
fn child_model_is_the_requests_of_a_collection_and_nothing_for_a_leaf() {
    let mut tree = CollectionTree::new();
    tree.append_collection(&collection("api", &["x", "y"]));
    tree.append_collection(&collection("empty", &[]));

    let model = tree.child_model(&TreeNode::Collection { root: 0 }).unwrap();
    let urls: Vec<String> = model.iter().map(|endpoint| endpoint.url()).collect();
    assert_eq!(urls, vec!["x", "y"]);
    assert!(tree.child_model(&TreeNode::Collection { root: 1 }).unwrap().is_empty());

    assert!(tree.child_model(&TreeNode::Collection { root: 2 }).is_none());
    assert!(tree.child_model(&TreeNode::Endpoint { root: 0, child: 0 }).is_none());
    assert!(tree.child_model(&TreeNode::KeyValueItem { root: 0, child: 0 }).is_none());
}

#[test]
fn activating_a_collection_row_opens_the_collection_and_no_leaf() {
    let mut tree = CollectionTree::new();
    tree.append_collection(&collection("first", &[]));
    tree.append_collection(&collection("api", &["x", "y"]));
    tree.toggle(1);

    assert_eq!(tree.on_activate(0), Activation::OpenCollection { root: 0 });
    assert_eq!(tree.on_activate(1), Activation::OpenCollection { root: 1 });
}

#[test]
fn activating_a_leaf_row_opens_the_leaf_and_no_collection() {
    let mut tree = CollectionTree::new();
    tree.append_collection(&collection("first", &[]));
    tree.append_collection(&collection("api", &["x", "y"]));
    tree.toggle(1);

    assert_eq!(
        tree.on_activate(2),
        Activation::OpenLeaf { node: TreeNode::Endpoint { root: 1, child: 0 } }
    );
    assert_eq!(
        tree.on_activate(3),
        Activation::OpenLeaf { node: TreeNode::Endpoint { root: 1, child: 1 } }
    );
}

#[test]
fn activating_what_is_not_there_does_nothing() {
    let mut tree = CollectionTree::new();
    tree.append_collection(&collection("api", &["x"]));
    assert_eq!(tree.on_activate(1), Activation::Ignored);
    assert_eq!(tree.on_activate(u32::MAX), Activation::Ignored);

    assert_eq!(tree.activate(&TreeNode::Collection { root: 1 }), Activation::Ignored);
    assert_eq!(tree.activate(&TreeNode::Endpoint { root: 0, child: 0 }), Activation::Ignored);
    assert_eq!(tree.activate(&TreeNode::KeyValueItem { root: 0, child: 0 }), Activation::Ignored);

    tree.toggle(0);
    assert_eq!(
        tree.activate(&TreeNode::Endpoint { root: 0, child: 0 }),
        Activation::OpenLeaf { node: TreeNode::Endpoint { root: 0, child: 0 } }
    );
    tree.toggle(0);
    assert_eq!(tree.activate(&TreeNode::Endpoint { root: 0, child: 0 }), Activation::Ignored);
}

#[test]
fn a_variable_is_a_leaf_labelled_by_its_name() {
    let mut api = collection("api", &["x"]);
    api.add_variable(&KeyValueItem::new("token", "1234", true, true));
    let mut tree = CollectionTree::new();
    tree.append_collection(&api);

    let node = TreeNode::KeyValueItem { root: 0, child: 0 };
    assert!(tree.resolves(&node));
    assert_eq!(tree.label(&node), Some("token".to_string()));
    assert!(!tree.is_expandable(&node));
    assert_eq!(tree.activate(&node), Activation::OpenLeaf { node });

    let missing = TreeNode::KeyValueItem { root: 0, child: 1 };
    assert!(!tree.resolves(&missing));
    assert_eq!(tree.label(&missing), None);
}

#[test]
fn only_collections_offer_to_expand() {
    let mut tree = CollectionTree::new();
    tree.append_collection(&collection("api", &["x"]));
    tree.append_collection(&collection("empty", &[]));
    let api = TreeNode::Collection { root: 0 };
    let empty = TreeNode::Collection { root: 1 };

    assert!(tree.is_expandable(&api));
    assert!(tree.is_expandable(&empty));

    tree.toggle(0);
    tree.toggle(2);
    assert!(tree.is_expandable(&api));
    assert!(!tree.is_expandable(&empty));
    assert!(!tree.is_expandable(&TreeNode::Endpoint { root: 0, child: 0 }));
    assert!(!tree.is_expandable(&TreeNode::Collection { root: 2 }));

    tree.toggle(2);
    assert!(tree.is_expandable(&empty));
}

#[test]
fn collection_is_found_by_its_place_among_the_roots() {
    let mut tree = CollectionTree::new();
    tree.append_collection(&collection("api", &["x"]));
    assert_eq!(tree.collection(0).unwrap().name(), "api");
    assert_eq!(tree.collection(0).unwrap().request_count(), 1);
    assert!(tree.collection(1).is_none());
}

#[test]
fn replacing_a_collection_builds_the_shown_children_anew() {
    let mut tree = CollectionTree::new();
    tree.append_collection(&collection("api", &["x", "y"]));
    tree.append_collection(&collection("other", &["q"]));
    tree.toggle(0);
    assert_eq!(labels(&tree), vec!["api", "x", "y", "other"]);

    assert_eq!(tree.replace_collection(0, &collection("api v2", &["z"])), Ok(()));
    assert_eq!(labels(&tree), vec!["api v2", "z", "other"]);
    assert_eq!(rows(&tree), vec![root_row(0, true), child_row(0, 0), root_row(1, false)]);

    assert_eq!(tree.replace_collection(1, &collection("other v2", &["r", "s"])), Ok(()));
    assert_eq!(labels(&tree), vec!["api v2", "z", "other v2"]);
    tree.toggle(2);
    assert_eq!(labels(&tree), vec!["api v2", "z", "other v2", "r", "s"]);
}

#[test]
fn replacing_a_collection_that_is_gone_is_a_stale_reference() {
    let mut tree = CollectionTree::new();
    assert_eq!(
        tree.replace_collection(0, &collection("api", &[])),
        Err(CarteroError::StaleReference)
    );
    tree.append_collection(&collection("api", &["x"]));
    tree.toggle(0);
    let before = labels(&tree);
    assert_eq!(
        tree.replace_collection(1, &collection("late", &[])),
        Err(CarteroError::StaleReference)
    );
    assert_eq!(labels(&tree), before);
    assert_eq!(tree.root_count(), 1);
}

#[test]
fn clearing_removes_every_root_and_row() {
    let mut tree = CollectionTree::new();
    tree.append_collection(&collection("api", &["x"]));
    tree.toggle(0);
    tree.clear();
    assert_eq!(tree.root_count(), 0);
    assert_eq!(tree.n_rows(), 0);
    assert!(!tree.resolves(&TreeNode::Collection { root: 0 }));
}

#[test]
fn a_slot_is_set_up_bound_unbound_and_torn_down() {
    let mut tree = CollectionTree::new();
    tree.append_collection(&collection("api", &["x"]));
    tree.toggle(0);

    let mut item = ListItem::new();
    assert!(item.child().is_none());

    CollectionTree::on_factory_setup(&mut item);
    assert_eq!(item.child().unwrap().label(), "");
    assert_eq!(item.child().unwrap().list_row(), None);
    assert!(!item.child().unwrap().is_expandable());

    tree.on_factory_bind(&mut item, 0);
    assert_eq!(item.child().unwrap().label(), "api");
    assert_eq!(item.child().unwrap().list_row(), Some(root_row(0, true)));
    assert!(item.child().unwrap().is_expandable());

    CollectionTree::on_factory_unbind(&mut item);
    assert_eq!(item.child().unwrap().label(), "");
    assert_eq!(item.child().unwrap().list_row(), None);
    assert!(!item.child().unwrap().is_expandable());

    tree.on_factory_bind(&mut item, 1);
    assert_eq!(item.child().unwrap().label(), "x");
    assert_eq!(item.child().unwrap().list_row(), Some(child_row(0, 0)));
    assert!(!item.child().unwrap().is_expandable());

    CollectionTree::on_factory_teardown(&mut item);
    assert!(item.child().is_none());
}

#[test]
fn binding_needs_widgets_and_a_row() {
    let mut tree = CollectionTree::new();
    tree.append_collection(&collection("api", &[]));

    let mut item = ListItem::new();
    tree.on_factory_bind(&mut item, 0);
    assert!(item.child().is_none());
    CollectionTree::on_factory_unbind(&mut item);
    assert!(item.child().is_none());

    CollectionTree::on_factory_setup(&mut item);
    tree.on_factory_bind(&mut item, 0);
    assert_eq!(item.child().unwrap().label(), "api");
    tree.on_factory_bind(&mut item, 1);
    assert_eq!(item.child().unwrap().label(), "");
    assert_eq!(item.child().unwrap().list_row(), None);
}

#[test]
fn default_tree_is_empty() {
    let tree = CollectionTree::default();
    assert_eq!(tree.root_count(), 0);
    assert_eq!(tree.n_rows(), 0);
}

#[test]
fn the_tree_has_heard_what_its_collections_had_to_tell() {
    let mut api = collection("api", &["x", "y"]);
    let mut tree = CollectionTree::new();
    tree.append_collection(&api);
    assert!(tree.collection(0).unwrap().clone().take_changes().is_empty());
    assert_eq!(api.take_changes().len(), 2);

    let mut edited = collection("edited", &["z"]);
    assert_eq!(tree.replace_collection(0, &edited), Ok(()));
    assert!(tree.collection(0).unwrap().clone().take_changes().is_empty());
    assert_eq!(edited.take_changes().len(), 1);
}

#[test]
fn root_model_is_a_copy_of_the_collections_in_order() {
    let mut tree = CollectionTree::new();
    assert!(tree.root_model().is_empty());
    tree.insert_collections(&[collection("one", &["a"]), collection("two", &[])]);
    tree.toggle(0);

    let model = tree.root_model();
    let names: Vec<String> = model.iter().map(|collection| collection.name()).collect();
    assert_eq!(names, vec!["one", "two"]);
    assert_eq!(model[0].request_count(), 1);
    assert_eq!(model[0].request_get(0).unwrap().url(), "a");
    assert_eq!(model[1].request_count(), 0);
}

#[test]
fn rows_know_their_depth_and_their_parent() {
    let mut tree = CollectionTree::new();
    tree.append_collection(&collection("first", &[]));
    tree.append_collection(&collection("api", &["x"]));
    tree.toggle(1);

    let root = tree.row(1).unwrap();
    assert_eq!(root.node, TreeNode::Collection { root: 1 });
    assert_eq!(root.depth, 0);
    assert_eq!(root.parent, None);
    assert!(root.expanded);

    let child = tree.row(2).unwrap();
    assert_eq!(child.node, TreeNode::Endpoint { root: 1, child: 0 });
    assert_eq!(child.depth, 1);
    assert_eq!(child.parent, Some(1));
    assert!(!child.expanded);
    assert_eq!(tree.row(3), None);
}
