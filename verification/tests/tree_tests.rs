use xml_lexer::tree::Node;

#[derive(Debug, PartialEq)]
struct Item {
    index: usize,
}

#[test]
fn new_node_test() {
    let item = Item { index: 0 };
    let hierarchy = Node::new(item);
    assert_eq!(hierarchy.get_data(), &Item { index: 0 });
}

#[test]
fn add_child_test() {
    let item = Item { index: 0 };
    assert_eq!(Node::new(item).add_child(Item { index: 1 }).get_data(), &Item { index: 1 });
}

#[test]
fn add_children_test() {
    let root = Item { index: 0 };
    let mut hierarchy = Node::new(root);
    assert_eq!(hierarchy.get_data(), &Item { index: 0 });
    hierarchy.add_child(Item { index: 1 });
    assert_eq!(hierarchy.get_count(), 1);
    assert_eq!(hierarchy.get_child_save(0).unwrap().get_data(), &Item { index: 1 });
    assert_eq!(hierarchy.get_child(0).get_data(), &Item { index: 1 });
    assert_eq!(hierarchy.get_child_data(0), &Item { index: 1 });
    hierarchy.get_child(0).add_child(Item { index: 2 });
    assert_eq!(
        hierarchy.get_child_save(0).unwrap().get_child_save(0).unwrap().get_data(),
        &Item { index: 2 }
    );
    assert_eq!(hierarchy.get_child(0).get_child(0).get_data(), &Item { index: 2 });
    assert_eq!(hierarchy.get_child(0).get_child_data(0), &Item { index: 2 });
}
