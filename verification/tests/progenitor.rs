use rustsecbot::deny::output::Graph;
use rustsecbot::Advisory;

fn node(name: &str, parents: Vec<Graph>) -> Graph {
    Graph {
        name: name.to_string(),
        parents,
        repeat: false,
        version: "0.1.0".into(),
    }
}

#[test]
fn test_find_progenitor() {
    let baz = Graph {
        name: "baz".to_string(),
        parents: vec![],
        repeat: false,
        version: "0.1.0".into(),
    };
    let bar = Graph {
        name: "bar".to_string(),
        parents: vec![baz],
        repeat: false,
        version: "0.1.0".into(),
    };
    let bah = Graph {
        name: "bah".to_string(),
        parents: vec![],
        repeat: false,
        version: "0.1.0".into(),
    };
    let foo = Graph {
        name: "foo".to_string(),
        parents: vec![bar, bah],
        repeat: false,
        version: "0.1.0".into(),
    };

    assert_eq!(
        Some("baz".to_string()),
        Advisory::find_progenitor(vec![foo])
    );
    assert_eq!(None, Advisory::find_progenitor(vec![]));
}

#[test]
fn progenitor_of_a_single_leaf_is_the_leaf() {
    assert_eq!(
        Some("solo".to_string()),
        Advisory::find_progenitor(vec![node("solo", vec![])])
    );
}

#[test]
fn progenitor_prefers_the_first_of_equally_deep_children() {
    let tree = node(
        "root",
        vec![
            node("a", vec![node("a1", vec![])]),
            node("b", vec![node("b1", vec![])]),
        ],
    );
    assert_eq!(Some("a1".to_string()), Advisory::find_progenitor(vec![tree]));
}

#[test]
fn progenitor_prefers_the_first_of_equally_deep_trees() {
    let first = node("x", vec![node("x1", vec![])]);
    let second = node("y", vec![node("y1", vec![])]);
    let shallow = node("z", vec![]);
    assert_eq!(
        Some("x1".to_string()),
        Advisory::find_progenitor(vec![shallow, first, second])
    );
}

#[test]
fn progenitor_takes_the_deepest_tree_wherever_it_stands() {
    let shallow = node("s", vec![node("s1", vec![])]);
    let deep = node("d", vec![node("d1", vec![node("d2", vec![])])]);
    assert_eq!(
        Some("d2".to_string()),
        Advisory::find_progenitor(vec![shallow, deep])
    );
    let shallow = node("s", vec![node("s1", vec![])]);
    let deep = node("d", vec![node("d1", vec![node("d2", vec![])])]);
    assert_eq!(
        Some("d2".to_string()),
        Advisory::find_progenitor(vec![deep, shallow])
    );
}

#[test]
fn progenitor_follows_the_deeper_child_not_the_first() {
    let tree = node(
        "root",
        vec![
            node("left", vec![]),
            node("right", vec![node("r1", vec![node("r2", vec![])]), node("r3", vec![])]),
        ],
    );
    assert_eq!(Some("r2".to_string()), Advisory::find_progenitor(vec![tree]));
}

#[test]
fn cloned_graph_has_the_same_nodes() {
    let tree = node("root", vec![node("a", vec![node("b", vec![])]), node("c", vec![])]);
    let copy = tree.clone();
    assert_eq!(copy.name, "root");
    assert_eq!(copy.parents.len(), 2);
    assert_eq!(copy.parents[0].name, "a");
    assert_eq!(copy.parents[0].parents[0].name, "b");
    assert_eq!(copy.parents[1].name, "c");
    assert_eq!(copy.version, "0.1.0");
    assert!(!copy.repeat);
}
