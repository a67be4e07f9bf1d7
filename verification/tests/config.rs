use rustsecbot::config::{Config, CrateConfig, CrateMap};

fn crate_config(labels: &[&str]) -> CrateConfig {
    CrateConfig {
        labels: labels.iter().map(|l| l.to_string()).collect(),
    }
}

#[test]
fn default_config_labels_rust_and_security() {
    let config = Config::default();
    assert_eq!(config.labels, vec!["rust", "security"]);
    assert!(config.crates.into_entries().is_empty());
}

#[test]
fn crate_map_holds_what_was_inserted() {
    let mut crates = CrateMap::new();
    assert!(crates.get(&"foo".to_string()).is_none());
    assert!(crates.insert("foo".to_string(), crate_config(&["crate/foo"])).is_none());
    assert!(crates.insert("bar".to_string(), crate_config(&["crate/bar"])).is_none());
    assert_eq!(
        crates.get(&"foo".to_string()).expect("foo was inserted").labels,
        vec!["crate/foo"]
    );
    assert_eq!(
        crates.get(&"bar".to_string()).expect("bar was inserted").labels,
        vec!["crate/bar"]
    );
    assert!(crates.get(&"baz".to_string()).is_none());
    assert!(crates.get(&"fo".to_string()).is_none());
}

#[test]
fn crate_map_replaces_an_entry_of_the_same_name() {
    let mut crates = CrateMap::new();
    crates.insert("foo".to_string(), crate_config(&["old"]));
    crates.insert("bar".to_string(), crate_config(&["other"]));
    let previous = crates
        .insert("foo".to_string(), crate_config(&["new", "newer"]))
        .expect("foo had a configuration");
    assert_eq!(previous.labels, vec!["old"]);
    assert_eq!(
        crates.get(&"foo".to_string()).expect("foo is there").labels,
        vec!["new", "newer"]
    );
    assert_eq!(
        crates.get(&"bar".to_string()).expect("bar is there").labels,
        vec!["other"]
    );
    let mut names: Vec<String> = crates.into_entries().into_iter().map(|e| e.0).collect();
    names.sort();
    assert_eq!(names, vec!["bar", "foo"]);
}

#[test]
fn cloned_crate_map_holds_the_same() {
    let mut crates = CrateMap::new();
    crates.insert("foo".to_string(), crate_config(&["a", "b"]));
    crates.insert("bar".to_string(), crate_config(&[]));
    let copy = crates.clone();
    assert_eq!(copy.get(&"foo".to_string()).expect("foo").labels, vec!["a", "b"]);
    assert!(copy.get(&"bar".to_string()).expect("bar").labels.is_empty());
    assert_eq!(copy.into_entries().len(), 2);
    assert_eq!(crates.into_entries().len(), 2);
}

#[test]
fn config_with_labels_only() {
    let config = Config {
        labels: vec!["foo".to_string()],
        crates: CrateMap::new(),
    };
    assert_eq!(config.labels, vec!["foo"]);
    assert!(config.crates.get(&"foo".to_string()).is_none());
}

#[test]
fn config_with_crates_only() {
    let mut crates = CrateMap::new();
    crates.insert("foo".to_string(), crate_config(&["crate/foo"]));
    crates.insert("bar".to_string(), crate_config(&["crate/bar"]));
    let config = Config {
        labels: vec![],
        crates,
    };
    let copy = config.clone();
    assert!(copy.labels.is_empty());
    assert_eq!(copy.crates.get(&"foo".to_string()).expect("foo").labels, vec!["crate/foo"]);
    assert_eq!(copy.crates.get(&"bar".to_string()).expect("bar").labels, vec!["crate/bar"]);
}
