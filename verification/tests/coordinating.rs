use roc_front::collections::NameSet;
use roc_front::coordinator::Coordinator;

fn names(list: &[&str]) -> NameSet {
    let mut set = NameSet::new();
    for name in list {
        set.insert(name.to_string());
    }
    set
}

fn sorted(mut list: Vec<String>) -> Vec<String> {
    list.sort();
    list
}

#[test]
fn coordinator_starts_with_the_root_pending() {
    let coordinator = Coordinator::new();
    assert_eq!(coordinator.pending, 1);
    assert!(coordinator.all_deps.is_empty());
}

#[test]
fn module_without_imports_ends_the_load() {
    let mut coordinator = Coordinator::new();
    let dispatch = coordinator.on_report(NameSet::new());
    assert!(dispatch.to_load.is_empty());
    assert!(dispatch.done);
    assert_eq!(coordinator.pending, 0);
}

#[test]
fn shared_dependency_is_loaded_once() {
    let mut coordinator = Coordinator::new();
    let mut loaded: Vec<String> = Vec::new();

    // The root imports A and B.
    let dispatch = coordinator.on_report(names(&["A", "B"]));
    assert_eq!(sorted(dispatch.to_load.clone()), vec!["A".to_string(), "B".to_string()]);
    assert!(!dispatch.done);
    assert_eq!(coordinator.pending, 2);
    loaded.extend(dispatch.to_load);

    // A imports C.
    let dispatch = coordinator.on_report(names(&["C"]));
    assert_eq!(dispatch.to_load, vec!["C".to_string()]);
    assert!(!dispatch.done);
    assert_eq!(coordinator.pending, 2);
    loaded.extend(dispatch.to_load);

    // B imports C as well.
    let dispatch = coordinator.on_report(names(&["C"]));
    assert!(dispatch.to_load.is_empty());
    assert!(!dispatch.done);
    assert_eq!(coordinator.pending, 1);

    // C imports nothing.
    let dispatch = coordinator.on_report(NameSet::new());
    assert!(dispatch.to_load.is_empty());
    assert!(dispatch.done);
    assert_eq!(coordinator.pending, 0);

    assert_eq!(loaded.len(), 3);
    assert_eq!(coordinator.all_deps, names(&["A", "B", "C"]));
}

#[test]
fn failed_module_reports_nothing_and_siblings_go_on() {
    let mut coordinator = Coordinator::new();
    let dispatch = coordinator.on_report(names(&["Broken", "Fine"]));
    assert_eq!(dispatch.to_load.len(), 2);
    // The broken module reports no dependency.
    let dispatch = coordinator.on_report(NameSet::new());
    assert!(!dispatch.done);
    // Its sibling reports what it imports.
    let dispatch = coordinator.on_report(names(&["Leaf"]));
    assert_eq!(dispatch.to_load, vec!["Leaf".to_string()]);
    let dispatch = coordinator.on_report(NameSet::new());
    assert!(dispatch.done);
    assert_eq!(coordinator.all_deps, names(&["Broken", "Fine", "Leaf"]));
}

#[test]
fn names_already_known_are_not_dispatched_again() {
    let mut coordinator = Coordinator::new();
    coordinator.on_report(names(&["A", "B", "C"]));
    let dispatch = coordinator.on_report(names(&["B", "D", "A"]));
    assert_eq!(dispatch.to_load, vec!["D".to_string()]);
    assert_eq!(coordinator.pending, 3);
    assert_eq!(coordinator.all_deps.len(), 4);
}
