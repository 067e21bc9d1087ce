use roc_front::ast::Region;
use roc_front::can::{Declaration, Def, Module};
use roc_front::collections::VarMap;
use roc_front::load::LoadedModule;
use roc_front::solve::{can_solve, solve_loaded};
use std::io::ErrorKind;
use std::path::PathBuf;

fn vars(list: &[(&str, u32)]) -> VarMap {
    let mut map = VarMap::new();
    for (symbol, variable) in list {
        map.insert(symbol.to_string(), *variable);
    }
    map
}

fn def(list: &[(&str, u32)]) -> Def {
    Def { pattern_vars: vars(list) }
}

fn module(
    name: Option<&str>,
    exposed: &[(&str, u32)],
    declarations: Vec<Declaration>,
    constraint: &str,
) -> Module<String> {
    Module {
        name: name.map(|n| n.to_string()),
        declarations,
        exposed_imports: vars(exposed),
        constraint: constraint.to_string(),
    }
}

fn valid(module: Module<String>) -> LoadedModule<String, String> {
    LoadedModule::Valid(module)
}

#[test]
fn environment_holds_imports_and_pattern_variables() {
    let primary = module(
        None,
        &[("Str.concat", 1)],
        vec![
            Declaration::Declare(def(&[(".main", 2)])),
            Declaration::DeclareRec(vec![def(&[(".even", 3)]), def(&[(".odd", 4)])]),
        ],
        "primary",
    );
    let deps: Vec<LoadedModule<String, String>> = Vec::new();
    assert!(can_solve(&primary, &deps));
    let order = solve_loaded(&primary, &deps);
    assert_eq!(
        order.vars_by_symbol,
        vars(&[("Str.concat", 1), (".main", 2), (".even", 3), (".odd", 4)])
    );
    assert!(order.dep_constraints.is_empty());
}

#[test]
fn later_binding_replaces_an_earlier_one() {
    let primary = module(
        None,
        &[("A.x", 1), ("A.y", 2)],
        vec![Declaration::Declare(def(&[("A.x", 10)]))],
        "primary",
    );
    let dep = module(Some("A"), &[("A.y", 20)], vec![Declaration::Declare(def(&[("A.z", 30)]))], "a");
    let deps = vec![valid(dep)];
    let order = solve_loaded(&primary, &deps);
    assert_eq!(order.vars_by_symbol, vars(&[("A.x", 10), ("A.y", 20), ("A.z", 30)]));
}

#[test]
fn dependency_constraints_keep_their_order() {
    let primary = module(None, &[], Vec::new(), "primary");
    let deps = vec![
        valid(module(Some("A"), &[], Vec::new(), "a")),
        valid(module(Some("B"), &[], Vec::new(), "b")),
        valid(module(Some("C"), &[], Vec::new(), "c")),
    ];
    assert!(can_solve(&primary, &deps));
    let order = solve_loaded(&primary, &deps);
    let seen: Vec<(&str, &str)> =
        order.dep_constraints.iter().map(|(name, constraint)| (*name, constraint.as_str())).collect();
    assert_eq!(seen, vec![("A", "a"), ("B", "b"), ("C", "c")]);
    // One run of the solver for each dependency, and one for the module itself.
    assert_eq!(order.dep_constraints.len() + 1, 4);
}

#[test]
fn failed_dependency_cannot_be_solved() {
    let primary = module(None, &[], Vec::new(), "primary");
    let missing: LoadedModule<String, String> =
        LoadedModule::FileProblem { filename: PathBuf::from("A.roc"), error: ErrorKind::NotFound };
    assert!(!can_solve(&primary, &vec![missing]));
    let broken: LoadedModule<String, String> = LoadedModule::ParsingFailed {
        filename: PathBuf::from("A.roc"),
        fail: "bad".to_string(),
    };
    assert!(!can_solve(&primary, &vec![valid(module(Some("B"), &[], Vec::new(), "b")), broken]));
}

#[test]
fn nameless_dependency_cannot_be_solved() {
    let primary = module(None, &[], Vec::new(), "primary");
    assert!(!can_solve(&primary, &vec![valid(module(None, &[], Vec::new(), "app"))]));
}

#[test]
fn invalid_cycle_cannot_be_solved() {
    let cycle = Declaration::InvalidCycle(
        vec!["a".to_string(), "b".to_string()],
        vec![Region { start_line: 1, end_line: 1, start_col: 0, end_col: 1 }],
    );
    let primary = module(None, &[], vec![cycle], "primary");
    let deps: Vec<LoadedModule<String, String>> = Vec::new();
    assert!(!can_solve(&primary, &deps));
    let cycle = Declaration::InvalidCycle(Vec::new(), Vec::new());
    let fine = module(None, &[], Vec::new(), "primary");
    assert!(!can_solve(&fine, &vec![valid(module(Some("A"), &[], vec![cycle], "a"))]));
}
