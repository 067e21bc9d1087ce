use roc_front::ast::{CommentOrNewline, Located, Region};
use roc_front::can::{Declaration, Def, Module, Symbol};
use roc_front::collections::{NameSet, ScopeMap, VarMap};
use roc_front::header::{expose, load_import, read_imports, ExposesEntry, ImportsEntry, ModuleHeader};
use roc_front::load::{
    finish_module, load_filename, module_filename, BuildProblem, Loaded, LoadedModule, Opened,
    Progress, Started,
};
use std::io::ErrorKind;
use std::path::{Path, PathBuf};

fn region(line: u32) -> Region {
    Region { start_line: line, end_line: line, start_col: 0, end_col: 4 }
}

fn located<T>(line: u32, value: T) -> Located<T> {
    Located { region: region(line), value }
}

fn exposed(name: &str) -> ExposesEntry {
    ExposesEntry::Ident(name.to_string())
}

fn import(module: &str, idents: Vec<(u32, &str)>) -> ImportsEntry {
    ImportsEntry::Module(
        module.to_string(),
        idents.into_iter().map(|(line, name)| located(line, exposed(name))).collect(),
    )
}

fn names(list: &[&str]) -> NameSet {
    let mut set = NameSet::new();
    for name in list {
        set.insert(name.to_string());
    }
    set
}

fn empty_module(name: Option<&str>) -> Module<u8> {
    Module {
        name: name.map(|n| n.to_string()),
        declarations: Vec::new(),
        exposed_imports: VarMap::new(),
        constraint: 7,
    }
}

#[test]
fn valid_module_comes_out_of_into_module() {
    let loaded: LoadedModule<u8, String> = LoadedModule::Valid(empty_module(Some("Foo")));
    let module = loaded.into_module().unwrap();
    assert_eq!(module.name, Some("Foo".to_string()));
    assert_eq!(module.constraint, 7);
}

#[test]
fn file_problem_has_no_module() {
    let loaded: LoadedModule<u8, String> =
        LoadedModule::FileProblem { filename: PathBuf::from("a.roc"), error: ErrorKind::NotFound };
    assert!(loaded.into_module().is_none());
}

#[test]
fn parse_failure_has_no_module() {
    let loaded: LoadedModule<u8, String> = LoadedModule::ParsingFailed {
        filename: PathBuf::from("a.roc"),
        fail: "unexpected token".to_string(),
    };
    assert!(loaded.into_module().is_none());
}

#[test]
fn loaded_holds_the_module_and_the_next_variable() {
    let loaded: Loaded<u8, String> =
        Loaded { requested_module: LoadedModule::Valid(empty_module(None)), next_var: 12 };
    assert_eq!(loaded.next_var, 12);
    assert!(loaded.requested_module.into_module().is_some());
}

#[test]
fn build_problem_names_the_missing_file() {
    let problem = BuildProblem::FileNotFound(Path::new("src/Main.roc"));
    match problem {
        BuildProblem::FileNotFound(path) => assert_eq!(path, Path::new("src/Main.roc")),
    }
}

#[test]
fn module_name_maps_to_nested_directories() {
    assert_eq!(module_filename("Foo.Bar.Baz"), "Foo/Bar/Baz.roc");
}

#[test]
fn module_name_without_dots_is_a_file() {
    assert_eq!(module_filename("Main"), "Main.roc");
    assert_eq!(module_filename(""), ".roc");
    assert_eq!(module_filename("A."), "A/.roc");
}

#[test]
fn symbol_is_qualified_by_its_module() {
    assert_eq!(Symbol::from_module("Json.Decode", "field").text, "Json.Decode.field");
}

#[test]
fn expose_binds_the_identifier_to_its_symbol() {
    let (ident, (symbol, place)) = expose("Str", &exposed("concat"), region(3));
    assert_eq!(ident, "concat");
    assert_eq!(symbol.text, "Str.concat");
    assert_eq!(place.start_line, 3);
}

#[test]
fn expose_looks_through_trivia() {
    let entry = ExposesEntry::SpaceBefore(
        Box::new(ExposesEntry::SpaceAfter(
            Box::new(exposed("map")),
            vec![CommentOrNewline::Newline],
        )),
        vec![CommentOrNewline::LineComment(" c".to_string())],
    );
    let (ident, (symbol, _)) = expose("List", &entry, region(1));
    assert_eq!(ident, "map");
    assert_eq!(symbol.text, "List.map");
}

#[test]
fn load_import_fills_the_scope_and_names_the_module() {
    let mut scope = ScopeMap::new();
    let entry = ImportsEntry::SpaceAfter(
        Box::new(import("Str", vec![(2, "concat"), (3, "len")])),
        vec![CommentOrNewline::Newline],
    );
    let name = load_import(region(1), &entry, &mut scope);
    assert_eq!(name, "Str");
    assert_eq!(scope.len(), 2);
    let (symbol, place) = scope.get("concat").unwrap();
    assert_eq!(symbol.text, "Str.concat");
    assert_eq!(place.start_line, 2);
    assert_eq!(scope.get("len").unwrap().0.text, "Str.len");
}

#[test]
fn later_import_of_an_identifier_wins() {
    let imports = vec![
        located(1, import("A", vec![(1, "x")])),
        located(2, import("B", vec![(2, "x"), (2, "y")])),
        located(3, import("A", Vec::new())),
    ];
    let (deps, scope) = read_imports(&imports);
    assert_eq!(deps, names(&["A", "B"]));
    assert_eq!(scope.len(), 2);
    assert_eq!(scope.get("x").unwrap().0.text, "B.x");
    assert_eq!(scope.get("x").unwrap().1.start_line, 2);
}

#[test]
fn unreadable_file_is_a_file_problem() {
    let started: Started<u8, String> =
        load_filename(PathBuf::from("Foo.roc"), Opened::Unreadable(ErrorKind::PermissionDenied));
    assert!(started.report.is_empty());
    match started.progress {
        Progress::Finished(LoadedModule::FileProblem { filename, error }) => {
            assert_eq!(filename, PathBuf::from("Foo.roc"));
            assert_eq!(error, ErrorKind::PermissionDenied);
        }
        _ => panic!("expected a file problem"),
    }
}

#[test]
fn header_that_does_not_parse_is_a_parse_failure() {
    let started: Started<u8, String> =
        load_filename(PathBuf::from("Foo.roc"), Opened::HeaderFailed("bad header".to_string()));
    assert!(started.report.is_empty());
    match started.progress {
        Progress::Finished(LoadedModule::ParsingFailed { filename, fail }) => {
            assert_eq!(filename, PathBuf::from("Foo.roc"));
            assert_eq!(fail, "bad header");
        }
        _ => panic!("expected a parse failure"),
    }
}

#[test]
fn interface_header_asks_for_its_body() {
    let header = ModuleHeader::Interface {
        name: "Foo.Bar".to_string(),
        exposes: vec![located(1, exposed("run"))],
        imports: vec![
            located(2, import("Str", vec![(2, "concat")])),
            located(3, import("List", Vec::new())),
        ],
    };
    let started: Started<u8, String> =
        load_filename(PathBuf::from("Foo/Bar.roc"), Opened::Header(header));
    assert_eq!(started.report, names(&["Str", "List"]));
    match started.progress {
        Progress::NeedsDefs(request) => {
            assert_eq!(request.name, Some("Foo.Bar".to_string()));
            assert_eq!(request.home, "Foo.Bar");
            assert_eq!(request.scope_home, "Foo.Bar");
            assert_eq!(request.symbol_prefix, "Foo.Bar.");
            assert_eq!(request.exposes.len(), 1);
            assert_eq!(request.scope.len(), 1);
            assert_eq!(request.scope.get("concat").unwrap().0.text, "Str.concat");
        }
        _ => panic!("expected a request for the body"),
    }
}

#[test]
fn app_header_has_no_name() {
    let header = ModuleHeader::App { imports: vec![located(1, import("Str", Vec::new()))] };
    let started: Started<u8, String> =
        load_filename(PathBuf::from("Main.roc"), Opened::Header(header));
    assert_eq!(started.report, names(&["Str"]));
    match started.progress {
        Progress::NeedsDefs(request) => {
            assert_eq!(request.name, None);
            assert_eq!(request.home, "");
            assert_eq!(request.scope_home, ".");
            assert_eq!(request.symbol_prefix, ".");
            assert!(request.exposes.is_empty());
            assert!(request.scope.is_empty());
        }
        _ => panic!("expected a request for the body"),
    }
}

#[test]
fn finished_module_is_valid() {
    let mut exposed_imports = VarMap::new();
    exposed_imports.insert("Str.concat".to_string(), 3);
    let declarations = vec![Declaration::Declare(Def { pattern_vars: VarMap::new() })];
    let loaded: LoadedModule<u8, String> =
        finish_module(Some("Foo".to_string()), declarations, exposed_imports, 9);
    let module = loaded.into_module().unwrap();
    assert_eq!(module.name, Some("Foo".to_string()));
    assert_eq!(module.declarations.len(), 1);
    assert_eq!(module.exposed_imports.get("Str.concat"), Some(&3));
    assert_eq!(module.constraint, 9);
}

#[test]
fn parse_failure_of_one_module_leaves_its_sibling_valid() {
    let broken: Started<u8, String> =
        load_filename(PathBuf::from("A.roc"), Opened::HeaderFailed("bad".to_string()));
    let sibling: Started<u8, String> = load_filename(
        PathBuf::from("B.roc"),
        Opened::Header(ModuleHeader::Interface {
            name: "B".to_string(),
            exposes: Vec::new(),
            imports: Vec::new(),
        }),
    );
    assert!(matches!(broken.progress, Progress::Finished(LoadedModule::ParsingFailed { .. })));
    let request = match sibling.progress {
        Progress::NeedsDefs(request) => request,
        _ => panic!("expected a request for the body"),
    };
    let loaded: LoadedModule<u8, String> =
        finish_module(request.name, Vec::new(), VarMap::new(), 0);
    assert!(matches!(loaded, LoadedModule::Valid(_)));
}
