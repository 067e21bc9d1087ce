//! Loading one module: where its file lies, and what becomes of it once
//! the file has been read and its header parsed.

use vstd::prelude::*;
use crate::ast::Located;
use crate::can::{Declaration, Module, Variable};
use crate::collections::{names_new, names_of, scope_of, NameSet, ScopeMap, VarMap};
use crate::header::{imported_names, read_imports, with_imports, ExposesEntry, ModuleHeader};

verus! {

/// `std::path::PathBuf`, carried through as it is.
#[verifier::external_type_specification]
#[verifier::external_body]
pub struct ExPathBuf(std::path::PathBuf);

/// `std::path::Path`, carried through as it is.
#[verifier::external_type_specification]
#[verifier::external_body]
pub struct ExPath(std::path::Path);

/// `std::io::ErrorKind`, carried through as it is.
#[verifier::external_type_specification]
#[verifier::external_body]
pub struct ExErrorKind(std::io::ErrorKind);

/// The outcome of loading a program: its root module, and the first type
/// variable that no module has used.
#[derive(Debug)]
pub struct Loaded<C, F> {
    pub requested_module: LoadedModule<C, F>,
    pub next_var: Variable,
}

/// A problem that keeps a program from being built.
#[derive(Debug)]
pub enum BuildProblem<'a> {
    FileNotFound(&'a std::path::Path),
}

/// What loading one module gave. `F` is the parser's account of a failure.
#[derive(Debug)]
pub enum LoadedModule<C, F> {
    Valid(Module<C>),
    FileProblem { filename: std::path::PathBuf, error: std::io::ErrorKind },
    ParsingFailed { filename: std::path::PathBuf, fail: F },
}

impl<C, F> LoadedModule<C, F> {
    /// The module, if loading gave one.
    pub fn into_module(self) -> (module: Option<Module<C>>)
        ensures
            module == match self {
                LoadedModule::Valid(inner) => Some(inner),
                _ => None,
            },
    {
        match self {
            LoadedModule::Valid(inner) => Some(inner),
            _ => None,
        }
    }
}

/// The language's file extension, with its dot.
pub open spec fn extension() -> Seq<char> {
    ".roc"@
}

/// The path of a module's file below the source directory: the module's
/// name with every dot turned into a path separator, then the extension.
pub open spec fn relative_path(module_name: Seq<char>) -> Seq<char> {
    dots_to_separators(module_name) + extension()
}

/// A path separator for a dot, any other character as it is.
pub open spec fn separator_for_dot(c: char) -> char {
    if c == '.' {
        '/'
    } else {
        c
    }
}

/// A name with every dot turned into a path separator.
pub open spec fn dots_to_separators(name: Seq<char>) -> Seq<char> {
    name.map_values(|c: char| separator_for_dot(c))
}

/// Where the file of the module `module_name` lies below the source
/// directory.
pub fn module_filename(module_name: &str) -> (path: String)
    ensures
        path@ == relative_path(module_name@),
{
    let n = module_name.unicode_len();
    let mut path = String::from_str("");
    let mut start: usize = 0;
    let mut i: usize = 0;
    proof {
        reveal_strlit("");
        reveal_strlit("/");
        assert(path@ =~= dots_to_separators(module_name@.take(0)));
    }
    while i < n
        invariant
            n == module_name@.len(),
            start <= i <= n,
            path@ == dots_to_separators(module_name@.take(start as int)),
            forall|j: int| start <= j < i ==> module_name@[j] != '.',
            "/"@ == seq!['/'],
        decreases n - i,
    {
        if module_name.get_char(i) == '.' {
            let part = module_name.substring_char(start, i);
            let ghost before = path@;
            path.append(part);
            path.append("/");
            proof {
                let whole = module_name@;
                let target = dots_to_separators(whole.take(i + 1));
                assert(path@ == before + part@ + seq!['/']);
                assert(part@.len() == i - start);
                assert(before.len() == start);
                assert forall|k: int| 0 <= k < target.len() implies path@[k] == target[k] by {
                    assert(target[k] == separator_for_dot(whole.take(i + 1)[k]));
                    assert(whole.take(i + 1)[k] == whole[k]);
                    if k < start {
                        assert(before[k] == separator_for_dot(whole.take(start as int)[k]));
                        assert(whole.take(start as int)[k] == whole[k]);
                        assert(path@[k] == before[k]);
                    } else if k < i {
                        assert(path@[k] == part@[k - start]);
                        assert(part@[k - start] == whole[k]);
                        assert(whole[k] != '.');
                    } else {
                        assert(path@[k] == '/');
                        assert(whole[k] == '.');
                    }
                }
                assert(path@ =~= target);
            }
            start = i + 1;
        }
        i = i + 1;
    }
    let part = module_name.substring_char(start, n);
    path.append(part);
    assert(path@ =~= dots_to_separators(module_name@));
    path.append(".roc");
    path
}

/// What reading a module's file and parsing its header gave.
#[derive(Debug)]
pub enum Opened<F> {
    /// The file could not be read.
    Unreadable(std::io::ErrorKind),
    /// The header did not parse.
    HeaderFailed(F),
    Header(ModuleHeader),
}

/// What the body of a module is to be parsed and canonicalized with.
#[derive(Debug)]
pub struct DefsRequest {
    /// The declared name; an application has none.
    pub name: Option<String>,
    /// The home of the module's own definitions: the declared name, or
    /// nothing for an application.
    pub home: String,
    /// The home of the module's scope: the declared name, or a lone dot.
    pub scope_home: String,
    /// What every symbol defined in the module starts with.
    pub symbol_prefix: String,
    /// The identifiers imported unqualified.
    pub scope: ScopeMap,
    /// What the module exposes.
    pub exposes: Vec<Located<ExposesEntry>>,
}

/// Where a module stands once its header has been dealt with.
#[derive(Debug)]
pub enum Progress<C, F> {
    /// Loading is over.
    Finished(LoadedModule<C, F>),
    /// The body is still to be parsed and canonicalized.
    NeedsDefs(DefsRequest),
}

/// The step a loader takes after opening its file: the dependency names
/// to report to the coordinator, and how to go on.
#[derive(Debug)]
pub struct Started<C, F> {
    pub report: NameSet,
    pub progress: Progress<C, F>,
}

/// Whether a request is the one that the header of an interface or an
/// application asks for.
pub open spec fn request_for(request: DefsRequest, header: ModuleHeader) -> bool {
    match header {
        ModuleHeader::Interface { name, exposes, imports } => {
            &&& request.name matches Some(declared) && declared@ == name@
            &&& request.home@ == name@
            &&& request.scope_home@ == name@
            &&& request.symbol_prefix@ == name@ + seq!['.']
            &&& scope_of(&request.scope) == with_imports(Map::empty(), imports@)
            &&& request.exposes == exposes
        },
        ModuleHeader::App { imports } => {
            &&& request.name is None
            &&& request.home@ == Seq::<char>::empty()
            &&& request.scope_home@ == seq!['.']
            &&& request.symbol_prefix@ == seq!['.']
            &&& scope_of(&request.scope) == with_imports(Map::empty(), imports@)
            &&& request.exposes@ == Seq::<Located<ExposesEntry>>::empty()
        },
    }
}

/// The imports of a header.
pub open spec fn header_imports(header: ModuleHeader) -> Set<Seq<char>> {
    match header {
        ModuleHeader::Interface { imports, .. } => imported_names(imports@),
        ModuleHeader::App { imports } => imported_names(imports@),
    }
}

/// Decides what a loader does once its file has been opened. A file that
/// could not be read or a header that did not parse ends the load with the
/// problem and reports no dependency; a header reports the modules it
/// imports and asks for the body to be processed.
pub fn load_filename<C, F>(filename: std::path::PathBuf, opened: Opened<F>) -> (started: Started<
    C,
    F,
>)
    ensures
        match opened {
            Opened::Unreadable(error) => {
                &&& names_of(&started.report) == Set::<Seq<char>>::empty()
                &&& started.progress == Progress::<C, F>::Finished(
                    LoadedModule::FileProblem { filename, error },
                )
            },
            Opened::HeaderFailed(fail) => {
                &&& names_of(&started.report) == Set::<Seq<char>>::empty()
                &&& started.progress == Progress::<C, F>::Finished(
                    LoadedModule::ParsingFailed { filename, fail },
                )
            },
            Opened::Header(header) => {
                &&& names_of(&started.report) == header_imports(header)
                &&& started.progress matches Progress::NeedsDefs(request) && request_for(
                    request,
                    header,
                )
            },
        },
{
    match opened {
        Opened::Unreadable(error) => Started {
            report: names_new(),
            progress: Progress::Finished(LoadedModule::FileProblem { filename, error }),
        },
        Opened::HeaderFailed(fail) => Started {
            report: names_new(),
            progress: Progress::Finished(LoadedModule::ParsingFailed { filename, fail }),
        },
        Opened::Header(ModuleHeader::Interface { name, exposes, imports }) => {
            let (report, scope) = read_imports(&imports);
            let mut symbol_prefix = name.clone();
            symbol_prefix.append(".");
            proof {
                reveal_strlit(".");
                assert("."@ =~= seq!['.']);
            }
            let request = DefsRequest {
                name: Some(name.clone()),
                home: name.clone(),
                scope_home: name,
                symbol_prefix,
                scope,
                exposes,
            };
            Started { report, progress: Progress::NeedsDefs(request) }
        },
        Opened::Header(ModuleHeader::App { imports }) => {
            let (report, scope) = read_imports(&imports);
            proof {
                reveal_strlit(".");
                reveal_strlit("");
                assert("."@ =~= seq!['.']);
                assert(""@ =~= Seq::<char>::empty());
            }
            let request = DefsRequest {
                name: None,
                home: String::from_str(""),
                scope_home: String::from_str("."),
                symbol_prefix: String::from_str("."),
                scope,
                exposes: Vec::new(),
            };
            Started { report, progress: Progress::NeedsDefs(request) }
        },
    }
}

/// The module that a processed body completes.
pub fn finish_module<C, F>(
    name: Option<String>,
    declarations: Vec<Declaration>,
    exposed_imports: VarMap,
    constraint: C,
) -> (loaded: LoadedModule<C, F>)
    ensures
        loaded == LoadedModule::<C, F>::Valid(
            Module { name, declarations, exposed_imports, constraint },
        ),
{
    LoadedModule::Valid(Module { name, declarations, exposed_imports, constraint })
}

} // verus!
