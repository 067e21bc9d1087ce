//! Module headers: what a module is called, what it exposes, and what it
//! imports.

use vstd::prelude::*;
use crate::ast::{CommentOrNewline, Located, Region};
use crate::can::{qualified, Symbol};
use crate::collections::{
    names_insert, names_new, names_of, scope_insert, scope_new, scope_of, NameSet, ScopeMap,
};

verus! {

/// An entry of an `exposes` list.
#[derive(Debug)]
pub enum ExposesEntry {
    Ident(String),
    SpaceBefore(Box<ExposesEntry>, Vec<CommentOrNewline>),
    SpaceAfter(Box<ExposesEntry>, Vec<CommentOrNewline>),
}

/// An entry of an `imports` list: a module name and the identifiers
/// imported from it unqualified.
#[derive(Debug)]
pub enum ImportsEntry {
    Module(String, Vec<Located<ExposesEntry>>),
    SpaceBefore(Box<ImportsEntry>, Vec<CommentOrNewline>),
    SpaceAfter(Box<ImportsEntry>, Vec<CommentOrNewline>),
}

/// The header of a module: an interface has a name, an application has
/// none.
#[derive(Debug)]
pub enum ModuleHeader {
    Interface {
        name: String,
        exposes: Vec<Located<ExposesEntry>>,
        imports: Vec<Located<ImportsEntry>>,
    },
    App { imports: Vec<Located<ImportsEntry>> },
}

/// The identifier of an entry, whatever trivia surrounds it.
pub open spec fn exposed_ident(entry: ExposesEntry) -> Seq<char>
    decreases entry,
{
    match entry {
        ExposesEntry::Ident(ident) => ident@,
        ExposesEntry::SpaceBefore(sub, _) => exposed_ident(*sub),
        ExposesEntry::SpaceAfter(sub, _) => exposed_ident(*sub),
    }
}

/// The module an entry imports, whatever trivia surrounds it.
pub open spec fn imported_module(entry: ImportsEntry) -> Seq<char>
    decreases entry,
{
    match entry {
        ImportsEntry::Module(name, _) => name@,
        ImportsEntry::SpaceBefore(sub, _) => imported_module(*sub),
        ImportsEntry::SpaceAfter(sub, _) => imported_module(*sub),
    }
}

/// The identifiers an entry imports unqualified.
pub open spec fn imported_exposes(entry: ImportsEntry) -> Seq<Located<ExposesEntry>>
    decreases entry,
{
    match entry {
        ImportsEntry::Module(_, exposes) => exposes@,
        ImportsEntry::SpaceBefore(sub, _) => imported_exposes(*sub),
        ImportsEntry::SpaceAfter(sub, _) => imported_exposes(*sub),
    }
}

/// A scope after the identifiers exposed by `module_name` have been bound,
/// in order, each to its qualified symbol and the region of its entry.
pub open spec fn with_exposes(
    scope: Map<Seq<char>, (Seq<char>, Region)>,
    module_name: Seq<char>,
    exposes: Seq<Located<ExposesEntry>>,
) -> Map<Seq<char>, (Seq<char>, Region)>
    decreases exposes.len(),
{
    if exposes.len() == 0 {
        scope
    } else {
        let ident = exposed_ident(exposes.last().value);
        with_exposes(scope, module_name, exposes.drop_last()).insert(
            ident,
            (qualified(module_name, ident), exposes.last().region),
        )
    }
}

/// A scope after every entry of an `imports` list has bound what it
/// exposes, in order.
pub open spec fn with_imports(
    scope: Map<Seq<char>, (Seq<char>, Region)>,
    imports: Seq<Located<ImportsEntry>>,
) -> Map<Seq<char>, (Seq<char>, Region)>
    decreases imports.len(),
{
    if imports.len() == 0 {
        scope
    } else {
        with_exposes(
            with_imports(scope, imports.drop_last()),
            imported_module(imports.last().value),
            imported_exposes(imports.last().value),
        )
    }
}

/// The modules that an `imports` list names.
pub open spec fn imported_names(imports: Seq<Located<ImportsEntry>>) -> Set<Seq<char>>
    decreases imports.len(),
{
    if imports.len() == 0 {
        Set::empty()
    } else {
        imported_names(imports.drop_last()).insert(imported_module(imports.last().value))
    }
}

/// The scope binding that one exposed identifier of `module_name` gives:
/// the identifier, the symbol it stands for, and the region.
pub fn expose(module_name: &str, entry: &ExposesEntry, region: Region) -> (binding: (
    String,
    (Symbol, Region),
))
    ensures
        binding.0@ == exposed_ident(*entry),
        binding.1.0@ == qualified(module_name@, exposed_ident(*entry)),
        binding.1.1 == region,
    decreases *entry,
{
    match entry {
        ExposesEntry::Ident(ident) => {
            let symbol = Symbol::from_module(module_name, ident.as_str());
            (ident.clone(), (symbol, region))
        },
        ExposesEntry::SpaceBefore(sub, _) => expose(module_name, sub, region),
        ExposesEntry::SpaceAfter(sub, _) => expose(module_name, sub, region),
    }
}

/// Binds in `scope` every identifier that the entry imports unqualified
/// and returns the name of the module the entry imports.
pub fn load_import(region: Region, entry: &ImportsEntry, scope: &mut ScopeMap) -> (name: String)
    ensures
        name@ == imported_module(*entry),
        scope_of(final(scope)) == with_exposes(
            scope_of(old(scope)),
            imported_module(*entry),
            imported_exposes(*entry),
        ),
    decreases *entry,
{
    match entry {
        ImportsEntry::Module(module_name, exposes) => {
            let n = exposes.len();
            let mut i: usize = 0;
            assert(exposes@.take(0) =~= Seq::empty());
            while i < n
                invariant
                    n == exposes@.len(),
                    i <= n,
                    scope_of(scope) == with_exposes(
                        scope_of(old(scope)),
                        module_name@,
                        exposes@.take(i as int),
                    ),
                decreases n - i,
            {
                assert(exposes@.take(i + 1).drop_last() =~= exposes@.take(i as int));
                let binding = expose(module_name.as_str(), &exposes[i].value, exposes[i].region);
                scope_insert(scope, binding.0, binding.1.0, binding.1.1);
                i = i + 1;
            }
            assert(exposes@.take(n as int) =~= exposes@);
            module_name.clone()
        },
        ImportsEntry::SpaceBefore(sub, _) => load_import(region, sub, scope),
        ImportsEntry::SpaceAfter(sub, _) => load_import(region, sub, scope),
    }
}

/// Reads an `imports` list: the set of modules it names and the scope its
/// entries build.
pub fn read_imports(imports: &Vec<Located<ImportsEntry>>) -> (found: (NameSet, ScopeMap))
    ensures
        names_of(&found.0) == imported_names(imports@),
        scope_of(&found.1) == with_imports(Map::empty(), imports@),
{
    let mut deps = names_new();
    let mut scope = scope_new();
    let n = imports.len();
    let mut i: usize = 0;
    assert(imports@.take(0) =~= Seq::empty());
    while i < n
        invariant
            n == imports@.len(),
            i <= n,
            names_of(&deps) == imported_names(imports@.take(i as int)),
            scope_of(&scope) == with_imports(Map::empty(), imports@.take(i as int)),
        decreases n - i,
    {
        assert(imports@.take(i + 1).drop_last() =~= imports@.take(i as int));
        let name = load_import(imports[i].region, &imports[i].value, &mut scope);
        names_insert(&mut deps, name);
        i = i + 1;
    }
    assert(imports@.take(n as int) =~= imports@);
    (deps, scope)
}

} // verus!
