//! Preparing the solver's run: the variable environment that every
//! constraint is solved in, and the order the constraints are solved in.

use vstd::prelude::*;
use crate::can::{Declaration, Def, Module};
use crate::collections::{vars_entries, vars_insert, vars_new, vars_of, VarMap};
use crate::load::LoadedModule;

verus! {

/// An environment after the variables bound by a sequence of definitions
/// have been added, in order. A later binding of a symbol replaces an
/// earlier one.
pub open spec fn with_defs(env: Map<Seq<char>, u32>, defs: Seq<Def>) -> Map<Seq<char>, u32>
    decreases defs.len(),
{
    if defs.len() == 0 {
        env
    } else {
        with_defs(env, defs.drop_last()).union_prefer_right(vars_of(&defs.last().pattern_vars))
    }
}

/// An environment after the variables bound by one declaration have been
/// added.
pub open spec fn with_declaration(env: Map<Seq<char>, u32>, declaration: Declaration) -> Map<
    Seq<char>,
    u32,
> {
    match declaration {
        Declaration::Declare(def) => env.union_prefer_right(vars_of(&def.pattern_vars)),
        Declaration::DeclareRec(defs) => with_defs(env, defs@),
        Declaration::InvalidCycle(_, _) => env,
    }
}

pub open spec fn with_declarations(env: Map<Seq<char>, u32>, declarations: Seq<Declaration>)
    -> Map<Seq<char>, u32>
    decreases declarations.len(),
{
    if declarations.len() == 0 {
        env
    } else {
        with_declaration(
            with_declarations(env, declarations.drop_last()),
            declarations.last(),
        )
    }
}

/// An environment after a module has added the variables of what it
/// imports unqualified, then those its declarations bind.
pub open spec fn with_module<C>(env: Map<Seq<char>, u32>, module: Module<C>) -> Map<
    Seq<char>,
    u32,
> {
    with_declarations(
        env.union_prefer_right(vars_of(&module.exposed_imports)),
        module.declarations@,
    )
}

/// An environment after every valid dependency has added its variables,
/// in order.
pub open spec fn with_deps<C, F>(env: Map<Seq<char>, u32>, deps: Seq<LoadedModule<C, F>>) -> Map<
    Seq<char>,
    u32,
>
    decreases deps.len(),
{
    if deps.len() == 0 {
        env
    } else {
        match deps.last() {
            LoadedModule::Valid(module) => with_module(with_deps(env, deps.drop_last()), module),
            _ => with_deps(env, deps.drop_last()),
        }
    }
}

/// Whether no declaration of the sequence is an invalid cycle.
pub open spec fn free_of_cycles(declarations: Seq<Declaration>) -> bool {
    forall|i: int|
        0 <= i < declarations.len() ==> !((#[trigger] declarations[i]) is InvalidCycle)
}

/// Whether a dependency can be handed to the solver: it loaded, it has a
/// name, and none of its declarations is an invalid cycle.
pub open spec fn solvable_dep<C, F>(dep: LoadedModule<C, F>) -> bool {
    dep matches LoadedModule::Valid(module) && module.name is Some && free_of_cycles(
        module.declarations@,
    )
}

/// Whether a module and its dependencies can be handed to the solver.
pub open spec fn solvable<C, F>(module: Module<C>, deps: Seq<LoadedModule<C, F>>) -> bool {
    &&& free_of_cycles(module.declarations@)
    &&& forall|i: int| 0 <= i < deps.len() ==> solvable_dep(#[trigger] deps[i])
}

/// Whether `entry` is the name and the constraint of the dependency `dep`.
pub open spec fn constraint_of<C, F>(entry: (&str, &C), dep: LoadedModule<C, F>) -> bool {
    dep matches LoadedModule::Valid(module) && module.name matches Some(name) && entry.0@ == name@
        && *entry.1 == module.constraint
}

/// What the solver is to be run with: the environment of variables, and the
/// constraint of each dependency under its module's name, in the order the
/// dependencies were loaded. The constraint of the requested module is
/// solved last.
pub struct SolveOrder<'a, C> {
    pub vars_by_symbol: VarMap,
    pub dep_constraints: Vec<(&'a str, &'a C)>,
}

/// Whether some entry before position `i` binds `symbol`.
pub open spec fn bound_before(entries: Seq<(String, u32)>, i: int, symbol: Seq<char>) -> bool {
    exists|j: int| 0 <= j < i && (#[trigger] entries[j]).0@ == symbol
}

/// Adds every binding of `vars` to `env`.
fn insert_all(env: &mut VarMap, vars: &VarMap)
    ensures
        vars_of(final(env)) == vars_of(old(env)).union_prefer_right(vars_of(vars)),
{
    let entries = vars_entries(vars);
    let ghost before = vars_of(env);
    let ghost added = vars_of(vars);
    let n = entries.len();
    let mut i: usize = 0;
    assert(vars_of(env) =~= Map::new(
        |symbol: Seq<char>| before.contains_key(symbol) || bound_before(entries@, 0, symbol),
        |symbol: Seq<char>|
            if bound_before(entries@, 0, symbol) {
                added[symbol]
            } else {
                before[symbol]
            },
    ));
    while i < n
        invariant
            n == entries@.len(),
            i <= n,
            forall|j: int|
                0 <= j < n ==> added.contains_pair((#[trigger] entries@[j]).0@, entries@[j].1),
            vars_of(env) == Map::new(
                |symbol: Seq<char>|
                    before.contains_key(symbol) || bound_before(entries@, i as int, symbol),
                |symbol: Seq<char>|
                    if bound_before(entries@, i as int, symbol) {
                        added[symbol]
                    } else {
                        before[symbol]
                    },
            ),
        decreases n - i,
    {
        let ghost earlier = vars_of(env);
        let symbol = entries[i].0.clone();
        let variable = entries[i].1;
        vars_insert(env, symbol, variable);
        proof {
            let key = entries@[i as int].0@;
            assert(bound_before(entries@, i + 1, key));
            assert forall|other: Seq<char>|
                bound_before(entries@, i + 1, other) == (bound_before(entries@, i as int, other)
                    || other == key) by {
                if bound_before(entries@, i as int, other) {
                    let j = choose|j: int| 0 <= j < i && (#[trigger] entries@[j]).0@ == other;
                    assert(0 <= j < i + 1 && entries@[j].0@ == other);
                }
            }
            assert(vars_of(env) =~= Map::new(
                |symbol: Seq<char>|
                    before.contains_key(symbol) || bound_before(entries@, i + 1, symbol),
                |symbol: Seq<char>|
                    if bound_before(entries@, i + 1, symbol) {
                        added[symbol]
                    } else {
                        before[symbol]
                    },
            ));
        }
        i = i + 1;
    }
    proof {
        assert forall|symbol: Seq<char>|
            bound_before(entries@, n as int, symbol) == added.contains_key(symbol) by {
            if bound_before(entries@, n as int, symbol) {
                let j = choose|j: int| 0 <= j < n && (#[trigger] entries@[j]).0@ == symbol;
                assert(added.contains_pair(entries@[j].0@, entries@[j].1));
            }
            if added.contains_key(symbol) {
                let j = choose|j: int| 0 <= j < n && (#[trigger] entries@[j]).0@ == symbol;
                assert(0 <= j < n && entries@[j].0@ == symbol);
            }
        }
        assert(vars_of(env) =~= before.union_prefer_right(added));
    }
}

/// Adds the variables that a sequence of definitions binds.
fn add_defs(env: &mut VarMap, defs: &Vec<Def>)
    ensures
        vars_of(final(env)) == with_defs(vars_of(old(env)), defs@),
{
    let n = defs.len();
    let mut i: usize = 0;
    assert(defs@.take(0) =~= Seq::empty());
    while i < n
        invariant
            n == defs@.len(),
            i <= n,
            vars_of(env) == with_defs(vars_of(old(env)), defs@.take(i as int)),
        decreases n - i,
    {
        assert(defs@.take(i + 1).drop_last() =~= defs@.take(i as int));
        insert_all(env, &defs[i].pattern_vars);
        i = i + 1;
    }
    assert(defs@.take(n as int) =~= defs@);
}

/// Adds the variables that the declarations of a module bind.
fn add_declarations(env: &mut VarMap, declarations: &Vec<Declaration>)
    ensures
        vars_of(final(env)) == with_declarations(vars_of(old(env)), declarations@),
{
    let n = declarations.len();
    let mut i: usize = 0;
    assert(declarations@.take(0) =~= Seq::empty());
    while i < n
        invariant
            n == declarations@.len(),
            i <= n,
            vars_of(env) == with_declarations(vars_of(old(env)), declarations@.take(i as int)),
        decreases n - i,
    {
        assert(declarations@.take(i + 1).drop_last() =~= declarations@.take(i as int));
        match &declarations[i] {
            Declaration::Declare(def) => insert_all(env, &def.pattern_vars),
            Declaration::DeclareRec(defs) => add_defs(env, defs),
            Declaration::InvalidCycle(_, _) => {},
        }
        i = i + 1;
    }
    assert(declarations@.take(n as int) =~= declarations@);
}

/// Adds the variables of a module.
fn add_module<C>(env: &mut VarMap, module: &Module<C>)
    ensures
        vars_of(final(env)) == with_module(vars_of(old(env)), *module),
{
    insert_all(env, &module.exposed_imports);
    add_declarations(env, &module.declarations);
}

fn no_cycle(declarations: &Vec<Declaration>) -> (r: bool)
    ensures
        r == free_of_cycles(declarations@),
{
    let n = declarations.len();
    let mut i: usize = 0;
    while i < n
        invariant
            n == declarations@.len(),
            i <= n,
            forall|j: int| 0 <= j < i ==> !((#[trigger] declarations@[j]) is InvalidCycle),
        decreases n - i,
    {
        match &declarations[i] {
            Declaration::InvalidCycle(_, _) => {
                return false;
            },
            _ => {},
        }
        i = i + 1;
    }
    true
}

/// Whether a module and its dependencies can be handed to the solver.
pub fn can_solve<C, F>(module: &Module<C>, loaded_deps: &Vec<LoadedModule<C, F>>) -> (ok: bool)
    ensures
        ok == solvable(*module, loaded_deps@),
{
    if !no_cycle(&module.declarations) {
        return false;
    }
    let n = loaded_deps.len();
    let mut i: usize = 0;
    while i < n
        invariant
            n == loaded_deps@.len(),
            i <= n,
            forall|j: int| 0 <= j < i ==> solvable_dep(#[trigger] loaded_deps@[j]),
        decreases n - i,
    {
        let fine = match &loaded_deps[i] {
            LoadedModule::Valid(dep) => dep.name.is_some() && no_cycle(&dep.declarations),
            _ => false,
        };
        if !fine {
            return false;
        }
        i = i + 1;
    }
    true
}

/// Prepares the solver's run for a module and the dependencies loaded with
/// it. The environment holds the variables of the module, then those of
/// every dependency in order; a later binding of a symbol replaces an
/// earlier one. The constraints of the dependencies come out in the order
/// the dependencies stand in.
pub fn solve_loaded<'a, C, F>(module: &'a Module<C>, loaded_deps: &'a Vec<LoadedModule<C, F>>)
    -> (order: SolveOrder<'a, C>)
    requires
        solvable(*module, loaded_deps@),
    ensures
        vars_of(&order.vars_by_symbol) == with_deps(
            with_module(Map::empty(), *module),
            loaded_deps@,
        ),
        order.dep_constraints@.len() == loaded_deps@.len(),
        forall|i: int|
            0 <= i < loaded_deps@.len() ==> constraint_of(
                #[trigger] order.dep_constraints@[i],
                loaded_deps@[i],
            ),
{
    let mut vars_by_symbol = vars_new();
    add_module(&mut vars_by_symbol, module);
    let ghost base = vars_of(&vars_by_symbol);
    let mut dep_constraints: Vec<(&'a str, &'a C)> = Vec::new();
    let n = loaded_deps.len();
    let mut i: usize = 0;
    assert(loaded_deps@.take(0) =~= Seq::empty());
    while i < n
        invariant
            n == loaded_deps@.len(),
            i <= n,
            solvable(*module, loaded_deps@),
            vars_of(&vars_by_symbol) == with_deps(base, loaded_deps@.take(i as int)),
            dep_constraints@.len() == i,
            forall|j: int|
                0 <= j < i ==> constraint_of(#[trigger] dep_constraints@[j], loaded_deps@[j]),
        decreases n - i,
    {
        assert(loaded_deps@.take(i + 1).drop_last() =~= loaded_deps@.take(i as int));
        assert(solvable_dep(loaded_deps@[i as int]));
        match &loaded_deps[i] {
            LoadedModule::Valid(dep) => {
                add_module(&mut vars_by_symbol, dep);
                match &dep.name {
                    Some(name) => {
                        dep_constraints.push((name.as_str(), &dep.constraint));
                    },
                    None => {},
                }
            },
            _ => {},
        }
        i = i + 1;
    }
    assert(loaded_deps@.take(n as int) =~= loaded_deps@);
    SolveOrder { vars_by_symbol, dep_constraints }
}

} // verus!
