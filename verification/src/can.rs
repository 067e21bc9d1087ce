//! What canonicalization hands to the loader: symbols, declarations, and
//! the canonical module.

use vstd::prelude::*;
use crate::ast::Region;
use crate::collections::VarMap;

verus! {

/// A type variable, identified by its index in the variable store.
pub type Variable = u32;

/// A fully qualified identifier: a module name, a dot, a name.
#[derive(Debug, Clone)]
pub struct Symbol {
    pub text: String,
}

impl View for Symbol {
    type V = Seq<char>;

    open spec fn view(&self) -> Seq<char> {
        self.text@
    }
}

/// The text of the symbol that `ident` names inside `module_name`.
pub open spec fn qualified(module_name: Seq<char>, ident: Seq<char>) -> Seq<char> {
    module_name + seq!['.'] + ident
}

impl Symbol {
    /// The symbol that `ident` names inside the module `module_name`.
    pub fn from_module(module_name: &str, ident: &str) -> (symbol: Symbol)
        ensures
            symbol@ == qualified(module_name@, ident@),
    {
        let mut text = String::from_str(module_name);
        text.append(".");
        text.append(ident);
        proof {
            reveal_strlit(".");
            assert("."@ =~= seq!['.']);
        }
        Symbol { text }
    }
}

/// A canonical definition, reduced to what the loader reads of it: the
/// variables its pattern binds.
#[derive(Debug)]
pub struct Def {
    pub pattern_vars: VarMap,
}

/// A top-level declaration of a canonical module.
#[derive(Debug)]
pub enum Declaration {
    Declare(Def),
    DeclareRec(Vec<Def>),
    /// Definitions that refer to each other in a cycle no recursion
    /// allows, by the names involved and the places they stand at.
    InvalidCycle(Vec<String>, Vec<Region>),
}

/// A canonical module. The constraint is the solver's business; the loader
/// carries it through.
#[derive(Debug)]
pub struct Module<C> {
    pub name: Option<String>,
    pub declarations: Vec<Declaration>,
    pub exposed_imports: VarMap,
    pub constraint: C,
}

} // verus!
