//! The persistent hash collections that the loader keeps its names and
//! variables in.
//!
//! Both collection types belong to `im`. What one holds is named by a
//! specification function; each function below makes one call into `im`
//! and states, on trust, what that call does to the contents.

use vstd::prelude::*;
use crate::ast::Region;
use crate::can::Symbol;

verus! {

/// `im::HashSet`, a persistent hash set. Nothing is known of a value of it
/// but what the functions below state.
#[verifier::external_type_specification]
#[verifier::external_body]
#[verifier::reject_recursive_types(A)]
#[verifier::reject_recursive_types(S)]
pub struct ExHashSet<A, S>(im::HashSet<A, S>);

/// `im::HashMap`, a persistent hash map. Nothing is known of a value of it
/// but what the functions below state.
#[verifier::external_type_specification]
#[verifier::external_body]
#[verifier::reject_recursive_types(K)]
#[verifier::reject_recursive_types(V)]
#[verifier::reject_recursive_types(S)]
pub struct ExHashMap<K, V, S>(im::HashMap<K, V, S>);

/// A set of module names.
pub type NameSet = im::HashSet<String>;

/// A map from fully qualified symbols to type variables.
pub type VarMap = im::HashMap<String, u32>;

/// A map from unqualified identifiers to the symbol each stands for and
/// the place it was imported at.
pub type ScopeMap = im::HashMap<String, (Symbol, Region)>;

/// The names a set holds.
pub uninterp spec fn names_of(set: &im::HashSet<String>) -> Set<Seq<char>>;

/// The variable each symbol of a map is bound to.
pub uninterp spec fn vars_of(map: &im::HashMap<String, u32>) -> Map<Seq<char>, u32>;

/// The symbol, by its text, and the region each identifier of a scope is
/// bound to.
pub uninterp spec fn scope_of(map: &im::HashMap<String, (Symbol, Region)>) -> Map<
    Seq<char>,
    (Seq<char>, Region),
>;

/// Whether a set is finite and has `count` elements.
pub open spec fn has_size(set: Set<Seq<char>>, count: nat) -> bool {
    set.finite() && set.len() == count
}

/// Whether `list` holds every element of the finite set `set` exactly once.
pub open spec fn enumerates(list: Seq<String>, set: Set<Seq<char>>) -> bool {
    &&& set.finite()
    &&& list.len() == set.len()
    &&& forall|i: int| 0 <= i < list.len() ==> set.contains(#[trigger] list[i]@)
    &&& forall|i: int, j: int|
        0 <= i < j < list.len() ==> (#[trigger] list[i])@ != (#[trigger] list[j])@
}

/// The map that binds no symbol.
pub open spec fn no_vars() -> Map<Seq<char>, u32> {
    Map::empty()
}

/// The scope that binds no identifier.
pub open spec fn no_bindings() -> Map<Seq<char>, (Seq<char>, Region)> {
    Map::empty()
}

/// An empty set: `im::HashSet::new`.
#[verifier::external_body]
pub(crate) fn names_new() -> (set: NameSet)
    ensures
        names_of(&set) == Set::<Seq<char>>::empty(),
{
    im::HashSet::new()
}

/// `im::HashSet::insert`: the set gains the name if it did not hold it and
/// is left as it was otherwise.
#[verifier::external_body]
pub(crate) fn names_insert(set: &mut NameSet, name: String)
    ensures
        names_of(final(set)) == names_of(old(set)).insert(name@),
{
    set.insert(name);
}

/// `im::HashSet::len`: the number of names held, which is finite.
#[verifier::external_body]
pub(crate) fn names_len(set: &NameSet) -> (count: usize)
    ensures
        has_size(names_of(set), count as nat),
{
    set.len()
}

/// `Clone::clone` of `im::HashSet`: a set holding the same names.
#[verifier::external_body]
pub(crate) fn names_clone(set: &NameSet) -> (copy: NameSet)
    ensures
        names_of(&copy) == names_of(set),
{
    set.clone()
}

/// `im::HashSet::relative_complement`: the names of `set` that `other`
/// does not hold.
#[verifier::external_body]
pub(crate) fn names_minus(set: NameSet, other: NameSet) -> (rest: NameSet)
    ensures
        names_of(&rest) == names_of(&set).difference(names_of(&other)),
{
    set.relative_complement(other)
}

/// `im::HashSet::union`: the names held by either set.
#[verifier::external_body]
pub(crate) fn names_union(set: NameSet, other: NameSet) -> (both: NameSet)
    ensures
        names_of(&both) == names_of(&set).union(names_of(&other)),
{
    set.union(other)
}

/// Hands out the names of a set through `im::HashSet::into_iter`. Every name
/// comes out once; nothing is promised about the order.
#[verifier::external_body]
pub(crate) fn names_list(set: NameSet) -> (list: Vec<String>)
    ensures
        enumerates(list@, names_of(&set)),
{
    set.into_iter().collect()
}

/// An empty map: `im::HashMap::new`.
#[verifier::external_body]
pub(crate) fn vars_new() -> (map: VarMap)
    ensures
        vars_of(&map) == no_vars(),
{
    im::HashMap::new()
}

/// `im::HashMap::insert`: the symbol is bound to the variable, whatever it
/// was bound to before.
#[verifier::external_body]
pub(crate) fn vars_insert(map: &mut VarMap, symbol: String, variable: u32)
    ensures
        vars_of(final(map)) == vars_of(old(map)).insert(symbol@, variable),
{
    map.insert(symbol, variable);
}

/// Hands out the bindings of a map through `im::HashMap::iter`. Every
/// bound symbol comes out with its variable; nothing is promised about the
/// order.
#[verifier::external_body]
pub(crate) fn vars_entries(map: &VarMap) -> (list: Vec<(String, u32)>)
    ensures
        forall|i: int|
            0 <= i < list@.len() ==> vars_of(map).contains_pair(
                (#[trigger] list@[i]).0@,
                list@[i].1,
            ),
        forall|symbol: Seq<char>| #[trigger]
            vars_of(map).contains_key(symbol) ==> exists|i: int|
                0 <= i < list@.len() && (#[trigger] list@[i]).0@ == symbol,
{
    map.iter().map(|(symbol, variable)| (symbol.clone(), *variable)).collect()
}

/// An empty scope: `im::HashMap::new`.
#[verifier::external_body]
pub(crate) fn scope_new() -> (map: ScopeMap)
    ensures
        scope_of(&map) == no_bindings(),
{
    im::HashMap::new()
}

/// `im::HashMap::insert`: the identifier is bound to the symbol and the
/// region, whatever it was bound to before.
#[verifier::external_body]
pub(crate) fn scope_insert(map: &mut ScopeMap, ident: String, symbol: Symbol, region: Region)
    ensures
        scope_of(final(map)) == scope_of(old(map)).insert(ident@, (symbol@, region)),
{
    map.insert(ident, (symbol, region));
}

} // verus!
