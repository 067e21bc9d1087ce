//! The dependency coordinator: the one place that knows which modules have
//! been asked for and how many loaders have yet to report.
//!
//! Every loader reports the set of modules its module imports, once. The
//! coordinator starts a loader for each name it has not seen and is done
//! when no started loader is left to report.

use vstd::prelude::*;
use vstd::seq_lib::seq_to_set_is_finite;
use vstd::set_lib::{lemma_len_subset, lemma_set_disjoint_lens, lemma_subset_equality};
use crate::collections::{
    enumerates, names_clone, names_len, names_list, names_minus, names_new, names_of,
    names_union, NameSet,
};

verus! {

/// The coordinator's books: the names it has started a loader for, and the
/// number of loaders that have yet to report.
pub struct Tally {
    pub all_deps: Set<Seq<char>>,
    pub pending: nat,
}

/// The books before any report: nothing asked for, the root loader
/// pending.
pub open spec fn start() -> Tally {
    Tally { all_deps: Set::empty(), pending: 1 }
}

/// The names of a report that have not been asked for before.
pub open spec fn fresh(tally: Tally, deps: Set<Seq<char>>) -> Set<Seq<char>> {
    deps.difference(tally.all_deps)
}

/// The books after one loader has reported `deps`: one loader has
/// finished, and one has been started for each fresh name.
pub open spec fn reported(tally: Tally, deps: Set<Seq<char>>) -> Tally {
    Tally {
        all_deps: tally.all_deps.union(deps),
        pending: (tally.pending + fresh(tally, deps).len() - 1) as nat,
    }
}

/// The books after a sequence of reports.
pub open spec fn tally_after(reports: Seq<Set<Seq<char>>>) -> Tally
    decreases reports.len(),
{
    if reports.len() == 0 {
        start()
    } else {
        reported(tally_after(reports.drop_last()), reports.last())
    }
}

/// The names for which the report at position `i` starts a loader.
pub open spec fn dispatched_at(reports: Seq<Set<Seq<char>>>, i: int) -> Set<Seq<char>> {
    fresh(tally_after(reports.take(i)), reports[i])
}

pub struct Coordinator {
    pub all_deps: NameSet,
    pub pending: usize,
}

/// What the coordinator asks for after a report.
pub struct Dispatch {
    /// The modules to start a loader for.
    pub to_load: Vec<String>,
    /// Whether every started loader has reported.
    pub done: bool,
}

impl Coordinator {
    pub open spec fn tally(&self) -> Tally {
        Tally { all_deps: names_of(&self.all_deps), pending: self.pending as nat }
    }

    /// No more loaders are pending than have been started.
    pub open spec fn well_formed(&self) -> bool {
        names_of(&self.all_deps).finite() && self.pending <= names_of(&self.all_deps).len() + 1
    }

    /// The coordinator of a load that has started its root loader.
    pub fn new() -> (coordinator: Coordinator)
        ensures
            coordinator.well_formed(),
            coordinator.tally() == start(),
    {
        Coordinator { all_deps: names_new(), pending: 1 }
    }

    /// Takes the report of one loader: records the names not seen before
    /// and hands them out, each once, for loaders to be started.
    pub fn on_report(&mut self, deps: NameSet) -> (dispatch: Dispatch)
        requires
            old(self).well_formed(),
            old(self).pending >= 1,
        ensures
            final(self).well_formed(),
            final(self).tally() == reported(old(self).tally(), names_of(&deps)),
            enumerates(dispatch.to_load@, fresh(old(self).tally(), names_of(&deps))),
            dispatch.done == (final(self).pending == 0),
    {
        let ghost known = names_of(&self.all_deps);
        let ghost wanted = names_of(&deps).difference(known);
        let to_load = names_minus(deps, names_clone(&self.all_deps));
        let count = names_len(&to_load);
        let all = names_union(names_clone(&self.all_deps), names_clone(&to_load));
        let total = names_len(&all);
        proof {
            assert(names_of(&all) =~= known.union(names_of(&deps)));
            assert(known.disjoint(wanted));
            lemma_set_disjoint_lens(known, wanted);
            assert(known + wanted =~= names_of(&all));
        }
        self.all_deps = all;
        self.pending = self.pending - 1 + count;
        let list = names_list(to_load);
        Dispatch { to_load: list, done: self.pending == 0 }
    }
}

/// Taking one more report is one more step of the books.
pub proof fn lemma_take_step(reports: Seq<Set<Seq<char>>>, k: int)
    requires
        0 <= k < reports.len(),
    ensures
        tally_after(reports.take(k + 1)) == reported(tally_after(reports.take(k)), reports[k]),
{
    assert(reports.take(k + 1).drop_last() =~= reports.take(k));
}

/// A name once asked for stays asked for.
pub proof fn lemma_known_grows(reports: Seq<Set<Seq<char>>>, i: int, j: int)
    requires
        0 <= i <= j <= reports.len(),
    ensures
        tally_after(reports.take(i)).all_deps.subset_of(tally_after(reports.take(j)).all_deps),
    decreases j - i,
{
    if i < j {
        lemma_known_grows(reports, i, j - 1);
        lemma_take_step(reports, j - 1);
    }
}

/// No module is loaded twice: the names dispatched after one report and
/// the names dispatched after a later one have nothing in common, however
/// many modules import the same module.
pub proof fn lemma_dispatched_once(reports: Seq<Set<Seq<char>>>, i: int, j: int)
    requires
        0 <= i < j < reports.len(),
    ensures
        dispatched_at(reports, i).disjoint(dispatched_at(reports, j)),
{
    lemma_take_step(reports, i);
    lemma_known_grows(reports, i + 1, j);
}

/// Whether `path` leads from `root` along imports: `root` imports its
/// first module, and each module imports the next.
pub open spec fn is_import_path(
    imports: spec_fn(Seq<char>) -> Set<Seq<char>>,
    root: Seq<char>,
    path: Seq<Seq<char>>,
) -> bool {
    &&& path.len() > 0
    &&& imports(root).contains(path[0])
    &&& forall|i: int| 0 <= i < path.len() - 1 ==> imports(#[trigger] path[i]).contains(path[i + 1])
}

/// The transitive closure of the root's imports.
pub open spec fn import_closure(
    imports: spec_fn(Seq<char>) -> Set<Seq<char>>,
    root: Seq<char>,
) -> Set<Seq<char>> {
    Set::new(
        |name: Seq<char>|
            exists|path: Seq<Seq<char>>| #[trigger]
                is_import_path(imports, root, path) && path.last() == name,
    )
}

/// The reports that arrive when the modules of `order` report one after
/// another, each the modules it imports.
pub open spec fn reports_of(imports: spec_fn(Seq<char>) -> Set<Seq<char>>, order: Seq<Seq<char>>)
    -> Seq<Set<Seq<char>>> {
    Seq::new(order.len(), |k: int| imports(order[k]))
}

/// Whether `order` is a run of the loaders: every module reports at most
/// once, and only after its loader was started, as the root's is from the
/// beginning and any other's is when its name is first reported.
pub open spec fn valid_run(
    imports: spec_fn(Seq<char>) -> Set<Seq<char>>,
    root: Seq<char>,
    order: Seq<Seq<char>>,
) -> bool {
    &&& order.no_duplicates()
    &&& forall|k: int|
        0 <= k < order.len() ==> (#[trigger] order[k]) == root || tally_after(
            reports_of(imports, order).take(k),
        ).all_deps.contains(order[k])
}

/// Whether every module of the program imports finitely many modules.
pub open spec fn finite_imports(imports: spec_fn(Seq<char>) -> Set<Seq<char>>, root: Seq<char>)
    -> bool {
    forall|name: Seq<char>|
        name == root || import_closure(imports, root).contains(name) ==> #[trigger] imports(
            name,
        ).finite()
}

/// Whether no chain of imports leads from the root back to the root.
pub open spec fn root_not_imported(imports: spec_fn(Seq<char>) -> Set<Seq<char>>, root: Seq<char>)
    -> bool {
    !import_closure(imports, root).contains(root)
}

/// A run without its last report is a run.
pub proof fn lemma_prefix_run(
    imports: spec_fn(Seq<char>) -> Set<Seq<char>>,
    root: Seq<char>,
    order: Seq<Seq<char>>,
)
    requires
        valid_run(imports, root, order),
        order.len() > 0,
    ensures
        valid_run(imports, root, order.drop_last()),
        reports_of(imports, order).drop_last() == reports_of(imports, order.drop_last()),
        reports_of(imports, order).last() == imports(order.last()),
        order.last() == root || tally_after(
            reports_of(imports, order.drop_last()),
        ).all_deps.contains(order.last()),
{
    let prefix = order.drop_last();
    let reports = reports_of(imports, order);
    assert(reports.drop_last() =~= reports_of(imports, prefix));
    assert forall|k: int| 0 <= k < prefix.len() implies (#[trigger] prefix[k]) == root
        || tally_after(reports_of(imports, prefix).take(k)).all_deps.contains(prefix[k]) by {
        assert(prefix[k] == order[k]);
        assert(reports_of(imports, prefix).take(k) =~= reports.take(k));
    }
    let last = order.len() - 1;
    assert(order[last] == order.last());
    assert(reports.take(last) =~= reports_of(imports, prefix));
}

/// Only modules of the import closure are ever asked for.
pub proof fn lemma_loads_only_imports(
    imports: spec_fn(Seq<char>) -> Set<Seq<char>>,
    root: Seq<char>,
    order: Seq<Seq<char>>,
)
    requires
        valid_run(imports, root, order),
    ensures
        tally_after(reports_of(imports, order)).all_deps.subset_of(import_closure(imports, root)),
    decreases order.len(),
{
    if order.len() > 0 {
        let prefix = order.drop_last();
        let module = order.last();
        lemma_prefix_run(imports, root, order);
        lemma_loads_only_imports(imports, root, prefix);
        let before = tally_after(reports_of(imports, prefix));
        let after = tally_after(reports_of(imports, order));
        assert(after == reported(before, imports(module)));
        assert forall|name: Seq<char>| after.all_deps.contains(name) implies import_closure(
            imports,
            root,
        ).contains(name) by {
            if !before.all_deps.contains(name) {
                if module == root {
                    let path = seq![name];
                    assert(is_import_path(imports, root, path));
                    assert(path.last() == name);
                } else {
                    assert(import_closure(imports, root).contains(module));
                    let reach = choose|path: Seq<Seq<char>>| #[trigger]
                        is_import_path(imports, root, path) && path.last() == module;
                    let path = reach.push(name);
                    assert forall|i: int| 0 <= i < path.len() - 1 implies imports(
                        #[trigger] path[i],
                    ).contains(path[i + 1]) by {
                        if i < reach.len() - 1 {
                            assert(path[i] == reach[i]);
                            assert(path[i + 1] == reach[i + 1]);
                        }
                    }
                    assert(path[0] == reach[0]);
                    assert(is_import_path(imports, root, path));
                    assert(path.last() == name);
                }
            }
        }
    }
}

/// Every module that has reported was started: it is the root or has been
/// asked for.
pub proof fn lemma_reporters_started(
    imports: spec_fn(Seq<char>) -> Set<Seq<char>>,
    root: Seq<char>,
    order: Seq<Seq<char>>,
)
    requires
        valid_run(imports, root, order),
    ensures
        order.to_set().subset_of(tally_after(reports_of(imports, order)).all_deps.insert(root)),
{
    let reports = reports_of(imports, order);
    assert(reports.take(reports.len() as int) =~= reports);
    assert forall|name: Seq<char>| order.to_set().contains(name) implies tally_after(
        reports,
    ).all_deps.insert(root).contains(name) by {
        let k = choose|k: int| 0 <= k < order.len() && order[k] == name;
        assert(order[k] == name);
        lemma_known_grows(reports, k, reports.len() as int);
    }
}

/// What a module has reported has been asked for.
pub proof fn lemma_report_known(
    imports: spec_fn(Seq<char>) -> Set<Seq<char>>,
    order: Seq<Seq<char>>,
    k: int,
)
    requires
        0 <= k < order.len(),
    ensures
        imports(order[k]).subset_of(tally_after(reports_of(imports, order)).all_deps),
{
    let reports = reports_of(imports, order);
    assert(reports.take(reports.len() as int) =~= reports);
    lemma_take_step(reports, k);
    lemma_known_grows(reports, k + 1, reports.len() as int);
}

/// The count of pending loaders is the number of loaders started and not
/// yet heard from: the modules asked for and the root, less the reports
/// received.
pub proof fn lemma_pending_counts_unreported(
    imports: spec_fn(Seq<char>) -> Set<Seq<char>>,
    root: Seq<char>,
    order: Seq<Seq<char>>,
)
    requires
        valid_run(imports, root, order),
        finite_imports(imports, root),
        root_not_imported(imports, root),
    ensures
        tally_after(reports_of(imports, order)).all_deps.finite(),
        order.len() <= tally_after(reports_of(imports, order)).all_deps.len() + 1,
        tally_after(reports_of(imports, order)).pending == tally_after(
            reports_of(imports, order),
        ).all_deps.len() + 1 - order.len(),
    decreases order.len(),
{
    if order.len() > 0 {
        let prefix = order.drop_last();
        let module = order.last();
        lemma_prefix_run(imports, root, order);
        lemma_pending_counts_unreported(imports, root, prefix);
        lemma_loads_only_imports(imports, root, prefix);
        lemma_reporters_started(imports, root, prefix);
        let before = tally_after(reports_of(imports, prefix));
        let after = tally_after(reports_of(imports, order));
        assert(after == reported(before, imports(module)));
        // The loader that reports now was pending.
        let started = before.all_deps.insert(root);
        let heard = prefix.to_set();
        seq_to_set_is_finite(prefix);
        prefix.unique_seq_to_set();
        assert(!heard.contains(module)) by {
            if heard.contains(module) {
                let k = choose|k: int| 0 <= k < prefix.len() && prefix[k] == module;
                assert(order[k] == order[order.len() - 1]);
            }
        }
        assert(heard.insert(module).subset_of(started));
        lemma_len_subset(heard.insert(module), started);
        assert(before.pending >= 1);
        // One loader fewer, and one more for each fresh name.
        assert(imports(module).finite());
        let added = fresh(before, imports(module));
        lemma_set_disjoint_lens(before.all_deps, added);
        assert(before.all_deps + added =~= after.all_deps);
    }
}

/// Once every started loader has reported, every module that the root
/// imports, directly or through other modules, has been asked for, and no
/// other module has.
pub proof fn lemma_done_means_closure_loaded(
    imports: spec_fn(Seq<char>) -> Set<Seq<char>>,
    root: Seq<char>,
    order: Seq<Seq<char>>,
)
    requires
        valid_run(imports, root, order),
        finite_imports(imports, root),
        root_not_imported(imports, root),
        tally_after(reports_of(imports, order)).pending == 0,
    ensures
        tally_after(reports_of(imports, order)).all_deps == import_closure(imports, root),
{
    let after = tally_after(reports_of(imports, order));
    lemma_pending_counts_unreported(imports, root, order);
    lemma_loads_only_imports(imports, root, order);
    lemma_reporters_started(imports, root, order);
    let started = after.all_deps.insert(root);
    let heard = order.to_set();
    seq_to_set_is_finite(order);
    order.unique_seq_to_set();
    lemma_subset_equality(heard, started);
    assert forall|name: Seq<char>| import_closure(imports, root).contains(name) implies
        after.all_deps.contains(name) by {
        let path = choose|path: Seq<Seq<char>>| #[trigger]
            is_import_path(imports, root, path) && path.last() == name;
        lemma_path_loaded(imports, root, order, path);
    }
    assert(after.all_deps =~= import_closure(imports, root));
}

/// If every started loader has reported, the module at the end of a chain
/// of imports has been asked for.
proof fn lemma_path_loaded(
    imports: spec_fn(Seq<char>) -> Set<Seq<char>>,
    root: Seq<char>,
    order: Seq<Seq<char>>,
    path: Seq<Seq<char>>,
)
    requires
        is_import_path(imports, root, path),
        order.to_set() == tally_after(reports_of(imports, order)).all_deps.insert(root),
    ensures
        tally_after(reports_of(imports, order)).all_deps.contains(path.last()),
    decreases path.len(),
{
    let after = tally_after(reports_of(imports, order));
    let importer = if path.len() == 1 { root } else { path[path.len() - 2] };
    if path.len() > 1 {
        let shorter = path.drop_last();
        assert forall|i: int| 0 <= i < shorter.len() - 1 implies imports(
            #[trigger] shorter[i],
        ).contains(shorter[i + 1]) by {
            assert(shorter[i] == path[i]);
            assert(shorter[i + 1] == path[i + 1]);
        }
        assert(shorter[0] == path[0]);
        lemma_path_loaded(imports, root, order, shorter);
        assert(shorter.last() == importer);
        assert(imports(path[path.len() - 2]).contains(path[path.len() - 2 + 1]));
    }
    assert(imports(importer).contains(path.last()));
    assert(after.all_deps.insert(root).contains(importer));
    assert(order.to_set().contains(importer));
    let k = choose|k: int| 0 <= k < order.len() && order[k] == importer;
    lemma_report_known(imports, order, k);
}

/// The coordinator terminates: a run of the loaders is never longer than
/// the number of modules in the program, and the count of pending loaders
/// is zero exactly when the root and every module of its import closure
/// have reported.
pub proof fn lemma_run_ends(
    imports: spec_fn(Seq<char>) -> Set<Seq<char>>,
    root: Seq<char>,
    order: Seq<Seq<char>>,
)
    requires
        valid_run(imports, root, order),
        finite_imports(imports, root),
        root_not_imported(imports, root),
        import_closure(imports, root).finite(),
    ensures
        order.len() <= import_closure(imports, root).len() + 1,
        tally_after(reports_of(imports, order)).pending == 0 <==> order.len() == import_closure(
            imports,
            root,
        ).len() + 1,
{
    let after = tally_after(reports_of(imports, order));
    lemma_pending_counts_unreported(imports, root, order);
    lemma_loads_only_imports(imports, root, order);
    lemma_len_subset(after.all_deps, import_closure(imports, root));
    if after.pending == 0 {
        lemma_done_means_closure_loaded(imports, root, order);
    }
}

/// What modules report when those of `failed` could not be read or parsed:
/// a failed module reports no dependency, any other the modules it imports.
pub open spec fn imports_despite(imports: spec_fn(Seq<char>) -> Set<Seq<char>>, failed: Set<
    Seq<char>,
>) -> spec_fn(Seq<char>) -> Set<Seq<char>> {
    |name: Seq<char>|
        if failed.contains(name) {
            Set::empty()
        } else {
            imports(name)
        }
}

/// A module that fails does not keep its siblings from loading: when the
/// run is over, every module imported by a module that loaded has been
/// asked for and has reported, whichever of them failed.
pub proof fn lemma_failure_is_isolated(
    imports: spec_fn(Seq<char>) -> Set<Seq<char>>,
    failed: Set<Seq<char>>,
    root: Seq<char>,
    order: Seq<Seq<char>>,
    parent: Seq<char>,
    sibling: Seq<char>,
)
    requires
        valid_run(imports_despite(imports, failed), root, order),
        finite_imports(imports_despite(imports, failed), root),
        root_not_imported(imports_despite(imports, failed), root),
        tally_after(reports_of(imports_despite(imports, failed), order)).pending == 0,
        order.contains(parent),
        !failed.contains(parent),
        imports(parent).contains(sibling),
    ensures
        tally_after(reports_of(imports_despite(imports, failed), order)).all_deps.contains(sibling),
        order.contains(sibling),
{
    let told = imports_despite(imports, failed);
    let after = tally_after(reports_of(told, order));
    let k = choose|k: int| 0 <= k < order.len() && order[k] == parent;
    lemma_report_known(told, order, k);
    assert(told(parent) == imports(parent));
    lemma_pending_counts_unreported(told, root, order);
    lemma_loads_only_imports(told, root, order);
    lemma_reporters_started(told, root, order);
    seq_to_set_is_finite(order);
    order.unique_seq_to_set();
    lemma_subset_equality(order.to_set(), after.all_deps.insert(root));
    assert(order.to_set().contains(sibling));
}

} // verus!
