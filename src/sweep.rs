//! Planning a sweep: resolving the axes, listing the cells, sizing the worker pool.
use vstd::prelude::*;
use crate::resources::{allocate, allocation};
use crate::axes::{
    AppConfig, default_build_types, default_dialects, get_build_types, get_compilers, get_ctks,
    get_dialects, get_targets, resolved, selection_views, targets_map,
};
use crate::cells::{
    Cell, CellView, cell_at, cell_count, cell_key, cell_views, enumerate, enumeration,
    lemma_count_positive, lemma_enumeration_complete_and_distinct,
};
use crate::labels::LabelMap;
use crate::matrix::{BuildResult, Leaf, fresh, leaves, lemma_marked, marked};
use crate::text::views;
use vstd::arithmetic::div_mod::lemma_multiply_divide_lt;

verus! {

/// The axis values and targets chosen on the command line; `None` where nothing was
/// chosen.
pub struct Selection {
    pub compilers: Option<Vec<String>>,
    pub types: Option<Vec<String>>,
    pub ctks: Option<Vec<String>>,
    pub dialects: Option<Vec<String>>,
    pub targets: Option<Vec<String>>,
}

/// Why a sweep cannot start.
#[derive(Clone, Copy, Debug, PartialEq, Eq, Structural)]
pub enum SetupError {
    /// An axis has no value, so there is no cell to build.
    EmptyAxis,
    /// There are more cells than can be listed.
    TooManyCells,
}

/// A planned sweep: its axes, its cells, and how the CPUs are split among them.
pub struct Sweep {
    pub types: Vec<String>,
    pub ctks: Vec<String>,
    pub compilers: Vec<String>,
    pub cpps: Vec<String>,
    pub targets: LabelMap,
    pub cells: Vec<Cell>,
    /// How many cells build at once.
    pub concurrency: usize,
    /// How many jobs each cell's build step runs.
    pub threads_per_cell: usize,
}

/// Multiplies the four axis sizes, or tells that the product exceeds `usize`.
fn count_cells(nt: usize, ns: usize, nc: usize, nd: usize) -> (r: Option<usize>)
    requires
        nt >= 1,
        ns >= 1,
        nc >= 1,
        nd >= 1,
    ensures
        r is Some <==> cell_count(nt as int, ns as int, nc as int, nd as int) <= usize::MAX,
        r is Some ==> r->0 == cell_count(nt as int, ns as int, nc as int, nd as int),
{
    proof {
        lemma_count_positive(nt as int, ns as int, nc as int, nd as int);
    }
    match ns.checked_mul(nt) {
        None => None,
        Some(a) => match nc.checked_mul(a) {
            None => None,
            Some(b) => nd.checked_mul(b),
        },
    }
}

impl Sweep {
    /// Plans the sweep over the selected (or default) axes for a machine with `cpus`
    /// hardware threads.
    pub fn plan(config: &AppConfig, selection: Selection, cpus: usize) -> (r: Result<
        Sweep,
        SetupError,
    >)
        requires
            cpus >= 1,
        ensures
            ({
                let types = resolved(selection.types, default_build_types());
                let ctks = resolved(selection.ctks, config.ctks.label_seq());
                let compilers = resolved(selection.compilers, config.compilers.label_seq());
                let cpps = resolved(selection.dialects, default_dialects());
                let empty = types.len() == 0 || ctks.len() == 0 || compilers.len() == 0
                    || cpps.len() == 0;
                let count = cell_count(
                    types.len() as int,
                    ctks.len() as int,
                    compilers.len() as int,
                    cpps.len() as int,
                );
                match r {
                    Err(e) => (e == SetupError::EmptyAxis && empty) || (e
                        == SetupError::TooManyCells && !empty && count > usize::MAX),
                    Ok(s) => {
                        &&& !empty
                        &&& count <= usize::MAX
                        &&& views(s.types@) == types
                        &&& views(s.ctks@) == ctks
                        &&& views(s.compilers@) == compilers
                        &&& views(s.cpps@) == cpps
                        &&& s.targets@ == targets_map(cpps, selection_views(selection.targets))
                        &&& cell_views(s.cells@) == enumeration(
                            types,
                            ctks,
                            compilers,
                            cpps,
                            s.targets@,
                        )
                        &&& (s.concurrency as nat, s.threads_per_cell as nat) == allocation(
                            count as nat,
                            cpus as nat,
                        )
                    },
                }
            }),
    {
        let types = get_build_types(selection.types);
        let compilers = get_compilers(config, selection.compilers);
        let ctks = get_ctks(config, selection.ctks);
        let cpps = get_dialects(selection.dialects);
        let targets = get_targets(&cpps, selection.targets);
        if types.len() == 0 || ctks.len() == 0 || compilers.len() == 0 || cpps.len() == 0 {
            return Err(SetupError::EmptyAxis);
        }
        let count = match count_cells(types.len(), ctks.len(), compilers.len(), cpps.len()) {
            Some(n) => n,
            None => return Err(SetupError::TooManyCells),
        };
        proof {
            lemma_count_positive(
                types@.len() as int,
                ctks@.len() as int,
                compilers@.len() as int,
                cpps@.len() as int,
            );
        }
        let cells = enumerate(&types, &ctks, &compilers, &cpps, &targets);
        let (concurrency, threads_per_cell) = allocate(count, cpus);
        Ok(Sweep { types, ctks, compilers, cpps, targets, cells, concurrency, threads_per_cell })
    }

    /// The result matrix of this sweep, with every cell failed.
    pub fn new_results(&self) -> (r: BuildResult)
        requires
            cell_count(
                self.types@.len() as int,
                self.ctks@.len() as int,
                self.compilers@.len() as int,
                self.cpps@.len() as int,
            ) <= usize::MAX,
        ensures
            r.axes() == (views(self.types@), views(self.ctks@), views(self.cpps@), views(
                self.compilers@,
            )),
            r@ == fresh(views(self.types@), views(self.ctks@), views(self.cpps@), views(self.compilers@)),
    {
        proof {
            assert(cell_count(
                self.types@.len() as int,
                self.ctks@.len() as int,
                self.compilers@.len() as int,
                self.cpps@.len() as int,
            ) == cell_count(
                self.types@.len() as int,
                self.ctks@.len() as int,
                self.cpps@.len() as int,
                self.compilers@.len() as int,
            )) by (nonlinear_arith);
        }
        BuildResult::new(&self.types, &self.ctks, &self.cpps, &self.compilers)
    }
}

/// The matrix leaf that records the outcome of a cell.
pub open spec fn leaf_of(c: CellView) -> Leaf {
    (c.0, c.1, c.3, c.2)
}

/// Every cell of an enumeration has its leaf in a matrix over the same axes.
pub proof fn lemma_cells_have_leaves(
    types: Seq<Seq<char>>,
    ctks: Seq<Seq<char>>,
    compilers: Seq<Seq<char>>,
    cpps: Seq<Seq<char>>,
    targets: Map<Seq<char>, Seq<char>>,
)
    ensures
        forall|k: int|
            0 <= k < enumeration(types, ctks, compilers, cpps, targets).len() ==> leaves(
                types,
                ctks,
                cpps,
                compilers,
            ).contains(leaf_of(#[trigger] enumeration(types, ctks, compilers, cpps, targets)[k])),
{
    let e = enumeration(types, ctks, compilers, cpps, targets);
    assert forall|k: int| 0 <= k < e.len() implies leaves(types, ctks, cpps, compilers).contains(
        leaf_of(#[trigger] e[k]),
    ) by {
        let nt = types.len() as int;
        let ns = ctks.len() as int;
        let nc = compilers.len() as int;
        let nd = cpps.len() as int;
        if nt == 0 || ns == 0 || nc == 0 || nd == 0 {
            assert(cell_count(nt, ns, nc, nd) == 0) by (nonlinear_arith)
                requires
                    nt == 0 || ns == 0 || nc == 0 || nd == 0,
            ;
        } else {
            lemma_multiply_divide_lt(k, nd, nc * (ns * nt));
            lemma_multiply_divide_lt(k / nd, nc, ns * nt);
            lemma_multiply_divide_lt((k / nd) / nc, ns, nt);
            let d = k % nd;
            let c = (k / nd) % nc;
            let s = ((k / nd) / nc) % ns;
            let t = ((k / nd) / nc) / ns;
            assert(e[k] == cell_at(types, ctks, compilers, cpps, targets, k));
            assert(types[t] == e[k].0);
            assert(ctks[s] == e[k].1);
            assert(compilers[c] == e[k].2);
            assert(cpps[d] == e[k].3);
        }
    }
}

/// The leaves of the cells at positions `done` of `cells`, in that order.
pub open spec fn leaves_of(cells: Seq<CellView>, done: Seq<int>) -> Seq<Leaf> {
    Seq::new(done.len(), |i: int| leaf_of(cells[done[i]]))
}

/// However the cells of a sweep complete, marking each success once in completion order
/// loses no update and reverts none: when no axis repeats a label, a cell's leaf ends
/// succeeded exactly when the cell is among those that succeeded.
pub proof fn lemma_no_lost_updates(
    types: Seq<Seq<char>>,
    ctks: Seq<Seq<char>>,
    compilers: Seq<Seq<char>>,
    cpps: Seq<Seq<char>>,
    targets: Map<Seq<char>, Seq<char>>,
    done: Seq<int>,
)
    requires
        types.len() >= 1,
        ctks.len() >= 1,
        compilers.len() >= 1,
        cpps.len() >= 1,
        types.no_duplicates(),
        ctks.no_duplicates(),
        compilers.no_duplicates(),
        cpps.no_duplicates(),
        forall|i: int|
            0 <= i < done.len() ==> 0 <= #[trigger] done[i] < enumeration(
                types,
                ctks,
                compilers,
                cpps,
                targets,
            ).len(),
    ensures
        ({
            let e = enumeration(types, ctks, compilers, cpps, targets);
            let end = marked(fresh(types, ctks, cpps, compilers), leaves_of(e, done));
            &&& end.dom() == leaves(types, ctks, cpps, compilers)
            &&& forall|k: int| 0 <= k < e.len() ==> end[leaf_of(#[trigger] e[k])] == done.contains(k)
        }),
{
    let e = enumeration(types, ctks, compilers, cpps, targets);
    let m = fresh(types, ctks, cpps, compilers);
    let ls = leaves_of(e, done);
    lemma_cells_have_leaves(types, ctks, compilers, cpps, targets);
    lemma_enumeration_complete_and_distinct(types, ctks, compilers, cpps, targets);
    assert forall|i: int| 0 <= i < ls.len() implies m.contains_key(#[trigger] ls[i]) by {
        assert(ls[i] == leaf_of(e[done[i]]));
    }
    lemma_marked(m, ls);
    assert(marked(m, ls).dom() =~= leaves(types, ctks, cpps, compilers));
    assert forall|k: int| 0 <= k < e.len() implies marked(m, ls)[leaf_of(#[trigger] e[k])]
        == done.contains(k) by {
        if done.contains(k) {
            let i = choose|i: int| 0 <= i < done.len() && done[i] == k;
            assert(ls[i] == leaf_of(e[k]));
        }
        if ls.contains(leaf_of(e[k])) {
            let i = choose|i: int| 0 <= i < ls.len() && ls[i] == leaf_of(e[k]);
            let j = done[i];
            assert(ls[i] == leaf_of(e[j]));
            assert(cell_key(e[j]) == cell_key(e[k]));
            assert(done[i] == k);
        }
    }
}

} // verus!
