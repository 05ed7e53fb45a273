//! Build cells: one per combination of configuration type, SDK version, toolchain and
//! dialect.
use vstd::prelude::*;
use vstd::arithmetic::div_mod::{lemma_fundamental_div_mod, lemma_fundamental_div_mod_converse, lemma_multiply_divide_lt};
use crate::labels::LabelMap;
use crate::text::views;

verus! {

/// One combination of the four axes, with the target that its build step asks for (empty
/// for the default target).
pub struct Cell {
    pub build_type: String,
    pub ctk: String,
    pub compiler: String,
    pub dialect: String,
    pub target: String,
}

/// `(configuration type, SDK version, toolchain, dialect, target)`.
pub type CellView = (Seq<char>, Seq<char>, Seq<char>, Seq<char>, Seq<char>);

impl View for Cell {
    type V = CellView;

    open spec fn view(&self) -> CellView {
        (self.build_type@, self.ctk@, self.compiler@, self.dialect@, self.target@)
    }
}

/// The four labels that identify a cell.
pub open spec fn cell_key(c: CellView) -> (Seq<char>, Seq<char>, Seq<char>, Seq<char>) {
    (c.0, c.1, c.2, c.3)
}

/// The target of `dialect`: its entry in `targets`, or empty for the default target.
pub open spec fn target_of(targets: Map<Seq<char>, Seq<char>>, dialect: Seq<char>) -> Seq<char> {
    if targets.contains_key(dialect) {
        targets[dialect]
    } else {
        Seq::empty()
    }
}

/// How many cells the axes give.
pub open spec fn cell_count(nt: int, ns: int, nc: int, nd: int) -> int {
    nd * (nc * (ns * nt))
}

/// The position of the cell `(types[t], ctks[s], compilers[c], cpps[d])`: dialects vary
/// fastest, then toolchains, then SDK versions, then configuration types.
pub open spec fn position(t: int, s: int, c: int, d: int, ns: int, nc: int, nd: int) -> int {
    nd * (nc * (ns * t + s) + c) + d
}

/// The cell at position `k`.
pub open spec fn cell_at(
    types: Seq<Seq<char>>,
    ctks: Seq<Seq<char>>,
    compilers: Seq<Seq<char>>,
    cpps: Seq<Seq<char>>,
    targets: Map<Seq<char>, Seq<char>>,
    k: int,
) -> CellView {
    let d = k % cpps.len() as int;
    let q = k / cpps.len() as int;
    let c = q % compilers.len() as int;
    let q2 = q / compilers.len() as int;
    let s = q2 % ctks.len() as int;
    let t = q2 / ctks.len() as int;
    (types[t], ctks[s], compilers[c], cpps[d], target_of(targets, cpps[d]))
}

/// Every cell of the sweep, in the order of `position`.
pub open spec fn enumeration(
    types: Seq<Seq<char>>,
    ctks: Seq<Seq<char>>,
    compilers: Seq<Seq<char>>,
    cpps: Seq<Seq<char>>,
    targets: Map<Seq<char>, Seq<char>>,
) -> Seq<CellView> {
    Seq::new(
        cell_count(
            types.len() as int,
            ctks.len() as int,
            compilers.len() as int,
            cpps.len() as int,
        ) as nat,
        |k: int| cell_at(types, ctks, compilers, cpps, targets, k),
    )
}

pub open spec fn cell_views(cells: Seq<Cell>) -> Seq<CellView> {
    cells.map_values(|c: Cell| c@)
}

pub proof fn lemma_count_positive(nt: int, ns: int, nc: int, nd: int)
    requires
        nt >= 1,
        ns >= 1,
        nc >= 1,
        nd >= 1,
    ensures
        nd * nc >= nc,
        nc * ns >= ns,
        ns * nt >= nt,
        ns * nt >= ns,
        nc * (ns * nt) >= ns * nt,
        nd * (nc * (ns * nt)) >= nc * (ns * nt),
{
    assert(nd * nc >= nc) by (nonlinear_arith)
        requires
            nd >= 1,
            nc >= 1,
    ;
    assert(nc * ns >= ns) by (nonlinear_arith)
        requires
            nc >= 1,
            ns >= 1,
    ;
    assert(ns * nt >= nt) by (nonlinear_arith)
        requires
            nt >= 1,
            ns >= 1,
    ;
    assert(ns * nt >= ns) by (nonlinear_arith)
        requires
            nt >= 1,
            ns >= 1,
    ;
    assert(nc * (ns * nt) >= ns * nt) by (nonlinear_arith)
        requires
            nc >= 1,
            ns * nt >= 1,
    ;
    assert(nd * (nc * (ns * nt)) >= nc * (ns * nt)) by (nonlinear_arith)
        requires
            nd >= 1,
            nc * (ns * nt) >= 1,
    ;
}

/// The axis indices that `cell_at` reads at position `k` are in range.
proof fn lemma_decode_in_range(k: int, nt: int, ns: int, nc: int, nd: int)
    requires
        nt >= 1,
        ns >= 1,
        nc >= 1,
        nd >= 1,
        0 <= k < cell_count(nt, ns, nc, nd),
    ensures
        0 <= k / nd < nc * (ns * nt),
        0 <= (k / nd) / nc < ns * nt,
        0 <= ((k / nd) / nc) / ns < nt,
{
    lemma_multiply_divide_lt(k, nd, nc * (ns * nt));
    lemma_multiply_divide_lt(k / nd, nc, ns * nt);
    lemma_multiply_divide_lt((k / nd) / nc, ns, nt);
}

/// Lists every cell of the sweep: one for each combination of the four axes, with the
/// dialect's target from `targets`.
pub fn enumerate(
    types: &Vec<String>,
    ctks: &Vec<String>,
    compilers: &Vec<String>,
    cpps: &Vec<String>,
    targets: &LabelMap,
) -> (r: Vec<Cell>)
    requires
        cell_count(
            types@.len() as int,
            ctks@.len() as int,
            compilers@.len() as int,
            cpps@.len() as int,
        ) <= usize::MAX,
    ensures
        cell_views(r@) == enumeration(
            views(types@),
            views(ctks@),
            views(compilers@),
            views(cpps@),
            targets@,
        ),
{
    let ghost spec_cells = enumeration(
        views(types@),
        views(ctks@),
        views(compilers@),
        views(cpps@),
        targets@,
    );
    let nt = types.len();
    let ns = ctks.len();
    let nc = compilers.len();
    let nd = cpps.len();
    let mut r: Vec<Cell> = Vec::new();
    if nt == 0 || ns == 0 || nc == 0 || nd == 0 {
        proof {
            assert(cell_count(nt as int, ns as int, nc as int, nd as int) == 0) by (nonlinear_arith)
                requires
                    nt == 0 || ns == 0 || nc == 0 || nd == 0,
            ;
            assert(cell_views(r@) =~= spec_cells);
        }
        return r;
    }
    proof {
        lemma_count_positive(nt as int, ns as int, nc as int, nd as int);
    }
    let total: usize = nd * (nc * (ns * nt));
    let mut k: usize = 0;
    while k < total
        invariant
            nt == types@.len(),
            ns == ctks@.len(),
            nc == compilers@.len(),
            nd == cpps@.len(),
            nt >= 1,
            ns >= 1,
            nc >= 1,
            nd >= 1,
            total == cell_count(nt as int, ns as int, nc as int, nd as int),
            spec_cells == enumeration(
                views(types@),
                views(ctks@),
                views(compilers@),
                views(cpps@),
                targets@,
            ),
            k <= total,
            r@.len() == k,
            forall|j: int| 0 <= j < k ==> #[trigger] r@[j]@ == spec_cells[j],
        decreases total - k,
    {
        proof {
            lemma_decode_in_range(k as int, nt as int, ns as int, nc as int, nd as int);
        }
        let d = k % nd;
        let q = k / nd;
        let c = q % nc;
        let q2 = q / nc;
        let s = q2 % ns;
        let t = q2 / ns;
        let dialect = &cpps[d];
        let target = match targets.get(dialect) {
            Some(name) => name.clone(),
            None => String::new(),
        };
        let cell = Cell {
            build_type: types[t].clone(),
            ctk: ctks[s].clone(),
            compiler: compilers[c].clone(),
            dialect: dialect.clone(),
            target,
        };
        proof {
            assert(views(types@)[t as int] == types@[t as int]@);
            assert(views(ctks@)[s as int] == ctks@[s as int]@);
            assert(views(compilers@)[c as int] == compilers@[c as int]@);
            assert(views(cpps@)[d as int] == cpps@[d as int]@);
            assert(cell@ == spec_cells[k as int]);
        }
        r.push(cell);
        k = k + 1;
    }
    proof {
        assert(cell_views(r@) =~= spec_cells);
    }
    r
}

/// A position lies below the cell count, and its digits come back out of it by division.
pub proof fn lemma_position_digits(
    t: int,
    s: int,
    c: int,
    d: int,
    nt: int,
    ns: int,
    nc: int,
    nd: int,
)
    requires
        0 <= t < nt,
        0 <= s < ns,
        0 <= c < nc,
        0 <= d < nd,
    ensures
        0 <= ns * t + s < ns * nt,
        0 <= nc * (ns * t + s) + c < nc * (ns * nt),
        0 <= position(t, s, c, d, ns, nc, nd) < cell_count(nt, ns, nc, nd),
        position(t, s, c, d, ns, nc, nd) % nd == d,
        (position(t, s, c, d, ns, nc, nd) / nd) % nc == c,
        ((position(t, s, c, d, ns, nc, nd) / nd) / nc) % ns == s,
        ((position(t, s, c, d, ns, nc, nd) / nd) / nc) / ns == t,
{
    let q2 = ns * t + s;
    let q = nc * q2 + c;
    let k = nd * q + d;
    assert(0 <= q2 < ns * nt) by (nonlinear_arith)
        requires
            0 <= t < nt,
            0 <= s < ns,
            q2 == ns * t + s,
    ;
    assert(0 <= q < nc * (ns * nt)) by (nonlinear_arith)
        requires
            0 <= q2 < ns * nt,
            0 <= c < nc,
            q == nc * q2 + c,
    ;
    assert(0 <= k < nd * (nc * (ns * nt))) by (nonlinear_arith)
        requires
            0 <= q < nc * (ns * nt),
            0 <= d < nd,
            k == nd * q + d,
    ;
    lemma_fundamental_div_mod_converse(k, nd, q, d);
    lemma_fundamental_div_mod_converse(q, nc, q2, c);
    lemma_fundamental_div_mod_converse(q2, ns, t, s);
}

/// Two positions whose cells have the same four labels are one position, when no axis
/// repeats a label.
proof fn lemma_cell_at_injective(
    types: Seq<Seq<char>>,
    ctks: Seq<Seq<char>>,
    compilers: Seq<Seq<char>>,
    cpps: Seq<Seq<char>>,
    targets: Map<Seq<char>, Seq<char>>,
    i: int,
    j: int,
)
    requires
        types.no_duplicates(),
        ctks.no_duplicates(),
        compilers.no_duplicates(),
        cpps.no_duplicates(),
        types.len() >= 1,
        ctks.len() >= 1,
        compilers.len() >= 1,
        cpps.len() >= 1,
        0 <= i < cell_count(
            types.len() as int,
            ctks.len() as int,
            compilers.len() as int,
            cpps.len() as int,
        ),
        0 <= j < cell_count(
            types.len() as int,
            ctks.len() as int,
            compilers.len() as int,
            cpps.len() as int,
        ),
        cell_key(cell_at(types, ctks, compilers, cpps, targets, i)) == cell_key(
            cell_at(types, ctks, compilers, cpps, targets, j),
        ),
    ensures
        i == j,
{
    let nt = types.len() as int;
    let ns = ctks.len() as int;
    let nc = compilers.len() as int;
    let nd = cpps.len() as int;
    lemma_decode_in_range(i, nt, ns, nc, nd);
    lemma_decode_in_range(j, nt, ns, nc, nd);
    lemma_fundamental_div_mod(i, nd);
    lemma_fundamental_div_mod(j, nd);
    lemma_fundamental_div_mod(i / nd, nc);
    lemma_fundamental_div_mod(j / nd, nc);
    lemma_fundamental_div_mod((i / nd) / nc, ns);
    lemma_fundamental_div_mod((j / nd) / nc, ns);
    // equal labels at in-range indices of duplicate-free axes are equal indices
    assert(i % nd == j % nd);
    assert((i / nd) % nc == (j / nd) % nc);
    assert(((i / nd) / nc) % ns == ((j / nd) / nc) % ns);
    assert(((i / nd) / nc) / ns == ((j / nd) / nc) / ns);
}

/// The enumeration has `|types| × |ctks| × |compilers| × |cpps|` cells; when no axis
/// repeats a label, no two cells share their four labels, and each combination of the
/// axes' labels is the cell at its `position`.
pub proof fn lemma_enumeration_complete_and_distinct(
    types: Seq<Seq<char>>,
    ctks: Seq<Seq<char>>,
    compilers: Seq<Seq<char>>,
    cpps: Seq<Seq<char>>,
    targets: Map<Seq<char>, Seq<char>>,
)
    requires
        types.len() >= 1,
        ctks.len() >= 1,
        compilers.len() >= 1,
        cpps.len() >= 1,
        types.no_duplicates(),
        ctks.no_duplicates(),
        compilers.no_duplicates(),
        cpps.no_duplicates(),
    ensures
        enumeration(types, ctks, compilers, cpps, targets).len() == types.len() * ctks.len()
            * compilers.len() * cpps.len(),
        forall|i: int, j: int|
            0 <= i < enumeration(types, ctks, compilers, cpps, targets).len() && 0 <= j
                < enumeration(types, ctks, compilers, cpps, targets).len() && i != j ==> cell_key(
                #[trigger] enumeration(types, ctks, compilers, cpps, targets)[i],
            ) != cell_key(#[trigger] enumeration(types, ctks, compilers, cpps, targets)[j]),
        forall|t: int, s: int, c: int, d: int|
            0 <= t < types.len() && 0 <= s < ctks.len() && 0 <= c < compilers.len() && 0 <= d
                < cpps.len() ==> {
                let k = #[trigger] position(
                    t,
                    s,
                    c,
                    d,
                    ctks.len() as int,
                    compilers.len() as int,
                    cpps.len() as int,
                );
                &&& 0 <= k < enumeration(types, ctks, compilers, cpps, targets).len()
                &&& enumeration(types, ctks, compilers, cpps, targets)[k] == (
                    types[t],
                    ctks[s],
                    compilers[c],
                    cpps[d],
                    target_of(targets, cpps[d]),
                )
            },
{
    let e = enumeration(types, ctks, compilers, cpps, targets);
    let nt = types.len() as int;
    let ns = ctks.len() as int;
    let nc = compilers.len() as int;
    let nd = cpps.len() as int;
    lemma_count_positive(nt, ns, nc, nd);
    assert(nd * (nc * (ns * nt)) == nt * ns * nc * nd) by (nonlinear_arith);
    assert forall|i: int, j: int|
        0 <= i < e.len() && 0 <= j < e.len() && i != j implies cell_key(#[trigger] e[i])
        != cell_key(#[trigger] e[j]) by {
        if cell_key(e[i]) == cell_key(e[j]) {
            lemma_cell_at_injective(types, ctks, compilers, cpps, targets, i, j);
        }
    }
    assert forall|t: int, s: int, c: int, d: int|
        0 <= t < nt && 0 <= s < ns && 0 <= c < nc && 0 <= d < nd implies {
        let k = #[trigger] position(t, s, c, d, ns, nc, nd);
        &&& 0 <= k < e.len()
        &&& e[k] == (types[t], ctks[s], compilers[c], cpps[d], target_of(targets, cpps[d]))
    } by {
        lemma_position_digits(t, s, c, d, nt, ns, nc, nd);
    }
}

} // verus!
