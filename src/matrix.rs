//! The result matrix: configuration type → SDK version → dialect → toolchain → outcome.
//!
//! Every leaf exists from construction on and starts as a failure; marking a success only
//! ever turns a leaf to `true`. Runners that work in parallel share one matrix behind a
//! single lock: writes are as few as the cells, so one coarse lock costs nothing worth a
//! finer scheme.
use vstd::prelude::*;
use crate::cells::{cell_count, lemma_count_positive, lemma_position_digits, position};
use crate::text::views;

verus! {

/// `(configuration type, SDK version, dialect, toolchain)`.
pub type Leaf = (Seq<char>, Seq<char>, Seq<char>, Seq<char>);

/// `i` is the first position of `x` in `s`.
pub open spec fn is_first(s: Seq<Seq<char>>, x: Seq<char>, i: int) -> bool {
    0 <= i < s.len() && s[i] == x && forall|j: int| 0 <= j < i ==> s[j] != x
}

/// The first position of `x` in `s`.
pub open spec fn first_index(s: Seq<Seq<char>>, x: Seq<char>) -> int {
    choose|i: int| is_first(s, x, i)
}

proof fn lemma_first_exists(s: Seq<Seq<char>>, x: Seq<char>, i: int)
    requires
        0 <= i < s.len(),
        s[i] == x,
    ensures
        exists|m: int| is_first(s, x, m),
    decreases i,
{
    if exists|j: int| 0 <= j < i && s[j] == x {
        let j = choose|j: int| 0 <= j < i && s[j] == x;
        lemma_first_exists(s, x, j);
    } else {
        assert(is_first(s, x, i));
    }
}

proof fn lemma_first_index(s: Seq<Seq<char>>, x: Seq<char>)
    requires
        s.contains(x),
    ensures
        is_first(s, x, first_index(s, x)),
        forall|i: int| is_first(s, x, i) ==> i == first_index(s, x),
{
    let i = choose|i: int| 0 <= i < s.len() && s[i] == x;
    lemma_first_exists(s, x, i);
    assert forall|i: int| is_first(s, x, i) implies i == first_index(s, x) by {
        let f = first_index(s, x);
        if i < f {
            assert(s[i] != x);
        } else if f < i {
            assert(s[f] != x);
        }
    }
}

/// The leaves of a matrix over these axes.
pub open spec fn leaves(
    types: Seq<Seq<char>>,
    ctks: Seq<Seq<char>>,
    cpps: Seq<Seq<char>>,
    compilers: Seq<Seq<char>>,
) -> Set<Leaf> {
    Set::new(
        |k: Leaf| types.contains(k.0) && ctks.contains(k.1) && cpps.contains(k.2) && compilers.contains(k.3),
    )
}

/// A matrix over these axes in which no cell has succeeded yet.
pub open spec fn fresh(
    types: Seq<Seq<char>>,
    ctks: Seq<Seq<char>>,
    cpps: Seq<Seq<char>>,
    compilers: Seq<Seq<char>>,
) -> Map<Leaf, bool> {
    Map::new(|k: Leaf| leaves(types, ctks, cpps, compilers).contains(k), |k: Leaf| false)
}

/// Pass/fail outcome of every cell of a sweep.
pub struct BuildResult {
    types: Vec<String>,
    ctks: Vec<String>,
    cpps: Vec<String>,
    compilers: Vec<String>,
    data: Vec<bool>,
}

impl BuildResult {
    #[verifier::type_invariant]
    spec fn inv(self) -> bool {
        self.data@.len() == cell_count(
            self.types@.len() as int,
            self.ctks@.len() as int,
            self.cpps@.len() as int,
            self.compilers@.len() as int,
        )
    }

    /// The four axes: configuration types, SDK versions, dialects, toolchains.
    pub closed spec fn axes(&self) -> (Seq<Seq<char>>, Seq<Seq<char>>, Seq<Seq<char>>, Seq<Seq<char>>) {
        (views(self.types@), views(self.ctks@), views(self.cpps@), views(self.compilers@))
    }

    spec fn slot(&self, k: Leaf) -> int {
        position(
            first_index(views(self.types@), k.0),
            first_index(views(self.ctks@), k.1),
            first_index(views(self.cpps@), k.2),
            first_index(views(self.compilers@), k.3),
            self.ctks@.len() as int,
            self.cpps@.len() as int,
            self.compilers@.len() as int,
        )
    }

    proof fn lemma_slot(&self, k: Leaf)
        requires
            leaves(self.axes().0, self.axes().1, self.axes().2, self.axes().3).contains(k),
        ensures
            0 <= self.slot(k) < cell_count(
                self.types@.len() as int,
                self.ctks@.len() as int,
                self.cpps@.len() as int,
                self.compilers@.len() as int,
            ),
            forall|o: Leaf|
                #![trigger self.slot(o)]
                leaves(self.axes().0, self.axes().1, self.axes().2, self.axes().3).contains(o)
                    && o != k ==> self.slot(o) != self.slot(k),
    {
        let (ts, ss, ds, cs) = self.axes();
        lemma_first_index(ts, k.0);
        lemma_first_index(ss, k.1);
        lemma_first_index(ds, k.2);
        lemma_first_index(cs, k.3);
        let nt = ts.len() as int;
        let ns = ss.len() as int;
        let nd = ds.len() as int;
        let nc = cs.len() as int;
        lemma_position_digits(
            first_index(ts, k.0),
            first_index(ss, k.1),
            first_index(ds, k.2),
            first_index(cs, k.3),
            nt,
            ns,
            nd,
            nc,
        );
        assert forall|o: Leaf|
            #![trigger self.slot(o)]
            leaves(ts, ss, ds, cs).contains(o) && o != k implies self.slot(o) != self.slot(k) by {
            lemma_first_index(ts, o.0);
            lemma_first_index(ss, o.1);
            lemma_first_index(ds, o.2);
            lemma_first_index(cs, o.3);
            lemma_position_digits(
                first_index(ts, o.0),
                first_index(ss, o.1),
                first_index(ds, o.2),
                first_index(cs, o.3),
                nt,
                ns,
                nd,
                nc,
            );
        }
    }

    /// A matrix over the given axes with every leaf failed.
    pub fn new(
        types: &Vec<String>,
        ctks: &Vec<String>,
        cpps: &Vec<String>,
        compilers: &Vec<String>,
    ) -> (r: BuildResult)
        requires
            cell_count(
                types@.len() as int,
                ctks@.len() as int,
                cpps@.len() as int,
                compilers@.len() as int,
            ) <= usize::MAX,
        ensures
            r.axes() == (views(types@), views(ctks@), views(cpps@), views(compilers@)),
            r@ == fresh(views(types@), views(ctks@), views(cpps@), views(compilers@)),
    {
        let total: usize = if types.len() == 0 || ctks.len() == 0 || cpps.len() == 0
            || compilers.len() == 0 {
            proof {
                assert(cell_count(
                    types@.len() as int,
                    ctks@.len() as int,
                    cpps@.len() as int,
                    compilers@.len() as int,
                ) == 0) by (nonlinear_arith)
                    requires
                        types@.len() == 0 || ctks@.len() == 0 || cpps@.len() == 0
                            || compilers@.len() == 0,
                ;
            }
            0
        } else {
            proof {
                lemma_count_positive(
                    types@.len() as int,
                    ctks@.len() as int,
                    cpps@.len() as int,
                    compilers@.len() as int,
                );
            }
            compilers.len() * (cpps.len() * (ctks.len() * types.len()))
        };
        let mut data: Vec<bool> = Vec::new();
        while data.len() < total
            invariant
                data@.len() <= total,
                forall|j: int| 0 <= j < data@.len() ==> !#[trigger] data@[j],
            decreases total - data@.len(),
        {
            data.push(false);
        }
        let r = BuildResult {
            types: types.clone(),
            ctks: ctks.clone(),
            cpps: cpps.clone(),
            compilers: compilers.clone(),
            data,
        };
        proof {
            assert(r.axes() == (views(types@), views(ctks@), views(cpps@), views(compilers@)));
            assert forall|k: Leaf| #[trigger] r@.contains_key(k) implies r@[k] == false by {
                r.lemma_slot(k);
            }
            assert(r@ =~= fresh(views(types@), views(ctks@), views(cpps@), views(compilers@)));
        }
        r
    }

    /// Records that the cell of this leaf succeeded.
    pub fn success(&mut self, build_type: &String, ctk: &String, cpp: &String, compiler: &String)
        requires
            old(self)@.contains_key((build_type@, ctk@, cpp@, compiler@)),
        ensures
            final(self).axes() == old(self).axes(),
            final(self)@ == old(self)@.insert((build_type@, ctk@, cpp@, compiler@), true),
    {
        let ghost key = (build_type@, ctk@, cpp@, compiler@);
        assert(cell_count(0, 0, 0, 0) == 0);
        let mut taken = BuildResult {
            types: Vec::new(),
            ctks: Vec::new(),
            cpps: Vec::new(),
            compilers: Vec::new(),
            data: Vec::new(),
        };
        std::mem::swap(self, &mut taken);
        proof {
            use_type_invariant(&taken);
        }
        let ghost before = taken;
        let slot = taken.slot_of(build_type, ctk, cpp, compiler);
        let BuildResult { types, ctks, cpps, compilers, mut data } = taken;
        assert(types@ == before.types@ && ctks@ == before.ctks@ && cpps@ == before.cpps@
            && compilers@ == before.compilers@ && data@ == before.data@);
        data.set(slot, true);
        let r = BuildResult { types, ctks, cpps, compilers, data };
        proof {
            before.lemma_slot(key);
            assert(r.axes() == before.axes());
            assert forall|k: Leaf| #[trigger] r@.contains_key(k) implies r@[k] == before@.insert(
                key,
                true,
            )[k] by {
                before.lemma_slot(k);
            }
            assert(r@ =~= before@.insert(key, true));
        }
        *self = r;
    }

    /// Whether the cell of this leaf succeeded.
    pub fn status(&self, build_type: &String, ctk: &String, cpp: &String, compiler: &String) -> (r:
        bool)
        requires
            self@.contains_key((build_type@, ctk@, cpp@, compiler@)),
        ensures
            r == self@[(build_type@, ctk@, cpp@, compiler@)],
    {
        proof {
            use_type_invariant(self);
        }
        let slot = self.slot_of(build_type, ctk, cpp, compiler);
        self.data[slot]
    }

    fn slot_of(&self, build_type: &String, ctk: &String, cpp: &String, compiler: &String) -> (r:
        usize)
        requires
            self@.contains_key((build_type@, ctk@, cpp@, compiler@)),
            self.inv(),
        ensures
            r == self.slot((build_type@, ctk@, cpp@, compiler@)),
            r < self.data@.len(),
    {
        let ghost key = (build_type@, ctk@, cpp@, compiler@);
        let total = self.data.len();
        let t = locate(&self.types, build_type);
        let s = locate(&self.ctks, ctk);
        let d = locate(&self.cpps, cpp);
        let c = locate(&self.compilers, compiler);
        proof {
            self.lemma_slot(key);
            lemma_count_positive(
                self.types@.len() as int,
                self.ctks@.len() as int,
                self.cpps@.len() as int,
                self.compilers@.len() as int,
            );
            lemma_position_digits(
                t as int,
                s as int,
                d as int,
                c as int,
                self.types@.len() as int,
                self.ctks@.len() as int,
                self.cpps@.len() as int,
                self.compilers@.len() as int,
            );
        }
        let ns = self.ctks.len();
        let nd = self.cpps.len();
        let nc = self.compilers.len();
        nc * (nd * (ns * t + s) + d) + c
    }

    /// The innermost table of the summary for one configuration type, SDK version and
    /// dialect: each toolchain's label beside the glyph of its outcome.
    pub fn compiler_rows(&self, build_type: &String, ctk: &String, cpp: &String) -> (r: Vec<
        (String, String),
    >)
        requires
            self.axes().0.contains(build_type@),
            self.axes().1.contains(ctk@),
            self.axes().2.contains(cpp@),
        ensures
            r@.len() == self.axes().3.len(),
            forall|i: int|
                0 <= i < r@.len() ==> (#[trigger] r@[i]).0@ == self.axes().3[i] && r@[i].1@
                    == glyph(self@[(build_type@, ctk@, cpp@, self.axes().3[i])]),
    {
        let mut r: Vec<(String, String)> = Vec::new();
        let mut i: usize = 0;
        while i < self.compilers.len()
            invariant
                self.axes().0.contains(build_type@),
                self.axes().1.contains(ctk@),
                self.axes().2.contains(cpp@),
                i <= self.compilers@.len(),
                r@.len() == i,
                forall|j: int|
                    0 <= j < i ==> (#[trigger] r@[j]).0@ == self.axes().3[j] && r@[j].1@ == glyph(
                        self@[(build_type@, ctk@, cpp@, self.axes().3[j])],
                    ),
            decreases self.compilers@.len() - i,
        {
            let compiler = &self.compilers[i];
            proof {
                assert(self.axes().3[i as int] == compiler@);
                assert(self.axes().3.contains(compiler@));
            }
            let ok = self.status(build_type, ctk, cpp, compiler);
            r.push((compiler.clone(), String::from_str(status_glyph(ok))));
            i = i + 1;
        }
        r
    }
}

impl View for BuildResult {
    type V = Map<Leaf, bool>;

    closed spec fn view(&self) -> Map<Leaf, bool> {
        Map::new(
            |k: Leaf| leaves(self.axes().0, self.axes().1, self.axes().2, self.axes().3).contains(k),
            |k: Leaf| self.data@[self.slot(k)],
        )
    }
}

/// A matrix just built reports every leaf of its axes as failed, and has no other leaf.
pub proof fn lemma_fresh_all_failed(
    types: Seq<Seq<char>>,
    ctks: Seq<Seq<char>>,
    cpps: Seq<Seq<char>>,
    compilers: Seq<Seq<char>>,
)
    ensures
        fresh(types, ctks, cpps, compilers).dom() == leaves(types, ctks, cpps, compilers),
        forall|k: Leaf|
            leaves(types, ctks, cpps, compilers).contains(k) ==> !#[trigger] fresh(
                types,
                ctks,
                cpps,
                compilers,
            )[k],
{
    assert(fresh(types, ctks, cpps, compilers).dom() =~= leaves(types, ctks, cpps, compilers));
}

/// Marking one leaf a success makes that leaf succeeded and leaves every other leaf as it
/// was.
pub proof fn lemma_success_isolated(m: Map<Leaf, bool>, key: Leaf)
    requires
        m.contains_key(key),
    ensures
        m.insert(key, true).dom() == m.dom(),
        m.insert(key, true)[key],
        forall|o: Leaf| m.contains_key(o) && o != key ==> #[trigger] m.insert(key, true)[o] == m[o],
{
    assert(m.insert(key, true).dom() =~= m.dom());
}

/// The matrix after the leaves of `done` were marked successes, in that order.
pub open spec fn marked(m: Map<Leaf, bool>, done: Seq<Leaf>) -> Map<Leaf, bool>
    decreases done.len(),
{
    if done.len() == 0 {
        m
    } else {
        marked(m, done.drop_last()).insert(done.last(), true)
    }
}

/// Marking the leaves of `done` sets exactly those leaves, whatever the order.
pub proof fn lemma_marked(m: Map<Leaf, bool>, done: Seq<Leaf>)
    requires
        forall|i: int| 0 <= i < done.len() ==> m.contains_key(#[trigger] done[i]),
    ensures
        marked(m, done) == Map::new(|k: Leaf| m.contains_key(k), |k: Leaf| m[k] || done.contains(k)),
    decreases done.len(),
{
    let target = Map::new(|k: Leaf| m.contains_key(k), |k: Leaf| m[k] || done.contains(k));
    if done.len() == 0 {
        assert(marked(m, done) =~= target);
    } else {
        let rest = done.drop_last();
        assert forall|i: int| 0 <= i < rest.len() implies m.contains_key(#[trigger] rest[i]) by {
            assert(rest[i] == done[i]);
        }
        lemma_marked(m, rest);
        assert forall|k: Leaf| #[trigger] m.contains_key(k) implies (done.contains(k) <==> (
        rest.contains(k) || k == done.last())) by {
            if done.contains(k) && k != done.last() {
                let i = choose|i: int| 0 <= i < done.len() && done[i] == k;
                assert(rest[i] == k);
            }
            if rest.contains(k) {
                let i = choose|i: int| 0 <= i < rest.len() && rest[i] == k;
                assert(done[i] == k);
            }
            if k == done.last() {
                assert(done[done.len() - 1] == k);
            }
        }
        assert(m.contains_key(done.last())) by {
            assert(done[done.len() - 1] == done.last());
        }
        assert(marked(m, done) =~= target);
    }
}

/// No marking turns a succeeded leaf back into a failure.
pub proof fn lemma_marking_monotone(m: Map<Leaf, bool>, done: Seq<Leaf>)
    requires
        forall|i: int| 0 <= i < done.len() ==> m.contains_key(#[trigger] done[i]),
    ensures
        marked(m, done).dom() == m.dom(),
        forall|k: Leaf| m.contains_key(k) && m[k] ==> #[trigger] marked(m, done)[k],
{
    lemma_marked(m, done);
    assert(marked(m, done).dom() =~= m.dom());
}

/// Two runs whose succeeded leaves are the same end with the same matrix, whatever order
/// their successes were marked in.
pub proof fn lemma_marking_order_irrelevant(m: Map<Leaf, bool>, first: Seq<Leaf>, second: Seq<Leaf>)
    requires
        forall|i: int| 0 <= i < first.len() ==> m.contains_key(#[trigger] first[i]),
        forall|i: int| 0 <= i < second.len() ==> m.contains_key(#[trigger] second[i]),
        forall|k: Leaf| #[trigger] first.contains(k) <==> second.contains(k),
    ensures
        marked(m, first) == marked(m, second),
{
    lemma_marked(m, first);
    lemma_marked(m, second);
    assert(marked(m, first) =~= marked(m, second));
}

/// The first position of `x` in `axis`.
fn locate(axis: &Vec<String>, x: &String) -> (r: usize)
    requires
        views(axis@).contains(x@),
    ensures
        r == first_index(views(axis@), x@),
        r < axis@.len(),
{
    proof {
        lemma_first_index(views(axis@), x@);
    }
    let mut i: usize = 0;
    while i < axis.len()
        invariant
            i <= axis@.len(),
            is_first(views(axis@), x@, first_index(views(axis@), x@)),
            i <= first_index(views(axis@), x@),
        decreases axis@.len() - i,
    {
        if axis[i] == *x {
            proof {
                assert(views(axis@)[i as int] == x@);
            }
            return i;
        }
        proof {
            assert(views(axis@)[i as int] != x@);
        }
        i = i + 1;
    }
    i
}

/// The glyph that the summary shows for an outcome.
pub open spec fn glyph(ok: bool) -> Seq<char> {
    if ok {
        "✓"@
    } else {
        "✗"@
    }
}

/// The glyph that the summary shows for an outcome.
pub fn status_glyph(ok: bool) -> (r: &'static str)
    ensures
        r@ == glyph(ok),
{
    if ok {
        "✓"
    } else {
        "✗"
    }
}

} // verus!
