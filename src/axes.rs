//! The configured paths and the four sweep axes: configuration types, SDK versions,
//! toolchains and language dialects.
use vstd::prelude::*;
use crate::labels::{LabelMap, pairs_map};
use crate::text::{concatenate, views};

verus! {

/// The paths that the configuration file gives: source roots, toolchains by label and
/// SDK install roots by version label.
pub struct AppConfig {
    pub src: LabelMap,
    pub compilers: LabelMap,
    pub ctks: LabelMap,
}

impl AppConfig {
    /// Builds the configuration from `(label, path)` pairs; for a label given twice the
    /// later path counts.
    pub fn new(
        src: Vec<(String, String)>,
        compilers: Vec<(String, String)>,
        ctks: Vec<(String, String)>,
    ) -> (r: AppConfig)
        ensures
            r.src@ == pairs_map(src@),
            r.compilers@ == pairs_map(compilers@),
            r.ctks@ == pairs_map(ctks@),
    {
        AppConfig {
            src: LabelMap::from_pairs(src),
            compilers: LabelMap::from_pairs(compilers),
            ctks: LabelMap::from_pairs(ctks),
        }
    }

    /// The configured toolchain labels.
    pub fn compiler_labels(&self) -> (r: Vec<String>)
        ensures
            views(r@) == self.compilers.label_seq(),
            views(r@).no_duplicates(),
            forall|k: Seq<char>| #[trigger] self.compilers@.contains_key(k) <==> views(r@).contains(k),
    {
        self.compilers.labels()
    }

    /// The configured SDK version labels.
    pub fn ctk_labels(&self) -> (r: Vec<String>)
        ensures
            views(r@) == self.ctks.label_seq(),
            views(r@).no_duplicates(),
            forall|k: Seq<char>| #[trigger] self.ctks@.contains_key(k) <==> views(r@).contains(k),
    {
        self.ctks.labels()
    }
}

pub open spec fn default_build_types() -> Seq<Seq<char>> {
    seq!["debug"@, "release"@]
}

pub open spec fn default_dialects() -> Seq<Seq<char>> {
    seq!["11"@, "14"@, "17"@]
}

/// The dialects that the configure step has a switch for.
pub fn supported_dialects() -> (r: Vec<String>)
    ensures
        views(r@) == default_dialects(),
{
    let r = vec![String::from_str("11"), String::from_str("14"), String::from_str("17")];
    assert(views(r@) =~= default_dialects());
    r
}

/// An axis as selected, or its default when nothing was selected.
pub open spec fn resolved(selected: Option<Vec<String>>, default: Seq<Seq<char>>) -> Seq<
    Seq<char>,
> {
    match selected {
        Some(v) => views(v@),
        None => default,
    }
}

fn resolve(selected: Option<Vec<String>>, default: Vec<String>) -> (r: Vec<String>)
    ensures
        views(r@) == resolved(selected, views(default@)),
{
    match selected {
        Some(v) => v,
        None => default,
    }
}

/// The toolchains to sweep: those selected, or every configured one.
pub fn get_compilers(config: &AppConfig, selected: Option<Vec<String>>) -> (r: Vec<String>)
    ensures
        views(r@) == resolved(selected, config.compilers.label_seq()),
        selected is None ==> views(r@).no_duplicates() && forall|k: Seq<char>|
            #[trigger] config.compilers@.contains_key(k) <==> views(r@).contains(k),
{
    resolve(selected, config.compiler_labels())
}

/// The configuration types to sweep: those selected, or `debug` and `release`.
pub fn get_build_types(selected: Option<Vec<String>>) -> (r: Vec<String>)
    ensures
        views(r@) == resolved(selected, default_build_types()),
{
    let default = vec![String::from_str("debug"), String::from_str("release")];
    assert(views(default@) =~= default_build_types());
    resolve(selected, default)
}

/// The SDK versions to sweep: those selected, or every configured one.
pub fn get_ctks(config: &AppConfig, selected: Option<Vec<String>>) -> (r: Vec<String>)
    ensures
        views(r@) == resolved(selected, config.ctks.label_seq()),
        selected is None ==> views(r@).no_duplicates() && forall|k: Seq<char>|
            #[trigger] config.ctks@.contains_key(k) <==> views(r@).contains(k),
{
    resolve(selected, config.ctk_labels())
}

/// The dialects to sweep: those selected, or all supported ones.
pub fn get_dialects(selected: Option<Vec<String>>) -> (r: Vec<String>)
    ensures
        views(r@) == resolved(selected, default_dialects()),
{
    resolve(selected, supported_dialects())
}

/// The name under which the build tool knows `target` for `dialect`.
pub open spec fn build_target(dialect: Seq<char>, target: Seq<char>) -> Seq<char> {
    "cub.cpp"@ + dialect + "."@ + target
}

/// The target to build for each dialect. Without a selection every dialect builds its
/// default target, written as the empty string; with one, every dialect builds the last
/// selected target.
pub open spec fn targets_map(dialects: Seq<Seq<char>>, selected: Option<Seq<Seq<char>>>) -> Map<
    Seq<char>,
    Seq<char>,
> {
    match selected {
        None => Map::new(|d: Seq<char>| dialects.contains(d), |d: Seq<char>| Seq::<char>::empty()),
        Some(ts) => if ts.len() == 0 {
            Map::empty()
        } else {
            Map::new(|d: Seq<char>| dialects.contains(d), |d: Seq<char>| build_target(d, ts.last()))
        },
    }
}

spec fn target_view(target: Option<&String>) -> Option<Seq<char>> {
    match target {
        Some(t) => Some(t@),
        None => None,
    }
}

pub open spec fn selection_views(selected: Option<Vec<String>>) -> Option<Seq<Seq<char>>> {
    match selected {
        Some(v) => Some(views(v@)),
        None => None,
    }
}

fn make_target(dialect: &String, target: &String) -> (r: String)
    ensures
        r@ == build_target(dialect@, target@),
{
    let mut s = concatenate("cub.cpp", dialect.as_str());
    s.append(".");
    s.append(target.as_str());
    s
}

spec fn dialect_target(target: Option<Seq<char>>, d: Seq<char>) -> Seq<char> {
    match target {
        Some(t) => build_target(d, t),
        None => Seq::<char>::empty(),
    }
}

/// Maps every dialect of `cpp` to `target` (`None`: to the empty string).
fn fill_targets(cpp: &Vec<String>, target: Option<&String>) -> (r: LabelMap)
    ensures
        r@ == Map::new(
            |d: Seq<char>| views(cpp@).contains(d),
            |d: Seq<char>| dialect_target(target_view(target), d),
        ),
{
    let ghost t = target_view(target);
    let mut r = LabelMap::new();
    let mut i: usize = 0;
    while i < cpp.len()
        invariant
            i <= cpp@.len(),
            t == target_view(target),
            r@ == Map::new(|d: Seq<char>| views(cpp@).take(i as int).contains(d), |d: Seq<char>| dialect_target(t, d)),
        decreases cpp@.len() - i,
    {
        let d = &cpp[i];
        let v = match target {
            Some(name) => make_target(d, name),
            None => String::new(),
        };
        let ghost before = r@;
        assert(v@ == dialect_target(t, d@));
        let key = d.clone();
        assert(key@ == d@);
        r.insert(key, v);
        assert(r@ == before.insert(d@, dialect_target(t, d@)));
        proof {
            let done = views(cpp@).take(i + 1);
            assert(views(cpp@)[i as int] == d@);
            assert(done =~= views(cpp@).take(i as int).push(d@));
            assert forall|q: Seq<char>| done.contains(q) <==> #[trigger] before.insert(
                d@,
                dialect_target(t, d@),
            ).contains_key(q) by {
                if q != d@ && done.contains(q) {
                    let k = choose|k: int| 0 <= k < done.len() && done[k] == q;
                    assert(views(cpp@).take(i as int)[k] == q);
                }
                if q == d@ {
                    assert(done[i as int] == q);
                }
                if views(cpp@).take(i as int).contains(q) {
                    let k = choose|k: int|
                        0 <= k < i && views(cpp@).take(i as int)[k] == q;
                    assert(done[k] == q);
                }
            }
        }
        i = i + 1;
        proof {
            let m = Map::new(|d: Seq<char>| views(cpp@).take(i as int).contains(d), |d: Seq<char>| dialect_target(t, d));
            assert(r@ == before.insert(d@, dialect_target(t, d@)));
            assert(r@.dom() =~= m.dom());
            assert forall|q: Seq<char>| #[trigger] r@.contains_key(q) implies r@[q] == m[q] by {
                if q != d@ {
                    assert(before.contains_key(q));
                }
            }
            assert(r@ =~= m);
        }
    }
    assert(views(cpp@).take(i as int) =~= views(cpp@));
    r
}

/// The target of each dialect of `cpp`, from the selected targets (see `targets_map`).
pub fn get_targets(cpp: &Vec<String>, selected: Option<Vec<String>>) -> (r: LabelMap)
    ensures
        r@ == targets_map(views(cpp@), selection_views(selected)),
{
    match selected {
        None => {
            let r = fill_targets(cpp, None);
            assert(r@ =~= targets_map(views(cpp@), selection_views(selected)));
            r
        },
        Some(ts) => {
            if ts.len() == 0 {
                let r = LabelMap::new();
                assert(r@ =~= targets_map(views(cpp@), selection_views(selected)));
                r
            } else {
                let r = fill_targets(cpp, Some(&ts[ts.len() - 1]));
                assert(views(ts@).last() == ts@.last()@);
                assert(r@ =~= targets_map(views(cpp@), selection_views(selected)));
                r
            }
        },
    }
}

} // verus!
