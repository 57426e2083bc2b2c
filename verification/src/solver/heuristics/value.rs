//! Value-ordering heuristics: strategies for the order in which a
//! variable's candidate values are tried.

use vstd::prelude::*;

use crate::solver::engine::VariableId;
use crate::solver::solution::{
    filter_remove, filter_retain, lemma_push_keeps_no_duplicates, lemma_sv_le_total,
    lemma_sv_le_trans, DomainRepresentation, Solution,
};
use crate::solver::value::StandardValue;

verus! {

broadcast use vstd::seq_lib::lemma_seq_contains_after_push, Seq::<_>::lemma_push_to_set_commute;

/// A strategy for ordering the values of a variable's domain. The
/// returned vector enumerates the whole domain, each value once.
pub trait ValueOrderingHeuristic: Sized {
    /// The ordering rule the heuristic implements: what its
    /// documented strategy says of the order of the returned values,
    /// beyond the shared guarantee that they enumerate the domain.
    spec fn ordering_rule(
        &self,
        variable_id: VariableId,
        solution: Solution,
        r: Seq<StandardValue>,
    ) -> bool;

    /// The values the variable may take, in the order to try them.
    fn order_values(&self, variable_id: VariableId, solution: &Solution) -> (r: Vec<
        StandardValue,
    >)
        requires
            solution.wf(),
            solution.doms().dom().contains(variable_id),
        ensures
            r@.no_duplicates(),
            r@.to_set() == solution.doms()[variable_id],
            self.ordering_rule(variable_id, *solution, r@),
    ;
}

/// Ascending in the solver's value order.
pub open spec fn sorted_ascending(s: Seq<StandardValue>) -> bool {
    forall|a: int, b: int|
        0 <= a < b < s.len() ==> crate::solver::value::sv_le(s[a], s[b])
}

/// The values currently pinned by a singleton domain of a variable
/// other than the given one.
pub open spec fn used_values(solution: Solution, variable_id: VariableId) -> Set<StandardValue> {
    Set::new(
        |v: StandardValue|
            exists|u: VariableId|
                {
                    &&& #[trigger] solution.doms().dom().contains(u)
                    &&& u != variable_id
                    &&& solution.doms()[u].finite()
                    &&& solution.doms()[u].len() == 1
                    &&& solution.doms()[u].contains(v)
                },
    )
}

/// Removing one entry of a duplicate-free sequence removes exactly
/// that value from its set of elements.
proof fn lemma_no_dup_remove_to_set(s: Seq<StandardValue>, i: int)
    requires
        s.no_duplicates(),
        0 <= i < s.len(),
    ensures
        s.remove(i).no_duplicates(),
        s.remove(i).to_set() =~= s.to_set().remove(s[i]),
{
    let t = s.remove(i);
    assert forall|v: StandardValue| t.to_set().contains(v) implies s.to_set().remove(
        s[i],
    ).contains(v) by {
        let j = choose|j: int| 0 <= j < t.len() && t[j] == v;
        if j < i {
            assert(s[j] == v);
            assert(s.contains(v));
        } else {
            assert(s[j + 1] == v);
            assert(s.contains(v));
        }
    }
    assert forall|v: StandardValue| s.to_set().remove(s[i]).contains(v) implies t.to_set().contains(
        v,
    ) by {
        let j = choose|j: int| 0 <= j < s.len() && s[j] == v;
        assert(j != i);
        if j < i {
            assert(t[j] == v);
            assert(t.contains(v));
        } else {
            assert(t[j - 1] == v);
            assert(t.contains(v));
        }
    }
}

/// Sorts values ascending in the solver's value order. The result
/// enumerates the same set of values.
#[verifier::loop_isolation(false)]
pub(crate) fn sort_values(vals: Vec<StandardValue>) -> (r: Vec<StandardValue>)
    requires
        vals@.no_duplicates(),
    ensures
        r@.no_duplicates(),
        r@.to_set() == vals@.to_set(),
        sorted_ascending(r@),
{
    let mut remaining = vals;
    let mut out: Vec<StandardValue> = Vec::new();
    let ghost whole = remaining@.to_set();
    while remaining.len() > 0
        invariant
            out@.no_duplicates(),
            remaining@.no_duplicates(),
            forall|v: StandardValue| #[trigger] out@.contains(v) ==> !remaining@.contains(v),
            out@.to_set().union(remaining@.to_set()) == whole,
            sorted_ascending(out@),
            forall|a: int, b: int|
                0 <= a < out@.len() && 0 <= b < remaining@.len() ==> crate::solver::value::sv_le(
                    out@[a],
                    remaining@[b],
                ),
        decreases remaining@.len(),
    {
        let mut mi: usize = 0;
        let mut i: usize = 1;
        while i < remaining.len()
            invariant
                mi < i <= remaining@.len(),
                forall|j: int| 0 <= j < i ==> sv_le_at(remaining@, mi as int, j),
            decreases remaining@.len() - i,
        {
            proof {
                lemma_sv_le_total(remaining@[mi as int], remaining@[i as int]);
            }
            if remaining[i].leq(&remaining[mi]) {
                proof {
                    assert forall|j: int| 0 <= j < i + 1 implies sv_le_at(
                        remaining@,
                        i as int,
                        j,
                    ) by {
                        if j < i {
                            assert(sv_le_at(remaining@, mi as int, j));
                            lemma_sv_le_trans(
                                remaining@[i as int],
                                remaining@[mi as int],
                                remaining@[j],
                            );
                        }
                    }
                }
                mi = i;
            }
            i += 1;
        }
        let ghost pre = remaining@;
        let ghost pre_out = out@;
        let x = remaining.remove(mi);
        proof {
            lemma_no_dup_remove_to_set(pre, mi as int);
            assert(pre.contains(x)) by {
                assert(pre[mi as int] == x);
            }
            assert(!pre_out.contains(x));
            lemma_push_keeps_no_duplicates(pre_out, x);
        }
        out.push(x);
        proof {
            // the extracted minimum keeps the output sorted and below
            // everything still waiting
            assert forall|a: int, b: int|
                0 <= a < b < out@.len() implies crate::solver::value::sv_le(
                out@[a],
                out@[b],
            ) by {
                if b == out@.len() - 1 {
                    assert(pre_out.contains(pre_out[a]));
                    assert(pre.contains(x));
                    let bi = choose|bi: int| 0 <= bi < pre.len() && pre[bi] == x;
                    assert(crate::solver::value::sv_le(out@[a], pre[bi]));
                }
            }
            assert forall|a: int, b: int|
                0 <= a < out@.len() && 0 <= b < remaining@.len() implies crate::solver::value::sv_le(
                out@[a],
                remaining@[b],
            ) by {
                let ghost rb = remaining@[b];
                assert(rb == if b < mi {
                    pre[b]
                } else {
                    pre[b + 1]
                });
                if a < out@.len() - 1 {
                } else {
                    assert(sv_le_at(pre, mi as int, if b < mi {
                        b
                    } else {
                        b + 1
                    }));
                }
            }
            assert(out@.to_set() =~= pre_out.to_set().insert(x));
            assert(out@.to_set().union(remaining@.to_set()) =~= pre_out.to_set().union(
                pre.to_set(),
            ));
            assert forall|v: StandardValue| #[trigger]
                out@.contains(v) implies !remaining@.contains(v) by {
                if v == x {
                    assert(!remaining@.to_set().contains(x));
                } else {
                    assert(pre_out.contains(v));
                    assert(!pre.contains(v));
                    if remaining@.contains(v) {
                        assert(remaining@.to_set().contains(v));
                        assert(pre.to_set().contains(v));
                    }
                }
            }
        }
    }
    proof {
        assert(out@.to_set() =~= whole);
    }
    out
}

/// The element at `a` is no greater than the element at `b` in the
/// value order.
pub open spec fn sv_le_at(s: Seq<StandardValue>, a: int, b: int) -> bool {
    crate::solver::value::sv_le(s[a], s[b])
}

/// Determinism of the sorted orderings: a duplicate-free enumeration
/// of a set in ascending value order is unique, so any two calls of a
/// heuristic whose rule demands a sorted enumeration — on the same
/// variable of the same solution — return the same vector.
pub proof fn lemma_sorted_enumeration_unique(r1: Seq<StandardValue>, r2: Seq<StandardValue>)
    requires
        r1.no_duplicates(),
        r2.no_duplicates(),
        r1.to_set() == r2.to_set(),
        sorted_ascending(r1),
        sorted_ascending(r2),
    ensures
        r1 == r2,
    decreases r1.len(),
{
    if r1.len() == 0 {
        if r2.len() != 0 {
            assert(r2.contains(r2[0]));
            assert(r1.to_set().contains(r2[0]));
            assert(r1.contains(r2[0]));
        }
        assert(r1 =~= r2);
    } else {
        if r2.len() == 0 {
            assert(r1.contains(r1[0]));
            assert(r2.to_set().contains(r1[0]));
            assert(r2.contains(r1[0]));
        }
        let h1 = r1[0];
        let h2 = r2[0];
        assert forall|v: StandardValue| #[trigger]
            r1.to_set().contains(v) implies crate::solver::value::sv_le(h1, v) by {
            let j = choose|j: int| 0 <= j < r1.len() && r1[j] == v;
            if j > 0 {
                assert(crate::solver::value::sv_le(r1[0], r1[j]));
            }
        }
        assert forall|v: StandardValue| #[trigger]
            r2.to_set().contains(v) implies crate::solver::value::sv_le(h2, v) by {
            let j = choose|j: int| 0 <= j < r2.len() && r2[j] == v;
            if j > 0 {
                assert(crate::solver::value::sv_le(r2[0], r2[j]));
            }
        }
        assert(r1.contains(h1) && r2.contains(h2));
        assert(r1.to_set().contains(h1) && r2.to_set().contains(h2));
        crate::solver::solution::lemma_sv_le_antisym(h1, h2);
        let t1 = r1.skip(1);
        let t2 = r2.skip(1);
        assert(t1.to_set() =~= r1.to_set().remove(h1)) by {
            assert forall|v: StandardValue|
                t1.to_set().contains(v) == r1.to_set().remove(h1).contains(v) by {
                if t1.to_set().contains(v) {
                    let j = choose|j: int| 0 <= j < t1.len() && t1[j] == v;
                    assert(r1[j + 1] == v);
                    assert(r1.contains(v));
                    assert(v != h1);
                }
                if r1.to_set().remove(h1).contains(v) {
                    let j = choose|j: int| 0 <= j < r1.len() && r1[j] == v;
                    assert(j != 0);
                    assert(t1[j - 1] == v);
                    assert(t1.contains(v));
                }
            }
        }
        assert(t2.to_set() =~= r2.to_set().remove(h2)) by {
            assert forall|v: StandardValue|
                t2.to_set().contains(v) == r2.to_set().remove(h2).contains(v) by {
                if t2.to_set().contains(v) {
                    let j = choose|j: int| 0 <= j < t2.len() && t2[j] == v;
                    assert(r2[j + 1] == v);
                    assert(r2.contains(v));
                    assert(v != h2);
                }
                if r2.to_set().remove(h2).contains(v) {
                    let j = choose|j: int| 0 <= j < r2.len() && r2[j] == v;
                    assert(j != 0);
                    assert(t2[j - 1] == v);
                    assert(t2.contains(v));
                }
            }
        }
        lemma_sorted_enumeration_unique(t1, t2);
        assert(r1 =~= r2) by {
            assert(r1.len() == t1.len() + 1 && r2.len() == t2.len() + 1);
            assert forall|k: int| 0 <= k < r1.len() implies r1[k] == r2[k] by {
                if k > 0 {
                    assert(t1[k - 1] == t2[k - 1]);
                }
            }
        }
    }
}

/// Returns values in the domain's native iteration order, which is
/// unspecified for unordered representations.
pub struct IdentityValueHeuristic;

impl ValueOrderingHeuristic for IdentityValueHeuristic {
    /// The native iteration order is unspecified, so the shared
    /// guarantee is all there is.
    open spec fn ordering_rule(
        &self,
        variable_id: VariableId,
        solution: Solution,
        r: Seq<StandardValue>,
    ) -> bool {
        true
    }

    fn order_values(&self, variable_id: VariableId, solution: &Solution) -> (r: Vec<
        StandardValue,
    >) {
        let d = solution.get_domain(variable_id).unwrap();
        d.values()
    }
}

/// Returns values in ascending value order, for deterministic runs.
pub struct DeterministicIdentityValueHeuristic;

impl ValueOrderingHeuristic for DeterministicIdentityValueHeuristic {
    /// The values come back ascending in the value order.
    open spec fn ordering_rule(
        &self,
        variable_id: VariableId,
        solution: Solution,
        r: Seq<StandardValue>,
    ) -> bool {
        sorted_ascending(r)
    }

    fn order_values(&self, variable_id: VariableId, solution: &Solution) -> (r: Vec<
        StandardValue,
    >) {
        let d = solution.get_domain(variable_id).unwrap();
        sort_values(d.values())
    }
}

/// Prefers values already assigned to other variables: both sections
/// are sorted, with the already-used values first. A resource
/// minimisation heuristic.
pub struct PreferUsedValuesHeuristic;

impl ValueOrderingHeuristic for PreferUsedValuesHeuristic {
    /// Two sections, each sorted ascending: first the domain values
    /// already pinned elsewhere, then the rest.
    open spec fn ordering_rule(
        &self,
        variable_id: VariableId,
        solution: Solution,
        r: Seq<StandardValue>,
    ) -> bool {
        exists|k: int|
            {
                &&& 0 <= k <= r.len()
                &&& sorted_ascending(#[trigger] r.take(k))
                &&& sorted_ascending(r.skip(k))
                &&& r.take(k).to_set() == solution.doms()[variable_id].intersect(
                    used_values(solution, variable_id),
                )
                &&& r.skip(k).to_set() == solution.doms()[variable_id].difference(
                    used_values(solution, variable_id),
                )
            }
    }

    #[verifier::loop_isolation(false)]
    fn order_values(&self, variable_id: VariableId, solution: &Solution) -> (r: Vec<
        StandardValue,
    >) {
        let ids = solution.variable_ids();
        let mut used: Vec<StandardValue> = Vec::new();
        let mut i: usize = 0;
        while i < ids.len()
            invariant
                i <= ids@.len(),
                ids@.to_set() == solution.dmap().dom(),
                forall|v: StandardValue| #[trigger]
                    used@.contains(v) ==> used_values(*solution, variable_id).contains(v),
                forall|j: int, v: StandardValue|
                    0 <= j < i && ids@[j] != variable_id && solution.doms()[ids@[j]].finite()
                        && solution.doms()[ids@[j]].len() == 1 && solution.doms()[
                        ids@[j]
                    ].contains(v) ==> used@.contains(v),
            decreases ids@.len() - i,
        {
            let id = ids[i];
            proof {
                assert(ids@.contains(id));
            }
            if id != variable_id {
                let d = solution.get_domain(id).unwrap();
                let ghost prev = used@;
                let picked = d.get_singleton_value();
                if let Some(v) = picked {
                    proof {
                        assert(solution.doms()[id].contains(v));
                        assert(used_values(*solution, variable_id).contains(v));
                    }
                    used.push(v);
                }
                proof {
                    assert forall|vv: StandardValue|
                        solution.doms()[ids@[i as int]].finite() && solution.doms()[
                        ids@[i as int]
                    ].len() == 1 && solution.doms()[ids@[i as int]].contains(vv)
                        implies used@.contains(vv) by {
                        match picked {
                            Option::Some(v) => {
                                assert(vv == v);
                            },
                            Option::None => {},
                        }
                    }
                }
            }
            i += 1;
        }
        let ghost usedset = used_values(*solution, variable_id);
        proof {
            assert(used@.to_set() =~= usedset) by {
                assert forall|v: StandardValue|
                    usedset.contains(v) implies used@.to_set().contains(v) by {
                    let u = choose|u: VariableId|
                        {
                            &&& #[trigger] solution.doms().dom().contains(u)
                            &&& u != variable_id
                            &&& solution.doms()[u].finite()
                            &&& solution.doms()[u].len() == 1
                            &&& solution.doms()[u].contains(v)
                        };
                    assert(ids@.to_set().contains(u));
                    let j = choose|j: int| 0 <= j < ids@.len() && ids@[j] == u;
                    assert(used@.contains(v));
                }
            }
        }
        let d = solution.get_domain(variable_id).unwrap();
        let vals = d.values();
        let preferred = sort_values(filter_retain(&vals, &used));
        let others = sort_values(filter_remove(&vals, &used));
        let ghost dom_set = solution.doms()[variable_id];
        let ghost pk = preferred@.len() as int;
        proof {
            assert(preferred@.to_set() == dom_set.intersect(usedset));
            assert(others@.to_set() == dom_set.difference(usedset));
        }
        let mut out = preferred;
        let mut k: usize = 0;
        while k < others.len()
            invariant
                k <= others@.len(),
                out@ == preferred@ + others@.take(k as int),
            decreases others@.len() - k,
        {
            proof {
                assert(others@.take(k + 1) =~= others@.take(k as int).push(
                    others@[k as int],
                ));
                assert(preferred@ + others@.take(k + 1) =~= (preferred@ + others@.take(
                    k as int,
                )).push(others@[k as int]));
            }
            out.push(others[k]);
            k += 1;
        }
        proof {
            assert(others@.take(others@.len() as int) =~= others@);
            assert(out@ == preferred@ + others@);
            assert(out@.take(pk) =~= preferred@);
            assert(out@.skip(pk) =~= others@);
            // the two sections are disjoint, so the whole enumeration
            // is duplicate-free and covers the domain
            assert forall|a: int, b: int|
                0 <= a < preferred@.len() && 0 <= b < others@.len() implies preferred@[a]
                != others@[b] by {
                assert(preferred@.contains(preferred@[a]));
                assert(others@.contains(others@[b]));
                assert(preferred@.to_set().contains(preferred@[a]));
                assert(others@.to_set().contains(others@[b]));
            }
            vstd::seq_lib::lemma_no_dup_in_concat(preferred@, others@);
            assert(out@.to_set() =~= dom_set) by {
                assert forall|v: StandardValue|
                    out@.to_set().contains(v) == dom_set.contains(v) by {
                    if out@.contains(v) {
                        let j = choose|j: int| 0 <= j < out@.len() && out@[j] == v;
                        if j < pk {
                            assert(preferred@[j] == v);
                            assert(preferred@.contains(v));
                            assert(preferred@.to_set().contains(v));
                        } else {
                            assert(others@[j - pk] == v);
                            assert(others@.contains(v));
                            assert(others@.to_set().contains(v));
                        }
                    }
                    if dom_set.contains(v) {
                        if usedset.contains(v) {
                            assert(preferred@.to_set().contains(v));
                            let j = choose|j: int|
                                0 <= j < preferred@.len() && preferred@[j] == v;
                            assert(out@[j] == v);
                            assert(out@.contains(v));
                        } else {
                            assert(others@.to_set().contains(v));
                            let j = choose|j: int| 0 <= j < others@.len() && others@[j] == v;
                            assert(out@[pk + j] == v);
                            assert(out@.contains(v));
                        }
                    }
                }
            }
            // the witness split for the ordering rule
            assert(sorted_ascending(out@.take(pk)));
            assert(sorted_ascending(out@.skip(pk)));
            assert(out@.take(pk).to_set() == dom_set.intersect(usedset));
            assert(out@.skip(pk).to_set() == dom_set.difference(usedset));
        }
        out
    }
}

/// The catalogue of value heuristics a switching table can dispatch
/// to.
pub enum StandardValueHeuristic {
    /// The native iteration order.
    Identity(IdentityValueHeuristic),
    /// Ascending value order.
    DeterministicIdentity(DeterministicIdentityValueHeuristic),
    /// Already-used values first.
    PreferUsed(PreferUsedValuesHeuristic),
}

impl ValueOrderingHeuristic for StandardValueHeuristic {
    /// The wrapped heuristic's rule.
    open spec fn ordering_rule(
        &self,
        variable_id: VariableId,
        solution: Solution,
        r: Seq<StandardValue>,
    ) -> bool {
        match self {
            StandardValueHeuristic::Identity(h) => h.ordering_rule(variable_id, solution, r),
            StandardValueHeuristic::DeterministicIdentity(h) => h.ordering_rule(
                variable_id,
                solution,
                r,
            ),
            StandardValueHeuristic::PreferUsed(h) => h.ordering_rule(variable_id, solution, r),
        }
    }

    fn order_values(&self, variable_id: VariableId, solution: &Solution) -> (r: Vec<
        StandardValue,
    >) {
        match self {
            StandardValueHeuristic::Identity(h) => h.order_values(variable_id, solution),
            StandardValueHeuristic::DeterministicIdentity(h) => h.order_values(
                variable_id,
                solution,
            ),
            StandardValueHeuristic::PreferUsed(h) => h.order_values(variable_id, solution),
        }
    }
}

/// The first heuristic a switching table maps the given tag to.
pub open spec fn table_lookup(
    table: Seq<(u32, StandardValueHeuristic)>,
    tag: u32,
) -> Option<StandardValueHeuristic>
    decreases table.len(),
{
    if table.len() == 0 {
        None
    } else if table[0].0 == tag {
        Some(table[0].1)
    } else {
        table_lookup(table.skip(1), tag)
    }
}

/// The first matching entry of the table is what the lookup finds.
proof fn lemma_table_lookup_at(table: Seq<(u32, StandardValueHeuristic)>, tag: u32, i: int)
    requires
        0 <= i < table.len(),
        table[i].0 == tag,
        forall|j: int| 0 <= j < i ==> table[j].0 != tag,
    ensures
        table_lookup(table, tag) == Some(table[i].1),
    decreases i,
{
    if i > 0 {
        lemma_table_lookup_at(table.skip(1), tag, i - 1);
    }
}

/// A table with no matching entry finds nothing.
proof fn lemma_table_lookup_none(table: Seq<(u32, StandardValueHeuristic)>, tag: u32)
    requires
        forall|j: int| 0 <= j < table.len() ==> table[j].0 != tag,
    ensures
        table_lookup(table, tag) is None,
    decreases table.len(),
{
    if table.len() > 0 {
        lemma_table_lookup_none(table.skip(1), tag);
    }
}

/// Dispatches to a specific heuristic based on a variable's metadata
/// tag, with a default for variables whose tag is not in the table.
pub struct SwitchingValueHeuristic {
    /// Pairs of a metadata tag and the heuristic to use for variables
    /// carrying it.
    pub specific_heuristics: Vec<(u32, StandardValueHeuristic)>,
    /// The heuristic for variables with no matching tag.
    pub default_heuristic: StandardValueHeuristic,
}

impl SwitchingValueHeuristic {
    /// Creates a new switching heuristic from a tag table and a
    /// default.
    pub fn new(
        specific_heuristics: Vec<(u32, StandardValueHeuristic)>,
        default_heuristic: StandardValueHeuristic,
    ) -> (r: Self)
        ensures
            r.specific_heuristics == specific_heuristics,
            r.default_heuristic == default_heuristic,
    {
        SwitchingValueHeuristic { specific_heuristics, default_heuristic }
    }
}

impl ValueOrderingHeuristic for SwitchingValueHeuristic {
    /// The rule of whichever heuristic the variable's metadata tag
    /// dispatches to: the first table match, or the default when the
    /// tag is absent or unmatched.
    open spec fn ordering_rule(
        &self,
        variable_id: VariableId,
        solution: Solution,
        r: Seq<StandardValue>,
    ) -> bool {
        if solution.meta().dom().contains(variable_id) {
            match table_lookup(self.specific_heuristics@, solution.meta()[variable_id]) {
                Some(h) => h.ordering_rule(variable_id, solution, r),
                None => self.default_heuristic.ordering_rule(variable_id, solution, r),
            }
        } else {
            self.default_heuristic.ordering_rule(variable_id, solution, r)
        }
    }

    #[verifier::loop_isolation(false)]
    fn order_values(&self, variable_id: VariableId, solution: &Solution) -> (r: Vec<
        StandardValue,
    >) {
        let looked_up = solution.get_metadata(variable_id);
        if let Some(tag) = looked_up {
            let mut i: usize = 0;
            while i < self.specific_heuristics.len()
                invariant
                    i <= self.specific_heuristics@.len(),
                    forall|j: int| 0 <= j < i ==> self.specific_heuristics@[j].0 != tag,
                decreases self.specific_heuristics@.len() - i,
            {
                let entry = &self.specific_heuristics[i];
                if entry.0 == tag {
                    proof {
                        lemma_table_lookup_at(self.specific_heuristics@, tag, i as int);
                    }
                    return entry.1.order_values(variable_id, solution);
                }
                i += 1;
            }
            proof {
                lemma_table_lookup_none(self.specific_heuristics@, tag);
            }
        }
        self.default_heuristic.order_values(variable_id, solution)
    }
}

} // verus!
