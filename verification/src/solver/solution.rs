//! Solutions and domain representations.
//!
//! A `Solution` is a single, immutable state in the search space: a
//! persistent map from each variable to its current domain of candidate
//! values, plus a persistent map from each variable to its metadata tag.
//! Because the maps are persistent, a solution is cloned cheaply and a
//! prune produces a new snapshot sharing all unchanged entries.
//!
//! A domain is a finite set of candidate values, held either as a hash
//! set, an ordered set, or a contiguous integer range. All mutating
//! domain operations are value-returning: the receiver is unchanged.

use vstd::prelude::*;

use crate::solver::persist::{
    dm_clone, dm_get, dm_insert, dm_keys, domain_map_model, hash_set_model, hs_clone, hs_contains,
    hs_insert, hs_len, hs_new, hs_to_vec, meta_map_model, mm_clone, mm_get, ord_set_model,
    os_clone, os_contains, os_insert, os_len, os_new, os_to_vec,
};
use crate::solver::value::{sv_le, StandardValue};

verus! {

broadcast use vstd::seq_lib::lemma_seq_contains_after_push, Seq::<_>::lemma_push_to_set_commute;

/// The set of values an inclusive integer range stands for.
pub open spec fn range_set(lo: int, hi: int) -> Set<StandardValue> {
    Set::new(|v: StandardValue| v is Int && lo <= v->Int_0 <= hi)
}

/// The set of values between two bounds in the solver's value order.
pub open spec fn sv_interval(lo: StandardValue, hi: StandardValue) -> Set<StandardValue> {
    Set::new(|v: StandardValue| sv_le(lo, v) && sv_le(v, hi))
}

/// The value order is transitive.
pub proof fn lemma_sv_le_trans(a: StandardValue, b: StandardValue, c: StandardValue)
    requires
        sv_le(a, b),
        sv_le(b, c),
    ensures
        sv_le(a, c),
{
}

/// The value order is total.
pub proof fn lemma_sv_le_total(a: StandardValue, b: StandardValue)
    ensures
        sv_le(a, b) || sv_le(b, a),
{
}

/// The value order is antisymmetric.
pub proof fn lemma_sv_le_antisym(a: StandardValue, b: StandardValue)
    requires
        sv_le(a, b),
        sv_le(b, a),
    ensures
        a == b,
{
}

/// A finite set of one value that holds `x` is exactly `{x}`.
pub(crate) proof fn lemma_pinned_is_singleton(s: Set<StandardValue>, x: StandardValue)
    requires
        s.finite(),
        s.len() == 1,
        s.contains(x),
    ensures
        s == Set::empty().insert(x),
{
    assert(Set::empty().insert(x).subset_of(s));
    vstd::set_lib::lemma_subset_equality(Set::empty().insert(x), s);
}

/// An inclusive integer range holds exactly `hi - lo + 1` values.
pub proof fn lemma_range_set_card(lo: int, hi: int)
    requires
        lo <= hi,
        i64::MIN <= lo,
        hi <= i64::MAX,
    ensures
        range_set(lo, hi).finite(),
        range_set(lo, hi).len() == hi - lo + 1,
    decreases hi - lo,
{
    if lo == hi {
        assert(range_set(lo, hi) =~= Set::empty().insert(StandardValue::Int(lo as i64)));
    } else {
        lemma_range_set_card(lo, hi - 1);
        assert(range_set(lo, hi) =~= range_set(lo, hi - 1).insert(StandardValue::Int(hi as i64)));
    }
}


/// Pushing a fresh element keeps a sequence duplicate-free.
pub(crate) proof fn lemma_push_keeps_no_duplicates(s: Seq<StandardValue>, x: StandardValue)
    requires
        s.no_duplicates(),
        !s.contains(x),
    ensures
        s.push(x).no_duplicates(),
{
    let t = s.push(x);
    assert forall|a: int, b: int|
        0 <= a < t.len() && 0 <= b < t.len() && a != b implies t[a] != t[b] by {
        if a < s.len() && b < s.len() {
        } else if a == s.len() {
            assert(s.contains(s[b]) && t[a] == x);
        } else {
            assert(s.contains(s[a]) && t[b] == x);
        }
    }
}

/// In a duplicate-free sequence, a prefix does not hold the next
/// element.
pub(crate) proof fn lemma_no_dup_take_excludes(s: Seq<StandardValue>, i: int)
    requires
        s.no_duplicates(),
        0 <= i < s.len(),
    ensures
        !s.take(i).contains(s[i]),
{
    if s.take(i).contains(s[i]) {
        let j = choose|j: int| 0 <= j < s.take(i).len() && s.take(i)[j] == s[i];
        assert(s[j] == s[i]);
        assert(false);
    }
}

/// Whether a vector of values holds the given value.
#[verifier::loop_isolation(false)]
pub fn vec_contains(vals: &Vec<StandardValue>, x: &StandardValue) -> (r: bool)
    ensures
        r == vals@.contains(*x),
{
    let mut i: usize = 0;
    while i < vals.len()
        invariant
            i <= vals@.len(),
            forall|j: int| 0 <= j < i ==> vals@[j] != *x,
        decreases vals@.len() - i,
    {
        if vals[i] == *x {
            return true;
        }
        i += 1;
    }
    false
}

/// A domain backed by a persistent hash set: the general-purpose
/// representation when value order does not matter.
pub struct HashSetDomain(pub im::HashSet<StandardValue>);

impl HashSetDomain {
    /// Wraps a persistent hash set as a domain.
    pub fn new(values: im::HashSet<StandardValue>) -> (r: Self)
        ensures
            hash_set_model(r.0) == hash_set_model(values),
    {
        HashSetDomain(values)
    }
}

/// A domain backed by a persistent ordered set.
pub struct OrderedDomain(pub im::OrdSet<StandardValue>);

impl OrderedDomain {
    /// Wraps a persistent ordered set as a domain.
    pub fn new(values: im::OrdSet<StandardValue>) -> (r: Self)
        ensures
            ord_set_model(r.0) == ord_set_model(values),
    {
        OrderedDomain(values)
    }
}

/// A domain holding every integer between two inclusive endpoints.
///
/// Intersection of two ranges is constant-time; operations that punch
/// holes degrade the result to a discrete representation.
pub struct RangeDomain {
    /// The inclusive lower endpoint.
    pub min: i64,
    /// The inclusive upper endpoint.
    pub max: i64,
}

impl RangeDomain {
    /// The span bound: a range may hold at most `u32::MAX` values, so
    /// that its size fits a `usize` on every supported platform.
    pub open spec fn inv(self) -> bool {
        self.min <= self.max && self.max - self.min + 1 <= u32::MAX
    }

    /// The set of values the range stands for.
    pub open spec fn view_spec(self) -> Set<StandardValue> {
        range_set(self.min as int, self.max as int)
    }

    /// Creates a new inclusive range over the integers between `min`
    /// and `max`. Returns `None` when either endpoint is not an
    /// integer, when `min > max`, or when the range would hold more
    /// than `u32::MAX` values — the machine limit that keeps a
    /// range's size within `usize` on 32-bit targets, and its
    /// distance within `u64` over the full 64-bit span.
    pub fn new(min: StandardValue, max: StandardValue) -> (r: Option<Self>)
        ensures
            match r {
                Some(d) => {
                    &&& min is Int
                    &&& max is Int
                    &&& d.min == min->Int_0
                    &&& d.max == max->Int_0
                    &&& d.inv()
                },
                None => !match (min, max) {
                    (StandardValue::Int(a), StandardValue::Int(b)) => a <= b && b - a + 1
                        <= u32::MAX,
                    _ => false,
                },
            },
    {
        match (min, max) {
            (StandardValue::Int(a), StandardValue::Int(b)) => {
                if a <= b && (b as i128) - (a as i128) < (u32::MAX as i128) {
                    Some(RangeDomain { min: a, max: b })
                } else {
                    None
                }
            },
            _ => None,
        }
    }

    /// The lower endpoint.
    pub fn min_value(&self) -> (r: i64)
        ensures
            r == self.min,
    {
        self.min
    }

    /// The upper endpoint.
    pub fn max_value(&self) -> (r: i64)
        ensures
            r == self.max,
    {
        self.max
    }
}

/// A variable's domain, in one of the supported representations.
pub enum Domain {
    /// Backed by a persistent hash set.
    HashSet(HashSetDomain),
    /// Backed by a persistent ordered set.
    Ordered(OrderedDomain),
    /// A contiguous integer range.
    Range(RangeDomain),
}

impl View for Domain {
    type V = Set<StandardValue>;

    open spec fn view(&self) -> Set<StandardValue> {
        match self {
            Domain::HashSet(h) => hash_set_model(h.0),
            Domain::Ordered(o) => ord_set_model(o.0),
            Domain::Range(r) => r.view_spec(),
        }
    }
}

/// The uniform interface every domain representation offers. All
/// pruning operations are value-returning and leave the receiver
/// unchanged; their contracts speak of the set of values the domain
/// stands for.
pub trait DomainRepresentation: Sized + View<V = Set<StandardValue>> {
    /// The representation's internal well-formedness.
    spec fn inv(&self) -> bool;

    /// A well-formed domain stands for a finite set.
    proof fn lemma_view_finite(&self)
        requires
            self.inv(),
        ensures
            self@.finite(),
    ;

    /// The number of values in the domain.
    fn len(&self) -> (r: usize)
        requires
            self.inv(),
        ensures
            self@.finite(),
            r == self@.len(),
    ;

    /// Whether the domain holds no values.
    fn is_empty(&self) -> (r: bool)
        requires
            self.inv(),
        ensures
            self@.finite(),
            r == (self@.len() == 0),
    ;

    /// Whether the domain holds exactly one value.
    fn is_singleton(&self) -> (r: bool)
        requires
            self.inv(),
        ensures
            self@.finite(),
            r == (self@.len() == 1),
    ;

    /// The single value of a singleton domain, or `None`.
    fn get_singleton_value(&self) -> (r: Option<StandardValue>)
        requires
            self.inv(),
        ensures
            self@.finite(),
            r is Some <==> self@.len() == 1,
            match r {
                Some(v) => self@ == Set::empty().insert(v),
                None => true,
            },
    ;

    /// Whether the domain holds the given value.
    fn contains(&self, v: &StandardValue) -> (r: bool)
        requires
            self.inv(),
        ensures
            r == self@.contains(*v),
    ;

    /// Every value of the domain, each exactly once, in an unspecified
    /// order.
    fn values(&self) -> (r: Vec<StandardValue>)
        requires
            self.inv(),
        ensures
            r@.no_duplicates(),
            r@.to_set() == self@,
    ;

    /// A new domain without the listed values.
    fn remove_values(&self, rem: &Vec<StandardValue>) -> (r: Self)
        requires
            self.inv(),
        ensures
            r.inv(),
            r@ == self@.difference(rem@.to_set()),
    ;

    /// A new domain keeping only the listed values.
    fn retain_values(&self, keep: &Vec<StandardValue>) -> (r: Self)
        requires
            self.inv(),
        ensures
            r.inv(),
            r@ == self@.intersect(keep@.to_set()),
    ;

    /// A new domain keeping only the values between the two bounds in
    /// the solver's value order.
    fn restrict_to_bounds(&self, lo: &StandardValue, hi: &StandardValue) -> (r: Self)
        requires
            self.inv(),
        ensures
            r.inv(),
            r@ == self@.intersect(sv_interval(*lo, *hi)),
    ;

    /// The intersection of two domains. Equivalent regardless of which
    /// operand is the receiver; two ranges intersect in constant time.
    fn intersect(&self, other: &Self) -> (r: Self)
        requires
            self.inv(),
            other.inv(),
        ensures
            r.inv(),
            r@ == self@.intersect(other@),
    ;

    /// The least value of the domain in the solver's value order, or
    /// `None` when the domain is empty.
    fn get_min_value(&self) -> (r: Option<StandardValue>)
        requires
            self.inv(),
        ensures
            self@.finite(),
            r is Some <==> self@.len() != 0,
            match r {
                Some(m) => self@.contains(m) && forall|v: StandardValue|
                    self@.contains(v) ==> sv_le(m, v),
                None => true,
            },
    ;

    /// The greatest value of the domain in the solver's value order,
    /// or `None` when the domain is empty.
    fn get_max_value(&self) -> (r: Option<StandardValue>)
        requires
            self.inv(),
        ensures
            self@.finite(),
            r is Some <==> self@.len() != 0,
            match r {
                Some(m) => self@.contains(m) && forall|v: StandardValue|
                    self@.contains(v) ==> sv_le(v, m),
                None => true,
            },
    ;
}

/// A domain holding exactly one value.
pub fn singleton_domain(v: StandardValue) -> (r: Domain)
    ensures
        r.inv(),
        r@ == Set::empty().insert(v),
{
    let mut s = hs_new();
    hs_insert(&mut s, v);
    Domain::HashSet(HashSetDomain(s))
}

/// A domain holding no values.
pub fn empty_domain() -> (r: Domain)
    ensures
        r.inv(),
        r@ == Set::<StandardValue>::empty(),
{
    Domain::HashSet(HashSetDomain(hs_new()))
}

/// Builds a hash-set domain from a vector of values.
#[verifier::loop_isolation(false)]
fn hash_domain_from_vec(vals: &Vec<StandardValue>) -> (r: Domain)
    ensures
        r.inv(),
        r@ == vals@.to_set(),
{
    let mut s = hs_new();
    let mut i: usize = 0;
    while i < vals.len()
        invariant
            i <= vals@.len(),
            hash_set_model(s).finite(),
            hash_set_model(s) == vals@.take(i as int).to_set(),
        decreases vals@.len() - i,
    {
        let ghost prev = hash_set_model(s);
        hs_insert(&mut s, vals[i]);
        proof {
            assert(vals@.take(i + 1) =~= vals@.take(i as int).push(vals@[i as int]));
            assert(vals@.take(i + 1).to_set() =~= prev.insert(vals@[i as int]));
        }
        i += 1;
    }
    proof {
        assert(vals@.take(vals@.len() as int) =~= vals@);
    }
    Domain::HashSet(HashSetDomain(s))
}

/// Builds an ordered domain from a vector of values.
#[verifier::loop_isolation(false)]
fn ord_domain_from_vec(vals: &Vec<StandardValue>) -> (r: Domain)
    ensures
        r.inv(),
        r@ == vals@.to_set(),
{
    let mut s = os_new();
    let mut i: usize = 0;
    while i < vals.len()
        invariant
            i <= vals@.len(),
            ord_set_model(s).finite(),
            ord_set_model(s) == vals@.take(i as int).to_set(),
        decreases vals@.len() - i,
    {
        let ghost prev = ord_set_model(s);
        os_insert(&mut s, vals[i]);
        proof {
            assert(vals@.take(i + 1) =~= vals@.take(i as int).push(vals@[i as int]));
            assert(vals@.take(i + 1).to_set() =~= prev.insert(vals@[i as int]));
        }
        i += 1;
    }
    proof {
        assert(vals@.take(vals@.len() as int) =~= vals@);
    }
    Domain::Ordered(OrderedDomain(s))
}

/// Keeps the values of `vals` not listed in `rem`.
#[verifier::loop_isolation(false)]
pub(crate) fn filter_remove(vals: &Vec<StandardValue>, rem: &Vec<StandardValue>) -> (r: Vec<StandardValue>)
    requires
        vals@.no_duplicates(),
    ensures
        r@.no_duplicates(),
        r@.to_set() == vals@.to_set().difference(rem@.to_set()),
{
    let mut out: Vec<StandardValue> = Vec::new();
    let mut i: usize = 0;
    while i < vals.len()
        invariant
            i <= vals@.len(),
            out@.no_duplicates(),
            out@.to_set() == vals@.take(i as int).to_set().difference(rem@.to_set()),
        decreases vals@.len() - i,
    {
        let ghost prev = out@;
        let ghost x = vals@[i as int];
        proof {
            lemma_no_dup_take_excludes(vals@, i as int);
            assert(vals@.take(i + 1) == vals@.take(i as int).push(x)) by {
                assert(vals@.take(i + 1) =~= vals@.take(i as int).push(x));
            }
        }
        if !vec_contains(rem, &vals[i]) {
            proof {
                assert(!prev.contains(x)) by {
                    if prev.contains(x) {
                        assert(prev.to_set().contains(x));
                        assert(vals@.take(i as int).to_set().contains(x));
                        assert(vals@.take(i as int).contains(x));
                    }
                }
                lemma_push_keeps_no_duplicates(prev, x);
            }
            out.push(vals[i]);
        }
        proof {
            assert(out@.to_set() =~= vals@.take(i + 1).to_set().difference(rem@.to_set()));
        }
        i += 1;
    }
    proof {
        assert(vals@.take(vals@.len() as int) == vals@) by {
            assert(vals@.take(vals@.len() as int) =~= vals@);
        }
    }
    out
}

/// Keeps the values of `vals` that are listed in `keep`.
#[verifier::loop_isolation(false)]
pub(crate) fn filter_retain(vals: &Vec<StandardValue>, keep: &Vec<StandardValue>) -> (r: Vec<StandardValue>)
    requires
        vals@.no_duplicates(),
    ensures
        r@.no_duplicates(),
        r@.to_set() == vals@.to_set().intersect(keep@.to_set()),
{
    let mut out: Vec<StandardValue> = Vec::new();
    let mut i: usize = 0;
    while i < vals.len()
        invariant
            i <= vals@.len(),
            out@.no_duplicates(),
            out@.to_set() == vals@.take(i as int).to_set().intersect(keep@.to_set()),
        decreases vals@.len() - i,
    {
        let ghost prev = out@;
        let ghost x = vals@[i as int];
        proof {
            lemma_no_dup_take_excludes(vals@, i as int);
            assert(vals@.take(i + 1) == vals@.take(i as int).push(x)) by {
                assert(vals@.take(i + 1) =~= vals@.take(i as int).push(x));
            }
        }
        if vec_contains(keep, &vals[i]) {
            proof {
                assert(!prev.contains(x)) by {
                    if prev.contains(x) {
                        assert(prev.to_set().contains(x));
                        assert(vals@.take(i as int).to_set().contains(x));
                        assert(vals@.take(i as int).contains(x));
                    }
                }
                lemma_push_keeps_no_duplicates(prev, x);
            }
            out.push(vals[i]);
        }
        proof {
            assert(out@.to_set() =~= vals@.take(i + 1).to_set().intersect(keep@.to_set()));
        }
        i += 1;
    }
    proof {
        assert(vals@.take(vals@.len() as int) == vals@) by {
            assert(vals@.take(vals@.len() as int) =~= vals@);
        }
    }
    out
}

/// Keeps the values of `vals` between the two bounds in the value
/// order.
#[verifier::loop_isolation(false)]
fn filter_bounds(vals: &Vec<StandardValue>, lo: &StandardValue, hi: &StandardValue) -> (r: Vec<
    StandardValue,
>)
    requires
        vals@.no_duplicates(),
    ensures
        r@.no_duplicates(),
        r@.to_set() == vals@.to_set().intersect(sv_interval(*lo, *hi)),
{
    let mut out: Vec<StandardValue> = Vec::new();
    let mut i: usize = 0;
    while i < vals.len()
        invariant
            i <= vals@.len(),
            out@.no_duplicates(),
            out@.to_set() == vals@.take(i as int).to_set().intersect(sv_interval(*lo, *hi)),
        decreases vals@.len() - i,
    {
        let ghost prev = out@;
        let ghost x = vals@[i as int];
        proof {
            lemma_no_dup_take_excludes(vals@, i as int);
            assert(vals@.take(i + 1) == vals@.take(i as int).push(x)) by {
                assert(vals@.take(i + 1) =~= vals@.take(i as int).push(x));
            }
        }
        if lo.leq(&vals[i]) && vals[i].leq(hi) {
            proof {
                assert(!prev.contains(x)) by {
                    if prev.contains(x) {
                        assert(prev.to_set().contains(x));
                        assert(vals@.take(i as int).to_set().contains(x));
                        assert(vals@.take(i as int).contains(x));
                    }
                }
                lemma_push_keeps_no_duplicates(prev, x);
            }
            out.push(vals[i]);
        }
        proof {
            assert(out@.to_set() =~= vals@.take(i + 1).to_set().intersect(sv_interval(*lo, *hi)));
        }
        i += 1;
    }
    proof {
        assert(vals@.take(vals@.len() as int) == vals@) by {
            assert(vals@.take(vals@.len() as int) =~= vals@);
        }
    }
    out
}

/// Keeps the values of `vals` that the other domain also holds.
#[verifier::loop_isolation(false)]
fn filter_member(vals: &Vec<StandardValue>, other: &Domain) -> (r: Vec<StandardValue>)
    requires
        vals@.no_duplicates(),
        other.inv(),
    ensures
        r@.no_duplicates(),
        r@.to_set() == vals@.to_set().intersect(other@),
{
    let mut out: Vec<StandardValue> = Vec::new();
    let mut i: usize = 0;
    while i < vals.len()
        invariant
            i <= vals@.len(),
            out@.no_duplicates(),
            out@.to_set() == vals@.take(i as int).to_set().intersect(other@),
        decreases vals@.len() - i,
    {
        let ghost prev = out@;
        let ghost x = vals@[i as int];
        proof {
            lemma_no_dup_take_excludes(vals@, i as int);
            assert(vals@.take(i + 1) == vals@.take(i as int).push(x)) by {
                assert(vals@.take(i + 1) =~= vals@.take(i as int).push(x));
            }
        }
        if other.contains(&vals[i]) {
            proof {
                assert(!prev.contains(x)) by {
                    if prev.contains(x) {
                        assert(prev.to_set().contains(x));
                        assert(vals@.take(i as int).to_set().contains(x));
                        assert(vals@.take(i as int).contains(x));
                    }
                }
                lemma_push_keeps_no_duplicates(prev, x);
            }
            out.push(vals[i]);
        }
        proof {
            assert(out@.to_set() =~= vals@.take(i + 1).to_set().intersect(other@));
        }
        i += 1;
    }
    proof {
        assert(vals@.take(vals@.len() as int) == vals@) by {
            assert(vals@.take(vals@.len() as int) =~= vals@);
        }
    }
    out
}

/// The values of an inclusive integer range, in ascending order.
#[verifier::loop_isolation(false)]
fn range_values(min: i64, max: i64) -> (r: Vec<StandardValue>)
    requires
        min <= max,
        max - min + 1 <= u32::MAX,
    ensures
        r@.no_duplicates(),
        r@.to_set() == range_set(min as int, max as int),
{
    let count: usize = (((max as i128) - (min as i128)) as u64 as usize) + 1;
    let mut out: Vec<StandardValue> = Vec::new();
    let mut k: usize = 0;
    while k < count
        invariant
            count == max - min + 1,
            min <= max,
            k <= count,
            out@.len() == k,
            forall|j: int| 0 <= j < k ==> out@[j] == StandardValue::Int((min + j) as i64),
        decreases count - k,
    {
        out.push(StandardValue::Int(min + (k as i64)));
        k += 1;
    }
    proof {
        assert forall|a: int, b: int| 0 <= a < b < out@.len() implies out@[a] != out@[b] by {
            assert(out@[a] == StandardValue::Int((min + a) as i64));
            assert(out@[b] == StandardValue::Int((min + b) as i64));
        }
        assert(out@.to_set() =~= range_set(min as int, max as int)) by {
            assert forall|v: StandardValue|
                range_set(min as int, max as int).contains(v) implies out@.to_set().contains(
                v,
            ) by {
                let j = v->Int_0 - min;
                assert(out@[j] == v);
                assert(out@.contains(v));
            }
        }
    }
    out
}

impl DomainRepresentation for Domain {
    open spec fn inv(&self) -> bool {
        match self {
            Domain::HashSet(h) => hash_set_model(h.0).finite(),
            Domain::Ordered(o) => ord_set_model(o.0).finite(),
            Domain::Range(r) => r.inv(),
        }
    }

    proof fn lemma_view_finite(&self) {
        match self {
            Domain::HashSet(h) => {},
            Domain::Ordered(o) => {},
            Domain::Range(r) => {
                lemma_range_set_card(r.min as int, r.max as int);
            },
        }
    }

    fn len(&self) -> (r: usize) {
        proof {
            self.lemma_view_finite();
        }
        match self {
            Domain::HashSet(h) => hs_len(&h.0),
            Domain::Ordered(o) => os_len(&o.0),
            Domain::Range(r) => {
                proof {
                    lemma_range_set_card(r.min as int, r.max as int);
                }
                (((r.max as i128) - (r.min as i128)) as u64 as usize) + 1
            },
        }
    }

    fn is_empty(&self) -> (r: bool) {
        self.len() == 0
    }

    fn is_singleton(&self) -> (r: bool) {
        self.len() == 1
    }

    fn get_singleton_value(&self) -> (r: Option<StandardValue>) {
        if self.len() == 1 {
            let vals = self.values();
            proof {
                vals@.unique_seq_to_set();
            }
            let v = vals[0];
            proof {
                assert(self@.contains(v));
                vstd::set_lib::lemma_subset_equality(Set::empty().insert(v), self@);
            }
            Some(v)
        } else {
            None
        }
    }

    fn contains(&self, v: &StandardValue) -> (r: bool) {
        match self {
            Domain::HashSet(h) => hs_contains(&h.0, v),
            Domain::Ordered(o) => os_contains(&o.0, v),
            Domain::Range(r) => match v {
                StandardValue::Int(j) => r.min <= *j && *j <= r.max,
                _ => false,
            },
        }
    }

    fn values(&self) -> (r: Vec<StandardValue>) {
        match self {
            Domain::HashSet(h) => hs_to_vec(&h.0),
            Domain::Ordered(o) => os_to_vec(&o.0),
            Domain::Range(r) => range_values(r.min, r.max),
        }
    }

    fn remove_values(&self, rem: &Vec<StandardValue>) -> (r: Domain) {
        let vals = self.values();
        let kept = filter_remove(&vals, rem);
        match self {
            Domain::Ordered(_) => ord_domain_from_vec(&kept),
            _ => hash_domain_from_vec(&kept),
        }
    }

    fn retain_values(&self, keep: &Vec<StandardValue>) -> (r: Domain) {
        let vals = self.values();
        let kept = filter_retain(&vals, keep);
        match self {
            Domain::Ordered(_) => ord_domain_from_vec(&kept),
            _ => hash_domain_from_vec(&kept),
        }
    }

    fn restrict_to_bounds(&self, lo: &StandardValue, hi: &StandardValue) -> (r: Domain) {
        if let Domain::Range(rd) = self {
            if let (StandardValue::Int(a), StandardValue::Int(b)) = (lo, hi) {
                let new_min = if *a > rd.min {
                    *a
                } else {
                    rd.min
                };
                let new_max = if *b < rd.max {
                    *b
                } else {
                    rd.max
                };
                if new_min <= new_max {
                    let r = Domain::Range(RangeDomain { min: new_min, max: new_max });
                    proof {
                        assert(r@ =~= self@.intersect(sv_interval(*lo, *hi)));
                    }
                    return r;
                } else {
                    let r = empty_domain();
                    proof {
                        assert(r@ =~= self@.intersect(sv_interval(*lo, *hi)));
                    }
                    return r;
                }
            }
        }
        let vals = self.values();
        let kept = filter_bounds(&vals, lo, hi);
        match self {
            Domain::Ordered(_) => ord_domain_from_vec(&kept),
            _ => hash_domain_from_vec(&kept),
        }
    }

    fn intersect(&self, other: &Domain) -> (r: Domain) {
        if let (Domain::Range(r1), Domain::Range(r2)) = (self, other) {
            let new_min = if r2.min > r1.min {
                r2.min
            } else {
                r1.min
            };
            let new_max = if r2.max < r1.max {
                r2.max
            } else {
                r1.max
            };
            if new_min <= new_max {
                let r = Domain::Range(RangeDomain { min: new_min, max: new_max });
                proof {
                    assert(r@ =~= self@.intersect(other@));
                }
                return r;
            } else {
                let r = empty_domain();
                proof {
                    assert(r@ =~= self@.intersect(other@));
                }
                return r;
            }
        }
        let vals = self.values();
        let kept = filter_member(&vals, other);
        match self {
            Domain::Ordered(_) => ord_domain_from_vec(&kept),
            _ => hash_domain_from_vec(&kept),
        }
    }

    #[verifier::loop_isolation(false)]
    fn get_min_value(&self) -> (r: Option<StandardValue>) {
        if let Domain::Range(rd) = self {
            proof {
                lemma_range_set_card(rd.min as int, rd.max as int);
            }
            return Some(StandardValue::Int(rd.min));
        }
        let vals = self.values();
        proof {
            vals@.unique_seq_to_set();
        }
        if vals.len() == 0 {
            return None;
        }
        let mut best = vals[0];
        let mut i: usize = 1;
        while i < vals.len()
            invariant
                1 <= i <= vals@.len(),
                vals@.contains(best),
                forall|j: int| 0 <= j < i ==> sv_le(best, vals@[j]),
            decreases vals@.len() - i,
        {
            proof {
                lemma_sv_le_total(best, vals@[i as int]);
            }
            if vals[i].leq(&best) {
                proof {
                    assert forall|j: int| 0 <= j < i + 1 implies sv_le(
                        vals@[i as int],
                        vals@[j],
                    ) by {
                        if j < i {
                            lemma_sv_le_trans(vals@[i as int], best, vals@[j]);
                        }
                    }
                }
                best = vals[i];
            }
            i += 1;
        }
        proof {
            assert forall|v: StandardValue| self@.contains(v) implies sv_le(best, v) by {
                assert(vals@.contains(v));
                let j = choose|j: int| 0 <= j < vals@.len() && vals@[j] == v;
                assert(sv_le(best, vals@[j]));
            }
        }
        Some(best)
    }

    #[verifier::loop_isolation(false)]
    fn get_max_value(&self) -> (r: Option<StandardValue>) {
        if let Domain::Range(rd) = self {
            proof {
                lemma_range_set_card(rd.min as int, rd.max as int);
            }
            return Some(StandardValue::Int(rd.max));
        }
        let vals = self.values();
        proof {
            vals@.unique_seq_to_set();
        }
        if vals.len() == 0 {
            return None;
        }
        let mut best = vals[0];
        let mut i: usize = 1;
        while i < vals.len()
            invariant
                1 <= i <= vals@.len(),
                vals@.contains(best),
                forall|j: int| 0 <= j < i ==> sv_le(vals@[j], best),
            decreases vals@.len() - i,
        {
            proof {
                lemma_sv_le_total(vals@[i as int], best);
            }
            if best.leq(&vals[i]) {
                proof {
                    assert forall|j: int| 0 <= j < i + 1 implies sv_le(
                        vals@[j],
                        vals@[i as int],
                    ) by {
                        if j < i {
                            lemma_sv_le_trans(vals@[j], best, vals@[i as int]);
                        }
                    }
                }
                best = vals[i];
            }
            i += 1;
        }
        proof {
            assert forall|v: StandardValue| self@.contains(v) implies sv_le(v, best) by {
                assert(vals@.contains(v));
                let j = choose|j: int| 0 <= j < vals@.len() && vals@[j] == v;
                assert(sv_le(vals@[j], best));
            }
        }
        Some(best)
    }
}

impl Clone for Domain {
    /// The clone stands for the same set of values, through structural
    /// sharing of the underlying persistent collection.
    fn clone(&self) -> (r: Self)
        ensures
            r@ == self@,
            r.inv() == self.inv(),
    {
        match self {
            Domain::HashSet(h) => Domain::HashSet(HashSetDomain(hs_clone(&h.0))),
            Domain::Ordered(o) => Domain::Ordered(OrderedDomain(os_clone(&o.0))),
            Domain::Range(r) => Domain::Range(RangeDomain { min: r.min, max: r.max }),
        }
    }
}

/// A single, immutable state in the search space: every variable's
/// current domain, and every variable's metadata tag.
pub struct Solution {
    /// A map from each variable to its current domain.
    pub domains: im::HashMap<u32, Domain>,
    /// A map from each variable to its metadata tag. The engine never
    /// consults metadata; only heuristics do.
    pub variable_metadata: im::HashMap<u32, u32>,
}

impl Solution {
    /// The map from variable to domain representation.
    pub open spec fn dmap(self) -> Map<u32, Domain> {
        domain_map_model(self.domains)
    }

    /// The map from variable to the set of values its domain stands
    /// for.
    pub open spec fn doms(self) -> Map<u32, Set<StandardValue>> {
        Map::new(
            |k: u32| domain_map_model(self.domains).dom().contains(k),
            |k: u32| domain_map_model(self.domains)[k]@,
        )
    }

    /// The map from variable to metadata tag.
    pub open spec fn meta(self) -> Map<u32, u32> {
        meta_map_model(self.variable_metadata)
    }

    /// Well-formedness: finitely many variables, each with a
    /// well-formed domain.
    pub open spec fn wf(self) -> bool {
        &&& self.dmap().dom().finite()
        &&& forall|k: u32| #[trigger]
            self.dmap().dom().contains(k) ==> self.dmap()[k].inv()
    }

    /// Completeness: every variable's domain holds exactly one value.
    pub open spec fn complete(self) -> bool {
        forall|k: u32| #[trigger] self.doms().dom().contains(k) ==> self.doms()[k].len() == 1
    }

    /// In a well-formed solution every domain stands for a finite
    /// set.
    pub proof fn lemma_wf_doms_finite(self)
        requires
            self.wf(),
        ensures
            forall|v: u32| #[trigger] self.doms().dom().contains(v) ==> self.doms()[v].finite(),
    {
        assert forall|v: u32| #[trigger] self.doms().dom().contains(v) implies self.doms()[v].finite() by {
            self.dmap()[v].lemma_view_finite();
        }
    }

    /// Creates a new solution from a set of domains and variable
    /// metadata.
    pub fn new(domains: im::HashMap<u32, Domain>, variable_metadata: im::HashMap<u32, u32>) -> (r:
        Solution)
        ensures
            r.dmap() == domain_map_model(domains),
            r.meta() == meta_map_model(variable_metadata),
    {
        Solution { domains, variable_metadata }
    }

    /// A solution with the same metadata, but a new set of domains.
    /// Cheap, through structural sharing.
    pub fn clone_with_domains(&self, domains: im::HashMap<u32, Domain>) -> (r: Solution)
        ensures
            r.dmap() == domain_map_model(domains),
            r.meta() == self.meta(),
    {
        Solution { domains, variable_metadata: mm_clone(&self.variable_metadata) }
    }

    /// A cheap structural-sharing copy of the whole solution.
    pub fn duplicate(&self) -> (r: Solution)
        ensures
            r.dmap() == self.dmap(),
            r.meta() == self.meta(),
    {
        Solution {
            domains: dm_clone(&self.domains),
            variable_metadata: mm_clone(&self.variable_metadata),
        }
    }

    /// The domain of the given variable, if the variable exists.
    pub fn get_domain<'a>(&'a self, v: u32) -> (r: Option<&'a Domain>)
        ensures
            match r {
                Some(d) => self.dmap().dom().contains(v) && *d == self.dmap()[v],
                None => !self.dmap().dom().contains(v),
            },
    {
        dm_get(&self.domains, v)
    }

    /// A new solution in which the given variable has the given
    /// domain; all other entries are shared with the receiver.
    pub fn set_domain(&self, v: u32, d: Domain) -> (r: Solution)
        ensures
            r.dmap() == self.dmap().insert(v, d),
            r.meta() == self.meta(),
    {
        let mut m = dm_clone(&self.domains);
        dm_insert(&mut m, v, d);
        self.clone_with_domains(m)
    }

    /// Every variable of the solution, each exactly once, in an
    /// unspecified order.
    pub fn variable_ids(&self) -> (r: Vec<u32>)
        ensures
            r@.no_duplicates(),
            r@.to_set() == self.dmap().dom(),
            self.dmap().dom().finite(),
    {
        let r = dm_keys(&self.domains);
        proof {
            vstd::seq_lib::seq_to_set_is_finite(r@);
        }
        r
    }

    /// The metadata tag of the given variable, if any.
    pub fn get_metadata(&self, v: u32) -> (r: Option<u32>)
        ensures
            match r {
                Some(t) => self.meta().dom().contains(v) && t == self.meta()[v],
                None => !self.meta().dom().contains(v),
            },
    {
        mm_get(&self.variable_metadata, v)
    }

    /// Whether every variable's domain has been pruned to a single
    /// value.
    #[verifier::loop_isolation(false)]
    pub fn is_complete(&self) -> (r: bool)
        requires
            self.wf(),
        ensures
            r == self.complete(),
    {
        let ids = self.variable_ids();
        let mut i: usize = 0;
        while i < ids.len()
            invariant
                self.wf(),
                i <= ids@.len(),
                ids@.no_duplicates(),
                ids@.to_set() == self.dmap().dom(),
                forall|j: int| 0 <= j < i ==> self.doms()[ids@[j]].len() == 1,
            decreases ids@.len() - i,
        {
            let id = ids[i];
            proof {
                assert(ids@.contains(id));
                assert(self.dmap().dom().contains(id));
            }
            let d = self.get_domain(id).unwrap();
            if !d.is_singleton() {
                proof {
                    assert(self.doms().dom().contains(id));
                    assert(self.doms()[id].len() != 1);
                }
                return false;
            }
            i += 1;
        }
        proof {
            assert forall|k: u32| self.doms().dom().contains(k) implies self.doms()[k].len()
                == 1 by {
                assert(ids@.to_set().contains(k));
                let j = choose|j: int| 0 <= j < ids@.len() && ids@[j] == k;
                assert(self.doms()[ids@[j]].len() == 1);
            }
        }
        true
    }
}

} // verus!
