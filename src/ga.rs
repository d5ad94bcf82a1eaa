//! Genetic-algorithm pieces: parent selection strategies, the result of
//! non-dominated sorting, and permutation crossover.
use vstd::prelude::*;
use vstd::relations::injective_on;
use vstd::set_lib::{lemma_int_range, lemma_map_size, lemma_len_subset, lemma_subset_equality, set_int_range};

verus! {

/// How parents are chosen; fitness is minimized.
#[derive(Debug, Clone, Copy, PartialEq, Eq, Structural)]
pub enum Selection {
    /// Draw `k` individuals, keep the best.
    Tournament(usize),
    /// Fitness-proportionate choice on inverted fitness.
    Roulette,
    /// Linear ranking.
    Rank,
}

impl Default for Selection {
    /// Tournaments of three.
    fn default() -> (r: Self)
        ensures
            r == Selection::Tournament(3),
    {
        Selection::Tournament(3)
    }
}

/// Pareto ranks of a population: `ranks[i]` is the front of individual
/// `i` (0 is the non-dominated front) and `fronts[k]` lists the indices of
/// front `k`.
#[derive(Debug, Clone)]
pub struct NondominatedSortResult {
    /// Pareto rank of each individual.
    pub ranks: Vec<usize>,
    /// Indices grouped by front.
    pub fronts: Vec<Vec<usize>>,
}


/// `s` holds each of `0 .. s.len()` exactly once.
pub open spec fn is_permutation(s: Seq<usize>) -> bool {
    &&& forall|i: int| 0 <= i < s.len() ==> #[trigger] s[i] < s.len()
    &&& forall|i: int, j: int| 0 <= i < s.len() && 0 <= j < s.len() && i != j ==> s[i] != s[j]
    &&& forall|v: usize| v < s.len() ==> #[trigger] occurs(s, v)
}

/// `v` stands somewhere in `s`.
pub open spec fn occurs(s: Seq<usize>, v: usize) -> bool {
    exists|i: int| 0 <= i < s.len() && s[i] == v
}

/// `v` stands in `t` at a position of `[start, end]`.
pub open spec fn in_segment(t: Seq<usize>, start: int, end: int, v: usize) -> bool {
    exists|i: int| start <= i <= end && t[i] == v
}

/// The `k`-th position after `end`, wrapping around a sequence of length `n`.
pub open spec fn after(n: int, end: int, k: int) -> int {
    (end + 1 + k) % n
}

/// `donor` read from the position after `end`, wrapping around.
pub open spec fn rotated(donor: Seq<usize>, end: int) -> Seq<usize> {
    Seq::new(donor.len(), |k: int| donor[after(donor.len() as int, end, k)])
}

/// The values that an order-crossover child takes from `donor`: those
/// outside `template[start..=end]`, in the donor's order from the position
/// after `end`, wrapping around.
pub open spec fn ox_fill(template: Seq<usize>, donor: Seq<usize>, start: int, end: int) -> Seq<usize> {
    rotated(donor, end).filter(|v: usize| !in_segment(template, start, end, v))
}

/// `child` is the order-crossover child of `template` and `donor` for the
/// segment `[start, end]`: the segment comes from `template`; the other
/// positions, from the one after `end` onward and wrapping around, take
/// [`ox_fill`] in order; and the child is a permutation.
pub open spec fn is_ox_child(template: Seq<usize>, donor: Seq<usize>, start: int, end: int, child: Seq<usize>) -> bool {
    &&& child.len() == template.len()
    &&& forall|i: int| start <= i <= end ==> child[i] == template[i]
    &&& ox_fill(template, donor, start, end).len() == template.len() - (end - start + 1)
    &&& forall|k: int| 0 <= k < ox_fill(template, donor, start, end).len() ==> child[after(template.len() as int, end, k)]
        == #[trigger] ox_fill(template, donor, start, end)[k]
    &&& is_permutation(child)
}

proof fn lemma_after_value(n: int, end: int, k: int)
    requires
        0 <= end < n,
        0 <= k < n,
    ensures
        after(n, end, k) == if end + 1 + k < n {
            end + 1 + k
        } else {
            end + 1 + k - n
        },
{
    if end + 1 + k < n {
        vstd::arithmetic::div_mod::lemma_fundamental_div_mod_converse(end + 1 + k, n, 0, end + 1 + k);
    } else {
        vstd::arithmetic::div_mod::lemma_fundamental_div_mod_converse(end + 1 + k, n, 1, end + 1 + k - n);
    }
}

proof fn lemma_after_next(n: int, end: int, k: int)
    requires
        0 <= end < n,
        0 <= k,
    ensures
        after(n, end, k + 1) == if after(n, end, k) + 1 == n {
            0
        } else {
            after(n, end, k) + 1
        },
{
    let x = end + 1 + k;
    vstd::arithmetic::div_mod::lemma_fundamental_div_mod(x, n);
    vstd::arithmetic::div_mod::lemma_mod_bound(x, n);
    let q = x / n;
    let r = x % n;
    assert(x == q * n + r) by (nonlinear_arith)
        requires
            x == n * q + r,
    ;
    if r + 1 < n {
        vstd::arithmetic::div_mod::lemma_fundamental_div_mod_converse(x + 1, n, q, r + 1);
    } else {
        assert(x + 1 == (q + 1) * n + 0) by (nonlinear_arith)
            requires
                x == q * n + r,
                r + 1 == n,
        ;
        vstd::arithmetic::div_mod::lemma_fundamental_div_mod_converse(x + 1, n, q + 1, 0);
    }
}

/// A position outside `[start, end]` is reached after `end` within the
/// first `n - (end - start + 1)` steps.
proof fn lemma_outside_is_after(n: int, start: int, end: int, p: int) -> (k: int)
    requires
        0 <= start <= end < n,
        0 <= p < n,
        !(start <= p <= end),
    ensures
        0 <= k < n - (end - start + 1),
        after(n, end, k) == p,
{
    let k = if p > end { p - end - 1 } else { p + n - end - 1 };
    lemma_after_value(n, end, k);
    k
}

/// The first `n - (end - start + 1)` steps after `end` stay outside
/// `[start, end]`, and distinct steps reach distinct positions.
proof fn lemma_after_outside(n: int, start: int, end: int, k: int)
    requires
        0 <= start <= end < n,
        0 <= k < n - (end - start + 1),
    ensures
        0 <= after(n, end, k) < n,
        !(start <= after(n, end, k) <= end),
{
    lemma_after_value(n, end, k);
}

proof fn lemma_after_injective(n: int, end: int, k1: int, k2: int)
    requires
        0 <= end < n,
        0 <= k1 < n,
        0 <= k2 < n,
        k1 != k2,
    ensures
        after(n, end, k1) != after(n, end, k2),
        0 <= after(n, end, k1) < n,
{
    lemma_after_value(n, end, k1);
    lemma_after_value(n, end, k2);
}

/// The values of `0 .. n` outside `template[start..=end]` number
/// `n - (end - start + 1)`.
proof fn lemma_outside_count(template: Seq<usize>, start: int, end: int)
    requires
        is_permutation(template),
        0 <= start <= end < template.len(),
    ensures
        Set::new(|v: usize| v < template.len() && !in_segment(template, start, end, v)).finite(),
        Set::new(|v: usize| v < template.len() && !in_segment(template, start, end, v)).len()
            == template.len() - (end - start + 1),
{
    let n = template.len() as int;
    let u = Set::new(|v: usize| v < n && !in_segment(template, start, end, v));
    let lo = set_int_range(0, start);
    let hi = set_int_range(end + 1, n);
    lemma_int_range(0, start);
    lemma_int_range(end + 1, n);
    assert(lo.disjoint(hi));
    vstd::set_lib::lemma_set_disjoint_lens(lo, hi);
    let o = lo + hi;
    let f = |i: int| template[i];
    assert(injective_on(f, o)) by {
        assert forall|x1: int, x2: int| o.contains(x1) && o.contains(x2) && #[trigger] f(x1) == #[trigger] f(x2) implies x1 == x2 by {
        }
    }
    assert(o.map(f) =~= u) by {
        assert forall|v: usize| #[trigger] u.contains(v) implies o.map(f).contains(v) by {
            assert(occurs(template, v));
            let i = choose|i: int| 0 <= i < n && template[i] == v;
            assert(!(start <= i <= end));
            assert(o.contains(i));
            assert(f(i) == v);
        }
        assert forall|v: usize| o.map(f).contains(v) implies #[trigger] u.contains(v) by {
            let i = choose|i: int| o.contains(i) && f(i) == v;
            if in_segment(template, start, end, v) {
                let j = choose|j: int| start <= j <= end && template[j] == v;
                assert(i != j);
            }
        }
    }
    lemma_map_size(o, u, f);
}

/// Builds one order-crossover child: positions `start..=end` come from
/// `template`; the others, from the position after `end` onward and
/// wrapping around, take the values of `donor` that are not in that
/// segment, in the donor's order from the position after `end`.
pub fn ox_build_child(template: &[usize], donor: &[usize], start: usize, end: usize) -> (child: Vec<usize>)
    requires
        is_permutation(template@),
        is_permutation(donor@),
        donor@.len() == template@.len(),
        start <= end < template@.len(),
    ensures
        is_ox_child(template@, donor@, start as int, end as int, child@),
{
    let n = template.len();
    let ghost t = template@;
    let ghost d = donor@;
    let ghost s = start as int;
    let ghost e = end as int;
    let ghost p = |v: usize| !in_segment(t, s, e, v);
    let ghost rot = rotated(d, e);
    let ghost u = Set::new(|v: usize| v < n && !in_segment(t, s, e, v));
    proof {
        lemma_outside_count(t, s, e);
    }
    let mut child: Vec<usize> = Vec::new();
    let mut in_seg: Vec<bool> = Vec::new();
    let mut i: usize = 0;
    while i < n
        invariant
            i <= n,
            n == t.len(),
            child@.len() == i,
            in_seg@.len() == i,
            forall|j: int| 0 <= j < i ==> child@[j] == usize::MAX && !in_seg@[j],
        decreases n - i,
    {
        child.push(usize::MAX);
        in_seg.push(false);
        i = i + 1;
    }
    i = start;
    while i <= end
        invariant
            start <= i <= end + 1,
            end < n,
            n == t.len(),
            t == template@,
            is_permutation(t),
            child@.len() == n,
            in_seg@.len() == n,
            forall|j: int| start <= j < i ==> child@[j] == t[j],
            forall|v: int| 0 <= v < n ==> in_seg@[v] == (exists|j: int| start <= j < i && t[j] == v),
        decreases end + 1 - i,
    {
        let v = template[i];
        child.set(i, v);
        in_seg.set(v, true);
        proof {
            assert forall|w: int| 0 <= w < n implies in_seg@[w] == (exists|j: int| start <= j < i + 1 && t[j] == w) by {
                if w == v as int {
                    assert(t[i as int] == w);
                } else {
                    if exists|j: int| start <= j < i + 1 && t[j] == w {
                        let j = choose|j: int| start <= j < i + 1 && t[j] == w;
                        assert(j != i);
                    }
                }
            }
        }
        i = i + 1;
    }
    assert forall|v: usize| v < n implies in_seg@[v as int] == in_segment(t, s, e, v) by {
        if in_seg@[v as int] {
            let j = choose|j: int| start <= j < end + 1 && t[j] == v;
            assert(start <= j <= end && t[j] == v);
        }
        if in_segment(t, s, e, v) {
            let j = choose|j: int| s <= j <= e && t[j] == v;
            assert(start <= j < end + 1 && t[j] == v as int);
        }
    }
    let mut pos: usize = if end + 1 == n { 0 } else { end + 1 };
    let mut di: usize = pos;
    let mut offset: usize = 0;
    let mut w: usize = 0;
    let ghost mut written: Set<usize> = Set::empty();
    proof {
        lemma_after_value(n as int, e, 0);
    }
    while offset < n
        invariant
            0 <= start <= end < n,
            n == t.len(),
            n == d.len(),
            t == template@,
            d == donor@,
            s == start as int,
            e == end as int,
            rot == rotated(d, e),
            p == (|v: usize| !in_segment(t, s, e, v)),
            u == Set::new(|v: usize| v < n && !in_segment(t, s, e, v)),
            u.finite(),
            u.len() == n - (end - start + 1),
            is_permutation(t),
            is_permutation(d),
            offset <= n,
            child@.len() == n,
            in_seg@.len() == n,
            forall|v: usize| v < n ==> in_seg@[v as int] == in_segment(t, s, e, v),
            forall|j: int| start <= j <= end ==> child@[j] == t[j],
            di == after(n as int, e, offset as int),
            pos == after(n as int, e, w as int),
            w == rot.take(offset as int).filter(p).len(),
            w <= n - (end - start + 1),
            forall|k: int| 0 <= k < w ==> child@[after(n as int, e, k)] == #[trigger] rot.take(offset as int).filter(p)[k],
            written.finite(),
            written.len() == w,
            written.subset_of(u),
            forall|v: usize| #[trigger] written.contains(v) <==> (exists|k: int| 0 <= k < offset && rot[k] == v && p(v)),
            forall|k: int| 0 <= k < w ==> written.contains(#[trigger] rot.take(offset as int).filter(p)[k]),
            forall|k1: int, k2: int| 0 <= k1 < w && 0 <= k2 < w && k1 != k2 ==> rot.take(offset as int).filter(p)[k1] != rot.take(offset as int).filter(p)[k2],
            forall|v: usize| #[trigger] written.contains(v) ==> exists|k: int| 0 <= k < w && rot.take(offset as int).filter(p)[k] == v,
        decreases n - offset,
    {
        let val = donor[di];
        proof {
            lemma_after_value(n as int, e, offset as int);
            assert(rot[offset as int] == val);
            assert(rot.take(offset as int + 1) =~= rot.take(offset as int).push(val));
            rot.take(offset as int).lemma_filter_push(val, p);
        }
        let ghost old_f = rot.take(offset as int).filter(p);
        if !in_seg[val] {
            proof {
                assert(p(val));
                assert(!written.contains(val)) by {
                    if written.contains(val) {
                        let k = choose|k: int| 0 <= k < offset && rot[k] == val && p(val);
                        lemma_after_injective(n as int, e, k, offset as int);
                    }
                }
                assert(u.contains(val));
                lemma_len_subset(written.insert(val), u);
                lemma_after_outside(n as int, s, e, w as int);
            }
            child.set(pos, val);
            proof {
                let new_f = rot.take(offset as int + 1).filter(p);
                assert(new_f == old_f.push(val));
                written = written.insert(val);
                assert forall|k: int| 0 <= k < w + 1 implies child@[after(n as int, e, k)] == #[trigger] new_f[k] by {
                    if k < w {
                        lemma_after_injective(n as int, e, k, w as int);
                    }
                }
                assert forall|v: usize| #[trigger] written.contains(v) implies exists|k: int| 0 <= k < w + 1 && new_f[k] == v by {
                    if v == val {
                        assert(new_f[w as int] == v);
                    } else {
                        let k = choose|k: int| 0 <= k < w && old_f[k] == v;
                        assert(new_f[k] == v);
                    }
                }
                assert forall|v: usize| #[trigger] written.contains(v) <==> (exists|k: int| 0 <= k < offset + 1 && rot[k] == v && p(v)) by {
                    if v != val && (exists|k: int| 0 <= k < offset + 1 && rot[k] == v && p(v)) {
                        let k = choose|k: int| 0 <= k < offset + 1 && rot[k] == v && p(v);
                        assert(k != offset);
                    }
                }
                lemma_after_next(n as int, e, w as int);
            }
            pos = if pos + 1 == n { 0 } else { pos + 1 };
            w = w + 1;
        } else {
            proof {
                assert(!p(val));
                assert forall|v: usize| #[trigger] written.contains(v) <==> (exists|k: int| 0 <= k < offset + 1 && rot[k] == v && p(v)) by {
                    if exists|k: int| 0 <= k < offset + 1 && rot[k] == v && p(v) {
                        let k = choose|k: int| 0 <= k < offset + 1 && rot[k] == v && p(v);
                        assert(k != offset);
                    }
                }
            }
        }
        proof {
            lemma_after_next(n as int, e, offset as int);
        }
        di = if di + 1 == n { 0 } else { di + 1 };
        offset = offset + 1;
    }
    proof {
        let f = rot.take(n as int).filter(p);
        assert(rot.take(n as int) =~= rot);
        assert(written =~= u) by {
            assert forall|v: usize| #[trigger] u.contains(v) implies written.contains(v) by {
                assert(occurs(d, v));
                let j = choose|j: int| 0 <= j < n && d[j] == v;
                let k = if j > e { j - e - 1 } else { j + n - e - 1 };
                lemma_after_value(n as int, e, k);
                assert(rot[k] == v);
            }
        }
        assert(w == n - (end - start + 1));
        assert forall|q: int| 0 <= q < n implies #[trigger] child@[q] < n by {
            if !(start <= q <= end) {
                let k = lemma_outside_is_after(n as int, s, e, q);
                assert(written.contains(f[k]));
                assert(child@[after(n as int, e, k)] == f[k]);
                assert(u.contains(f[k]));
            } else {
                assert(child@[q] == t[q]);
                assert(t[q] < n);
            }
        }
        assert forall|q1: int, q2: int| 0 <= q1 < n && 0 <= q2 < n && q1 != q2 implies child@[q1] != child@[q2] by {
            let in1 = start <= q1 <= end;
            let in2 = start <= q2 <= end;
            if in1 && !in2 {
                let k = lemma_outside_is_after(n as int, s, e, q2);
                assert(written.contains(f[k]));
                assert(child@[after(n as int, e, k)] == f[k]);
                assert(t[q1] == child@[q1]);
                assert(in_segment(t, s, e, child@[q1]));
            } else if !in1 && in2 {
                let k = lemma_outside_is_after(n as int, s, e, q1);
                assert(written.contains(f[k]));
                assert(child@[after(n as int, e, k)] == f[k]);
                assert(t[q2] == child@[q2]);
                assert(in_segment(t, s, e, child@[q2]));
            } else if !in1 && !in2 {
                let k1 = lemma_outside_is_after(n as int, s, e, q1);
                let k2 = lemma_outside_is_after(n as int, s, e, q2);
                assert(child@[after(n as int, e, k1)] == f[k1]);
                assert(child@[after(n as int, e, k2)] == f[k2]);
            } else {
                assert(child@[q1] == t[q1]);
                assert(child@[q2] == t[q2]);
            }
        }
        assert forall|v: usize| v < n implies #[trigger] occurs(child@, v) by {
            if in_segment(t, s, e, v) {
                let j = choose|j: int| s <= j <= e && t[j] == v;
                assert(child@[j] == v);
            } else {
                assert(u.contains(v));
                let k = choose|k: int| 0 <= k < w && f[k] == v;
                lemma_after_outside(n as int, s, e, k);
                assert(child@[after(n as int, e, k)] == v);
            }
        }
    }
    child
}

/// An injective sequence of values below its length holds each of them.
proof fn lemma_injective_is_onto(s: Seq<usize>)
    requires
        s.len() <= usize::MAX,
        forall|i: int| 0 <= i < s.len() ==> #[trigger] s[i] < s.len(),
        forall|i: int, j: int| 0 <= i < s.len() && 0 <= j < s.len() && i != j ==> s[i] != s[j],
    ensures
        forall|v: usize| v < s.len() ==> #[trigger] occurs(s, v),
{
    let n = s.len() as int;
    let a = set_int_range(0, n);
    lemma_int_range(0, n);
    let f = |i: int| s[i];
    let c = |i: int| i as usize;
    let vals = Set::new(|v: usize| v < n);
    assert(injective_on(f, a)) by {
        assert forall|x1: int, x2: int| a.contains(x1) && a.contains(x2) && #[trigger] f(x1) == #[trigger] f(x2) implies x1 == x2 by {
        }
    }
    assert(injective_on(c, a)) by {
        assert forall|x1: int, x2: int| a.contains(x1) && a.contains(x2) && #[trigger] c(x1) == #[trigger] c(x2) implies x1 == x2 by {
        }
    }
    assert(a.map(c) =~= vals) by {
        assert forall|v: usize| #[trigger] vals.contains(v) implies a.map(c).contains(v) by {
            assert(a.contains(v as int) && c(v as int) == v);
        }
    }
    lemma_map_size(a, a.map(f), f);
    lemma_map_size(a, vals, c);
    assert(a.map(f).subset_of(vals));
    lemma_subset_equality(a.map(f), vals);
    assert forall|v: usize| v < s.len() implies #[trigger] occurs(s, v) by {
        assert(vals.contains(v));
        assert(a.map(f).contains(v));
        let i = choose|i: int| a.contains(i) && f(i) == v;
        assert(0 <= i < n && s[i] == v);
    }
}

/// Where `v` stands in `t`.
pub open spec fn position_in(t: Seq<usize>, v: usize) -> int {
    choose|j: int| 0 <= j < t.len() && t[j] == v
}

/// Partially-mapped crossover, for a position `x` outside the segment:
/// while the donor's value at `x` is one of `template[start..=end]`, move
/// to where that value stands in `template` (a position inside the
/// segment). The child takes the donor's value at the last position
/// reached. `fuel` bounds the steps; the length of the sequences is enough.
pub open spec fn pmx_source(t: Seq<usize>, d: Seq<usize>, start: int, end: int, x: int, fuel: nat) -> int
    decreases fuel,
{
    if fuel == 0 || !in_segment(t, start, end, d[x]) {
        x
    } else {
        pmx_source(t, d, start, end, position_in(t, d[x]), (fuel - 1) as nat)
    }
}

/// `child` is the partially-mapped-crossover child of `template` and
/// `donor` for the segment `[start, end]`: the segment comes from
/// `template`, every other position `q` holds the donor's value at
/// [`pmx_source`] of `q`, and the child is a permutation.
pub open spec fn is_pmx_child(template: Seq<usize>, donor: Seq<usize>, start: int, end: int, child: Seq<usize>) -> bool {
    &&& child.len() == template.len()
    &&& forall|i: int| start <= i <= end ==> child[i] == template[i]
    &&& forall|q: int| 0 <= q < template.len() && !(start <= q <= end) ==> child[q] == donor[pmx_source(
        template,
        donor,
        start,
        end,
        q,
        template.len() as nat,
    )]
    &&& is_permutation(child)
}

/// `w` follows the mapping of [`pmx_source`] step by step.
pub open spec fn is_mapping_walk(t: Seq<usize>, d: Seq<usize>, start: int, end: int, w: Seq<int>) -> bool {
    &&& w.len() >= 1
    &&& forall|j: int| 0 <= j < w.len() ==> 0 <= #[trigger] w[j] < t.len()
    &&& forall|j: int| 0 <= j < w.len() - 1 ==> in_segment(t, start, end, d[#[trigger] w[j]]) && w[j + 1]
        == position_in(t, d[w[j]])
}

/// `tpos` gives the position in `t` of each value, and tells whether it
/// lies in `[start, end]`.
spec fn positions_ok(tpos: Seq<usize>, t: Seq<usize>, start: int, end: int) -> bool {
    &&& tpos.len() == t.len()
    &&& forall|v: usize| v < t.len() ==> (#[trigger] tpos[v as int]) == position_in(t, v) && (start <= tpos[v as int]
        <= end <==> in_segment(t, start, end, v))
}

proof fn lemma_position_in(t: Seq<usize>, v: usize)
    requires
        is_permutation(t),
        v < t.len(),
    ensures
        0 <= position_in(t, v) < t.len(),
        t[position_in(t, v)] == v,
        forall|j: int| 0 <= j < t.len() && t[j] == v ==> j == position_in(t, v),
{
    assert(occurs(t, v));
}

proof fn lemma_walk_source(t: Seq<usize>, d: Seq<usize>, start: int, end: int, w: Seq<int>, fuel: nat)
    requires
        is_mapping_walk(t, d, start, end, w),
        !in_segment(t, start, end, d[w.last()]),
        w.len() <= fuel + 1,
    ensures
        pmx_source(t, d, start, end, w[0], fuel) == w.last(),
    decreases w.len(),
{
    if w.len() > 1 {
        assert(in_segment(t, start, end, d[w[0]]));
        let rest = w.drop_first();
        assert forall|j: int| 0 <= j < rest.len() - 1 implies in_segment(t, start, end, d[#[trigger] rest[j]]) && rest[j + 1]
            == position_in(t, d[rest[j]]) by {
            assert(rest[j] == w[j + 1]);
            assert(rest[j + 1] == w[j + 2]);
        }
        assert forall|j: int| 0 <= j < rest.len() implies 0 <= #[trigger] rest[j] < t.len() by {
            assert(rest[j] == w[j + 1]);
        }
        lemma_walk_source(t, d, start, end, rest, (fuel - 1) as nat);
    }
}

/// Two walks that start at distinct positions outside the segment end at
/// distinct positions.
proof fn lemma_walks_end_apart(t: Seq<usize>, d: Seq<usize>, start: int, end: int, w1: Seq<int>, w2: Seq<int>)
    requires
        is_permutation(t),
        is_permutation(d),
        d.len() == t.len(),
        0 <= start <= end < t.len(),
        is_mapping_walk(t, d, start, end, w1),
        is_mapping_walk(t, d, start, end, w2),
        !(start <= w1[0] <= end),
        !(start <= w2[0] <= end),
        w1[0] != w2[0],
    ensures
        w1.last() != w2.last(),
    decreases w1.len() + w2.len(),
{
    let n = t.len() as int;
    if w1.len() > 1 {
        lemma_walk_step_inside(t, d, start, end, w1, w1.len() - 2);
    }
    if w2.len() > 1 {
        lemma_walk_step_inside(t, d, start, end, w2, w2.len() - 2);
    }
    if w1.len() > 1 && w2.len() > 1 && w1.last() == w2.last() {
        let a = w1[w1.len() - 2];
        let b = w2[w2.len() - 2];
        lemma_position_in(t, d[a]);
        lemma_position_in(t, d[b]);
        assert(d[a] == d[b]);
        assert(a == b);
        lemma_walks_end_apart(t, d, start, end, w1.drop_last(), w2.drop_last());
    }
}

proof fn lemma_walk_step_inside(t: Seq<usize>, d: Seq<usize>, start: int, end: int, w: Seq<int>, j: int)
    requires
        is_permutation(t),
        d.len() == t.len(),
        0 <= start <= end < t.len(),
        is_mapping_walk(t, d, start, end, w),
        0 <= j < w.len() - 1,
    ensures
        start <= w[j + 1] <= end,
{
    assert(0 <= w[j] < t.len());
    let jj = choose|jj: int| start <= jj <= end && t[jj] == d[w[j]];
    lemma_position_in(t, d[w[j]]);
}

/// Builds one partially-mapped-crossover child: positions `start..=end`
/// come from `template`; every other position takes the donor's value at
/// the end of its mapping walk ([`pmx_source`]).
#[verifier::rlimit(60)]
pub fn pmx_build_child(template: &[usize], donor: &[usize], start: usize, end: usize) -> (child: Vec<usize>)
    requires
        is_permutation(template@),
        is_permutation(donor@),
        donor@.len() == template@.len(),
        start <= end < template@.len(),
    ensures
        is_pmx_child(template@, donor@, start as int, end as int, child@),
{
    let n = template.len();
    let ghost t = template@;
    let ghost d = donor@;
    let ghost s = start as int;
    let ghost e = end as int;
    let mut tpos: Vec<usize> = Vec::new();
    let mut i: usize = 0;
    while i < n
        invariant
            i <= n,
            tpos@.len() == i,
        decreases n - i,
    {
        tpos.push(0);
        i = i + 1;
    }
    i = 0;
    while i < n
        invariant
            i <= n,
            n == t.len(),
            t == template@,
            is_permutation(t),
            tpos@.len() == n,
            forall|j: int| 0 <= j < i ==> tpos@[t[j] as int] == j,
        decreases n - i,
    {
        tpos.set(template[i], i);
        proof {
            assert forall|j: int| 0 <= j < i + 1 implies tpos@[t[j] as int] == j by {
                if j < i {
                    assert(t[j] != t[i as int]);
                }
            }
        }
        i = i + 1;
    }
    assert forall|v: usize| v < n implies (#[trigger] tpos@[v as int]) == position_in(t, v) && (start <= tpos@[v as int] <= end
        <==> in_segment(t, s, e, v)) by {
        lemma_position_in(t, v);
        let j = position_in(t, v);
        assert(tpos@[t[j] as int] == j);
        if in_segment(t, s, e, v) {
            let jj = choose|jj: int| s <= jj <= e && t[jj] == v;
        }
    }
    let mut child: Vec<usize> = Vec::new();
    let mut q: usize = 0;
    let ghost mut walks: Seq<Seq<int>> = Seq::empty();
    while q < n
        invariant
            q <= n,
            n == t.len(),
            n == d.len(),
            t == template@,
            d == donor@,
            s == start as int,
            e == end as int,
            start <= end < n,
            is_permutation(t),
            is_permutation(d),
            positions_ok(tpos@, t, s, e),
            child@.len() == q,
            walks.len() == q,
            forall|i: int| 0 <= i < q && start <= i <= end ==> child@[i] == t[i],
            forall|i: int| 0 <= i < q && !(start <= i <= end) ==> {
                &&& is_mapping_walk(t, d, s, e, #[trigger] walks[i])
                &&& walks[i][0] == i
                &&& !in_segment(t, s, e, d[walks[i].last()])
                &&& walks[i].len() <= n
                &&& child@[i] == d[walks[i].last()]
            },
        decreases n - q,
    {
        if start <= q && q <= end {
            child.push(template[q]);
            proof {
                walks = walks.push(seq![q as int]);
            }
        } else {
            let mut x: usize = q;
            let ghost mut w: Seq<int> = seq![q as int];
            while start <= tpos[donor[x]] && tpos[donor[x]] <= end
                invariant
                    n == t.len(),
                    n == d.len(),
                    t == template@,
                    d == donor@,
                    s == start as int,
                    e == end as int,
                    start <= end < n,
                    is_permutation(t),
                    is_permutation(d),
                    positions_ok(tpos@, t, s, e),
                    q < n,
                    !(start <= q <= end),
                    x < n,
                    is_mapping_walk(t, d, s, e, w),
                    w[0] == q,
                    w.last() == x,
                    w.no_duplicates(),
                    forall|j: int| 1 <= j < w.len() ==> start <= #[trigger] w[j] <= end,
                    w.len() <= end - start + 2,
                decreases end - start + 2 - w.len(),
            {
                let ghost old_w = w;
                let y = tpos[donor[x]];
                proof {
                    assert(d[x as int] < n);
                    assert(tpos@[d[x as int] as int] == y);
                    assert(in_segment(t, s, e, d[x as int]));
                    lemma_position_in(t, d[x as int]);
                    let nw = w.push(y as int);
                    assert forall|j: int| 0 <= j < nw.len() - 1 implies in_segment(t, s, e, d[#[trigger] nw[j]])
                        && nw[j + 1] == position_in(t, d[nw[j]]) by {
                        if j < w.len() - 1 {
                            assert(nw[j] == w[j] && nw[j + 1] == w[j + 1]);
                        }
                    }
                    assert(!w.contains(y as int)) by {
                        if w.contains(y as int) {
                            let j = choose|j: int| 0 <= j < w.len() && w[j] == y as int;
                            assert(j >= 1);
                            lemma_position_in(t, d[w[j - 1]]);
                            assert(d[w[j - 1]] == d[x as int]);
                            assert(w[j - 1] == x as int);
                            assert(w[j - 1] == w[w.len() - 1]);
                        }
                    }
                    let inner = nw.drop_first();
                    assert(inner.no_duplicates());
                    inner.unique_seq_to_set();
                    assert(inner.to_set().subset_of(set_int_range(s, e + 1)));
                    lemma_int_range(s, e + 1);
                    lemma_len_subset(inner.to_set(), set_int_range(s, e + 1));
                    inner.lemma_no_dup_set_cardinality();
                    w = nw;
                }
                x = y;
            }
            child.push(donor[x]);
            proof {
                walks = walks.push(w);
            }
        }
        q = q + 1;
    }
    proof {
        assert forall|q: int| 0 <= q < n && !(s <= q <= e) implies child@[q] == d[pmx_source(t, d, s, e, q, n as nat)] by {
            lemma_walk_source(t, d, s, e, walks[q], n as nat);
        }
        assert forall|i: int| 0 <= i < n implies #[trigger] child@[i] < n by {
            if !(s <= i <= e) {
                let w = walks[i];
                assert(0 <= w[w.len() - 1] < n);
                assert(d[w.last()] < n);
            } else {
                assert(t[i] < n);
            }
        }
        assert forall|i: int, j: int| 0 <= i < n && 0 <= j < n && i != j implies child@[i] != child@[j] by {
            let in_i = s <= i <= e;
            let in_j = s <= j <= e;
            if in_i && !in_j {
                assert(t[i] == child@[i]);
                assert(in_segment(t, s, e, child@[i]));
            } else if !in_i && in_j {
                assert(t[j] == child@[j]);
                assert(in_segment(t, s, e, child@[j]));
            } else if !in_i && !in_j {
                lemma_walks_end_apart(t, d, s, e, walks[i], walks[j]);
                let wi = walks[i];
                let wj = walks[j];
                assert(0 <= wi[wi.len() - 1] < n);
                assert(0 <= wj[wj.len() - 1] < n);
            } else {
                assert(child@[i] == t[i] && child@[j] == t[j]);
            }
        }
        lemma_injective_is_onto(child@);
    }
    child
}

/// The segment spanned by two drawn positions: the smaller one first.
pub open spec fn segment_of(a: usize, b: usize) -> (usize, usize) {
    if a <= b {
        (a, b)
    } else {
        (b, a)
    }
}

/// Orders two drawn positions into a segment `[start, end]`.
pub fn segment_bounds(a: usize, b: usize) -> (r: (usize, usize))
    ensures
        r == segment_of(a, b),
{
    if a <= b {
        (a, b)
    } else {
        (b, a)
    }
}

/// Order crossover (OX) of two permutations over the segment spanned by
/// the drawn positions `a` and `b`: each child keeps that segment of one
/// parent and takes the rest from the other in its order. A parent of
/// length one is returned as it is.
pub fn order_crossover(parent1: &[usize], parent2: &[usize], a: usize, b: usize) -> (r: (Vec<usize>, Vec<usize>))
    requires
        is_permutation(parent1@),
        is_permutation(parent2@),
        parent1@.len() == parent2@.len(),
        a < parent1@.len(),
        b < parent1@.len(),
    ensures
        parent1@.len() == 1 ==> r.0@ == parent1@ && r.1@ == parent2@,
        parent1@.len() > 1 ==> is_ox_child(parent1@, parent2@, segment_of(a, b).0 as int, segment_of(a, b).1 as int, r.0@),
        parent1@.len() > 1 ==> is_ox_child(parent2@, parent1@, segment_of(a, b).0 as int, segment_of(a, b).1 as int, r.1@),
{
    if parent1.len() == 1 {
        return (vstd::slice::slice_to_vec(parent1), vstd::slice::slice_to_vec(parent2));
    }
    let (start, end) = segment_bounds(a, b);
    let child1 = ox_build_child(parent1, parent2, start, end);
    let child2 = ox_build_child(parent2, parent1, start, end);
    (child1, child2)
}

/// Partially mapped crossover (PMX) of two permutations over the segment
/// spanned by the drawn positions `a` and `b`: each child keeps that
/// segment of one parent and maps the rest from the other. A parent of
/// length one is returned as it is.
pub fn pmx_crossover(parent1: &[usize], parent2: &[usize], a: usize, b: usize) -> (r: (Vec<usize>, Vec<usize>))
    requires
        is_permutation(parent1@),
        is_permutation(parent2@),
        parent1@.len() == parent2@.len(),
        a < parent1@.len(),
        b < parent1@.len(),
    ensures
        parent1@.len() == 1 ==> r.0@ == parent1@ && r.1@ == parent2@,
        parent1@.len() > 1 ==> is_pmx_child(parent1@, parent2@, segment_of(a, b).0 as int, segment_of(a, b).1 as int, r.0@),
        parent1@.len() > 1 ==> is_pmx_child(parent2@, parent1@, segment_of(a, b).0 as int, segment_of(a, b).1 as int, r.1@),
{
    if parent1.len() == 1 {
        return (vstd::slice::slice_to_vec(parent1), vstd::slice::slice_to_vec(parent2));
    }
    let (start, end) = segment_bounds(a, b);
    let child1 = pmx_build_child(parent1, parent2, start, end);
    let child2 = pmx_build_child(parent2, parent1, start, end);
    (child1, child2)
}

/// Swap mutation: exchanges the drawn positions `i` and `j`. A
/// permutation shorter than two is left as it is.
pub fn swap_mutation(perm: &mut Vec<usize>, i: usize, j: usize)
    requires
        old(perm)@.len() < 2 || (i < old(perm)@.len() && j < old(perm)@.len()),
    ensures
        final(perm)@ == (if old(perm)@.len() < 2 {
            old(perm)@
        } else {
            old(perm)@.update(i as int, old(perm)@[j as int]).update(j as int, old(perm)@[i as int])
        }),
{
    if perm.len() < 2 {
        return;
    }
    let x = perm[i];
    let y = perm[j];
    perm.set(i, y);
    perm.set(j, x);
}

/// Insert mutation: removes the element at the drawn position `from` and
/// reinserts it at the drawn position `to`. A permutation shorter than two
/// is left as it is.
pub fn insert_mutation(perm: &mut Vec<usize>, from: usize, to: usize)
    requires
        old(perm)@.len() < 2 || (from < old(perm)@.len() && to < old(perm)@.len()),
    ensures
        final(perm)@ == (if old(perm)@.len() < 2 {
            old(perm)@
        } else {
            old(perm)@.remove(from as int).insert(to as int, old(perm)@[from as int])
        }),
{
    if perm.len() < 2 {
        return;
    }
    let item = perm.remove(from);
    perm.insert(to, item);
}

/// Invert mutation: reverses the segment spanned by the drawn positions
/// `a` and `b`. A permutation shorter than two is left as it is.
pub fn invert_mutation(perm: &mut Vec<usize>, a: usize, b: usize)
    requires
        old(perm)@.len() < 2 || (a < old(perm)@.len() && b < old(perm)@.len()),
    ensures
        final(perm)@.len() == old(perm)@.len(),
        old(perm)@.len() < 2 ==> final(perm)@ == old(perm)@,
        old(perm)@.len() >= 2 ==> forall|k: int| 0 <= k < old(perm)@.len() ==> #[trigger] final(perm)@[k] == if segment_of(
            a,
            b,
        ).0 <= k <= segment_of(a, b).1 {
            old(perm)@[segment_of(a, b).0 + segment_of(a, b).1 - k]
        } else {
            old(perm)@[k]
        },
{
    if perm.len() < 2 {
        return;
    }
    let (start, end) = segment_bounds(a, b);
    let ghost orig = perm@;
    let mut i: usize = start;
    let mut j: usize = end;
    while i < j
        invariant
            start <= i,
            j <= end,
            end < orig.len(),
            i + j == start + end,
            i <= j + 1,
            perm@.len() == orig.len(),
            forall|k: int| 0 <= k < orig.len() ==> #[trigger] perm@[k] == if (start <= k < i || j < k <= end) {
                orig[start + end - k]
            } else {
                orig[k]
            },
        decreases j + 1 - i,
    {
        let x = perm[i];
        let y = perm[j];
        perm.set(i, y);
        perm.set(j, x);
        i = i + 1;
        j = j - 1;
    }
    assert forall|k: int| 0 <= k < orig.len() implies #[trigger] perm@[k] == if start <= k <= end {
        orig[start + end - k]
    } else {
        orig[k]
    } by {
        if start <= k <= end && !(start <= k < i || j < k <= end) {
            assert(k == start + end - k);
        }
    }
}

} // verus!
