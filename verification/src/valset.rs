//! Duplicate-free vectors of broadcast values, and the sequence-level
//! operations that the broadcast node's contracts are stated over.
//!
//! The node keeps its value set and each per-peer view as a `Vec<usize>`
//! without duplicates; order is the order of first insertion. The spec
//! functions here describe exactly what the insert-if-absent loops produce,
//! and the lemmas connect those sequences to the sets they represent.

use vstd::prelude::*;

verus! {

/// No value occurs twice in `s`.
pub open spec fn no_dups(s: Seq<usize>) -> bool {
    forall|i: int, j: int| 0 <= i < j < s.len() ==> s[i] != s[j]
}

/// `values` with every element that occurs in `view` dropped, keeping order:
/// the delta a node still owes the peer that `view` belongs to.
pub open spec fn delta_seq(values: Seq<usize>, view: Seq<usize>) -> Seq<usize>
    decreases values.len(),
{
    if values.len() == 0 {
        Seq::empty()
    } else {
        let p = delta_seq(values.drop_last(), view);
        if view.contains(values.last()) {
            p
        } else {
            p.push(values.last())
        }
    }
}

/// `s` with `x` appended unless already present.
pub open spec fn insert_seq(s: Seq<usize>, x: usize) -> Seq<usize> {
    if s.contains(x) {
        s
    } else {
        s.push(x)
    }
}

/// `dst` with each element of `xs` appended in order unless already present:
/// the sequence a left-to-right insert-if-absent loop leaves behind.
pub open spec fn union_app(dst: Seq<usize>, xs: Seq<usize>) -> Seq<usize>
    decreases xs.len(),
{
    if xs.len() == 0 {
        dst
    } else {
        let p = union_app(dst, xs.drop_last());
        if p.contains(xs.last()) {
            p
        } else {
            p.push(xs.last())
        }
    }
}

/// `dst` with each element of `xs` that occurs in `vals` appended in order
/// unless already present: the crediting step of a `share` snapshot, which
/// may not outrun the value set `vals` of the node applying it.
pub open spec fn union_present(dst: Seq<usize>, xs: Seq<usize>, vals: Seq<usize>) -> Seq<usize>
    decreases xs.len(),
{
    if xs.len() == 0 {
        dst
    } else {
        let p = union_present(dst, xs.drop_last(), vals);
        if vals.contains(xs.last()) && !p.contains(xs.last()) {
            p.push(xs.last())
        } else {
            p
        }
    }
}

/// Appending one element inserts it into the represented set.
pub proof fn lemma_push_set(s: Seq<usize>, x: usize)
    ensures
        s.push(x).to_set() == s.to_set().insert(x),
{
    assert forall|y: usize| s.push(x).contains(y) implies s.contains(y) || y == x by {
        let i = choose|i: int| 0 <= i < s.push(x).len() && s.push(x)[i] == y;
        if i < s.len() {
            assert(s[i] == y);
        }
    }
    assert forall|y: usize| s.contains(y) implies s.push(x).contains(y) by {
        let i = choose|i: int| 0 <= i < s.len() && s[i] == y;
        assert(s.push(x)[i] == y);
    }
    assert(s.push(x)[s.len() as int] == x);
    assert(s.push(x).to_set() =~= s.to_set().insert(x));
}

/// Dropping the last element splits the represented set.
pub proof fn lemma_snoc_set(s: Seq<usize>)
    requires
        s.len() > 0,
    ensures
        s.to_set() == s.drop_last().to_set().insert(s.last()),
{
    assert forall|x: usize| s.to_set().contains(x) implies s.drop_last().to_set().contains(x) || x
        == s.last() by {
        let i = choose|i: int| 0 <= i < s.len() && s[i] == x;
        if i < s.len() - 1 {
            assert(s.drop_last()[i] == x);
        }
    }
    assert forall|x: usize| s.drop_last().to_set().contains(x) implies s.to_set().contains(x) by {
        let i = choose|i: int| 0 <= i < s.len() - 1 && s.drop_last()[i] == x;
        assert(s[i] == x);
    }
    assert(s.contains(s.last()));
    assert(s.to_set() =~= s.drop_last().to_set().insert(s.last()));
}

/// As a set, insert-if-absent is insertion.
pub proof fn lemma_insert_seq_set(s: Seq<usize>, x: usize)
    ensures
        insert_seq(s, x).to_set() == s.to_set().insert(x),
{
    if s.contains(x) {
        assert(s.to_set().contains(x));
        assert(insert_seq(s, x).to_set() =~= s.to_set().insert(x));
    } else {
        lemma_push_set(s, x);
    }
}

/// As a set, the delta is exactly the set difference.
pub proof fn lemma_delta_set(values: Seq<usize>, view: Seq<usize>)
    ensures
        delta_seq(values, view).to_set() == values.to_set().difference(view.to_set()),
    decreases values.len(),
{
    if values.len() == 0 {
        assert(delta_seq(values, view).to_set() =~= values.to_set().difference(view.to_set()));
    } else {
        lemma_delta_set(values.drop_last(), view);
        lemma_snoc_set(values);
        if !view.contains(values.last()) {
            lemma_push_set(delta_seq(values.drop_last(), view), values.last());
        }
        assert(view.contains(values.last()) == view.to_set().contains(values.last()));
        assert(delta_seq(values, view).to_set() =~= values.to_set().difference(view.to_set()));
    }
}

/// As a set, the insert-if-absent append is exactly the union.
pub proof fn lemma_union_app_set(dst: Seq<usize>, xs: Seq<usize>)
    ensures
        union_app(dst, xs).to_set() == dst.to_set().union(xs.to_set()),
    decreases xs.len(),
{
    if xs.len() == 0 {
        assert(union_app(dst, xs).to_set() =~= dst.to_set().union(xs.to_set()));
    } else {
        lemma_union_app_set(dst, xs.drop_last());
        lemma_snoc_set(xs);
        let p = union_app(dst, xs.drop_last());
        if p.contains(xs.last()) {
            assert(p.to_set().contains(xs.last()));
        } else {
            lemma_push_set(p, xs.last());
        }
        assert(union_app(dst, xs).to_set() =~= dst.to_set().union(xs.to_set()));
    }
}

/// As a set, the filtered insert-if-absent append is the union with the
/// intersection: nothing outside `vals` ever enters.
pub proof fn lemma_union_present_set(dst: Seq<usize>, xs: Seq<usize>, vals: Seq<usize>)
    ensures
        union_present(dst, xs, vals).to_set() == dst.to_set().union(
            xs.to_set().intersect(vals.to_set()),
        ),
    decreases xs.len(),
{
    if xs.len() == 0 {
        assert(union_present(dst, xs, vals).to_set() =~= dst.to_set().union(
            xs.to_set().intersect(vals.to_set()),
        ));
    } else {
        lemma_union_present_set(dst, xs.drop_last(), vals);
        lemma_snoc_set(xs);
        let p = union_present(dst, xs.drop_last(), vals);
        if vals.contains(xs.last()) && !p.contains(xs.last()) {
            lemma_push_set(p, xs.last());
        } else if p.contains(xs.last()) {
            assert(p.to_set().contains(xs.last()));
        }
        assert(vals.contains(xs.last()) == vals.to_set().contains(xs.last()));
        assert(union_present(dst, xs, vals).to_set() =~= dst.to_set().union(
            xs.to_set().intersect(vals.to_set()),
        ));
    }
}

/// Filtered insert-if-absent append keeps a duplicate-free sequence
/// duplicate-free.
pub proof fn lemma_union_present_no_dups(dst: Seq<usize>, xs: Seq<usize>, vals: Seq<usize>)
    requires
        no_dups(dst),
    ensures
        no_dups(union_present(dst, xs, vals)),
    decreases xs.len(),
{
    if xs.len() > 0 {
        lemma_union_present_no_dups(dst, xs.drop_last(), vals);
        let p = union_present(dst, xs.drop_last(), vals);
        if vals.contains(xs.last()) && !p.contains(xs.last()) {
            assert forall|i: int| 0 <= i < p.len() implies p[i] != xs.last() by {
                if p[i] == xs.last() {
                    assert(p.contains(xs.last()));
                }
            }
        }
    }
}

/// Insert-if-absent append keeps a duplicate-free sequence duplicate-free.
pub proof fn lemma_union_app_no_dups(dst: Seq<usize>, xs: Seq<usize>)
    requires
        no_dups(dst),
    ensures
        no_dups(union_app(dst, xs)),
    decreases xs.len(),
{
    if xs.len() > 0 {
        lemma_union_app_no_dups(dst, xs.drop_last());
        let p = union_app(dst, xs.drop_last());
        if !p.contains(xs.last()) {
            assert forall|i: int| 0 <= i < p.len() implies p[i] != xs.last() by {
                if p[i] == xs.last() {
                    assert(p.contains(xs.last()));
                }
            }
        }
    }
}

/// Whether `x` occurs in `v`.
pub fn contains_val(v: &Vec<usize>, x: usize) -> (r: bool)
    ensures
        r == v@.contains(x),
{
    let mut i: usize = 0;
    while i < v.len()
        invariant
            i <= v@.len(),
            forall|j: int| 0 <= j < i ==> v@[j] != x,
        decreases v@.len() - i,
    {
        if v[i] == x {
            proof {
                assert(v@[i as int] == x);
            }
            return true;
        }
        i += 1;
    }
    false
}

/// Appends `x` unless present; reports whether it was fresh.
pub fn insert_new(values: &mut Vec<usize>, x: usize) -> (fresh: bool)
    ensures
        fresh == !old(values)@.contains(x),
        final(values)@ == insert_seq(old(values)@, x),
{
    if contains_val(values, x) {
        false
    } else {
        values.push(x);
        true
    }
}

/// Appends every element of `xs` that is not yet present, in order.
pub fn add_all(dst: &mut Vec<usize>, xs: &Vec<usize>)
    ensures
        final(dst)@ == union_app(old(dst)@, xs@),
{
    let mut a: usize = 0;
    while a < xs.len()
        invariant
            a <= xs@.len(),
            dst@ == union_app(old(dst)@, xs@.take(a as int)),
        decreases xs@.len() - a,
    {
        proof {
            assert(xs@.take(a as int + 1).drop_last() =~= xs@.take(a as int));
            assert(xs@.take(a as int + 1).last() == xs@[a as int]);
        }
        insert_new(dst, xs[a]);
        a += 1;
    }
    proof {
        assert(xs@.take(xs@.len() as int) =~= xs@);
    }
}

/// Appends every element of `xs` that occurs in `vals` and is not yet
/// present, in order.
pub fn add_all_present(dst: &mut Vec<usize>, xs: &Vec<usize>, vals: &Vec<usize>)
    ensures
        final(dst)@ == union_present(old(dst)@, xs@, vals@),
{
    let mut a: usize = 0;
    while a < xs.len()
        invariant
            a <= xs@.len(),
            dst@ == union_present(old(dst)@, xs@.take(a as int), vals@),
        decreases xs@.len() - a,
    {
        proof {
            assert(xs@.take(a as int + 1).drop_last() =~= xs@.take(a as int));
            assert(xs@.take(a as int + 1).last() == xs@[a as int]);
        }
        if contains_val(vals, xs[a]) {
            insert_new(dst, xs[a]);
        }
        a += 1;
    }
    proof {
        assert(xs@.take(xs@.len() as int) =~= xs@);
    }
}

/// The delta still owed to the peer that `view` belongs to, as a vector.
pub fn compute_delta(values: &Vec<usize>, view: &Vec<usize>) -> (r: Vec<usize>)
    ensures
        r@ == delta_seq(values@, view@),
{
    let mut r: Vec<usize> = Vec::new();
    let mut i: usize = 0;
    while i < values.len()
        invariant
            i <= values@.len(),
            r@ == delta_seq(values@.take(i as int), view@),
        decreases values@.len() - i,
    {
        proof {
            assert(values@.take(i as int + 1).drop_last() =~= values@.take(i as int));
            assert(values@.take(i as int + 1).last() == values@[i as int]);
        }
        if !contains_val(view, values[i]) {
            r.push(values[i]);
        }
        i += 1;
    }
    proof {
        assert(values@.take(values@.len() as int) =~= values@);
    }
    r
}

/// A copy of a vector of values.
pub fn clone_usizes(v: &Vec<usize>) -> (r: Vec<usize>)
    ensures
        r@ == v@,
{
    let mut r: Vec<usize> = Vec::new();
    let mut i: usize = 0;
    while i < v.len()
        invariant
            i <= v@.len(),
            r@ == v@.take(i as int),
        decreases v@.len() - i,
    {
        proof {
            assert(v@.take(i as int + 1).drop_last() =~= v@.take(i as int));
        }
        r.push(v[i]);
        i += 1;
    }
    proof {
        assert(v@.take(v@.len() as int) =~= v@);
    }
    r
}

/// A copy of a vector of addresses.
pub fn clone_strings(v: &Vec<String>) -> (r: Vec<String>)
    ensures
        r@ == v@,
{
    let mut r: Vec<String> = Vec::new();
    let mut i: usize = 0;
    while i < v.len()
        invariant
            i <= v@.len(),
            r@ == v@.take(i as int),
        decreases v@.len() - i,
    {
        proof {
            assert(v@.take(i as int + 1).drop_last() =~= v@.take(i as int));
        }
        r.push(v[i].clone());
        i += 1;
    }
    proof {
        assert(v@.take(v@.len() as int) =~= v@);
    }
    r
}

} // verus!
