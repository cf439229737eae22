//! The functor, applicative and monad laws for vectors, over their contents.

use crate::apply::{is_identity_fn, Apply};
use crate::function::{compose_rel, functional, gives_on_clone, same_rel, CFn};
use crate::functor::{seq_mapped, Functor};
use crate::kind_based::kind::VecKind;
use crate::monad::{concat_vecs, lemma_concat_vecs_push, seq_bound, Bind, Monad};
use super::pure_rel;
use vstd::seq_lib::lemma_flatten_concat;
use vstd::prelude::*;

verus! {

/// Mapping a relation within equality over a vector leaves its contents unchanged.
pub proof fn vec_map_identity<A>(x: Vec<A>, out: Vec<A>)
    requires
        <VecKind as Functor<A, A>>::mapped(x, same_rel(), out),
    ensures
        out@ == x@,
{
    assert forall|i: int| 0 <= i < x@.len() implies out@[i] == x@[i] by {
        assert(same_rel::<A>()(x@[i], out@[i]));
    }
    assert(out@ =~= x@);
}

/// Mapping `p` then `q` over a vector is mapping their composite; for functional
/// relations the two results have the same contents.
pub proof fn vec_map_composition<A, B, C>(
    x: Vec<A>,
    p: spec_fn(A, B) -> bool,
    q: spec_fn(B, C) -> bool,
    y: Vec<B>,
    z: Vec<C>,
    w: Vec<C>,
)
    requires
        <VecKind as Functor<A, B>>::mapped(x, p, y),
        <VecKind as Functor<B, C>>::mapped(y, q, z),
        <VecKind as Functor<A, C>>::mapped(x, compose_rel(p, q), w),
    ensures
        <VecKind as Functor<A, C>>::mapped(x, compose_rel(p, q), z),
        functional(p) && functional(q) ==> w@ == z@,
{
    assert forall|i: int| 0 <= i < x@.len() implies #[trigger] compose_rel(p, q)(x@[i], z@[i]) by {
        assert(p(x@[i], y@[i]) && q(y@[i], z@[i]));
    }
    if functional(p) && functional(q) {
        assert forall|i: int| 0 <= i < x@.len() implies w@[i] == z@[i] by {
            assert(compose_rel(p, q)(x@[i], w@[i]));
            let b2 = choose|b2: B| #[trigger] p(x@[i], b2) && q(b2, w@[i]);
            assert(p(x@[i], y@[i]) && p(x@[i], b2));
            assert(q(y@[i], z@[i]) && q(y@[i], w@[i]));
        }
        assert(w@ =~= z@);
    }
}

/// Applying a lifted identity function to a vector gives, in order, a clone of each
/// of its elements.
pub proof fn vec_apply_identity<A: Clone>(v: Vec<A>, f: CFn<A, A>, pf: Vec<CFn<A, A>>, out: Vec<A>)
    requires
        is_identity_fn(f),
        pf@ == seq![f],
        <VecKind as Apply<A, A>>::applied(v, pf, out),
    ensures
        out@.len() == v@.len(),
        forall|i: int| 0 <= i < v@.len() ==> cloned(v@[i], #[trigger] out@[i]),
{
    let rows = choose|rows: Seq<Seq<A>>|
        #![trigger rows.flatten()]
        {
            &&& rows.len() == pf@.len()
            &&& forall|i: int|
                0 <= i < pf@.len() ==> seq_mapped(v@, |a: A, b: A| gives_on_clone(pf@[i], a, b), #[trigger] rows[i])
            &&& out@ == rows.flatten()
        };
    rows.lemma_flatten_one_element();
    let r = |a: A, b: A| gives_on_clone(pf@[0], a, b);
    assert(seq_mapped(v@, r, rows[0]));
    assert forall|i: int| 0 <= i < v@.len() implies cloned(v@[i], #[trigger] out@[i]) by {
        assert(r(v@[i], rows[0][i]));
        let a2 = choose|a2: A| #[trigger] cloned(v@[i], a2) && f.gives(a2, rows[0][i]);
    }
}

/// Applying a lifted function to a lifted value lifts a result of the function on a
/// clone of the value.
pub proof fn vec_apply_homomorphism<A: Clone, B>(x: A, px: Vec<A>, f: CFn<A, B>, pf: Vec<CFn<A, B>>, out: Vec<B>)
    requires
        px@ == seq![x],
        pf@ == seq![f],
        <VecKind as Apply<A, B>>::applied(px, pf, out),
    ensures
        exists|b: B| gives_on_clone(f, x, b) && out@ == seq![b],
{
    let rows = choose|rows: Seq<Seq<B>>|
        #![trigger rows.flatten()]
        {
            &&& rows.len() == pf@.len()
            &&& forall|i: int|
                0 <= i < pf@.len() ==> seq_mapped(px@, |a: A, b: B| gives_on_clone(pf@[i], a, b), #[trigger] rows[i])
            &&& out@ == rows.flatten()
        };
    rows.lemma_flatten_one_element();
    let r = |a: A, b: B| gives_on_clone(pf@[0], a, b);
    assert(seq_mapped(px@, r, rows[0]));
    assert(r(px@[0], rows[0][0]));
    assert(out@ =~= seq![rows[0][0]]);
}

/// Applying a lifted function to a vector maps it: each result comes from a clone of
/// the element at the same place.
pub proof fn vec_apply_is_map<A: Clone, B>(x: Vec<A>, c: CFn<A, B>, pc: Vec<CFn<A, B>>, out: Vec<B>)
    requires
        pc@ == seq![c],
        <VecKind as Apply<A, B>>::applied(x, pc, out),
    ensures
        <VecKind as Functor<A, B>>::mapped(x, |a: A, b: B| gives_on_clone(c, a, b), out),
{
    let rows = choose|rows: Seq<Seq<B>>|
        #![trigger rows.flatten()]
        {
            &&& rows.len() == pc@.len()
            &&& forall|i: int|
                0 <= i < pc@.len() ==> seq_mapped(x@, |a: A, b: B| gives_on_clone(pc@[i], a, b), #[trigger] rows[i])
            &&& out@ == rows.flatten()
        };
    rows.lemma_flatten_one_element();
    let r = |a: A, b: B| gives_on_clone(pc@[0], a, b);
    assert(seq_mapped(x@, r, rows[0]));
    let q = |a: A, b: B| gives_on_clone(c, a, b);
    assert forall|i: int| 0 <= i < x@.len() implies #[trigger] q(x@[i], out@[i]) by {
        assert(r(x@[i], rows[0][i]));
    }
}

/// The concatenation of sequences that each hold one element of `s`, in order, is `s`.
pub proof fn lemma_flatten_singletons<B>(rows: Seq<Seq<B>>, s: Seq<B>)
    requires
        rows.len() == s.len(),
        forall|i: int| 0 <= i < s.len() ==> #[trigger] rows[i] == seq![s[i]],
    ensures
        rows.flatten() == s,
    decreases s.len(),
{
    if s.len() == 0 {
        assert(rows.flatten() =~= s);
    } else {
        assert forall|i: int| 0 <= i < s.len() - 1 implies #[trigger] rows.drop_first()[i] == seq![s.drop_first()[i]] by {
            assert(rows[i + 1] == seq![s[i + 1]]);
        }
        lemma_flatten_singletons(rows.drop_first(), s.drop_first());
        assert(rows.first() == seq![s[0]]);
        assert(s =~= seq![s[0]] + s.drop_first());
    }
}

/// Applying functions to a lifted value `y` maps evaluation at (a clone of) `y` over them.
pub proof fn vec_apply_interchange<A: Clone, B>(y: A, py: Vec<A>, u: Vec<CFn<A, B>>, out: Vec<B>)
    requires
        py@ == seq![y],
        <VecKind as Apply<A, B>>::applied(py, u, out),
    ensures
        <VecKind as Functor<CFn<A, B>, B>>::mapped(u, |f: CFn<A, B>, b: B| gives_on_clone(f, y, b), out),
{
    let rows = choose|rows: Seq<Seq<B>>|
        #![trigger rows.flatten()]
        {
            &&& rows.len() == u@.len()
            &&& forall|i: int|
                0 <= i < u@.len() ==> seq_mapped(py@, |a: A, b: B| gives_on_clone(u@[i], a, b), #[trigger] rows[i])
            &&& out@ == rows.flatten()
        };
    let heads = Seq::new(rows.len(), |i: int| rows[i][0]);
    assert forall|i: int| 0 <= i < heads.len() implies #[trigger] rows[i] == seq![heads[i]] by {
        assert(seq_mapped(py@, |a: A, b: B| gives_on_clone(u@[i], a, b), rows[i]));
        assert(rows[i] =~= seq![heads[i]]);
    }
    lemma_flatten_singletons(rows, heads);
    let q = |f: CFn<A, B>, b: B| gives_on_clone(f, y, b);
    assert forall|i: int| 0 <= i < u@.len() implies #[trigger] q(u@[i], out@[i]) by {
        let r = |a: A, b: B| gives_on_clone(u@[i], a, b);
        assert(seq_mapped(py@, r, rows[i]));
        assert(r(py@[0], rows[i][0]));
    }
}

/// The contents of the concatenation of vectors that each hold one element of `s`, in order, are `s`.
pub proof fn lemma_concat_singletons<A>(rows: Seq<Vec<A>>, s: Seq<A>)
    requires
        rows.len() == s.len(),
        forall|i: int| 0 <= i < s.len() ==> (#[trigger] rows[i])@ == seq![s[i]],
    ensures
        concat_vecs(rows) == s,
    decreases s.len(),
{
    if s.len() == 0 {
        assert(rows.map_values(|v: Vec<A>| v@) =~= Seq::<Seq<A>>::empty());
        assert(concat_vecs(rows) =~= s);
    } else {
        let n = (s.len() - 1) as int;
        lemma_concat_singletons(rows.take(n), s.take(n));
        assert(rows =~= rows.take(n).push(rows[n]));
        lemma_concat_vecs_push(rows.take(n), rows[n]);
        assert(s =~= s.take(n) + seq![s[n]]);
    }
}

/// Binding a lifted value to a function gives (the contents of) a result of the
/// function on the value.
pub proof fn vec_bind_left_identity<A: Clone, B>(a: A, pa: Vec<A>, rel: spec_fn(A, Vec<B>) -> bool, out: Vec<B>)
    requires
        pa@ == seq![a],
        <VecKind as Bind<A, B>>::bound(pa, rel, out),
    ensures
        exists|mb: Vec<B>| rel(a, mb) && mb@ == out@,
{
    let rows = choose|rows: Seq<Vec<B>>|
        #![trigger concat_vecs(rows)]
        {
            &&& rows.len() == pa@.len()
            &&& forall|i: int| 0 <= i < pa@.len() ==> #[trigger] rel(pa@[i], rows[i])
            &&& out@ == concat_vecs(rows)
        };
    lemma_concat_vecs_push(Seq::<Vec<B>>::empty(), rows[0]);
    assert(rows =~= Seq::<Vec<B>>::empty().push(rows[0]));
    assert(Seq::<Vec<B>>::empty().map_values(|v: Vec<B>| v@) =~= Seq::<Seq<B>>::empty());
    assert(rel(pa@[0], rows[0]));
}

/// Binding a vector to `pure` leaves its contents unchanged.
pub proof fn vec_bind_right_identity<A: Clone>(m: Vec<A>, out: Vec<A>)
    requires
        <VecKind as Bind<A, A>>::bound(m, pure_rel::<VecKind, A>(), out),
    ensures
        out@ == m@,
{
    let rows = choose|rows: Seq<Vec<A>>|
        #![trigger concat_vecs(rows)]
        {
            &&& rows.len() == m@.len()
            &&& forall|i: int| 0 <= i < m@.len() ==> #[trigger] pure_rel::<VecKind, A>()(m@[i], rows[i])
            &&& out@ == concat_vecs(rows)
        };
    assert forall|i: int| 0 <= i < m@.len() implies (#[trigger] rows[i])@ == seq![m@[i]] by {
        assert(pure_rel::<VecKind, A>()(m@[i], rows[i]));
    }
    lemma_concat_singletons(rows, m@);
}

/// The concatenation of `rows` is that of its first `k` vectors followed by that of the rest.
proof fn lemma_concat_vecs_split<C>(rows: Seq<Vec<C>>, k: int)
    requires
        0 <= k <= rows.len(),
    ensures
        concat_vecs(rows) == concat_vecs(rows.take(k)) + concat_vecs(rows.skip(k)),
{
    let f = |v: Vec<C>| v@;
    assert(rows.map_values(f) =~= rows.take(k).map_values(f) + rows.skip(k).map_values(f));
    lemma_flatten_concat(rows.take(k).map_values(f), rows.skip(k).map_values(f));
}

/// Splits the results of binding the concatenation of `rows_b` to `q` into one segment
/// per vector of `rows_b`: each segment is a result of binding that vector to `q`.
proof fn lemma_bind_segments<A, B, C>(
    ma: Seq<A>,
    p: spec_fn(A, Vec<B>) -> bool,
    q: spec_fn(B, Vec<C>) -> bool,
    rows_b: Seq<Vec<B>>,
    rows_c: Seq<Vec<C>>,
) -> (segs: Seq<Seq<C>>)
    requires
        rows_b.len() == ma.len(),
        forall|i: int| 0 <= i < ma.len() ==> #[trigger] p(ma[i], rows_b[i]),
        rows_c.len() == concat_vecs(rows_b).len(),
        forall|j: int| 0 <= j < rows_c.len() ==> #[trigger] q(concat_vecs(rows_b)[j], rows_c[j]),
    ensures
        segs.len() == ma.len(),
        forall|i: int| 0 <= i < ma.len() ==> seq_bound(rows_b[i]@, q, #[trigger] segs[i]),
        concat_vecs(rows_c) == segs.flatten(),
    decreases ma.len(),
{
    if ma.len() == 0 {
        assert(rows_b.map_values(|v: Vec<B>| v@) =~= Seq::<Seq<B>>::empty());
        assert(rows_c.map_values(|v: Vec<C>| v@) =~= Seq::<Seq<C>>::empty());
        Seq::empty()
    } else {
        let n = ma.len() - 1;
        let rb = rows_b.drop_last();
        let last = rows_b[n];
        assert(rows_b =~= rb.push(last));
        lemma_concat_vecs_push(rb, last);
        let k = concat_vecs(rb).len() as int;
        let rc = rows_c.take(k);
        let rc_last = rows_c.skip(k);
        assert forall|j: int| 0 <= j < rc.len() implies #[trigger] q(concat_vecs(rb)[j], rc[j]) by {
            assert(concat_vecs(rows_b)[j] == concat_vecs(rb)[j]);
            assert(q(concat_vecs(rows_b)[j], rows_c[j]));
        }
        assert forall|i: int| 0 <= i < n implies #[trigger] p(ma.drop_last()[i], rb[i]) by {
            assert(p(ma[i], rows_b[i]));
        }
        let segs0 = lemma_bind_segments(ma.drop_last(), p, q, rb, rc);
        assert forall|j: int| 0 <= j < last@.len() implies #[trigger] q(last@[j], rc_last[j]) by {
            assert(concat_vecs(rows_b)[k + j] == last@[j]);
            assert(q(concat_vecs(rows_b)[k + j], rows_c[k + j]));
        }
        assert(seq_bound(last@, q, concat_vecs(rc_last)));
        lemma_concat_vecs_split(rows_c, k);
        segs0.lemma_flatten_push(concat_vecs(rc_last));
        let segs = segs0.push(concat_vecs(rc_last));
        assert forall|i: int| 0 <= i < ma.len() implies seq_bound(rows_b[i]@, q, #[trigger] segs[i]) by {
            if i < n {
                assert(rb[i] == rows_b[i]);
                assert(seq_bound(rb[i]@, q, segs0[i]));
            }
        }
        segs
    }
}

/// Binding a vector to `p` and then to `q` gives, in order, for each element `a` the
/// contents of a result of binding a result of `p` on `a` to `q`.
pub proof fn vec_bind_associativity<A: Clone, B: Clone, C>(
    m: Vec<A>,
    p: spec_fn(A, Vec<B>) -> bool,
    q: spec_fn(B, Vec<C>) -> bool,
    y: Vec<B>,
    z: Vec<C>,
)
    requires
        <VecKind as Bind<A, B>>::bound(m, p, y),
        <VecKind as Bind<B, C>>::bound(y, q, z),
    ensures
        exists|rows_b: Seq<Vec<B>>, segs: Seq<Seq<C>>|
            {
                &&& rows_b.len() == m@.len()
                &&& segs.len() == m@.len()
                &&& forall|i: int|
                    0 <= i < m@.len() ==> #[trigger] p(m@[i], rows_b[i]) && seq_bound(rows_b[i]@, q, segs[i])
                &&& z@ == segs.flatten()
            },
{
    let rows_b = choose|rows: Seq<Vec<B>>|
        #![trigger concat_vecs(rows)]
        {
            &&& rows.len() == m@.len()
            &&& forall|i: int| 0 <= i < m@.len() ==> #[trigger] p(m@[i], rows[i])
            &&& y@ == concat_vecs(rows)
        };
    let rows_c = choose|rows: Seq<Vec<C>>|
        #![trigger concat_vecs(rows)]
        {
            &&& rows.len() == y@.len()
            &&& forall|j: int| 0 <= j < y@.len() ==> #[trigger] q(y@[j], rows[j])
            &&& z@ == concat_vecs(rows)
        };
    let segs = lemma_bind_segments(m@, p, q, rows_b, rows_c);
    assert forall|i: int| 0 <= i < m@.len() implies #[trigger] p(m@[i], rows_b[i]) && seq_bound(rows_b[i]@, q, segs[i]) by {
        assert(seq_bound(rows_b[i]@, q, segs[i]));
    }
}

/// Flattening a lifted vector gives its contents back.
pub proof fn vec_join_pure<A: Clone>(ma: Vec<A>, mma: Vec<Vec<A>>, out: Vec<A>)
    requires
        mma@ == seq![ma],
        <VecKind as Monad<A>>::joined(mma, out),
    ensures
        out@ == ma@,
{
    lemma_concat_vecs_push(Seq::<Vec<A>>::empty(), ma);
    assert(mma@ =~= Seq::<Vec<A>>::empty().push(ma));
    assert(Seq::<Vec<A>>::empty().map_values(|v: Vec<A>| v@) =~= Seq::<Seq<A>>::empty());
}

/// Flattening a vector of lifted values gives its contents back.
pub proof fn vec_join_map_pure<A: Clone>(m: Vec<A>, mm: Vec<Vec<A>>, out: Vec<A>)
    requires
        <VecKind as Functor<A, Vec<A>>>::mapped(m, pure_rel::<VecKind, A>(), mm),
        <VecKind as Monad<A>>::joined(mm, out),
    ensures
        out@ == m@,
{
    assert forall|i: int| 0 <= i < m@.len() implies (#[trigger] mm@[i])@ == seq![m@[i]] by {
        assert(pure_rel::<VecKind, A>()(m@[i], mm@[i]));
    }
    lemma_concat_singletons(mm@, m@);
}

} // verus!
