//! Profunctors (`dimap`), strong profunctors (`first`, `second`), choice profunctors
//! (`left`, `right`), and lenses and getters encoded with them.

use crate::function::{
    accepts_pred, always, gives_rel, graph, pre_of, pred_within, rel_within, same_rel, CFn, CFnOnce,
};
use core::marker::PhantomData;
use vstd::std_specs::convert::FromSpecImpl;
use vstd::prelude::*;

verus! {

/// A two-argument type constructor contravariant in its input `B` and covariant in
/// its output `C`: `dimap` turns a `P<B, C>` into a `P<A, D>` given `A -> B` and `C -> D`.
///
/// Laws (stated and proved for wrapped functions in `laws`): `dimap` of identities keeps the behaviour,
/// and `dimap` composes.
pub trait Profunctor<B, C, A, D>: Sized {
    /// The profunctor with input `A` and output `D`.
    type Pro;

    /// `out` may result from `dimap` with a pre-processing function described by
    /// `a2b_pre` (where it may be called) and `a2b` (its input/output relation), and a
    /// post-processing function described by `c2d_pre` and `c2d`.
    spec fn dimapped(
        p: Self,
        a2b_pre: spec_fn(A) -> bool,
        a2b: spec_fn(A, B) -> bool,
        c2d_pre: spec_fn(C) -> bool,
        c2d: spec_fn(C, D) -> bool,
        out: Self::Pro,
    ) -> bool;

    /// `dimapped` stays true for narrower preconditions and wider relations.
    proof fn lemma_dimapped_within(
        p: Self,
        a2b_pre: spec_fn(A) -> bool,
        a2b: spec_fn(A, B) -> bool,
        c2d_pre: spec_fn(C) -> bool,
        c2d: spec_fn(C, D) -> bool,
        a2b_pre2: spec_fn(A) -> bool,
        a2b2: spec_fn(A, B) -> bool,
        c2d_pre2: spec_fn(C) -> bool,
        c2d2: spec_fn(C, D) -> bool,
        out: Self::Pro,
    )
        requires
            Self::dimapped(p, a2b_pre, a2b, c2d_pre, c2d, out),
            pred_within(a2b_pre2, a2b_pre),
            rel_within(a2b, a2b2),
            pred_within(c2d_pre2, c2d_pre),
            rel_within(c2d, c2d2),
        ensures
            Self::dimapped(p, a2b_pre2, a2b2, c2d_pre2, c2d2, out),
    ;

    /// Pre-processes the input with `a2b` and post-processes the output with `c2d`.
    fn dimap<A2B: Fn(A) -> B + 'static, C2D: Fn(C) -> D + 'static>(self, a2b: A2B, c2d: C2D) -> (out: Self::Pro)
        ensures
            Self::dimapped(self, pre_of(a2b), graph(a2b), pre_of(c2d), graph(c2d), out),
    ;
}

/// `out` computes `a -> c2d(p(a2b(a)))`: it may be called where `a2b` may, `p` may be
/// called on every result of `a2b` and `c2d` on every result of `p`; its every
/// result comes through the three functions.
pub open spec fn fn_dimapped<A, B, C, D>(
    p: CFn<B, C>,
    a2b_pre: spec_fn(A) -> bool,
    a2b: spec_fn(A, B) -> bool,
    c2d_pre: spec_fn(C) -> bool,
    c2d: spec_fn(C, D) -> bool,
    out: CFn<A, D>,
) -> bool {
    &&& forall|a: A|
        a2b_pre(a) && (forall|b: B| #[trigger] a2b(a, b) ==> (p.accepts(b) && forall|c: C| #[trigger] p.gives(b, c) ==> c2d_pre(c)))
            ==> #[trigger] out.accepts(a)
    &&& forall|a: A, d: D| #[trigger] out.gives(a, d) ==> exists|b: B, c: C| #[trigger] a2b(a, b) && #[trigger] p.gives(b, c) && c2d(c, d)
}

/// The three-stage relation of [`fn_dimapped`] for once-callable functions.
pub open spec fn fn_once_dimapped<A, B, C, D>(
    p: CFnOnce<B, C>,
    a2b_pre: spec_fn(A) -> bool,
    a2b: spec_fn(A, B) -> bool,
    c2d_pre: spec_fn(C) -> bool,
    c2d: spec_fn(C, D) -> bool,
    out: CFnOnce<A, D>,
) -> bool {
    &&& forall|a: A|
        a2b_pre(a) && (forall|b: B| #[trigger] a2b(a, b) ==> (p.accepts(b) && forall|c: C| #[trigger] p.gives(b, c) ==> c2d_pre(c)))
            ==> #[trigger] out.accepts(a)
    &&& forall|a: A, d: D| #[trigger] out.gives(a, d) ==> exists|b: B, c: C| #[trigger] a2b(a, b) && #[trigger] p.gives(b, c) && c2d(c, d)
}

impl<B: 'static, C: 'static, A: 'static, D: 'static> Profunctor<B, C, A, D> for CFn<B, C> {
    type Pro = CFn<A, D>;

    open spec fn dimapped(
        p: CFn<B, C>,
        a2b_pre: spec_fn(A) -> bool,
        a2b: spec_fn(A, B) -> bool,
        c2d_pre: spec_fn(C) -> bool,
        c2d: spec_fn(C, D) -> bool,
        out: CFn<A, D>,
    ) -> bool {
        fn_dimapped(p, a2b_pre, a2b, c2d_pre, c2d, out)
    }

    proof fn lemma_dimapped_within(
        p: CFn<B, C>,
        a2b_pre: spec_fn(A) -> bool,
        a2b: spec_fn(A, B) -> bool,
        c2d_pre: spec_fn(C) -> bool,
        c2d: spec_fn(C, D) -> bool,
        a2b_pre2: spec_fn(A) -> bool,
        a2b2: spec_fn(A, B) -> bool,
        c2d_pre2: spec_fn(C) -> bool,
        c2d2: spec_fn(C, D) -> bool,
        out: CFn<A, D>,
    ) {
        assert forall|a: A|
            a2b_pre2(a) && (forall|b: B| #[trigger] a2b2(a, b) ==> (p.accepts(b) && forall|c: C| #[trigger] p.gives(b, c) ==> c2d_pre2(c)))
                implies #[trigger] out.accepts(a) by {
            assert(a2b_pre(a));
            assert forall|b: B| #[trigger] a2b(a, b) implies (p.accepts(b) && forall|c: C| #[trigger] p.gives(b, c) ==> c2d_pre(c)) by {
                assert(a2b2(a, b));
                assert forall|c: C| #[trigger] p.gives(b, c) implies c2d_pre(c) by {
                    assert(c2d_pre2(c));
                }
            }
        }
        assert forall|a: A, d: D| #[trigger] out.gives(a, d) implies exists|b: B, c: C| #[trigger] a2b2(a, b) && #[trigger] p.gives(b, c) && c2d2(c, d) by {
            let (b, c) = choose|b: B, c: C| #[trigger] a2b(a, b) && #[trigger] p.gives(b, c) && c2d(c, d);
            assert(a2b2(a, b) && c2d2(c, d));
        }
    }

    /// The result computes `a -> c2d(self(a2b(a)))`.
    fn dimap<A2B: Fn(A) -> B + 'static, C2D: Fn(C) -> D + 'static>(self, a2b: A2B, c2d: C2D) -> (out: CFn<A, D>) {
        let pg: Ghost<CFn<B, C>> = Ghost(self);
        let ag: Ghost<A2B> = Ghost(a2b);
        let cg: Ghost<C2D> = Ghost(c2d);
        let mapped = move |a: A| -> (d: D)
            requires
                call_requires(ag@, (a,)),
                forall|b: B| #[trigger] call_ensures(ag@, (a,), b) ==> (pg@.accepts(b) && forall|c: C| #[trigger] pg@.gives(b, c) ==> call_requires(cg@, (c,))),
            ensures
                exists|b: B, c: C| #[trigger] call_ensures(ag@, (a,), b) && #[trigger] pg@.gives(b, c) && call_ensures(cg@, (c,), d),
        {
            let b = a2b(a);
            let c = self.call(b);
            c2d(c)
        };
        let out = CFn::new(mapped);
        proof {
            assert forall|a: A|
                pre_of(a2b)(a) && (forall|b: B| #[trigger] graph(a2b)(a, b) ==> (self.accepts(b) && forall|c: C| #[trigger] self.gives(b, c) ==> pre_of(c2d)(c)))
                    implies #[trigger] out.accepts(a) by {
                assert forall|b: B| #[trigger] call_ensures(a2b, (a,), b) implies (self.accepts(b) && forall|c: C| #[trigger] self.gives(b, c) ==> call_requires(c2d, (c,))) by {
                    assert(graph(a2b)(a, b));
                    assert forall|c: C| #[trigger] self.gives(b, c) implies call_requires(c2d, (c,)) by {
                        assert(pre_of(c2d)(c));
                    }
                }
            }
            assert forall|a: A, d: D| #[trigger] out.gives(a, d) implies exists|b: B, c: C|
                #[trigger] graph(a2b)(a, b) && #[trigger] self.gives(b, c) && graph(c2d)(c, d) by {
                let (b, c) = choose|b: B, c: C| #[trigger] call_ensures(a2b, (a,), b) && #[trigger] self.gives(b, c) && call_ensures(c2d, (c,), d);
                assert(graph(a2b)(a, b) && graph(c2d)(c, d));
            }
        }
        out
    }
}

impl<B: 'static, C: 'static, A: 'static, D: 'static> Profunctor<B, C, A, D> for CFnOnce<B, C> {
    type Pro = CFnOnce<A, D>;

    open spec fn dimapped(
        p: CFnOnce<B, C>,
        a2b_pre: spec_fn(A) -> bool,
        a2b: spec_fn(A, B) -> bool,
        c2d_pre: spec_fn(C) -> bool,
        c2d: spec_fn(C, D) -> bool,
        out: CFnOnce<A, D>,
    ) -> bool {
        fn_once_dimapped(p, a2b_pre, a2b, c2d_pre, c2d, out)
    }

    proof fn lemma_dimapped_within(
        p: CFnOnce<B, C>,
        a2b_pre: spec_fn(A) -> bool,
        a2b: spec_fn(A, B) -> bool,
        c2d_pre: spec_fn(C) -> bool,
        c2d: spec_fn(C, D) -> bool,
        a2b_pre2: spec_fn(A) -> bool,
        a2b2: spec_fn(A, B) -> bool,
        c2d_pre2: spec_fn(C) -> bool,
        c2d2: spec_fn(C, D) -> bool,
        out: CFnOnce<A, D>,
    ) {
        assert forall|a: A|
            a2b_pre2(a) && (forall|b: B| #[trigger] a2b2(a, b) ==> (p.accepts(b) && forall|c: C| #[trigger] p.gives(b, c) ==> c2d_pre2(c)))
                implies #[trigger] out.accepts(a) by {
            assert(a2b_pre(a));
            assert forall|b: B| #[trigger] a2b(a, b) implies (p.accepts(b) && forall|c: C| #[trigger] p.gives(b, c) ==> c2d_pre(c)) by {
                assert(a2b2(a, b));
                assert forall|c: C| #[trigger] p.gives(b, c) implies c2d_pre(c) by {
                    assert(c2d_pre2(c));
                }
            }
        }
        assert forall|a: A, d: D| #[trigger] out.gives(a, d) implies exists|b: B, c: C| #[trigger] a2b2(a, b) && #[trigger] p.gives(b, c) && c2d2(c, d) by {
            let (b, c) = choose|b: B, c: C| #[trigger] a2b(a, b) && #[trigger] p.gives(b, c) && c2d(c, d);
            assert(a2b2(a, b) && c2d2(c, d));
        }
    }

    /// The result computes `a -> c2d(self(a2b(a)))`, calling `self` once.
    fn dimap<A2B: Fn(A) -> B + 'static, C2D: Fn(C) -> D + 'static>(self, a2b: A2B, c2d: C2D) -> (out: CFnOnce<A, D>) {
        let pg: Ghost<CFnOnce<B, C>> = Ghost(self);
        let ag: Ghost<A2B> = Ghost(a2b);
        let cg: Ghost<C2D> = Ghost(c2d);
        let mapped = move |a: A| -> (d: D)
            requires
                call_requires(ag@, (a,)),
                forall|b: B| #[trigger] call_ensures(ag@, (a,), b) ==> (pg@.accepts(b) && forall|c: C| #[trigger] pg@.gives(b, c) ==> call_requires(cg@, (c,))),
            ensures
                exists|b: B, c: C| #[trigger] call_ensures(ag@, (a,), b) && #[trigger] pg@.gives(b, c) && call_ensures(cg@, (c,), d),
        {
            let b = a2b(a);
            let c = self.call_once(b);
            c2d(c)
        };
        let out = CFnOnce::new(mapped);
        proof {
            assert forall|a: A|
                pre_of(a2b)(a) && (forall|b: B| #[trigger] graph(a2b)(a, b) ==> (self.accepts(b) && forall|c: C| #[trigger] self.gives(b, c) ==> pre_of(c2d)(c)))
                    implies #[trigger] out.accepts(a) by {
                assert forall|b: B| #[trigger] call_ensures(a2b, (a,), b) implies (self.accepts(b) && forall|c: C| #[trigger] self.gives(b, c) ==> call_requires(c2d, (c,))) by {
                    assert(graph(a2b)(a, b));
                    assert forall|c: C| #[trigger] self.gives(b, c) implies call_requires(c2d, (c,)) by {
                        assert(pre_of(c2d)(c));
                    }
                }
            }
            assert forall|a: A, d: D| #[trigger] out.gives(a, d) implies exists|b: B, c: C|
                #[trigger] graph(a2b)(a, b) && #[trigger] self.gives(b, c) && graph(c2d)(c, d) by {
                let (b, c) = choose|b: B, c: C| #[trigger] call_ensures(a2b, (a,), b) && #[trigger] self.gives(b, c) && call_ensures(c2d, (c,), d);
                assert(graph(a2b)(a, b) && graph(c2d)(c, d));
            }
        }
        out
    }
}

/// Profunctors that can act on one component of a pair, leaving the other untouched.
pub trait Strong<A, B, C>: Sized {
    /// The profunctor from `(A, C)` to `(B, C)`.
    type First;

    /// The profunctor from `(C, A)` to `(C, B)`.
    type Second;

    /// `out` acts as `p` on the first component of a pair and keeps the second.
    spec fn firsted(p: Self, out: Self::First) -> bool;

    /// `out` acts as `p` on the second component of a pair and keeps the first.
    spec fn seconded(p: Self, out: Self::Second) -> bool;

    /// Adapts the profunctor to the first component of a pair.
    fn first(self) -> (out: Self::First)
        ensures
            Self::firsted(self, out),
    ;

    /// Adapts the profunctor to the second component of a pair.
    fn second(self) -> (out: Self::Second)
        ensures
            Self::seconded(self, out),
    ;
}

impl<A: 'static, B: 'static, C: 'static> Strong<A, B, C> for CFn<A, B> {
    type First = CFn<(A, C), (B, C)>;

    type Second = CFn<(C, A), (C, B)>;

    /// `out` maps `(a, c)` to `(f(a), c)`.
    open spec fn firsted(p: CFn<A, B>, out: CFn<(A, C), (B, C)>) -> bool {
        &&& forall|a: A, c: C| p.accepts(a) ==> #[trigger] out.accepts((a, c))
        &&& forall|a: A, c: C, r: (B, C)| #[trigger] out.gives((a, c), r) ==> p.gives(a, r.0) && r.1 == c
    }

    /// `out` maps `(c, a)` to `(c, f(a))`.
    open spec fn seconded(p: CFn<A, B>, out: CFn<(C, A), (C, B)>) -> bool {
        &&& forall|c: C, a: A| p.accepts(a) ==> #[trigger] out.accepts((c, a))
        &&& forall|c: C, a: A, r: (C, B)| #[trigger] out.gives((c, a), r) ==> r.0 == c && p.gives(a, r.1)
    }

    fn first(self) -> (out: CFn<(A, C), (B, C)>) {
        let pg: Ghost<CFn<A, B>> = Ghost(self);
        let on_first = move |pair: (A, C)| -> (r: (B, C))
            requires
                pg@.accepts(pair.0),
            ensures
                pg@.gives(pair.0, r.0) && r.1 == pair.1,
        {
            let (a, c) = pair;
            (self.call(a), c)
        };
        CFn::new(on_first)
    }

    fn second(self) -> (out: CFn<(C, A), (C, B)>) {
        let pg: Ghost<CFn<A, B>> = Ghost(self);
        let on_second = move |pair: (C, A)| -> (r: (C, B))
            requires
                pg@.accepts(pair.1),
            ensures
                r.0 == pair.0 && pg@.gives(pair.1, r.1),
        {
            let (c, a) = pair;
            (c, self.call(a))
        };
        CFn::new(on_second)
    }
}

/// Profunctors that can act on one variant of a `Result`, passing the other on.
pub trait Choice<A, B, C>: Sized {
    /// The profunctor from `Result<C, A>` to `Result<C, B>`.
    type Left;

    /// The profunctor from `Result<A, C>` to `Result<B, C>`.
    type Right;

    /// `out` acts as `p` on `Err` values and passes `Ok` values on.
    spec fn lefted(p: Self, out: Self::Left) -> bool;

    /// `out` acts as `p` on `Ok` values and passes `Err` values on.
    spec fn righted(p: Self, out: Self::Right) -> bool;

    /// Adapts the profunctor to the `Err` variant.
    fn left(self) -> (out: Self::Left)
        ensures
            Self::lefted(self, out),
    ;

    /// Adapts the profunctor to the `Ok` variant.
    fn right(self) -> (out: Self::Right)
        ensures
            Self::righted(self, out),
    ;
}

impl<A: 'static, B: 'static, C: 'static> Choice<A, B, C> for CFn<A, B> {
    type Left = CFn<Result<C, A>, Result<C, B>>;

    type Right = CFn<Result<A, C>, Result<B, C>>;

    /// `Ok(c)` stays `Ok(c)`; `Err(a)` becomes `Err(f(a))`.
    open spec fn lefted(p: CFn<A, B>, out: CFn<Result<C, A>, Result<C, B>>) -> bool {
        &&& forall|c: C| #[trigger] out.accepts(Ok::<C, A>(c))
        &&& forall|a: A| p.accepts(a) ==> #[trigger] out.accepts(Err::<C, A>(a))
        &&& forall|x: Result<C, A>, r: Result<C, B>| #[trigger] out.gives(x, r) ==> match x {
            Ok(c) => r == Ok::<C, B>(c),
            Err(a) => r matches Err(b) && p.gives(a, b),
        }
    }

    /// `Ok(a)` becomes `Ok(f(a))`; `Err(c)` stays `Err(c)`.
    open spec fn righted(p: CFn<A, B>, out: CFn<Result<A, C>, Result<B, C>>) -> bool {
        &&& forall|a: A| p.accepts(a) ==> #[trigger] out.accepts(Ok::<A, C>(a))
        &&& forall|c: C| #[trigger] out.accepts(Err::<A, C>(c))
        &&& forall|x: Result<A, C>, r: Result<B, C>| #[trigger] out.gives(x, r) ==> match x {
            Ok(a) => r matches Ok(b) && p.gives(a, b),
            Err(c) => r == Err::<B, C>(c),
        }
    }

    fn left(self) -> (out: CFn<Result<C, A>, Result<C, B>>) {
        let pg: Ghost<CFn<A, B>> = Ghost(self);
        let on_err = move |r: Result<C, A>| -> (o: Result<C, B>)
            requires
                r matches Err(a) ==> pg@.accepts(a),
            ensures
                match r {
                    Ok(c) => o == Ok::<C, B>(c),
                    Err(a) => o matches Err(b) && pg@.gives(a, b),
                },
        {
            match r {
                Ok(c) => Ok(c),
                Err(a) => Err(self.call(a)),
            }
        };
        CFn::new(on_err)
    }

    fn right(self) -> (out: CFn<Result<A, C>, Result<B, C>>) {
        let pg: Ghost<CFn<A, B>> = Ghost(self);
        let on_ok = move |r: Result<A, C>| -> (o: Result<B, C>)
            requires
                r matches Ok(a) ==> pg@.accepts(a),
            ensures
                match r {
                    Ok(a) => o matches Ok(b) && pg@.gives(a, b),
                    Err(c) => o == Err::<B, C>(c),
                },
        {
            match r {
                Ok(a) => Ok(self.call(a)),
                Err(c) => Err(c),
            }
        };
        CFn::new(on_ok)
    }
}

/// A profunctor that keeps only a function from its input `AInput` to a fixed result
/// `R`; its output type `BPhantom` is ignored. It is what getters are built from.
#[verifier::reject_recursive_types(R)]
#[verifier::reject_recursive_types(AInput)]
pub struct Forget<R, AInput, BPhantom> {
    /// The function from the input to the result.
    pub inner: CFn<AInput, R>,
    /// Records the ignored output type.
    pub _forget: PhantomData<BPhantom>,
}

impl<R: 'static, ProfB: 'static, ProfC, ImplA: 'static, ImplD> Profunctor<ProfB, ProfC, ImplA, ImplD> for Forget<R, ProfB, ProfC> {
    type Pro = Forget<R, ImplA, ImplD>;

    /// Only the pre-processing applies: the new function is `inner` after `a2b`.
    open spec fn dimapped(
        p: Forget<R, ProfB, ProfC>,
        a2b_pre: spec_fn(ImplA) -> bool,
        a2b: spec_fn(ImplA, ProfB) -> bool,
        c2d_pre: spec_fn(ProfC) -> bool,
        c2d: spec_fn(ProfC, ImplD) -> bool,
        out: Forget<R, ImplA, ImplD>,
    ) -> bool {
        &&& forall|a: ImplA| a2b_pre(a) && (forall|b: ProfB| #[trigger] a2b(a, b) ==> p.inner.accepts(b)) ==> #[trigger] out.inner.accepts(a)
        &&& forall|a: ImplA, r: R| #[trigger] out.inner.gives(a, r) ==> exists|b: ProfB| #[trigger] a2b(a, b) && p.inner.gives(b, r)
    }

    proof fn lemma_dimapped_within(
        p: Forget<R, ProfB, ProfC>,
        a2b_pre: spec_fn(ImplA) -> bool,
        a2b: spec_fn(ImplA, ProfB) -> bool,
        c2d_pre: spec_fn(ProfC) -> bool,
        c2d: spec_fn(ProfC, ImplD) -> bool,
        a2b_pre2: spec_fn(ImplA) -> bool,
        a2b2: spec_fn(ImplA, ProfB) -> bool,
        c2d_pre2: spec_fn(ProfC) -> bool,
        c2d2: spec_fn(ProfC, ImplD) -> bool,
        out: Forget<R, ImplA, ImplD>,
    ) {
        assert forall|a: ImplA| a2b_pre2(a) && (forall|b: ProfB| #[trigger] a2b2(a, b) ==> p.inner.accepts(b)) implies #[trigger] out.inner.accepts(a) by {
            assert(a2b_pre(a));
            assert forall|b: ProfB| #[trigger] a2b(a, b) implies p.inner.accepts(b) by {
                assert(a2b2(a, b));
            }
        }
        assert forall|a: ImplA, r: R| #[trigger] out.inner.gives(a, r) implies exists|b: ProfB| #[trigger] a2b2(a, b) && p.inner.gives(b, r) by {
            let b = choose|b: ProfB| #[trigger] a2b(a, b) && p.inner.gives(b, r);
            assert(a2b2(a, b));
        }
    }

    /// Pre-composes `a2b` with the kept function; `_c2d` is not used.
    fn dimap<A2B: Fn(ImplA) -> ProfB + 'static, C2D: Fn(ProfC) -> ImplD + 'static>(self, a2b: A2B, _c2d: C2D) -> (out: Forget<R, ImplA, ImplD>) {
        let pre = CFn::new(a2b);
        let out = Forget { inner: pre >> self.inner, _forget: PhantomData };
        proof {
            assert forall|a: ImplA|
                pre_of(a2b)(a) && (forall|b: ProfB| #[trigger] graph(a2b)(a, b) ==> self.inner.accepts(b)) implies #[trigger] out.inner.accepts(a) by {
                assert forall|b: ProfB| #[trigger] pre.gives(a, b) implies self.inner.accepts(b) by {
                    assert(graph(a2b)(a, b));
                }
            }
            assert forall|a: ImplA, r: R| #[trigger] out.inner.gives(a, r) implies exists|b: ProfB| #[trigger] graph(a2b)(a, b) && self.inner.gives(b, r) by {
                let b = choose|b: ProfB| #[trigger] pre.gives(a, b) && self.inner.gives(b, r);
                assert(graph(a2b)(a, b));
            }
        }
        out
    }
}

impl<R: 'static, AStrong: 'static, BStrong: 'static, C: 'static> Strong<AStrong, BStrong, C> for Forget<R, AStrong, BStrong> {
    type First = Forget<R, (AStrong, C), (BStrong, C)>;

    type Second = Forget<R, (C, AStrong), (C, BStrong)>;

    /// The new function applies the kept one to the first component.
    open spec fn firsted(p: Forget<R, AStrong, BStrong>, out: Forget<R, (AStrong, C), (BStrong, C)>) -> bool {
        &&& forall|a: AStrong, c: C| p.inner.accepts(a) ==> #[trigger] out.inner.accepts((a, c))
        &&& forall|a: AStrong, c: C, r: R| #[trigger] out.inner.gives((a, c), r) ==> p.inner.gives(a, r)
    }

    /// The new function applies the kept one to the second component.
    open spec fn seconded(p: Forget<R, AStrong, BStrong>, out: Forget<R, (C, AStrong), (C, BStrong)>) -> bool {
        &&& forall|c: C, a: AStrong| p.inner.accepts(a) ==> #[trigger] out.inner.accepts((c, a))
        &&& forall|c: C, a: AStrong, r: R| #[trigger] out.inner.gives((c, a), r) ==> p.inner.gives(a, r)
    }

    fn first(self) -> (out: Forget<R, (AStrong, C), (BStrong, C)>) {
        let take_first = CFn::new(|pair: (AStrong, C)| -> (a: AStrong) ensures a == pair.0 {
            let (a, _c) = pair;
            a
        });
        let out = Forget { inner: take_first >> self.inner, _forget: PhantomData };
        proof {
            assert forall|a: AStrong, c: C| self.inner.accepts(a) implies #[trigger] out.inner.accepts((a, c)) by {
                assert(take_first.accepts((a, c)));
            }
            assert forall|a: AStrong, c: C, r: R| #[trigger] out.inner.gives((a, c), r) implies self.inner.gives(a, r) by {
                let b = choose|b: AStrong| #[trigger] take_first.gives((a, c), b) && self.inner.gives(b, r);
            }
        }
        out
    }

    fn second(self) -> (out: Forget<R, (C, AStrong), (C, BStrong)>) {
        let take_second = CFn::new(|pair: (C, AStrong)| -> (a: AStrong) ensures a == pair.1 {
            let (_c, a) = pair;
            a
        });
        let out = Forget { inner: take_second >> self.inner, _forget: PhantomData };
        proof {
            assert forall|c: C, a: AStrong| self.inner.accepts(a) implies #[trigger] out.inner.accepts((c, a)) by {
                assert(take_second.accepts((c, a)));
            }
            assert forall|c: C, a: AStrong, r: R| #[trigger] out.inner.gives((c, a), r) implies self.inner.gives(a, r) by {
                let b = choose|b: AStrong| #[trigger] take_second.gives((c, a), b) && self.inner.gives(b, r);
            }
        }
        out
    }
}

/// An optic in profunctor encoding: a function that turns an inner profunctor
/// `PInner` (acting on parts `A -> B`) into an outer profunctor `POuter` (acting on
/// wholes `S -> T`).
#[verifier::reject_recursive_types(POuter)]
#[verifier::reject_recursive_types(PInner)]
pub struct Optic<POuter, PInner, S, T, A, B> {
    /// The transformation from inner to outer profunctor.
    pub optic: CFnOnce<PInner, POuter>,
    /// Records the whole's source type.
    pub _s: PhantomData<S>,
    /// Records the whole's target type.
    pub _t: PhantomData<T>,
    /// Records the part's source type.
    pub _a: PhantomData<A>,
    /// Records the part's target type.
    pub _b: PhantomData<B>,
}

/// An optic that focuses on a part `A` of a whole `S`, allowing to get it and to set it
/// (to a `B`, giving a `T`); built from strong profunctors.
#[verifier::reject_recursive_types(PO)]
#[verifier::reject_recursive_types(PI)]
pub struct Lens<PO, PI, S, T, A, B>(pub Optic<PO, PI, S, T, A, B>);

/// A lens can be used in place of a reference to the optic it wraps.
impl<PO, PI, S, T, A, B> core::ops::Deref for Lens<PO, PI, S, T, A, B> {
    type Target = Optic<PO, PI, S, T, A, B>;

    fn deref(&self) -> (out: &Optic<PO, PI, S, T, A, B>)
        ensures
            *out == self.0,
    {
        &self.0
    }
}

/// A lens is used as the optic it wraps.
impl<PO, PI, S, T, A, B> From<Lens<PO, PI, S, T, A, B>> for Optic<PO, PI, S, T, A, B> {
    fn from(value: Lens<PO, PI, S, T, A, B>) -> (out: Self) {
        value.0
    }
}

impl<PO, PI, S, T, A, B> FromSpecImpl<Lens<PO, PI, S, T, A, B>> for Optic<PO, PI, S, T, A, B> {
    open spec fn obeys_from_spec() -> bool {
        true
    }

    open spec fn from_spec(v: Lens<PO, PI, S, T, A, B>) -> Self {
        v.0
    }
}

/// An optic that extracts parts through `Forget` profunctors with result `R`.
pub type Fold<R, S, T, A, B> = Optic<Forget<R, S, T>, Forget<R, A, B>, S, T, A, B>;

/// An optic that extracts one part `A` from a whole `S`.
pub type AGetter<S, T, A, B> = Fold<A, S, T, A, B>;

/// Calling a pair `(b, f)` of a part and a setter is allowed when `f` accepts `b`.
pub open spec fn eval_pre<B, T>() -> spec_fn((B, CFn<B, T>)) -> bool {
    |bf: (B, CFn<B, T>)| bf.1.accepts(bf.0)
}

/// The relation of calling the setter of a pair `(b, f)` on its part: `f(b)`.
pub open spec fn eval_rel<B, T>() -> spec_fn((B, CFn<B, T>), T) -> bool {
    |bf: (B, CFn<B, T>), t: T| bf.1.gives(bf.0, t)
}

/// `optic` is the lens given by `to: S -> (A, B -> T)`: it accepts every inner
/// profunctor `pbc` and turns it into `dimap(first(pbc), to, |(b, f)| f(b))`.
pub open spec fn lens_optic<PO, PI, PBC, S, T, A, B>(to: CFn<S, (A, CFn<B, T>)>, optic: CFnOnce<PBC, PO>) -> bool where
    PBC: Strong<A, B, CFn<B, T>, First = PI>,
    PI: Profunctor<(A, CFn<B, T>), (B, CFn<B, T>), S, T, Pro = PO>,
 {
    &&& forall|pbc: PBC| #[trigger] optic.accepts(pbc)
    &&& forall|pbc: PBC, po: PO| #[trigger] optic.gives(pbc, po) ==> exists|pi: PI|
        #[trigger] PBC::firsted(pbc, pi) && PI::dimapped(pi, accepts_pred(to), gives_rel(to), eval_pre::<B, T>(), eval_rel::<B, T>(), po)
}

/// Builds a lens from `to: S -> (A, B -> T)`, which gives the focused part and a
/// function that rebuilds the whole from a new part.
pub fn lens_<PO, PI, PBC, S: 'static, T: 'static, A: 'static, B: 'static>(to: CFn<S, (A, CFn<B, T>)>) -> (out: Lens<PO, PBC, S, T, A, B>) where
    PO: 'static,
    PBC: Strong<A, B, CFn<B, T>, First = PI> + 'static,
    PI: Profunctor<(A, CFn<B, T>), (B, CFn<B, T>), S, T, Pro = PO> + 'static,

    ensures
        lens_optic::<PO, PI, PBC, S, T, A, B>(to, out.0.optic),
{
    let tg: Ghost<CFn<S, (A, CFn<B, T>)>> = Ghost(to);
    let optics_fn = move |pbc: PBC| -> (po: PO)
        ensures
            exists|pi: PI|
                #[trigger] PBC::firsted(pbc, pi) && PI::dimapped(pi, accepts_pred(tg@), gives_rel(tg@), eval_pre::<B, T>(), eval_rel::<B, T>(), po),
    {
        let pi_instance = pbc.first();
        let to_fn = move |s_val: S| -> (x: (A, CFn<B, T>))
            requires
                tg@.accepts(s_val),
            ensures
                tg@.gives(s_val, x),
        {
            to.call(s_val)
        };
        let eval = |bf: (B, CFn<B, T>)| -> (t: T)
            requires
                bf.1.accepts(bf.0),
            ensures
                bf.1.gives(bf.0, t),
        {
            let (b_val, f_b_to_t) = bf;
            f_b_to_t.call(b_val)
        };
        let ghost pi = pi_instance;
        let po = pi_instance.dimap(to_fn, eval);
        proof {
            assert(pred_within(accepts_pred(tg@), pre_of(to_fn)));
            assert(rel_within(graph(to_fn), gives_rel(tg@)));
            assert(pred_within(eval_pre::<B, T>(), pre_of(eval)));
            assert(rel_within(graph(eval), eval_rel::<B, T>()));
            PI::lemma_dimapped_within(
                pi,
                pre_of(to_fn),
                graph(to_fn),
                pre_of(eval),
                graph(eval),
                accepts_pred(tg@),
                gives_rel(tg@),
                eval_pre::<B, T>(),
                eval_rel::<B, T>(),
                po,
            );
        }
        po
    };
    Lens(Optic { optic: CFnOnce::new(optics_fn), _s: PhantomData, _t: PhantomData, _a: PhantomData, _b: PhantomData })
}

/// `to` pairs the getter `s2a` with the setter `s2b2t`: it may be called wherever both
/// may, and gives the part and the rebuilding function that they give.
pub open spec fn pairs_getter_setter<S, T, A, B>(to: CFn<S, (A, CFn<B, T>)>, s2a: CFn<S, A>, s2b2t: CFn<S, CFn<B, T>>) -> bool {
    &&& forall|s: S| s2a.accepts(s) && s2b2t.accepts(s) ==> #[trigger] to.accepts(s)
    &&& forall|s: S, x: (A, CFn<B, T>)| #[trigger] to.gives(s, x) ==> s2a.gives(s, x.0) && s2b2t.gives(s, x.1)
}

/// Builds a lens from a getter `s2a: S -> A` and a setter `s2b2t: S -> (B -> T)`.
pub fn lens<PO, PI, S: Copy + 'static, T: 'static, A: 'static, B: 'static>(
    s2a: CFn<S, A>,
    s2b2t: CFn<S, CFn<B, T>>,
) -> (out: Lens<PO, PI, S, T, A, B>) where
    PO: 'static,
    PI: Strong<A, B, CFn<B, T>> + 'static,
    <PI as Strong<A, B, CFn<B, T>>>::First: Profunctor<(A, CFn<B, T>), (B, CFn<B, T>), S, T, Pro = PO> + 'static,

    ensures
        exists|to: CFn<S, (A, CFn<B, T>)>|
            #[trigger] pairs_getter_setter(to, s2a, s2b2t)
                && lens_optic::<PO, <PI as Strong<A, B, CFn<B, T>>>::First, PI, S, T, A, B>(to, out.0.optic),
{
    let gg: Ghost<CFn<S, A>> = Ghost(s2a);
    let sg: Ghost<CFn<S, CFn<B, T>>> = Ghost(s2b2t);
    let combined = move |s: S| -> (x: (A, CFn<B, T>))
        requires
            gg@.accepts(s),
            sg@.accepts(s),
        ensures
            gg@.gives(s, x.0) && sg@.gives(s, x.1),
    {
        let part_a = s2a.call(s);
        let setter_fn_for_s = s2b2t.call(s);
        (part_a, setter_fn_for_s)
    };
    let to = CFn::new(combined);
    let out = lens_::<PO, <PI as Strong<A, B, CFn<B, T>>>::First, PI, S, T, A, B>(to);
    assert(pairs_getter_setter(to, s2a, s2b2t));
    out
}

/// `p` is the `Forget` profunctor of the identity function.
pub open spec fn is_identity_forget<A, B>(p: Forget<A, A, B>) -> bool {
    &&& forall|x: A| #[trigger] p.inner.accepts(x)
    &&& forall|x: A, y: A| #[trigger] p.inner.gives(x, y) ==> y == x
}

/// Extracts the part focused by `getter` from the whole `s`: the getter is applied
/// to the `Forget` profunctor of the identity, and the function obtained is called on `s`.
pub fn view<S: 'static, T: 'static, A: 'static, B: 'static>(getter: AGetter<S, T, A, B>, s: S) -> (out: A)
    requires
        forall|p: Forget<A, A, B>| is_identity_forget(p) ==> #[trigger] getter.optic.accepts(p),
        forall|p: Forget<A, A, B>, q: Forget<A, S, T>| is_identity_forget(p) && #[trigger] getter.optic.gives(p, q) ==> q.inner.accepts(s),
    ensures
        exists|p: Forget<A, A, B>, q: Forget<A, S, T>| is_identity_forget(p) && #[trigger] getter.optic.gives(p, q) && q.inner.gives(s, out),
{
    let inner_profunctor = Forget {
        inner: CFn::new(|x: A| -> (y: A) ensures y == x { x }),
        _forget: PhantomData,
    };
    let ghost p = inner_profunctor;
    assert(is_identity_forget(p));
    let q = getter.optic.call_once(inner_profunctor);
    q.inner.call(s)
}

/// Viewing through a lens built by [`lens`] from the getter `s2a` is possible wherever
/// the getter and the setter may be called, and gives a value that `s2a` gives.
pub proof fn lemma_view_lens<S, T, A, B>(
    s2a: CFn<S, A>,
    s2b2t: CFn<S, CFn<B, T>>,
    to: CFn<S, (A, CFn<B, T>)>,
    optic: CFnOnce<Forget<A, A, B>, Forget<A, S, T>>,
    s: S,
)
    requires
        pairs_getter_setter(to, s2a, s2b2t),
        lens_optic::<Forget<A, S, T>, Forget<A, (A, CFn<B, T>), (B, CFn<B, T>)>, Forget<A, A, B>, S, T, A, B>(to, optic),
        s2a.accepts(s),
        s2b2t.accepts(s),
    ensures
        forall|p: Forget<A, A, B>| is_identity_forget(p) ==> #[trigger] optic.accepts(p),
        forall|p: Forget<A, A, B>, q: Forget<A, S, T>| is_identity_forget(p) && #[trigger] optic.gives(p, q) ==> q.inner.accepts(s),
        forall|p: Forget<A, A, B>, q: Forget<A, S, T>, out: A|
            is_identity_forget(p) && #[trigger] optic.gives(p, q) && #[trigger] q.inner.gives(s, out) ==> s2a.gives(s, out),
{
    assert forall|p: Forget<A, A, B>, q: Forget<A, S, T>| is_identity_forget(p) && #[trigger] optic.gives(p, q) implies q.inner.accepts(s) by {
        let pi = choose|pi: Forget<A, (A, CFn<B, T>), (B, CFn<B, T>)>|
            #[trigger] <Forget<A, A, B> as Strong<A, B, CFn<B, T>>>::firsted(p, pi)
                && <Forget<A, (A, CFn<B, T>), (B, CFn<B, T>)> as Profunctor<(A, CFn<B, T>), (B, CFn<B, T>), S, T>>::dimapped(
                pi, accepts_pred(to), gives_rel(to), eval_pre::<B, T>(), eval_rel::<B, T>(), q);
        assert(to.accepts(s));
        assert forall|x: (A, CFn<B, T>)| #[trigger] gives_rel(to)(s, x) implies pi.inner.accepts(x) by {
            assert(p.inner.accepts(x.0));
            assert(pi.inner.accepts((x.0, x.1)));
        }
    }
    assert forall|p: Forget<A, A, B>, q: Forget<A, S, T>, out: A|
        is_identity_forget(p) && #[trigger] optic.gives(p, q) && #[trigger] q.inner.gives(s, out) implies s2a.gives(s, out) by {
        let pi = choose|pi: Forget<A, (A, CFn<B, T>), (B, CFn<B, T>)>|
            #[trigger] <Forget<A, A, B> as Strong<A, B, CFn<B, T>>>::firsted(p, pi)
                && <Forget<A, (A, CFn<B, T>), (B, CFn<B, T>)> as Profunctor<(A, CFn<B, T>), (B, CFn<B, T>), S, T>>::dimapped(
                pi, accepts_pred(to), gives_rel(to), eval_pre::<B, T>(), eval_rel::<B, T>(), q);
        let x = choose|x: (A, CFn<B, T>)| #[trigger] gives_rel(to)(s, x) && pi.inner.gives(x, out);
        assert(pi.inner.gives((x.0, x.1), out));
        assert(p.inner.gives(x.0, out));
    }
}

/// The lens that focuses on the first component of a pair `(A, C)`.
pub fn _1<A: 'static, B: 'static, C: 'static, PA, PS>() -> (out: Lens<PS, PA, (A, C), (B, C), A, B>) where
    PA: Strong<A, B, C, First = PS> + 'static,
    PS: 'static,

    ensures
        forall|pa: PA| #[trigger] out.0.optic.accepts(pa),
        forall|pa: PA, ps: PS| #[trigger] out.0.optic.gives(pa, ps) ==> PA::firsted(pa, ps),
{
    let to_first = |pa: PA| -> (ps: PS)
        ensures
            PA::firsted(pa, ps),
    {
        pa.first()
    };
    Lens(Optic { optic: CFnOnce::new(to_first), _s: PhantomData, _t: PhantomData, _a: PhantomData, _b: PhantomData })
}

/// The lens that focuses on the second component of a pair `(C, A)`.
pub fn _2<A: 'static, B: 'static, C: 'static, PA, PS>() -> (out: Lens<PS, PA, (C, A), (C, B), A, B>) where
    PA: Strong<A, B, C, Second = PS> + 'static,
    PS: 'static,

    ensures
        forall|pa: PA| #[trigger] out.0.optic.accepts(pa),
        forall|pa: PA, ps: PS| #[trigger] out.0.optic.gives(pa, ps) ==> PA::seconded(pa, ps),
{
    let to_second = |pa: PA| -> (ps: PS)
        ensures
            PA::seconded(pa, ps),
    {
        pa.second()
    };
    Lens(Optic { optic: CFnOnce::new(to_second), _s: PhantomData, _t: PhantomData, _a: PhantomData, _b: PhantomData })
}

/// `g` accepts every pair and gives its first component.
pub open spec fn is_first_getter<A, X>(g: CFn<(A, X), A>) -> bool {
    &&& forall|p: (A, X)| #[trigger] g.accepts(p)
    &&& forall|p: (A, X), a: A| #[trigger] g.gives(p, a) ==> a == p.0
}

/// `f` accepts every value and puts it in place of the first component of `p`.
pub open spec fn is_first_setter_of<A, X>(f: CFn<A, (A, X)>, p: (A, X)) -> bool {
    &&& forall|a: A| #[trigger] f.accepts(a)
    &&& forall|a: A, q: (A, X)| #[trigger] f.gives(a, q) ==> q == (a, p.1)
}

/// `st` accepts every pair and gives a function that replaces its first component.
pub open spec fn is_first_setter<A, X>(st: CFn<(A, X), CFn<A, (A, X)>>) -> bool {
    &&& forall|p: (A, X)| #[trigger] st.accepts(p)
    &&& forall|p: (A, X), f: CFn<A, (A, X)>| #[trigger] st.gives(p, f) ==> is_first_setter_of(f, p)
}

/// The lens on the first component of a pair, built with [`lens`] from a getter and
/// a setter (the part keeps its type).
#[allow(dead_code)]
fn _1_new<A: Copy + 'static, X: Copy + 'static, PO, PI>() -> (out: Lens<PO, PI, (A, X), (A, X), A, A>) where
    PO: 'static,
    PI: Strong<A, A, CFn<A, (A, X)>> + 'static,
    <PI as Strong<A, A, CFn<A, (A, X)>>>::First: Profunctor<(A, CFn<A, (A, X)>), (A, CFn<A, (A, X)>), (A, X), (A, X), Pro = PO> + 'static,

    ensures
        exists|to: CFn<(A, X), (A, CFn<A, (A, X)>)>, g: CFn<(A, X), A>, st: CFn<(A, X), CFn<A, (A, X)>>|
            #[trigger] pairs_getter_setter(to, g, st) && is_first_getter(g) && is_first_setter(st)
                && lens_optic::<PO, <PI as Strong<A, A, CFn<A, (A, X)>>>::First, PI, (A, X), (A, X), A, A>(to, out.0.optic),
{
    let getter = CFn::new(|p: (A, X)| -> (a: A) ensures a == p.0 { p.0 });
    let setter = CFn::new(|p: (A, X)| -> (f: CFn<A, (A, X)>)
        ensures
            is_first_setter_of(f, p),
    {
        let rest = p.1;
        CFn::new(move |new_a: A| -> (q: (A, X)) ensures q == (new_a, p.1) { (new_a, rest) })
    });
    proof {
        assert(is_first_getter(getter));
        assert(is_first_setter(setter));
    }
    let ghost g = getter;
    let ghost st = setter;
    let out = lens(getter, setter);
    assert(is_first_getter(g) && is_first_setter(st));
    out
}

/// A record with two fields, used to demonstrate lenses.
#[derive(Clone, Copy, Debug, PartialEq)]
pub struct Check {
    /// A field focused by [`_key`].
    pub key: i8,
    /// Another field.
    pub other: i8,
}

/// The lens that focuses on the `key` field of a [`Check`].
pub fn _key<PO, PI>() -> (out: Lens<PO, PI, Check, Check, i8, i8>) where
    PO: 'static,
    PI: Strong<i8, i8, CFn<i8, Check>> + 'static,
    <PI as Strong<i8, i8, CFn<i8, Check>>>::First: Profunctor<(i8, CFn<i8, Check>), (i8, CFn<i8, Check>), Check, Check, Pro = PO> + 'static,

    ensures
        exists|to: CFn<Check, (i8, CFn<i8, Check>)>, g: CFn<Check, i8>, st: CFn<Check, CFn<i8, Check>>|
            #[trigger] pairs_getter_setter(to, g, st) && is_key_getter(g) && is_key_setter(st)
                && lens_optic::<PO, <PI as Strong<i8, i8, CFn<i8, Check>>>::First, PI, Check, Check, i8, i8>(to, out.0.optic),
{
    let getter = CFn::new(|c: Check| -> (k: i8) ensures k == c.key { c.key });
    let setter = CFn::new(|c: Check| -> (f: CFn<i8, Check>)
        ensures
            is_key_setter_of(f, c),
    {
        CFn::new(move |new_key: i8| -> (d: Check) ensures d == (Check { key: new_key, other: c.other }) {
            Check { key: new_key, other: c.other }
        })
    });
    proof {
        assert(is_key_getter(getter));
        assert(is_key_setter(setter));
    }
    let ghost g = getter;
    let ghost st = setter;
    let out = lens(getter, setter);
    assert(is_key_getter(g) && is_key_setter(st));
    out
}

/// `f` accepts every key and rebuilds `c` with it.
pub open spec fn is_key_setter_of(f: CFn<i8, Check>, c: Check) -> bool {
    &&& forall|k: i8| #[trigger] f.accepts(k)
    &&& forall|k: i8, d: Check| #[trigger] f.gives(k, d) ==> d == (Check { key: k, other: c.other })
}

/// `g` accepts every record and gives its key.
pub open spec fn is_key_getter(g: CFn<Check, i8>) -> bool {
    &&& forall|c: Check| #[trigger] g.accepts(c)
    &&& forall|c: Check, k: i8| #[trigger] g.gives(c, k) ==> k == c.key
}

/// `s` accepts every record and gives a function that rebuilds it with a new key.
pub open spec fn is_key_setter(s: CFn<Check, CFn<i8, Check>>) -> bool {
    &&& forall|c: Check| #[trigger] s.accepts(c)
    &&& forall|c: Check, f: CFn<i8, Check>| #[trigger] s.gives(c, f) ==> is_key_setter_of(f, c)
}

/// Maps the input of a profunctor: `dimap(a2b, identity)`.
pub fn lcmap<A, B, C, F, Pbc, Pac>(a2b: F, profunctor: Pbc) -> (out: Pac) where
    A: 'static,
    B: 'static,
    C: 'static,
    F: Fn(A) -> B + 'static,
    Pbc: Profunctor<B, C, A, C, Pro = Pac>,

    ensures
        Pbc::dimapped(profunctor, pre_of(a2b), graph(a2b), always::<C>(), same_rel::<C>(), out),
{
    let keep = |c_val: C| -> (r: C) ensures r == c_val { c_val };
    let out = profunctor.dimap(a2b, keep);
    proof {
        assert(pred_within(always::<C>(), pre_of(keep)));
        assert(rel_within(graph(keep), same_rel::<C>()));
        Pbc::lemma_dimapped_within(profunctor, pre_of(a2b), graph(a2b), pre_of(keep), graph(keep),
            pre_of(a2b), graph(a2b), always::<C>(), same_rel::<C>(), out);
    }
    out
}

/// Maps the output of a profunctor: `dimap(identity, b2c)`.
pub fn rmap<A, B, C, F, Pab, Pac>(b2c: F, profunctor: Pab) -> (out: Pac) where
    A: 'static,
    B: 'static,
    C: 'static,
    F: Fn(B) -> C + 'static,
    Pab: Profunctor<A, B, A, C, Pro = Pac>,

    ensures
        Pab::dimapped(profunctor, always::<A>(), same_rel::<A>(), pre_of(b2c), graph(b2c), out),
{
    let keep = |a_val: A| -> (r: A) ensures r == a_val { a_val };
    let out = profunctor.dimap(keep, b2c);
    proof {
        assert(pred_within(always::<A>(), pre_of(keep)));
        assert(rel_within(graph(keep), same_rel::<A>()));
        Pab::lemma_dimapped_within(profunctor, pre_of(keep), graph(keep), pre_of(b2c), graph(b2c),
            always::<A>(), same_rel::<A>(), pre_of(b2c), graph(b2c), out);
    }
    out
}

} // verus!