//! The `ReaderT` monad transformer: a computation that reads an environment of type
//! `R` and produces a structure `M` of an inner monad (for example `Option<A>`).

use crate::applicative::Applicative;
use crate::apply::Apply;
use crate::function::{graph, pre_of, CFn};
use crate::functor::Functor;
use crate::identity::Identity;
use crate::kind_based::kind::Kind;
use crate::monad::{Bind, Monad};
use core::marker::PhantomData;
use std::rc::Rc;
use vstd::prelude::*;

verus! {

/// A computation from an environment `R` to a value `M` of the inner structure; `A`
/// is the type of the value(s) inside `M`.
#[verifier::reject_recursive_types(R)]
#[verifier::reject_recursive_types(M)]
pub struct ReaderT<R, M, A> {
    /// The computation itself, shared between clones of the reader.
    pub run_reader_t: Rc<CFn<R, M>>,
    /// Records the value type `A`.
    pub phantom_a: PhantomData<A>,
}

/// A reader over the identity monad: a plain computation `R -> Identity<A>`.
pub type Reader<R, A> = ReaderT<R, Identity<A>, A>;

impl<R, M, A> ReaderT<R, M, A> {
    /// The computation may be run in the environment `env`.
    pub open spec fn accepts(&self, env: R) -> bool {
        self.run_reader_t.accepts(env)
    }

    /// Running the computation in `env` may produce `m`.
    pub open spec fn gives(&self, env: R, m: M) -> bool {
        self.run_reader_t.gives(env, m)
    }

    /// Wraps the computation `f`; the reader behaves exactly as `f`.
    pub fn new<F>(f: F) -> (r: Self) where F: Fn(R) -> M + 'static
        ensures
            forall|env: R| #[trigger] r.accepts(env) == call_requires(f, (env,)),
            forall|env: R, m: M| #[trigger] r.gives(env, m) == call_ensures(f, (env,), m),
    {
        let c = CFn::new(f);
        let r = ReaderT { run_reader_t: Rc::new(c), phantom_a: PhantomData };
        assert(forall|env: R| #[trigger] r.accepts(env) == c.accepts(env));
        assert(forall|env: R, m: M| #[trigger] r.gives(env, m) == c.gives(env, m));
        r
    }

    /// Runs the computation in the environment `env`.
    pub fn run(&self, env: R) -> (m: M)
        requires
            self.accepts(env),
        ensures
            self.gives(env, m),
    {
        self.run_reader_t.call(env)
    }
}

/// A clone shares the computation: it is the same reader.
impl<R, M, A> Clone for ReaderT<R, M, A> {
    fn clone(&self) -> (out: Self)
        ensures
            out == *self,
    {
        ReaderT { run_reader_t: share(&self.run_reader_t), phantom_a: self.phantom_a }
    }
}

/// Another handle to the value behind `rc` (`Rc::clone`): std documents that it
/// points to the same allocation, so the value seen through it is the same.
#[verifier::external_body]
pub(crate) fn share<T>(rc: &Rc<T>) -> (r: Rc<T>)
    ensures
        r == *rc,
{
    Rc::clone(rc)
}

/// Marker for `ReaderT<R, M, _>` where `M` is the inner structure of the marker `MMarker`.
#[derive(Default)]
pub struct ReaderTHKTMarker<R, MMarker>(pub PhantomData<(R, MMarker)>);

impl<R, MMarker: Kind<A>, A> Kind<A> for ReaderTHKTMarker<R, MMarker> {
    type Of = ReaderT<R, <MMarker as Kind<A>>::Of, A>;
}

impl<R: 'static, MM: Functor<A, B> + 'static, A: 'static, B: 'static> Functor<A, B> for ReaderTHKTMarker<R, MM> {
    /// The result maps over what `input` produces.
    open spec fn mapped(
        input: ReaderT<R, <MM as Kind<A>>::Of, A>,
        rel: spec_fn(A, B) -> bool,
        out: ReaderT<R, <MM as Kind<B>>::Of, B>,
    ) -> bool {
        forall|env: R, mb: <MM as Kind<B>>::Of|
            #[trigger] out.gives(env, mb) ==> exists|ma: <MM as Kind<A>>::Of|
                #[trigger] input.gives(env, ma) && MM::mapped(ma, rel, mb)
    }

    proof fn lemma_mapped_within(
        input: ReaderT<R, <MM as Kind<A>>::Of, A>,
        p: spec_fn(A, B) -> bool,
        q: spec_fn(A, B) -> bool,
        out: ReaderT<R, <MM as Kind<B>>::Of, B>,
    ) {
        assert forall|env: R, mb: <MM as Kind<B>>::Of| #[trigger] out.gives(env, mb) implies exists|ma: <MM as Kind<A>>::Of|
            #[trigger] input.gives(env, ma) && MM::mapped(ma, q, mb) by {
            let ma = choose|ma: <MM as Kind<A>>::Of| #[trigger] input.gives(env, ma) && MM::mapped(ma, p, mb);
            MM::lemma_mapped_within(ma, p, q, mb);
        }
    }

    open spec fn map_ok(input: ReaderT<R, <MM as Kind<A>>::Of, A>, pre: spec_fn(A) -> bool) -> bool {
        true
    }

    /// The result runs wherever `input` runs and the inner `map` may be used, with
    /// `pre`, on everything `input` produces there.
    open spec fn map_runs(
        input: ReaderT<R, <MM as Kind<A>>::Of, A>,
        pre: spec_fn(A) -> bool,
        out: ReaderT<R, <MM as Kind<B>>::Of, B>,
    ) -> bool {
        forall|env: R|
            input.accepts(env) && (forall|ma: <MM as Kind<A>>::Of| #[trigger] input.gives(env, ma) ==> MM::map_ok(ma, pre))
                ==> #[trigger] out.accepts(env)
    }

    proof fn lemma_map_ok_within(input: ReaderT<R, <MM as Kind<A>>::Of, A>, p: spec_fn(A) -> bool, q: spec_fn(A) -> bool) {
    }

    proof fn lemma_map_ok_total(input: ReaderT<R, <MM as Kind<A>>::Of, A>) {
    }

    proof fn lemma_map_runs_within(
        input: ReaderT<R, <MM as Kind<A>>::Of, A>,
        p: spec_fn(A) -> bool,
        q: spec_fn(A) -> bool,
        out: ReaderT<R, <MM as Kind<B>>::Of, B>,
    ) {
        assert forall|env: R|
            input.accepts(env) && (forall|ma: <MM as Kind<A>>::Of| #[trigger] input.gives(env, ma) ==> MM::map_ok(ma, q))
                implies #[trigger] out.accepts(env) by {
            assert forall|ma: <MM as Kind<A>>::Of| #[trigger] input.gives(env, ma) implies MM::map_ok(ma, p) by {
                MM::lemma_map_ok_within(ma, q, p);
            }
        }
    }

    /// The result runs `input` and maps `func` over what it produces with the inner
    /// `map`; `func` need only accept the values the inner `map` feeds it.
    fn map<F: Fn(A) -> B + 'static>(input: ReaderT<R, <MM as Kind<A>>::Of, A>, func: F) -> (out: ReaderT<R, <MM as Kind<B>>::Of, B>) {
        let ig: Ghost<ReaderT<R, <MM as Kind<A>>::Of, A>> = Ghost(input);
        let fg: Ghost<F> = Ghost(func);
        let shared: Rc<F> = Rc::new(func);
        let mapped_run = move |env: R| -> (mb: <MM as Kind<B>>::Of)
            requires
                ig@.accepts(env),
                forall|ma: <MM as Kind<A>>::Of| #[trigger] ig@.gives(env, ma) ==> MM::map_ok(ma, pre_of(fg@)),
            ensures
                exists|ma: <MM as Kind<A>>::Of| #[trigger] ig@.gives(env, ma) && MM::mapped(ma, graph(fg@), mb),
        {
            let m_val = input.run(env);
            let handle = share(&shared);
            let each = move |a: A| -> (b: B)
                requires
                    call_requires(fg@, (a,)),
                ensures
                    call_ensures(fg@, (a,), b),
            {
                (*handle)(a)
            };
            proof {
                assert forall|a: A| #[trigger] pre_of(fg@)(a) implies pre_of(each)(a) by {
                }
                MM::lemma_map_ok_within(m_val, pre_of(fg@), pre_of(each));
            }
            let mb = MM::map(m_val, each);
            proof {
                MM::lemma_mapped_within(m_val, graph(each), graph(fg@), mb);
            }
            mb
        };
        ReaderT::new(mapped_run)
    }
}

/// Running the combined reader on `env` is allowed: `value` accepts every clone of
/// `env`, `fns` accepts `env`, and the inner `apply` may be used on what they produce.
pub open spec fn reader_apply_ok_at<R: Clone, MM: Apply<A, B>, A, B>(
    value: ReaderT<R, <MM as Kind<A>>::Of, A>,
    fns: ReaderT<R, <MM as Kind<CFn<A, B>>>::Of, CFn<A, B>>,
    env: R,
) -> bool {
    &&& forall|e1: R| #[trigger] cloned(env, e1) ==> value.accepts(e1)
    &&& fns.accepts(env)
    &&& forall|e1: R, mv: <MM as Kind<A>>::Of, mf: <MM as Kind<CFn<A, B>>>::Of|
        #![trigger value.gives(e1, mv), fns.gives(env, mf)]
        cloned(env, e1) && value.gives(e1, mv) && fns.gives(env, mf) ==> MM::apply_ok(mv, mf)
}

/// `mb` may result from running `value` on a clone of `env`, `fns` on `env`, and
/// applying the inner structures.
pub open spec fn reader_apply_gives<R: Clone, MM: Apply<A, B>, A, B>(
    value: ReaderT<R, <MM as Kind<A>>::Of, A>,
    fns: ReaderT<R, <MM as Kind<CFn<A, B>>>::Of, CFn<A, B>>,
    env: R,
    mb: <MM as Kind<B>>::Of,
) -> bool {
    exists|e1: R, mv: <MM as Kind<A>>::Of, mf: <MM as Kind<CFn<A, B>>>::Of|
        #![trigger value.gives(e1, mv), fns.gives(env, mf)]
        cloned(env, e1) && value.gives(e1, mv) && fns.gives(env, mf) && MM::applied(mv, mf, mb)
}

impl<R: Clone + 'static, MM: Apply<A, B> + 'static, A: 'static, B: 'static> Apply<A, B> for ReaderTHKTMarker<R, MM> {
    open spec fn apply_ok(
        values: ReaderT<R, <MM as Kind<A>>::Of, A>,
        fns: ReaderT<R, <MM as Kind<CFn<A, B>>>::Of, CFn<A, B>>,
    ) -> bool {
        true
    }

    open spec fn applied(
        values: ReaderT<R, <MM as Kind<A>>::Of, A>,
        fns: ReaderT<R, <MM as Kind<CFn<A, B>>>::Of, CFn<A, B>>,
        out: ReaderT<R, <MM as Kind<B>>::Of, B>,
    ) -> bool {
        &&& forall|env: R| reader_apply_ok_at::<R, MM, A, B>(values, fns, env) ==> #[trigger] out.accepts(env)
        &&& forall|env: R, mb: <MM as Kind<B>>::Of| #[trigger] out.gives(env, mb) ==> reader_apply_gives::<R, MM, A, B>(values, fns, env, mb)
    }

    /// The result runs both readers in the same environment and applies the inner
    /// structures with the inner `apply`.
    fn apply(
        value_container: ReaderT<R, <MM as Kind<A>>::Of, A>,
        function_container: ReaderT<R, <MM as Kind<CFn<A, B>>>::Of, CFn<A, B>>,
    ) -> (out: ReaderT<R, <MM as Kind<B>>::Of, B>) {
        let vg: Ghost<ReaderT<R, <MM as Kind<A>>::Of, A>> = Ghost(value_container);
        let fg: Ghost<ReaderT<R, <MM as Kind<CFn<A, B>>>::Of, CFn<A, B>>> = Ghost(function_container);
        let combined = move |env: R| -> (mb: <MM as Kind<B>>::Of)
            requires
                reader_apply_ok_at::<R, MM, A, B>(vg@, fg@, env),
            ensures
                reader_apply_gives::<R, MM, A, B>(vg@, fg@, env, mb),
        {
            let e1 = env.clone();
            assert(cloned(env, e1));
            let m_val = value_container.run(e1);
            let m_func = function_container.run(env);
            MM::apply(m_val, m_func)
        };
        ReaderT::new(combined)
    }
}

impl<R: Clone + 'static, MM: Applicative<T> + 'static, T: Clone + 'static> Applicative<T> for ReaderTHKTMarker<R, MM> {
    /// The reader runs in every environment and lifts a clone of `value` with the inner `pure`.
    open spec fn is_pure(value: T, out: ReaderT<R, <MM as Kind<T>>::Of, T>) -> bool {
        &&& forall|env: R| #[trigger] out.accepts(env)
        &&& forall|env: R, m: <MM as Kind<T>>::Of| #[trigger] out.gives(env, m) ==> exists|v2: T| #[trigger] cloned(value, v2) && MM::is_pure(v2, m)
    }

    /// Lifts `value` into the reader that ignores the environment.
    fn pure(value: T) -> (out: ReaderT<R, <MM as Kind<T>>::Of, T>) {
        let vg: Ghost<T> = Ghost(value);
        let constant = move |_env: R| -> (m: <MM as Kind<T>>::Of)
            ensures
                exists|v2: T| #[trigger] cloned(vg@, v2) && MM::is_pure(v2, m),
        {
            let v2 = value.clone();
            assert(cloned(vg@, v2));
            MM::pure(v2)
        };
        ReaderT::new(constant)
    }
}

/// The relation of the function that, for a value `a`, runs a reader related to `a`
/// by `rel` on a clone of `env`.
pub open spec fn run_related<R: Clone, A, B, MB>(rel: spec_fn(A, ReaderT<R, MB, B>) -> bool, env: R) -> spec_fn(A, MB) -> bool {
    |a: A, mb: MB| exists|rb: ReaderT<R, MB, B>, e2: R| #[trigger] rel(a, rb) && #[trigger] cloned(env, e2) && rb.gives(e2, mb)
}

/// The values `a` on which the step "run a reader related to `a` by `rel` on a clone
/// of `env`" may be taken: `pre` holds of `a`, and every such reader accepts every
/// clone of `env`.
pub open spec fn run_pre<R: Clone, A, B, MB>(pre: spec_fn(A) -> bool, rel: spec_fn(A, ReaderT<R, MB, B>) -> bool, env: R) -> spec_fn(A) -> bool {
    |a: A| pre(a) && forall|rb: ReaderT<R, MB, B>, e2: R| #[trigger] rel(a, rb) && #[trigger] cloned(env, e2) ==> rb.accepts(e2)
}

/// Running the bound reader on `env` is allowed: `input` accepts every clone of
/// `env`, and on everything `input` produces there the inner `bind` may feed its
/// values to the step of [`run_pre`].
pub open spec fn reader_bind_ok_at<R: Clone, MM: Bind<A, B>, A, B>(
    input: ReaderT<R, <MM as Kind<A>>::Of, A>,
    pre: spec_fn(A) -> bool,
    rel: spec_fn(A, ReaderT<R, <MM as Kind<B>>::Of, B>) -> bool,
    env: R,
) -> bool {
    &&& forall|e1: R| #[trigger] cloned(env, e1) ==> input.accepts(e1)
    &&& forall|e1: R, ma: <MM as Kind<A>>::Of|
        #[trigger] cloned(env, e1) && #[trigger] input.gives(e1, ma)
            ==> MM::bind_ok(ma, run_pre::<R, A, B, <MM as Kind<B>>::Of>(pre, rel, env))
}

impl<R: Clone + 'static, MM: Bind<A, B> + 'static, A: 'static, B: 'static> Bind<A, B> for ReaderTHKTMarker<R, MM> {
    /// The result runs `input` on a clone of the environment and binds what it
    /// produces, with the inner `bind`, to running the reader given by the function
    /// on a clone of the environment.
    open spec fn bound(
        input: ReaderT<R, <MM as Kind<A>>::Of, A>,
        rel: spec_fn(A, ReaderT<R, <MM as Kind<B>>::Of, B>) -> bool,
        out: ReaderT<R, <MM as Kind<B>>::Of, B>,
    ) -> bool {
        forall|env: R, mb: <MM as Kind<B>>::Of|
            #[trigger] out.gives(env, mb) ==> exists|e1: R, ma: <MM as Kind<A>>::Of|
                #[trigger] cloned(env, e1) && #[trigger] input.gives(e1, ma)
                    && MM::bound(ma, run_related::<R, A, B, <MM as Kind<B>>::Of>(rel, env), mb)
    }

    proof fn lemma_bound_within(
        input: ReaderT<R, <MM as Kind<A>>::Of, A>,
        p: spec_fn(A, ReaderT<R, <MM as Kind<B>>::Of, B>) -> bool,
        q: spec_fn(A, ReaderT<R, <MM as Kind<B>>::Of, B>) -> bool,
        out: ReaderT<R, <MM as Kind<B>>::Of, B>,
    ) {
        assert forall|env: R, mb: <MM as Kind<B>>::Of| #[trigger] out.gives(env, mb) implies exists|e1: R, ma: <MM as Kind<A>>::Of|
            #[trigger] cloned(env, e1) && #[trigger] input.gives(e1, ma)
                && MM::bound(ma, run_related::<R, A, B, <MM as Kind<B>>::Of>(q, env), mb) by {
            let (e1, ma) = choose|e1: R, ma: <MM as Kind<A>>::Of|
                #[trigger] cloned(env, e1) && #[trigger] input.gives(e1, ma)
                    && MM::bound(ma, run_related::<R, A, B, <MM as Kind<B>>::Of>(p, env), mb);
            let rp = run_related::<R, A, B, <MM as Kind<B>>::Of>(p, env);
            let rq = run_related::<R, A, B, <MM as Kind<B>>::Of>(q, env);
            assert forall|a: A, mb2: <MM as Kind<B>>::Of| #[trigger] rp(a, mb2) implies rq(a, mb2) by {
                let (rb, e2) = choose|rb: ReaderT<R, <MM as Kind<B>>::Of, B>, e2: R| #[trigger] p(a, rb) && #[trigger] cloned(env, e2) && rb.gives(e2, mb2);
                assert(q(a, rb));
            }
            MM::lemma_bound_within(ma, rp, rq, mb);
        }
    }

    open spec fn bind_ok(input: ReaderT<R, <MM as Kind<A>>::Of, A>, pre: spec_fn(A) -> bool) -> bool {
        true
    }

    /// The result runs on every environment where [`reader_bind_ok_at`] holds.
    open spec fn bind_runs(
        input: ReaderT<R, <MM as Kind<A>>::Of, A>,
        pre: spec_fn(A) -> bool,
        rel: spec_fn(A, ReaderT<R, <MM as Kind<B>>::Of, B>) -> bool,
        out: ReaderT<R, <MM as Kind<B>>::Of, B>,
    ) -> bool {
        forall|env: R| reader_bind_ok_at::<R, MM, A, B>(input, pre, rel, env) ==> #[trigger] out.accepts(env)
    }

    proof fn lemma_bind_ok_within(input: ReaderT<R, <MM as Kind<A>>::Of, A>, p: spec_fn(A) -> bool, q: spec_fn(A) -> bool) {
    }

    proof fn lemma_bind_ok_total(input: ReaderT<R, <MM as Kind<A>>::Of, A>) {
    }

    proof fn lemma_bind_runs_within(
        input: ReaderT<R, <MM as Kind<A>>::Of, A>,
        pp: spec_fn(A) -> bool,
        p: spec_fn(A, ReaderT<R, <MM as Kind<B>>::Of, B>) -> bool,
        qp: spec_fn(A) -> bool,
        q: spec_fn(A, ReaderT<R, <MM as Kind<B>>::Of, B>) -> bool,
        out: ReaderT<R, <MM as Kind<B>>::Of, B>,
    ) {
        assert forall|env: R| reader_bind_ok_at::<R, MM, A, B>(input, qp, q, env) implies #[trigger] out.accepts(env) by {
            let sq = run_pre::<R, A, B, <MM as Kind<B>>::Of>(qp, q, env);
            let sp = run_pre::<R, A, B, <MM as Kind<B>>::Of>(pp, p, env);
            assert forall|a: A| #[trigger] sq(a) implies sp(a) by {
                assert(qp(a));
                assert forall|rb: ReaderT<R, <MM as Kind<B>>::Of, B>, e2: R| #[trigger] p(a, rb) && #[trigger] cloned(env, e2) implies rb.accepts(e2) by {
                    assert(q(a, rb));
                }
            }
            assert forall|e1: R, ma: <MM as Kind<A>>::Of|
                #[trigger] cloned(env, e1) && #[trigger] input.gives(e1, ma) implies MM::bind_ok(ma, sp) by {
                MM::lemma_bind_ok_within(ma, sq, sp);
            }
            assert(reader_bind_ok_at::<R, MM, A, B>(input, pp, p, env));
        }
    }

    /// The result runs `input`, then binds its structure with the inner `bind` to
    /// running, in the same environment, the reader that `func` gives for each value;
    /// `func` need only accept the values the inner `bind` feeds it.
    fn bind<F: Fn(A) -> ReaderT<R, <MM as Kind<B>>::Of, B> + 'static>(
        input: ReaderT<R, <MM as Kind<A>>::Of, A>,
        func: F,
    ) -> (out: ReaderT<R, <MM as Kind<B>>::Of, B>) {
        let ig: Ghost<ReaderT<R, <MM as Kind<A>>::Of, A>> = Ghost(input);
        let fg: Ghost<F> = Ghost(func);
        let shared: Rc<F> = Rc::new(func);
        let bound_run = move |env: R| -> (mb: <MM as Kind<B>>::Of)
            requires
                reader_bind_ok_at::<R, MM, A, B>(ig@, pre_of(fg@), graph(fg@), env),
            ensures
                exists|e1: R, ma: <MM as Kind<A>>::Of|
                    #[trigger] cloned(env, e1) && #[trigger] ig@.gives(e1, ma)
                        && MM::bound(ma, run_related::<R, A, B, <MM as Kind<B>>::Of>(graph(fg@), env), mb),
        {
            let e1 = env.clone();
            assert(cloned(env, e1));
            let m_a_val = input.run(e1);
            let handle = share(&shared);
            let eg: Ghost<R> = Ghost(env);
            let ghost step = run_pre::<R, A, B, <MM as Kind<B>>::Of>(pre_of(fg@), graph(fg@), eg@);
            let each = move |a_val: A| -> (mb2: <MM as Kind<B>>::Of)
                requires
                    run_pre::<R, A, B, <MM as Kind<B>>::Of>(pre_of(fg@), graph(fg@), eg@)(a_val),
                ensures
                    run_related::<R, A, B, <MM as Kind<B>>::Of>(graph(fg@), eg@)(a_val, mb2),
            {
                assert(pre_of(fg@)(a_val));
                let next_reader_t = (*handle)(a_val);
                let e2 = env.clone();
                assert(cloned(eg@, e2));
                assert(graph(fg@)(a_val, next_reader_t));
                next_reader_t.run(e2)
            };
            proof {
                assert(MM::bind_ok(m_a_val, step));
                assert forall|a: A| #[trigger] step(a) implies pre_of(each)(a) by {
                }
                MM::lemma_bind_ok_within(m_a_val, step, pre_of(each));
            }
            let mb = MM::bind(m_a_val, each);
            proof {
                MM::lemma_bound_within(m_a_val, graph(each), run_related::<R, A, B, <MM as Kind<B>>::Of>(graph(fg@), eg@), mb);
            }
            mb
        };
        ReaderT::new(bound_run)
    }
}

/// `rb` accepts every clone of `env`.
pub open spec fn runs_on_clones<R: Clone, MB, B>(env: R) -> spec_fn(ReaderT<R, MB, B>) -> bool {
    |rb: ReaderT<R, MB, B>| forall|e2: R| #[trigger] cloned(env, e2) ==> rb.accepts(e2)
}

/// Running the flattened reader on `env` is allowed: `mma` accepts every clone of
/// `env`, and on everything it produces there the inner `bind` may feed each inner
/// reader to the step "run on a clone of `env`", which the reader must accept.
pub open spec fn reader_join_ok_at<R: Clone, MM, A>(
    mma: ReaderT<R, <MM as Kind<ReaderT<R, <MM as Kind<A>>::Of, A>>>::Of, ReaderT<R, <MM as Kind<A>>::Of, A>>,
    env: R,
) -> bool where MM: Bind<ReaderT<R, <MM as Kind<A>>::Of, A>, A> {
    &&& forall|e1: R| #[trigger] cloned(env, e1) ==> mma.accepts(e1)
    &&& forall|e1: R, mx: <MM as Kind<ReaderT<R, <MM as Kind<A>>::Of, A>>>::Of|
        #[trigger] cloned(env, e1) && #[trigger] mma.gives(e1, mx)
            ==> MM::bind_ok(mx, runs_on_clones::<R, <MM as Kind<A>>::Of, A>(env))
}

/// The relation of running a reader on a clone of `env`.
pub open spec fn run_on_clone<R: Clone, MB, B>(env: R) -> spec_fn(ReaderT<R, MB, B>, MB) -> bool {
    |rb: ReaderT<R, MB, B>, mb: MB| exists|e2: R| #[trigger] cloned(env, e2) && rb.gives(e2, mb)
}

/// `out` flattens `mma`: it runs wherever [`reader_join_ok_at`] holds, and it runs
/// `mma` on a clone of the environment and binds what that produces, with the inner
/// `bind`, to running each inner reader on a clone of the environment.
pub open spec fn reader_joined<R: Clone, MM, A>(
    mma: ReaderT<R, <MM as Kind<ReaderT<R, <MM as Kind<A>>::Of, A>>>::Of, ReaderT<R, <MM as Kind<A>>::Of, A>>,
    out: ReaderT<R, <MM as Kind<A>>::Of, A>,
) -> bool where MM: Bind<ReaderT<R, <MM as Kind<A>>::Of, A>, A> {
    &&& forall|env: R| reader_join_ok_at::<R, MM, A>(mma, env) ==> #[trigger] out.accepts(env)
    &&& forall|env: R, m: <MM as Kind<A>>::Of|
        #[trigger] out.gives(env, m) ==> exists|e1: R, mx: <MM as Kind<ReaderT<R, <MM as Kind<A>>::Of, A>>>::Of|
            #[trigger] cloned(env, e1) && #[trigger] mma.gives(e1, mx)
                && MM::bound(mx, run_on_clone::<R, <MM as Kind<A>>::Of, A>(env), m)
}

/// Flattens a reader that produces (an inner structure of) readers.
fn reader_join<R: Clone + 'static, MM: 'static, A: 'static>(
    mma: ReaderT<R, <MM as Kind<ReaderT<R, <MM as Kind<A>>::Of, A>>>::Of, ReaderT<R, <MM as Kind<A>>::Of, A>>,
) -> (out: ReaderT<R, <MM as Kind<A>>::Of, A>) where
    MM: Bind<ReaderT<R, <MM as Kind<A>>::Of, A>, A>,

    ensures
        reader_joined::<R, MM, A>(mma, out),
{
    let mg: Ghost<ReaderT<R, <MM as Kind<ReaderT<R, <MM as Kind<A>>::Of, A>>>::Of, ReaderT<R, <MM as Kind<A>>::Of, A>>> = Ghost(mma);
    let flattened = move |env: R| -> (m_a: <MM as Kind<A>>::Of)
        requires
            reader_join_ok_at::<R, MM, A>(mg@, env),
        ensures
            exists|e1: R, mx: <MM as Kind<ReaderT<R, <MM as Kind<A>>::Of, A>>>::Of|
                #[trigger] cloned(env, e1) && #[trigger] mg@.gives(e1, mx)
                    && MM::bound(mx, run_on_clone::<R, <MM as Kind<A>>::Of, A>(env), m_a),
    {
        let e1 = env.clone();
        assert(cloned(env, e1));
        let m_reader_t_a = mma.run(e1);
        let eg: Ghost<R> = Ghost(env);
        let each = move |inner_reader_t: ReaderT<R, <MM as Kind<A>>::Of, A>| -> (m2: <MM as Kind<A>>::Of)
            requires
                runs_on_clones::<R, <MM as Kind<A>>::Of, A>(eg@)(inner_reader_t),
            ensures
                run_on_clone::<R, <MM as Kind<A>>::Of, A>(eg@)(inner_reader_t, m2),
        {
            let e2 = env.clone();
            assert(cloned(eg@, e2));
            inner_reader_t.run(e2)
        };
        proof {
            let roc = runs_on_clones::<R, <MM as Kind<A>>::Of, A>(eg@);
            assert forall|rb: ReaderT<R, <MM as Kind<A>>::Of, A>| #[trigger] roc(rb) implies pre_of(each)(rb) by {
            }
            MM::lemma_bind_ok_within(m_reader_t_a, roc, pre_of(each));
        }
        let m_a = MM::bind(m_reader_t_a, each);
        proof {
            MM::lemma_bound_within(m_reader_t_a, graph(each), run_on_clone::<R, <MM as Kind<A>>::Of, A>(eg@), m_a);
        }
        m_a
    };
    ReaderT::new(flattened)
}

impl<R: Clone + 'static, MM: 'static, A: Clone + 'static> Monad<A> for ReaderTHKTMarker<R, MM> where
    MM: Applicative<A> + Bind<ReaderT<R, <MM as Kind<A>>::Of, A>, A>,
 {
    /// See [`reader_joined`].
    open spec fn joined(
        mma: ReaderT<R, <MM as Kind<ReaderT<R, <MM as Kind<A>>::Of, A>>>::Of, ReaderT<R, <MM as Kind<A>>::Of, A>>,
        out: ReaderT<R, <MM as Kind<A>>::Of, A>,
    ) -> bool {
        reader_joined::<R, MM, A>(mma, out)
    }

    fn join(
        mma: ReaderT<R, <MM as Kind<ReaderT<R, <MM as Kind<A>>::Of, A>>>::Of, ReaderT<R, <MM as Kind<A>>::Of, A>>,
    ) -> (out: ReaderT<R, <MM as Kind<A>>::Of, A>) {
        reader_join::<R, MM, A>(mma)
    }
}

/// Monads that read an environment `REnv`: `ask` gives the environment, `local` runs
/// a computation in a modified environment.
pub trait MonadReader<REnv, AVal, MMarker: Kind<REnv> + Kind<AVal>>: Sized {
    /// The reader that produces (a clone of) the environment, lifted with the inner `pure`.
    fn ask() -> (out: ReaderT<REnv, <MMarker as Kind<REnv>>::Of, REnv>) where
        REnv: Clone + 'static,
        MMarker: Applicative<REnv> + 'static,

        ensures
            forall|env: REnv| #[trigger] out.accepts(env),
            forall|env: REnv, m: <MMarker as Kind<REnv>>::Of|
                #[trigger] out.gives(env, m) ==> exists|e2: REnv| #[trigger] cloned(env, e2) && MMarker::is_pure(e2, m),
    ;

    /// Runs `computation` in the environment transformed by `map_env_fn`.
    fn local<FMapEnv: Fn(REnv) -> REnv + 'static>(
        map_env_fn: FMapEnv,
        computation: ReaderT<REnv, <MMarker as Kind<AVal>>::Of, AVal>,
    ) -> (out: ReaderT<REnv, <MMarker as Kind<AVal>>::Of, AVal>)
        ensures
            forall|env: REnv|
                call_requires(map_env_fn, (env,))
                    && (forall|e2: REnv| #[trigger] call_ensures(map_env_fn, (env,), e2) ==> computation.accepts(e2))
                    ==> #[trigger] out.accepts(env),
            forall|env: REnv, m: <MMarker as Kind<AVal>>::Of|
                #[trigger] out.gives(env, m) ==> exists|e2: REnv| #[trigger] call_ensures(map_env_fn, (env,), e2) && computation.gives(e2, m),
    ;
}

impl<R: 'static, MM: Kind<R> + Kind<A> + 'static, A: 'static> MonadReader<R, A, MM> for ReaderTHKTMarker<R, MM> {
    fn ask() -> (out: ReaderT<R, <MM as Kind<R>>::Of, R>) where R: Clone + 'static, MM: Applicative<R> + 'static {
        let asked = |env: R| -> (m: <MM as Kind<R>>::Of)
            ensures
                exists|e2: R| #[trigger] cloned(env, e2) && MM::is_pure(e2, m),
        {
            let e2 = env.clone();
            assert(cloned(env, e2));
            MM::pure(e2)
        };
        ReaderT::new(asked)
    }

    fn local<FMapEnv: Fn(R) -> R + 'static>(
        map_env_fn: FMapEnv,
        computation: ReaderT<R, <MM as Kind<A>>::Of, A>,
    ) -> (out: ReaderT<R, <MM as Kind<A>>::Of, A>) {
        let cg: Ghost<ReaderT<R, <MM as Kind<A>>::Of, A>> = Ghost(computation);
        let mg: Ghost<FMapEnv> = Ghost(map_env_fn);
        let localized = move |current_env: R| -> (m: <MM as Kind<A>>::Of)
            requires
                call_requires(mg@, (current_env,)),
                forall|e2: R| #[trigger] call_ensures(mg@, (current_env,), e2) ==> cg@.accepts(e2),
            ensures
                exists|e2: R| #[trigger] call_ensures(mg@, (current_env,), e2) && cg@.gives(e2, m),
        {
            let modified_env = map_env_fn(current_env);
            computation.run(modified_env)
        };
        ReaderT::new(localized)
    }
}

} // verus!
