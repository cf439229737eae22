//! Container-style instances for [`ReaderT`], whose second parameter is the inner
//! container itself (for example `Option<A>`).

use crate::function::{graph, pre_of, CFn};
use crate::legacy::applicative::Applicative;
use crate::legacy::apply::Apply;
use crate::legacy::functor::Functor;
use crate::legacy::monad::{Bind, Monad};
pub use crate::transformers::reader::{Reader, ReaderT};
use crate::transformers::reader::{run_pre, run_related, share};
use std::rc::Rc;
use vstd::prelude::*;

verus! {

impl<R: 'static, M: Functor<A, B> + 'static, A: 'static, B: 'static> Functor<A, B> for ReaderT<R, M, A> where
    M::Mapped: 'static,
 {
    type Mapped = ReaderT<R, M::Mapped, B>;

    /// The result maps over what `input` produces.
    open spec fn mapped(input: ReaderT<R, M, A>, rel: spec_fn(A, B) -> bool, out: ReaderT<R, M::Mapped, B>) -> bool {
        forall|env: R, mb: M::Mapped|
            #[trigger] out.gives(env, mb) ==> exists|ma: M| #[trigger] input.gives(env, ma) && M::mapped(ma, rel, mb)
    }

    proof fn lemma_mapped_within(input: ReaderT<R, M, A>, p: spec_fn(A, B) -> bool, q: spec_fn(A, B) -> bool, out: ReaderT<R, M::Mapped, B>) {
        assert forall|env: R, mb: M::Mapped| #[trigger] out.gives(env, mb) implies exists|ma: M|
            #[trigger] input.gives(env, ma) && M::mapped(ma, q, mb) by {
            let ma = choose|ma: M| #[trigger] input.gives(env, ma) && M::mapped(ma, p, mb);
            M::lemma_mapped_within(ma, p, q, mb);
        }
    }

    open spec fn map_ok(input: ReaderT<R, M, A>, pre: spec_fn(A) -> bool) -> bool {
        true
    }

    /// The result runs wherever `input` runs and the inner `map` may be used, with
    /// `pre`, on everything `input` produces there.
    open spec fn map_runs(input: ReaderT<R, M, A>, pre: spec_fn(A) -> bool, out: ReaderT<R, M::Mapped, B>) -> bool {
        forall|env: R| input.accepts(env) && (forall|ma: M| #[trigger] input.gives(env, ma) ==> M::map_ok(ma, pre)) ==> #[trigger] out.accepts(env)
    }

    proof fn lemma_map_ok_within(input: ReaderT<R, M, A>, p: spec_fn(A) -> bool, q: spec_fn(A) -> bool) {
    }

    proof fn lemma_map_ok_total(input: ReaderT<R, M, A>) {
    }

    proof fn lemma_map_runs_within(input: ReaderT<R, M, A>, p: spec_fn(A) -> bool, q: spec_fn(A) -> bool, out: ReaderT<R, M::Mapped, B>) {
        assert forall|env: R| input.accepts(env) && (forall|ma: M| #[trigger] input.gives(env, ma) ==> M::map_ok(ma, q)) implies #[trigger] out.accepts(env) by {
            assert forall|ma: M| #[trigger] input.gives(env, ma) implies M::map_ok(ma, p) by {
                M::lemma_map_ok_within(ma, q, p);
            }
        }
    }

    /// The result runs `self` and maps `f` over what it produces with the inner
    /// `map`; `f` need only accept the values the inner `map` feeds it.
    fn map<Func: Fn(A) -> B + 'static>(self, f: Func) -> (out: ReaderT<R, M::Mapped, B>) {
        let ig: Ghost<ReaderT<R, M, A>> = Ghost(self);
        let fg: Ghost<Func> = Ghost(f);
        let shared: Rc<Func> = Rc::new(f);
        let mapped_run = move |env: R| -> (mb: M::Mapped)
            requires
                ig@.accepts(env),
                forall|ma: M| #[trigger] ig@.gives(env, ma) ==> M::map_ok(ma, pre_of(fg@)),
            ensures
                exists|ma: M| #[trigger] ig@.gives(env, ma) && M::mapped(ma, graph(fg@), mb),
        {
            let m_val = self.run(env);
            let handle = share(&shared);
            let each = move |a: A| -> (b: B)
                requires
                    call_requires(fg@, (a,)),
                ensures
                    call_ensures(fg@, (a,), b),
            {
                (*handle)(a)
            };
            proof {
                assert forall|a: A| #[trigger] pre_of(fg@)(a) implies pre_of(each)(a) by {
                }
                M::lemma_map_ok_within(m_val, pre_of(fg@), pre_of(each));
            }
            let mb = m_val.map(each);
            proof {
                M::lemma_mapped_within(m_val, graph(each), graph(fg@), mb);
            }
            mb
        };
        ReaderT::new(mapped_run)
    }
}

impl<R: Clone + 'static, M: Apply<A, B> + 'static, A: 'static, B: 'static> Apply<A, B> for ReaderT<R, M, A> where
    M::Mapped: 'static,
    M::Fns: 'static,
 {
    type Fns = ReaderT<R, M::Fns, CFn<A, B>>;

    open spec fn apply_ok(values: ReaderT<R, M, A>, fns: ReaderT<R, M::Fns, CFn<A, B>>) -> bool {
        true
    }

    /// The result runs `values` on a clone of the environment and `fns` on the
    /// environment, and applies the inner containers with the inner `apply`.
    open spec fn applied(values: ReaderT<R, M, A>, fns: ReaderT<R, M::Fns, CFn<A, B>>, out: ReaderT<R, M::Mapped, B>) -> bool {
        &&& forall|env: R|
            (forall|e1: R| #[trigger] cloned(env, e1) ==> values.accepts(e1)) && fns.accepts(env) && (forall|e1: R, mv: M, mf: M::Fns|
                #![trigger values.gives(e1, mv), fns.gives(env, mf)]
                cloned(env, e1) && values.gives(e1, mv) && fns.gives(env, mf) ==> M::apply_ok(mv, mf)) ==> #[trigger] out.accepts(env)
        &&& forall|env: R, mb: M::Mapped|
            #[trigger] out.gives(env, mb) ==> exists|e1: R, mv: M, mf: M::Fns|
                #![trigger values.gives(e1, mv), fns.gives(env, mf)]
                cloned(env, e1) && values.gives(e1, mv) && fns.gives(env, mf) && M::applied(mv, mf, mb)
    }

    fn apply(self, fns: ReaderT<R, M::Fns, CFn<A, B>>) -> (out: ReaderT<R, M::Mapped, B>) {
        let vg: Ghost<ReaderT<R, M, A>> = Ghost(self);
        let fg: Ghost<ReaderT<R, M::Fns, CFn<A, B>>> = Ghost(fns);
        let combined = move |env: R| -> (mb: M::Mapped)
            requires
                forall|e1: R| #[trigger] cloned(env, e1) ==> vg@.accepts(e1),
                fg@.accepts(env),
                forall|e1: R, mv: M, mf: M::Fns|
                    #![trigger vg@.gives(e1, mv), fg@.gives(env, mf)]
                    cloned(env, e1) && vg@.gives(e1, mv) && fg@.gives(env, mf) ==> M::apply_ok(mv, mf),
            ensures
                exists|e1: R, mv: M, mf: M::Fns|
                    #![trigger vg@.gives(e1, mv), fg@.gives(env, mf)]
                    cloned(env, e1) && vg@.gives(e1, mv) && fg@.gives(env, mf) && M::applied(mv, mf, mb),
        {
            let e1 = env.clone();
            assert(cloned(env, e1));
            let m_val = self.run(e1);
            let m_func = fns.run(env);
            m_val.apply(m_func)
        };
        ReaderT::new(combined)
    }
}

impl<R: Clone + 'static, M: Applicative<A> + 'static, A: Clone + 'static> Applicative<A> for ReaderT<R, M, A> where
    M::Mapped: 'static,
    M::Fns: 'static,
 {
    /// The reader runs in every environment and lifts a clone of `v` with the inner `pure`.
    open spec fn is_pure(v: A, out: ReaderT<R, M, A>) -> bool {
        &&& forall|env: R| #[trigger] out.accepts(env)
        &&& forall|env: R, m: M| #[trigger] out.gives(env, m) ==> exists|v2: A| #[trigger] cloned(v, v2) && M::is_pure(v2, m)
    }

    /// Lifts `v` into the reader that ignores the environment.
    fn pure(v: A) -> (out: ReaderT<R, M, A>) {
        let vg: Ghost<A> = Ghost(v);
        let constant = move |_env: R| -> (m: M)
            ensures
                exists|v2: A| #[trigger] cloned(vg@, v2) && M::is_pure(v2, m),
        {
            let v2 = v.clone();
            assert(cloned(vg@, v2));
            M::pure(v2)
        };
        ReaderT::new(constant)
    }
}

/// Running the bound reader on `env` is allowed: `input` accepts every clone of
/// `env`, and on every container `input` produces there the inner `bind` may feed
/// its values to the step of [`run_pre`].
pub open spec fn container_reader_bind_ok_at<R: Clone, M: Bind<A, B>, A, B>(
    input: ReaderT<R, M, A>,
    pre: spec_fn(A) -> bool,
    rel: spec_fn(A, ReaderT<R, M::Mapped, B>) -> bool,
    env: R,
) -> bool {
    &&& forall|e1: R| #[trigger] cloned(env, e1) ==> input.accepts(e1)
    &&& forall|e1: R, ma: M| #[trigger] cloned(env, e1) && #[trigger] input.gives(e1, ma) ==> M::bind_ok(ma, run_pre::<R, A, B, M::Mapped>(pre, rel, env))
}

impl<R: Clone + 'static, M: Bind<A, B> + 'static, A: 'static, B: 'static> Bind<A, B> for ReaderT<R, M, A> where
    M::Mapped: 'static,
    M::Fns: 'static,
 {
    /// The result runs `input` on a clone of the environment and binds what it
    /// produces, with the inner `bind`, to running the reader given by the function
    /// on a clone of the environment.
    open spec fn bound(input: ReaderT<R, M, A>, rel: spec_fn(A, ReaderT<R, M::Mapped, B>) -> bool, out: ReaderT<R, M::Mapped, B>) -> bool {
        forall|env: R, mb: M::Mapped|
            #[trigger] out.gives(env, mb) ==> exists|e1: R, ma: M|
                #[trigger] cloned(env, e1) && #[trigger] input.gives(e1, ma) && M::bound(ma, run_related::<R, A, B, M::Mapped>(rel, env), mb)
    }

    proof fn lemma_bound_within(
        input: ReaderT<R, M, A>,
        p: spec_fn(A, ReaderT<R, M::Mapped, B>) -> bool,
        q: spec_fn(A, ReaderT<R, M::Mapped, B>) -> bool,
        out: ReaderT<R, M::Mapped, B>,
    ) {
        assert forall|env: R, mb: M::Mapped| #[trigger] out.gives(env, mb) implies exists|e1: R, ma: M|
            #[trigger] cloned(env, e1) && #[trigger] input.gives(e1, ma) && M::bound(ma, run_related::<R, A, B, M::Mapped>(q, env), mb) by {
            let (e1, ma) = choose|e1: R, ma: M|
                #[trigger] cloned(env, e1) && #[trigger] input.gives(e1, ma) && M::bound(ma, run_related::<R, A, B, M::Mapped>(p, env), mb);
            let rp = run_related::<R, A, B, M::Mapped>(p, env);
            let rq = run_related::<R, A, B, M::Mapped>(q, env);
            assert forall|a: A, mb2: M::Mapped| #[trigger] rp(a, mb2) implies rq(a, mb2) by {
                let (rb, e2) = choose|rb: ReaderT<R, M::Mapped, B>, e2: R| #[trigger] p(a, rb) && #[trigger] cloned(env, e2) && rb.gives(e2, mb2);
                assert(q(a, rb));
            }
            M::lemma_bound_within(ma, rp, rq, mb);
        }
    }

    open spec fn bind_ok(input: ReaderT<R, M, A>, pre: spec_fn(A) -> bool) -> bool {
        true
    }

    /// The result runs on every environment where [`container_reader_bind_ok_at`] holds.
    open spec fn bind_runs(
        input: ReaderT<R, M, A>,
        pre: spec_fn(A) -> bool,
        rel: spec_fn(A, ReaderT<R, M::Mapped, B>) -> bool,
        out: ReaderT<R, M::Mapped, B>,
    ) -> bool {
        forall|env: R| container_reader_bind_ok_at::<R, M, A, B>(input, pre, rel, env) ==> #[trigger] out.accepts(env)
    }

    proof fn lemma_bind_ok_within(input: ReaderT<R, M, A>, p: spec_fn(A) -> bool, q: spec_fn(A) -> bool) {
    }

    proof fn lemma_bind_ok_total(input: ReaderT<R, M, A>) {
    }

    proof fn lemma_bind_runs_within(
        input: ReaderT<R, M, A>,
        pp: spec_fn(A) -> bool,
        p: spec_fn(A, ReaderT<R, M::Mapped, B>) -> bool,
        qp: spec_fn(A) -> bool,
        q: spec_fn(A, ReaderT<R, M::Mapped, B>) -> bool,
        out: ReaderT<R, M::Mapped, B>,
    ) {
        assert forall|env: R| container_reader_bind_ok_at::<R, M, A, B>(input, qp, q, env) implies #[trigger] out.accepts(env) by {
            let sq = run_pre::<R, A, B, M::Mapped>(qp, q, env);
            let sp = run_pre::<R, A, B, M::Mapped>(pp, p, env);
            assert forall|a: A| #[trigger] sq(a) implies sp(a) by {
                assert(qp(a));
                assert forall|rb: ReaderT<R, M::Mapped, B>, e2: R| #[trigger] p(a, rb) && #[trigger] cloned(env, e2) implies rb.accepts(e2) by {
                    assert(q(a, rb));
                }
            }
            assert forall|e1: R, ma: M| #[trigger] cloned(env, e1) && #[trigger] input.gives(e1, ma) implies M::bind_ok(ma, sp) by {
                M::lemma_bind_ok_within(ma, sq, sp);
            }
            assert(container_reader_bind_ok_at::<R, M, A, B>(input, pp, p, env));
        }
    }

    /// The result runs `self`, then binds its container with the inner `bind` to
    /// running, in the same environment, the reader that `f` gives for each value;
    /// `f` need only accept the values the inner `bind` feeds it.
    fn bind<F: Fn(A) -> ReaderT<R, M::Mapped, B> + 'static>(self, f: F) -> (out: ReaderT<R, M::Mapped, B>) {
        let ig: Ghost<ReaderT<R, M, A>> = Ghost(self);
        let fg: Ghost<F> = Ghost(f);
        let shared: Rc<F> = Rc::new(f);
        let bound_run = move |env: R| -> (mb: M::Mapped)
            requires
                container_reader_bind_ok_at::<R, M, A, B>(ig@, pre_of(fg@), graph(fg@), env),
            ensures
                exists|e1: R, ma: M|
                    #[trigger] cloned(env, e1) && #[trigger] ig@.gives(e1, ma) && M::bound(ma, run_related::<R, A, B, M::Mapped>(graph(fg@), env), mb),
        {
            let e1 = env.clone();
            assert(cloned(env, e1));
            let m_a_val = self.run(e1);
            let handle = share(&shared);
            let eg: Ghost<R> = Ghost(env);
            let ghost step = run_pre::<R, A, B, M::Mapped>(pre_of(fg@), graph(fg@), eg@);
            let each = move |a_val: A| -> (mb2: M::Mapped)
                requires
                    run_pre::<R, A, B, M::Mapped>(pre_of(fg@), graph(fg@), eg@)(a_val),
                ensures
                    run_related::<R, A, B, M::Mapped>(graph(fg@), eg@)(a_val, mb2),
            {
                assert(pre_of(fg@)(a_val));
                let next_reader_t = (*handle)(a_val);
                let e2 = env.clone();
                assert(cloned(eg@, e2));
                assert(graph(fg@)(a_val, next_reader_t));
                next_reader_t.run(e2)
            };
            proof {
                assert(M::bind_ok(m_a_val, step));
                assert forall|a: A| #[trigger] step(a) implies pre_of(each)(a) by {
                }
                M::lemma_bind_ok_within(m_a_val, step, pre_of(each));
            }
            let mb = m_a_val.bind(each);
            proof {
                M::lemma_bound_within(m_a_val, graph(each), run_related::<R, A, B, M::Mapped>(graph(fg@), eg@), mb);
            }
            mb
        };
        ReaderT::new(bound_run)
    }
}

impl<R: Clone + 'static, M: Monad<A> + 'static, A: Clone + 'static> Monad<A> for ReaderT<R, M, A> where
    M::Mapped: 'static,
    M::Fns: 'static,
    ReaderT<R, M, A>: Bind<A, A, Mapped = ReaderT<R, M, A>>,
 {
}

/// Readers that can give their environment and run in a modified environment.
pub trait MonadReader<REnv, AVal>: Sized {
    /// The reader that produces its environment as value.
    type SelfWithEnvAsValue;

    /// `out` is a reader that produces (a lifted clone of) its environment.
    spec fn asks(out: Self::SelfWithEnvAsValue) -> bool where REnv: Clone;

    /// `out` runs `computation` in the environment transformed by a function with the
    /// precondition `map_pre` and the input/output relation `map_rel`.
    spec fn localized(map_pre: spec_fn(REnv) -> bool, map_rel: spec_fn(REnv, REnv) -> bool, computation: Self, out: Self) -> bool;

    /// The reader that produces its environment.
    fn ask() -> (out: Self::SelfWithEnvAsValue) where REnv: Clone + 'static
        ensures
            Self::asks(out),
    ;

    /// Runs `computation` in the environment transformed by `map_env_fn`.
    fn local<FMapEnv: Fn(REnv) -> REnv + 'static>(map_env_fn: FMapEnv, computation: Self) -> (out: Self)
        ensures
            Self::localized(pre_of(map_env_fn), graph(map_env_fn), computation, out),
    ;
}

impl<R: 'static, M: Applicative<R> + 'static, A: 'static> MonadReader<R, A> for ReaderT<R, M, A> {
    type SelfWithEnvAsValue = ReaderT<R, M, R>;

    /// Runs in every environment and lifts a clone of it with the inner `pure`.
    open spec fn asks(out: ReaderT<R, M, R>) -> bool where R: Clone {
        &&& forall|env: R| #[trigger] out.accepts(env)
        &&& forall|env: R, m: M| #[trigger] out.gives(env, m) ==> exists|e2: R| #[trigger] cloned(env, e2) && M::is_pure(e2, m)
    }

    /// Runs wherever the transformation accepts the environment and `computation`
    /// runs on every transformed environment, and gives what `computation` gives on a
    /// transformed environment.
    open spec fn localized(map_pre: spec_fn(R) -> bool, map_rel: spec_fn(R, R) -> bool, computation: ReaderT<R, M, A>, out: ReaderT<R, M, A>) -> bool {
        &&& forall|env: R| map_pre(env) && (forall|e2: R| #[trigger] map_rel(env, e2) ==> computation.accepts(e2)) ==> #[trigger] out.accepts(env)
        &&& forall|env: R, m: M| #[trigger] out.gives(env, m) ==> exists|e2: R| #[trigger] map_rel(env, e2) && computation.gives(e2, m)
    }

    fn ask() -> (out: ReaderT<R, M, R>) where R: Clone + 'static {
        let asked = |env: R| -> (m: M)
            ensures
                exists|e2: R| #[trigger] cloned(env, e2) && M::is_pure(e2, m),
        {
            let e2 = env.clone();
            assert(cloned(env, e2));
            M::pure(e2)
        };
        ReaderT::new(asked)
    }

    fn local<FMapEnv: Fn(R) -> R + 'static>(map_env_fn: FMapEnv, computation: ReaderT<R, M, A>) -> (out: ReaderT<R, M, A>) {
        let cg: Ghost<ReaderT<R, M, A>> = Ghost(computation);
        let mg: Ghost<FMapEnv> = Ghost(map_env_fn);
        let localized = move |current_env: R| -> (m: M)
            requires
                call_requires(mg@, (current_env,)),
                forall|e2: R| #[trigger] call_ensures(mg@, (current_env,), e2) ==> cg@.accepts(e2),
            ensures
                exists|e2: R| #[trigger] call_ensures(mg@, (current_env,), e2) && cg@.gives(e2, m),
        {
            let modified_env = map_env_fn(current_env);
            computation.run(modified_env)
        };
        let out = ReaderT::new(localized);
        assert forall|env: R| pre_of(map_env_fn)(env) && (forall|e2: R| #[trigger] graph(map_env_fn)(env, e2) ==> computation.accepts(e2)) implies #[trigger] out.accepts(env) by {
            assert forall|e2: R| #[trigger] call_ensures(map_env_fn, (env,), e2) implies computation.accepts(e2) by {
                assert(graph(map_env_fn)(env, e2));
            }
        }
        assert forall|env: R, m: M| #[trigger] out.gives(env, m) implies exists|e2: R| #[trigger] graph(map_env_fn)(env, e2) && computation.gives(e2, m) by {
            let e2 = choose|e2: R| #[trigger] call_ensures(map_env_fn, (env,), e2) && computation.gives(e2, m);
            assert(graph(map_env_fn)(env, e2));
        }
        out
    }
}

} // verus!
