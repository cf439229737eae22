//! What each operation gives on the containers, stated directly over their contents:
//! the length of the result, which element comes from which, and which error or
//! absence wins. Each law is stated for the marker-based instance and for the
//! container-style one.

use crate::applicative::Applicative;
use crate::apply::Apply;
use crate::function::{gives_on_clone, CFn, CFnOnce};
use crate::functor::Functor;
use crate::identity::{Identity, IdentityKind};
use crate::kind_based::kind::{Kind, CFnKind, CFnOnceKind, OptionKind, ResultKind, VecKind};
use crate::legacy::applicative::Applicative as ContainerApplicative;
use crate::legacy::apply::Apply as ContainerApply;
use crate::legacy::functor::Functor as ContainerFunctor;
use crate::legacy::monad::Bind as ContainerBind;
use crate::legacy::transformers::reader::MonadReader as ContainerMonadReader;
use crate::monad::{Bind, Monad};
use crate::transformers::reader::{
    reader_apply_gives, reader_apply_ok_at, reader_bind_ok_at, reader_join_ok_at, run_on_clone, run_pre, run_related, runs_on_clones,
    ReaderT, ReaderTHKTMarker,
};
use vstd::prelude::*;

verus! {

/// Rows that all have length `n` flatten to `rows.len() * n` elements, the `j`-th
/// element of row `i` standing at `i * n + j`.
pub proof fn lemma_flatten_rows<B>(rows: Seq<Seq<B>>, n: int)
    requires
        0 <= n,
        forall|k: int| 0 <= k < rows.len() ==> (#[trigger] rows[k]).len() == n,
    ensures
        rows.flatten().len() == rows.len() * n,
        forall|i: int, j: int| #![trigger rows[i][j]] 0 <= i < rows.len() && 0 <= j < n ==> rows.flatten()[i * n + j] == rows[i][j],
    decreases rows.len(),
{
    if rows.len() > 0 {
        let rest = rows.drop_first();
        assert forall|k: int| 0 <= k < rest.len() implies (#[trigger] rest[k]).len() == n by {
            assert(rest[k] == rows[k + 1]);
        }
        lemma_flatten_rows(rest, n);
        assert(rows.flatten() == rows.first() + rest.flatten());
        let len = rows.len();
        assert(len * n == n + (len - 1) * n) by (nonlinear_arith);
        assert forall|i: int, j: int| #![trigger rows[i][j]] 0 <= i < rows.len() && 0 <= j < n implies rows.flatten()[i * n + j] == rows[i][j] by {
            if i == 0 {
                assert(i * n + j == j) by (nonlinear_arith)
                    requires
                        i == 0,
                ;
            } else {
                assert(i * n + j == n + ((i - 1) * n + j)) by (nonlinear_arith);
                assert(0 <= (i - 1) * n + j < (len - 1) * n) by (nonlinear_arith)
                    requires
                        1 <= i < len,
                        0 <= j < n,
                ;
                assert(rest[i - 1] == rows[i]);
                assert(rest[i - 1][j] == rest.flatten()[(i - 1) * n + j]);
            }
        }
    }
}

// Vectors.

/// Mapping over a vector keeps its length, and each element of the result comes from
/// the element of the input at the same place.
pub proof fn vec_map_contents<A, B>(input: Vec<A>, rel: spec_fn(A, B) -> bool, out: Vec<B>)
    requires
        <VecKind as Functor<A, B>>::mapped(input, rel, out),
    ensures
        out@.len() == input@.len(),
        forall|i: int| 0 <= i < input@.len() ==> rel(#[trigger] input@[i], out@[i]),
{
    assert forall|i: int| 0 <= i < input@.len() implies rel(#[trigger] input@[i], out@[i]) by {
    }
}

/// [`vec_map_contents`] for the container-style `map`.
pub proof fn container_vec_map_contents<A, B>(input: Vec<A>, rel: spec_fn(A, B) -> bool, out: Vec<B>)
    requires
        <Vec<A> as ContainerFunctor<A, B>>::mapped(input, rel, out),
    ensures
        out@.len() == input@.len(),
        forall|i: int| 0 <= i < input@.len() ==> rel(#[trigger] input@[i], out@[i]),
{
    vec_map_contents(input, rel, out);
}

/// Applying a vector of functions to a vector of values applies each function to all
/// values, function by function: the result has `fns.len() * values.len()` elements,
/// and the one at `i * values.len() + j` is what `fns[i]` gives on a clone of
/// `values[j]`.
pub proof fn vec_apply_contents<A: Clone + 'static, B: 'static>(values: Vec<A>, fns: Vec<CFn<A, B>>, out: Vec<B>)
    requires
        <VecKind as Apply<A, B>>::applied(values, fns, out),
    ensures
        out@.len() == fns@.len() * values@.len(),
        forall|i: int, j: int|
            #![trigger fns@[i], values@[j]]
            0 <= i < fns@.len() && 0 <= j < values@.len() ==> gives_on_clone(fns@[i], values@[j], out@[i * values@.len() + j]),
{
    let n = values@.len() as int;
    let rows = choose|rows: Seq<Seq<B>>|
        #![trigger rows.flatten()]
        {
            &&& rows.len() == fns@.len()
            &&& forall|i: int|
                0 <= i < fns@.len() ==> crate::functor::seq_mapped(
                    values@,
                    |a: A, b: B| crate::function::gives_on_clone(fns@[i], a, b),
                    #[trigger] rows[i],
                )
            &&& out@ == rows.flatten()
        };
    assert(rows.len() == fns@.len());
    assert(out@ == rows.flatten());
    assert forall|k: int| 0 <= k < rows.len() implies (#[trigger] rows[k]).len() == n by {
        assert(crate::functor::seq_mapped(values@, |a: A, b: B| crate::function::gives_on_clone(fns@[k], a, b), rows[k]));
    }
    lemma_flatten_rows(rows, n);
    assert forall|i: int, j: int|
        #![trigger fns@[i], values@[j]]
        0 <= i < fns@.len() && 0 <= j < values@.len() implies gives_on_clone(fns@[i], values@[j], out@[i * values@.len() + j]) by {
        let rel_i = |a: A, b: B| crate::function::gives_on_clone(fns@[i], a, b);
        assert(crate::functor::seq_mapped(values@, rel_i, rows[i]));
        assert(rows[i].len() == n);
        assert(rel_i(values@[j], rows[i][j]));
        assert(out@[i * n + j] == rows[i][j]);
        assert(i * values@.len() + j == i * n + j);
    }
    assert(out@.len() == fns@.len() * values@.len());
}

/// [`vec_apply_contents`] for the container-style `apply`.
pub proof fn container_vec_apply_contents<A: Clone + 'static, B: 'static>(values: Vec<A>, fns: Vec<CFn<A, B>>, out: Vec<B>)
    requires
        <Vec<A> as ContainerApply<A, B>>::applied(values, fns, out),
    ensures
        out@.len() == fns@.len() * values@.len(),
        forall|i: int, j: int|
            #![trigger fns@[i], values@[j]]
            0 <= i < fns@.len() && 0 <= j < values@.len() ==> gives_on_clone(fns@[i], values@[j], out@[i * values@.len() + j]),
{
    vec_apply_contents(values, fns, out);
}

/// The contents of each vector of `rows`, in order.
pub open spec fn vec_rows<B>(rows: Seq<Vec<B>>) -> Seq<Seq<B>> {
    rows.map_values(|v: Vec<B>| v@)
}

/// Binding a vector gives one vector for every element, in order, and concatenates
/// them all.
pub proof fn vec_bind_contents<A: Clone + 'static, B: 'static>(input: Vec<A>, rel: spec_fn(A, Vec<B>) -> bool, out: Vec<B>)
    requires
        <VecKind as Bind<A, B>>::bound(input, rel, out),
    ensures
        exists|rows: Seq<Vec<B>>|
            #![trigger vec_rows(rows)]
            rows.len() == input@.len() && (forall|i: int| 0 <= i < input@.len() ==> #[trigger] rel(input@[i], rows[i]))
                && out@ == vec_rows(rows).flatten(),
{
    let rows = choose|rows: Seq<Vec<B>>|
        #![trigger crate::monad::concat_vecs(rows)]
        {
            &&& rows.len() == input@.len()
            &&& forall|i: int| 0 <= i < input@.len() ==> #[trigger] rel(input@[i], rows[i])
            &&& out@ == crate::monad::concat_vecs(rows)
        };
    assert(out@ == vec_rows(rows).flatten());
}

/// [`vec_bind_contents`] for the container-style `bind`.
pub proof fn container_vec_bind_contents<A: Clone + 'static, B: 'static>(input: Vec<A>, rel: spec_fn(A, Vec<B>) -> bool, out: Vec<B>)
    requires
        <Vec<A> as ContainerBind<A, B>>::bound(input, rel, out),
    ensures
        exists|rows: Seq<Vec<B>>|
            #![trigger vec_rows(rows)]
            rows.len() == input@.len() && (forall|i: int| 0 <= i < input@.len() ==> #[trigger] rel(input@[i], rows[i]))
                && out@ == vec_rows(rows).flatten(),
{
    vec_bind_contents(input, rel, out);
}

/// Flattening a vector of vectors concatenates them in order.
pub proof fn vec_join_contents<A: Clone + 'static>(mma: Vec<Vec<A>>, out: Vec<A>)
    requires
        <VecKind as Monad<A>>::joined(mma, out),
    ensures
        out@ == vec_rows(mma@).flatten(),
{
}

/// Lifting a value into a vector gives the vector holding just that value.
pub proof fn vec_pure_contents<A: Clone + 'static>(v: A, out: Vec<A>)
    requires
        <VecKind as Applicative<A>>::is_pure(v, out),
    ensures
        out@.len() == 1,
        out@[0] == v,
{
}

/// [`vec_pure_contents`] for the container-style `pure`.
pub proof fn container_vec_pure_contents<A: Clone + 'static>(v: A, out: Vec<A>)
    requires
        <Vec<A> as ContainerApplicative<A>>::is_pure(v, out),
    ensures
        out@.len() == 1,
        out@[0] == v,
{
}

// Options.

/// Mapping over an option maps a present value and keeps an absent one absent.
pub proof fn option_map_contents<A, B>(input: Option<A>, rel: spec_fn(A, B) -> bool, out: Option<B>)
    requires
        <OptionKind as Functor<A, B>>::mapped(input, rel, out),
    ensures
        input is None <==> out is None,
        forall|a: A| input == Some(a) ==> exists|b: B| out == Some(b) && #[trigger] rel(a, b),
{
    if let Some(a) = input {
        let b = out->0;
        assert(rel(a, b));
    }
}

/// [`option_map_contents`] for the container-style `map`.
pub proof fn container_option_map_contents<A, B>(input: Option<A>, rel: spec_fn(A, B) -> bool, out: Option<B>)
    requires
        <Option<A> as ContainerFunctor<A, B>>::mapped(input, rel, out),
    ensures
        input is None <==> out is None,
        forall|a: A| input == Some(a) ==> exists|b: B| out == Some(b) && #[trigger] rel(a, b),
{
    option_map_contents(input, rel, out);
}

/// Applying an optional function to an optional value gives a value exactly when
/// both are present, and it is what the function gives on the value.
pub proof fn option_apply_contents<A: 'static, B: 'static>(values: Option<A>, fns: Option<CFn<A, B>>, out: Option<B>)
    requires
        <OptionKind as Apply<A, B>>::applied(values, fns, out),
    ensures
        out is Some <==> (values is Some && fns is Some),
        forall|a: A, f: CFn<A, B>| values == Some(a) && fns == Some(f) ==> #[trigger] f.gives(a, out->0),
{
}

/// [`option_apply_contents`] for the container-style `apply`.
pub proof fn container_option_apply_contents<A: 'static, B: 'static>(values: Option<A>, fns: Option<CFn<A, B>>, out: Option<B>)
    requires
        <Option<A> as ContainerApply<A, B>>::applied(values, fns, out),
    ensures
        out is Some <==> (values is Some && fns is Some),
        forall|a: A, f: CFn<A, B>| values == Some(a) && fns == Some(f) ==> #[trigger] f.gives(a, out->0),
{
    option_apply_contents(values, fns, out);
}

/// Binding an option gives what the function gives for a present value, and nothing
/// for an absent one.
pub proof fn option_bind_contents<A: 'static, B: 'static>(input: Option<A>, rel: spec_fn(A, Option<B>) -> bool, out: Option<B>)
    requires
        <OptionKind as Bind<A, B>>::bound(input, rel, out),
    ensures
        input is None ==> out is None,
        forall|a: A| input == Some(a) ==> #[trigger] rel(a, out),
{
}

/// [`option_bind_contents`] for the container-style `bind`.
pub proof fn container_option_bind_contents<A: 'static, B: 'static>(input: Option<A>, rel: spec_fn(A, Option<B>) -> bool, out: Option<B>)
    requires
        <Option<A> as ContainerBind<A, B>>::bound(input, rel, out),
    ensures
        input is None ==> out is None,
        forall|a: A| input == Some(a) ==> #[trigger] rel(a, out),
{
    option_bind_contents(input, rel, out);
}

/// Flattening a nested option gives the inner option, or nothing.
pub proof fn option_join_contents<A: 'static>(mma: Option<Option<A>>, out: Option<A>)
    requires
        <OptionKind as Monad<A>>::joined(mma, out),
    ensures
        mma is None ==> out is None,
        forall|ma: Option<A>| mma == Some(ma) ==> out == ma,
{
}

/// Lifting a value into an option gives it present.
pub proof fn option_pure_contents<A: 'static>(v: A, out: Option<A>)
    requires
        <OptionKind as Applicative<A>>::is_pure(v, out),
    ensures
        out == Some(v),
{
}

/// [`option_pure_contents`] for the container-style `pure`.
pub proof fn container_option_pure_contents<A: 'static>(v: A, out: Option<A>)
    requires
        <Option<A> as ContainerApplicative<A>>::is_pure(v, out),
    ensures
        out == Some(v),
{
}

// Results.

/// Mapping over a result maps a value and passes an error on unchanged.
pub proof fn result_map_contents<A, B, E>(input: Result<A, E>, rel: spec_fn(A, B) -> bool, out: Result<B, E>)
    requires
        <ResultKind<E> as Functor<A, B>>::mapped(input, rel, out),
    ensures
        forall|e: E| input == Err::<A, E>(e) ==> out == Err::<B, E>(e),
        forall|a: A| input == Ok::<A, E>(a) ==> exists|b: B| out == Ok::<B, E>(b) && #[trigger] rel(a, b),
{
    if let Ok(a) = input {
        let b = out->Ok_0;
        assert(rel(a, b));
    }
}

/// [`result_map_contents`] for the container-style `map`.
pub proof fn container_result_map_contents<A, B, E>(input: Result<A, E>, rel: spec_fn(A, B) -> bool, out: Result<B, E>)
    requires
        <Result<A, E> as ContainerFunctor<A, B>>::mapped(input, rel, out),
    ensures
        forall|e: E| input == Err::<A, E>(e) ==> out == Err::<B, E>(e),
        forall|a: A| input == Ok::<A, E>(a) ==> exists|b: B| out == Ok::<B, E>(b) && #[trigger] rel(a, b),
{
    result_map_contents(input, rel, out);
}

/// Applying a result of a function to a result of a value: an error of the value
/// comes first, whatever the function side holds; then an error of the function;
/// otherwise what the function gives on the value.
pub proof fn result_apply_contents<A: 'static, B: 'static, E: 'static + Clone>(
    values: Result<A, E>,
    fns: Result<CFn<A, B>, E>,
    out: Result<B, E>,
)
    requires
        <ResultKind<E> as Apply<A, B>>::applied(values, fns, out),
    ensures
        forall|e: E| values == Err::<A, E>(e) ==> out == Err::<B, E>(e),
        forall|a: A, e: E| values == Ok::<A, E>(a) && fns == Err::<CFn<A, B>, E>(e) ==> out == Err::<B, E>(e),
        forall|a: A, f: CFn<A, B>| values == Ok::<A, E>(a) && fns == Ok::<CFn<A, B>, E>(f) ==> out is Ok && #[trigger] f.gives(a, out->Ok_0),
{
}

/// [`result_apply_contents`] for the container-style `apply`.
pub proof fn container_result_apply_contents<A: 'static, B: 'static, E: 'static + Clone>(
    values: Result<A, E>,
    fns: Result<CFn<A, B>, E>,
    out: Result<B, E>,
)
    requires
        <Result<A, E> as ContainerApply<A, B>>::applied(values, fns, out),
    ensures
        forall|e: E| values == Err::<A, E>(e) ==> out == Err::<B, E>(e),
        forall|a: A, e: E| values == Ok::<A, E>(a) && fns == Err::<CFn<A, B>, E>(e) ==> out == Err::<B, E>(e),
        forall|a: A, f: CFn<A, B>| values == Ok::<A, E>(a) && fns == Ok::<CFn<A, B>, E>(f) ==> out is Ok && #[trigger] f.gives(a, out->Ok_0),
{
    result_apply_contents(values, fns, out);
}

/// Binding a result gives what the function gives for a value and passes an error on.
pub proof fn result_bind_contents<A: 'static, B: 'static, E: 'static + Clone>(
    input: Result<A, E>,
    rel: spec_fn(A, Result<B, E>) -> bool,
    out: Result<B, E>,
)
    requires
        <ResultKind<E> as Bind<A, B>>::bound(input, rel, out),
    ensures
        forall|e: E| input == Err::<A, E>(e) ==> out == Err::<B, E>(e),
        forall|a: A| input == Ok::<A, E>(a) ==> #[trigger] rel(a, out),
{
}

/// [`result_bind_contents`] for the container-style `bind`.
pub proof fn container_result_bind_contents<A: 'static, B: 'static, E: 'static + Clone>(
    input: Result<A, E>,
    rel: spec_fn(A, Result<B, E>) -> bool,
    out: Result<B, E>,
)
    requires
        <Result<A, E> as ContainerBind<A, B>>::bound(input, rel, out),
    ensures
        forall|e: E| input == Err::<A, E>(e) ==> out == Err::<B, E>(e),
        forall|a: A| input == Ok::<A, E>(a) ==> #[trigger] rel(a, out),
{
    result_bind_contents(input, rel, out);
}

/// Flattening a nested result gives the inner result, or the outer error.
pub proof fn result_join_contents<A: 'static, E: 'static + Clone>(mma: Result<Result<A, E>, E>, out: Result<A, E>)
    requires
        <ResultKind<E> as Monad<A>>::joined(mma, out),
    ensures
        forall|e: E| mma == Err::<Result<A, E>, E>(e) ==> out == Err::<A, E>(e),
        forall|ma: Result<A, E>| mma == Ok::<Result<A, E>, E>(ma) ==> out == ma,
{
}

/// Lifting a value into a result gives it as a success.
pub proof fn result_pure_contents<A: 'static, E: 'static + Clone>(v: A, out: Result<A, E>)
    requires
        <ResultKind<E> as Applicative<A>>::is_pure(v, out),
    ensures
        out == Ok::<A, E>(v),
{
}

/// [`result_pure_contents`] for the container-style `pure`.
pub proof fn container_result_pure_contents<A: 'static, E: 'static + Clone>(v: A, out: Result<A, E>)
    requires
        <Result<A, E> as ContainerApplicative<A>>::is_pure(v, out),
    ensures
        out == Ok::<A, E>(v),
{
}

// Identity.

/// Mapping over `Identity(a)` gives `Identity(b)` with `b` related to `a`.
pub proof fn identity_map_contents<A, B>(input: Identity<A>, rel: spec_fn(A, B) -> bool, out: Identity<B>)
    requires
        <IdentityKind as Functor<A, B>>::mapped(input, rel, out),
    ensures
        rel(input.0, out.0),
{
}

/// [`identity_map_contents`] for the container-style `map`.
pub proof fn container_identity_map_contents<A, B>(input: Identity<A>, rel: spec_fn(A, B) -> bool, out: Identity<B>)
    requires
        <Identity<A> as ContainerFunctor<A, B>>::mapped(input, rel, out),
    ensures
        rel(input.0, out.0),
{
}

/// Applying `Identity(f)` to `Identity(a)` gives what `f` gives on `a`.
pub proof fn identity_apply_contents<A: 'static, B: 'static>(values: Identity<A>, fns: Identity<CFn<A, B>>, out: Identity<B>)
    requires
        <IdentityKind as Apply<A, B>>::applied(values, fns, out),
    ensures
        fns.0.gives(values.0, out.0),
{
}

/// [`identity_apply_contents`] for the container-style `apply`.
pub proof fn container_identity_apply_contents<A: 'static, B: 'static>(values: Identity<A>, fns: Identity<CFn<A, B>>, out: Identity<B>)
    requires
        <Identity<A> as ContainerApply<A, B>>::applied(values, fns, out),
    ensures
        fns.0.gives(values.0, out.0),
{
}

/// Binding `Identity(a)` gives what the function gives for `a`.
pub proof fn identity_bind_contents<A: 'static, B: 'static>(input: Identity<A>, rel: spec_fn(A, Identity<B>) -> bool, out: Identity<B>)
    requires
        <IdentityKind as Bind<A, B>>::bound(input, rel, out),
    ensures
        rel(input.0, out),
{
}

/// [`identity_bind_contents`] for the container-style `bind`.
pub proof fn container_identity_bind_contents<A: 'static, B: 'static>(input: Identity<A>, rel: spec_fn(A, Identity<B>) -> bool, out: Identity<B>)
    requires
        <Identity<A> as ContainerBind<A, B>>::bound(input, rel, out),
    ensures
        rel(input.0, out),
{
}

/// Flattening `Identity(Identity(a))` gives `Identity(a)`.
pub proof fn identity_join_contents<A: 'static>(mma: Identity<Identity<A>>, out: Identity<A>)
    requires
        <IdentityKind as Monad<A>>::joined(mma, out),
    ensures
        out == mma.0,
{
}

/// Lifting `a` gives `Identity(a)`.
pub proof fn identity_pure_contents<A: 'static>(v: A, out: Identity<A>)
    requires
        <IdentityKind as Applicative<A>>::is_pure(v, out),
    ensures
        out == Identity(v),
{
}

/// [`identity_pure_contents`] for the container-style `pure`.
pub proof fn container_identity_pure_contents<A: 'static>(v: A, out: Identity<A>)
    requires
        <Identity<A> as ContainerApplicative<A>>::is_pure(v, out),
    ensures
        out == Identity(v),
{
}


// Wrapped functions.

/// Mapping over a wrapped function: the result may be called where the function may
/// and the mapped function accepts what it gives, and each result of it comes from a
/// result of the function on the same argument.
pub proof fn fn_map_contents<X: 'static, A: 'static, B: 'static>(input: CFn<X, A>, pre: spec_fn(A) -> bool, rel: spec_fn(A, B) -> bool, out: CFn<X, B>)
    requires
        <CFnKind<X> as Functor<A, B>>::mapped(input, rel, out),
        <CFnKind<X> as Functor<A, B>>::map_runs(input, pre, out),
    ensures
        forall|x: X| input.accepts(x) && (forall|a: A| #[trigger] input.gives(x, a) ==> pre(a)) ==> #[trigger] out.accepts(x),
        forall|x: X, b: B| #[trigger] out.gives(x, b) ==> exists|a: A| input.gives(x, a) && rel(a, b),
{
}

/// Applying a wrapped function of functions to a wrapped function of values: the
/// result calls the first on a clone of its argument and the second on the argument,
/// and applies the one result to the other.
pub proof fn fn_apply_contents<X: 'static + Clone, A: 'static, B: 'static>(values: CFn<X, A>, fns: CFn<X, CFn<A, B>>, out: CFn<X, B>)
    requires
        <CFnKind<X> as Apply<A, B>>::applied(values, fns, out),
    ensures
        forall|x: X|
            (forall|x2: X| #[trigger] cloned(x, x2) ==> fns.accepts(x2)) && values.accepts(x) && (forall|x2: X, f: CFn<A, B>, a: A|
                #![trigger fns.gives(x2, f), values.gives(x, a)]
                cloned(x, x2) && fns.gives(x2, f) && values.gives(x, a) ==> f.accepts(a)) ==> #[trigger] out.accepts(x),
        forall|x: X, b: B| #[trigger] out.gives(x, b) ==> exists|x2: X, f: CFn<A, B>, a: A|
            #![trigger fns.gives(x2, f), values.gives(x, a)]
            cloned(x, x2) && fns.gives(x2, f) && values.gives(x, a) && f.gives(a, b),
{
    assert forall|x: X|
        (forall|x2: X| #[trigger] cloned(x, x2) ==> fns.accepts(x2)) && values.accepts(x) && (forall|x2: X, f: CFn<A, B>, a: A|
            #![trigger fns.gives(x2, f), values.gives(x, a)]
            cloned(x, x2) && fns.gives(x2, f) && values.gives(x, a) ==> f.accepts(a)) implies #[trigger] out.accepts(x) by {
        assert(crate::apply::fn_apply_ok_at(values, fns, x));
    }
    assert forall|x: X, b: B| #[trigger] out.gives(x, b) implies exists|x2: X, f: CFn<A, B>, a: A|
        #![trigger fns.gives(x2, f), values.gives(x, a)]
        cloned(x, x2) && fns.gives(x2, f) && values.gives(x, a) && f.gives(a, b) by {
        assert(crate::apply::fn_apply_gives(values, fns, x, b));
    }
}

/// Binding a wrapped function: the result calls it on a clone of its argument, and the
/// function related to that value on another clone of the argument.
pub proof fn fn_bind_contents<R: 'static + Clone, A: 'static, B: 'static>(
    input: CFn<R, A>,
    pre: spec_fn(A) -> bool,
    rel: spec_fn(A, CFn<R, B>) -> bool,
    out: CFn<R, B>,
)
    requires
        <CFnKind<R> as Bind<A, B>>::bound(input, rel, out),
        <CFnKind<R> as Bind<A, B>>::bind_runs(input, pre, rel, out),
    ensures
        forall|r: R|
            (forall|r1: R| #[trigger] cloned(r, r1) ==> input.accepts(r1))
                && (forall|r1: R, a: A| #![trigger input.gives(r1, a)] cloned(r, r1) && input.gives(r1, a) ==> pre(a))
                && (forall|r1: R, a: A, mb: CFn<R, B>, r2: R|
                    #![trigger input.gives(r1, a), rel(a, mb), cloned(r, r2)]
                    cloned(r, r1) && input.gives(r1, a) && rel(a, mb) && cloned(r, r2) ==> mb.accepts(r2))
                ==> #[trigger] out.accepts(r),
        forall|r: R, b: B| #[trigger] out.gives(r, b) ==> exists|r1: R, a: A, mb: CFn<R, B>, r2: R|
            #![trigger input.gives(r1, a), rel(a, mb), mb.gives(r2, b)]
            cloned(r, r1) && input.gives(r1, a) && rel(a, mb) && cloned(r, r2) && mb.gives(r2, b),
{
    assert forall|r: R|
        (forall|r1: R| #[trigger] cloned(r, r1) ==> input.accepts(r1))
            && (forall|r1: R, a: A| #![trigger input.gives(r1, a)] cloned(r, r1) && input.gives(r1, a) ==> pre(a))
            && (forall|r1: R, a: A, mb: CFn<R, B>, r2: R|
                #![trigger input.gives(r1, a), rel(a, mb), cloned(r, r2)]
                cloned(r, r1) && input.gives(r1, a) && rel(a, mb) && cloned(r, r2) ==> mb.accepts(r2))
            implies #[trigger] out.accepts(r) by {
        assert(crate::monad::fn_bind_ok_at(input, pre, rel, r));
    }
    assert forall|r: R, b: B| #[trigger] out.gives(r, b) implies exists|r1: R, a: A, mb: CFn<R, B>, r2: R|
        #![trigger input.gives(r1, a), rel(a, mb), mb.gives(r2, b)]
        cloned(r, r1) && input.gives(r1, a) && rel(a, mb) && cloned(r, r2) && mb.gives(r2, b) by {
        assert(crate::monad::fn_bind_gives(input, rel, r, b));
    }
}

/// Lifting a value into a wrapped function gives one that accepts every argument and
/// returns a clone of the value.
pub proof fn fn_pure_contents<X: 'static + Clone, T: 'static + Clone>(v: T, out: CFn<X, T>)
    requires
        <CFnKind<X> as Applicative<T>>::is_pure(v, out),
    ensures
        forall|x: X| #[trigger] out.accepts(x),
        forall|x: X, t: T| #[trigger] out.gives(x, t) ==> cloned(v, t),
{
}

/// Mapping over a once-callable function: as [`fn_map_contents`].
pub proof fn fn_once_map_contents<X: 'static, A: 'static, B: 'static>(
    input: CFnOnce<X, A>,
    pre: spec_fn(A) -> bool,
    rel: spec_fn(A, B) -> bool,
    out: CFnOnce<X, B>,
)
    requires
        <CFnOnceKind<X> as Functor<A, B>>::mapped(input, rel, out),
        <CFnOnceKind<X> as Functor<A, B>>::map_runs(input, pre, out),
    ensures
        forall|x: X| input.accepts(x) && (forall|a: A| #[trigger] input.gives(x, a) ==> pre(a)) ==> #[trigger] out.accepts(x),
        forall|x: X, b: B| #[trigger] out.gives(x, b) ==> exists|a: A| input.gives(x, a) && rel(a, b),
{
}

/// Applying once-callable functions: as [`fn_apply_contents`].
pub proof fn fn_once_apply_contents<X: 'static + Clone, A: 'static, B: 'static>(
    values: CFnOnce<X, A>,
    fns: CFnOnce<X, CFn<A, B>>,
    out: CFnOnce<X, B>,
)
    requires
        <CFnOnceKind<X> as Apply<A, B>>::applied(values, fns, out),
    ensures
        forall|x: X|
            (forall|x2: X| #[trigger] cloned(x, x2) ==> fns.accepts(x2)) && values.accepts(x) && (forall|x2: X, f: CFn<A, B>, a: A|
                #![trigger fns.gives(x2, f), values.gives(x, a)]
                cloned(x, x2) && fns.gives(x2, f) && values.gives(x, a) ==> f.accepts(a)) ==> #[trigger] out.accepts(x),
        forall|x: X, b: B| #[trigger] out.gives(x, b) ==> exists|x2: X, f: CFn<A, B>, a: A|
            #![trigger fns.gives(x2, f), values.gives(x, a)]
            cloned(x, x2) && fns.gives(x2, f) && values.gives(x, a) && f.gives(a, b),
{
    assert forall|x: X|
        (forall|x2: X| #[trigger] cloned(x, x2) ==> fns.accepts(x2)) && values.accepts(x) && (forall|x2: X, f: CFn<A, B>, a: A|
            #![trigger fns.gives(x2, f), values.gives(x, a)]
            cloned(x, x2) && fns.gives(x2, f) && values.gives(x, a) ==> f.accepts(a)) implies #[trigger] out.accepts(x) by {
        assert(crate::apply::fn_once_apply_ok_at(values, fns, x));
    }
    assert forall|x: X, b: B| #[trigger] out.gives(x, b) implies exists|x2: X, f: CFn<A, B>, a: A|
        #![trigger fns.gives(x2, f), values.gives(x, a)]
        cloned(x, x2) && fns.gives(x2, f) && values.gives(x, a) && f.gives(a, b) by {
        assert(crate::apply::fn_once_apply_gives(values, fns, x, b));
    }
}

/// Binding a once-callable function: the result calls it on a clone of its argument,
/// and the function related to that value on the argument itself.
pub proof fn fn_once_bind_contents<R: 'static + Clone, A: 'static, B: 'static>(
    input: CFnOnce<R, A>,
    pre: spec_fn(A) -> bool,
    rel: spec_fn(A, CFnOnce<R, B>) -> bool,
    out: CFnOnce<R, B>,
)
    requires
        <CFnOnceKind<R> as Bind<A, B>>::bound(input, rel, out),
        <CFnOnceKind<R> as Bind<A, B>>::bind_runs(input, pre, rel, out),
    ensures
        forall|r: R|
            (forall|r1: R| #[trigger] cloned(r, r1) ==> input.accepts(r1))
                && (forall|r1: R, a: A| #![trigger input.gives(r1, a)] cloned(r, r1) && input.gives(r1, a) ==> pre(a))
                && (forall|r1: R, a: A, mb: CFnOnce<R, B>|
                    #![trigger input.gives(r1, a), rel(a, mb)]
                    cloned(r, r1) && input.gives(r1, a) && rel(a, mb) ==> mb.accepts(r))
                ==> #[trigger] out.accepts(r),
        forall|r: R, b: B| #[trigger] out.gives(r, b) ==> exists|r1: R, a: A, mb: CFnOnce<R, B>|
            #![trigger input.gives(r1, a), rel(a, mb), mb.gives(r, b)]
            cloned(r, r1) && input.gives(r1, a) && rel(a, mb) && mb.gives(r, b),
{
    assert forall|r: R|
        (forall|r1: R| #[trigger] cloned(r, r1) ==> input.accepts(r1))
            && (forall|r1: R, a: A| #![trigger input.gives(r1, a)] cloned(r, r1) && input.gives(r1, a) ==> pre(a))
            && (forall|r1: R, a: A, mb: CFnOnce<R, B>|
                #![trigger input.gives(r1, a), rel(a, mb)]
                cloned(r, r1) && input.gives(r1, a) && rel(a, mb) ==> mb.accepts(r))
            implies #[trigger] out.accepts(r) by {
        assert(crate::monad::fn_once_bind_ok_at(input, pre, rel, r));
    }
    assert forall|r: R, b: B| #[trigger] out.gives(r, b) implies exists|r1: R, a: A, mb: CFnOnce<R, B>|
        #![trigger input.gives(r1, a), rel(a, mb), mb.gives(r, b)]
        cloned(r, r1) && input.gives(r1, a) && rel(a, mb) && mb.gives(r, b) by {
        assert(crate::monad::fn_once_bind_gives(input, rel, r, b));
    }
}

/// Lifting a value into a once-callable function: as [`fn_pure_contents`].
pub proof fn fn_once_pure_contents<X: 'static + Clone, T: 'static + Clone>(v: T, out: CFnOnce<X, T>)
    requires
        <CFnOnceKind<X> as Applicative<T>>::is_pure(v, out),
    ensures
        forall|x: X| #[trigger] out.accepts(x),
        forall|x: X, t: T| #[trigger] out.gives(x, t) ==> cloned(v, t),
{
}

/// The container-style `map` over a wrapped function gives a once-callable function
/// that behaves as in [`fn_map_contents`].
pub proof fn container_fn_map_contents<X: 'static, A: 'static, B: 'static>(
    input: CFn<X, A>,
    pre: spec_fn(A) -> bool,
    rel: spec_fn(A, B) -> bool,
    out: CFnOnce<X, B>,
)
    requires
        <CFn<X, A> as ContainerFunctor<A, B>>::mapped(input, rel, out),
        <CFn<X, A> as ContainerFunctor<A, B>>::map_runs(input, pre, out),
    ensures
        forall|x: X| input.accepts(x) && (forall|a: A| #[trigger] input.gives(x, a) ==> pre(a)) ==> #[trigger] out.accepts(x),
        forall|x: X, b: B| #[trigger] out.gives(x, b) ==> exists|a: A| input.gives(x, a) && rel(a, b),
{
}

/// The container-style `map` over a once-callable function: as [`fn_once_map_contents`].
pub proof fn container_fn_once_map_contents<X: 'static, A: 'static, B: 'static>(
    input: CFnOnce<X, A>,
    pre: spec_fn(A) -> bool,
    rel: spec_fn(A, B) -> bool,
    out: CFnOnce<X, B>,
)
    requires
        <CFnOnce<X, A> as ContainerFunctor<A, B>>::mapped(input, rel, out),
        <CFnOnce<X, A> as ContainerFunctor<A, B>>::map_runs(input, pre, out),
    ensures
        forall|x: X| input.accepts(x) && (forall|a: A| #[trigger] input.gives(x, a) ==> pre(a)) ==> #[trigger] out.accepts(x),
        forall|x: X, b: B| #[trigger] out.gives(x, b) ==> exists|a: A| input.gives(x, a) && rel(a, b),
{
}


// Readers.

/// Mapping over a reader maps, with the inner `map`, what the reader produces in the
/// same environment; the result runs where the reader runs and the inner `map` may be
/// used on what it produces.
pub proof fn reader_map_contents<R: 'static, MM: Functor<A, B> + 'static, A: 'static, B: 'static>(
    input: ReaderT<R, <MM as Kind<A>>::Of, A>,
    pre: spec_fn(A) -> bool,
    rel: spec_fn(A, B) -> bool,
    out: ReaderT<R, <MM as Kind<B>>::Of, B>,
)
    requires
        <ReaderTHKTMarker<R, MM> as Functor<A, B>>::mapped(input, rel, out),
        <ReaderTHKTMarker<R, MM> as Functor<A, B>>::map_runs(input, pre, out),
    ensures
        forall|env: R|
            input.accepts(env) && (forall|ma: <MM as Kind<A>>::Of| #[trigger] input.gives(env, ma) ==> MM::map_ok(ma, pre))
                ==> #[trigger] out.accepts(env),
        forall|env: R, mb: <MM as Kind<B>>::Of| #[trigger] out.gives(env, mb) ==> exists|ma: <MM as Kind<A>>::Of|
            #[trigger] input.gives(env, ma) && MM::mapped(ma, rel, mb),
{
}

/// Applying readers: the result runs the reader of values on a clone of the
/// environment and the reader of functions on the environment, and applies the
/// inner structures with the inner `apply`.
pub proof fn reader_apply_contents<R: Clone + 'static, MM: Apply<A, B> + 'static, A: 'static, B: 'static>(
    values: ReaderT<R, <MM as Kind<A>>::Of, A>,
    fns: ReaderT<R, <MM as Kind<CFn<A, B>>>::Of, CFn<A, B>>,
    out: ReaderT<R, <MM as Kind<B>>::Of, B>,
)
    requires
        <ReaderTHKTMarker<R, MM> as Apply<A, B>>::applied(values, fns, out),
    ensures
        forall|env: R|
            (forall|e1: R| #[trigger] cloned(env, e1) ==> values.accepts(e1)) && fns.accepts(env) && (forall|
                e1: R,
                mv: <MM as Kind<A>>::Of,
                mf: <MM as Kind<CFn<A, B>>>::Of,
            |
                #![trigger values.gives(e1, mv), fns.gives(env, mf)]
                cloned(env, e1) && values.gives(e1, mv) && fns.gives(env, mf) ==> MM::apply_ok(mv, mf)) ==> #[trigger] out.accepts(env),
        forall|env: R, mb: <MM as Kind<B>>::Of| #[trigger] out.gives(env, mb) ==> exists|
            e1: R,
            mv: <MM as Kind<A>>::Of,
            mf: <MM as Kind<CFn<A, B>>>::Of,
        |
            #![trigger values.gives(e1, mv), fns.gives(env, mf)]
            cloned(env, e1) && values.gives(e1, mv) && fns.gives(env, mf) && MM::applied(mv, mf, mb),
{
    assert forall|env: R|
        (forall|e1: R| #[trigger] cloned(env, e1) ==> values.accepts(e1)) && fns.accepts(env) && (forall|
            e1: R,
            mv: <MM as Kind<A>>::Of,
            mf: <MM as Kind<CFn<A, B>>>::Of,
        |
            #![trigger values.gives(e1, mv), fns.gives(env, mf)]
            cloned(env, e1) && values.gives(e1, mv) && fns.gives(env, mf) ==> MM::apply_ok(mv, mf)) implies #[trigger] out.accepts(env) by {
        assert(reader_apply_ok_at::<R, MM, A, B>(values, fns, env));
    }
    assert forall|env: R, mb: <MM as Kind<B>>::Of| #[trigger] out.gives(env, mb) implies exists|
        e1: R,
        mv: <MM as Kind<A>>::Of,
        mf: <MM as Kind<CFn<A, B>>>::Of,
    |
        #![trigger values.gives(e1, mv), fns.gives(env, mf)]
        cloned(env, e1) && values.gives(e1, mv) && fns.gives(env, mf) && MM::applied(mv, mf, mb) by {
        assert(reader_apply_gives::<R, MM, A, B>(values, fns, env, mb));
    }
}

/// Binding a reader: the result runs it on a clone of the environment and binds what
/// it produces, with the inner `bind`, to running on another clone of the environment
/// a reader related to each value.
pub proof fn reader_bind_contents<R: Clone + 'static, MM: Bind<A, B> + 'static, A: 'static, B: 'static>(
    input: ReaderT<R, <MM as Kind<A>>::Of, A>,
    rel: spec_fn(A, ReaderT<R, <MM as Kind<B>>::Of, B>) -> bool,
    out: ReaderT<R, <MM as Kind<B>>::Of, B>,
)
    requires
        <ReaderTHKTMarker<R, MM> as Bind<A, B>>::bound(input, rel, out),
    ensures
        forall|env: R, mb: <MM as Kind<B>>::Of| #[trigger] out.gives(env, mb) ==> exists|e1: R, ma: <MM as Kind<A>>::Of|
            #[trigger] cloned(env, e1) && #[trigger] input.gives(e1, ma) && MM::bound(
                ma,
                |a: A, m: <MM as Kind<B>>::Of|
                    exists|rb: ReaderT<R, <MM as Kind<B>>::Of, B>, e2: R| #[trigger] rel(a, rb) && #[trigger] cloned(env, e2) && rb.gives(e2, m),
                mb,
            ),
{
    assert forall|env: R, mb: <MM as Kind<B>>::Of| #[trigger] out.gives(env, mb) implies exists|e1: R, ma: <MM as Kind<A>>::Of|
        #[trigger] cloned(env, e1) && #[trigger] input.gives(e1, ma) && MM::bound(
            ma,
            |a: A, m: <MM as Kind<B>>::Of|
                exists|rb: ReaderT<R, <MM as Kind<B>>::Of, B>, e2: R| #[trigger] rel(a, rb) && #[trigger] cloned(env, e2) && rb.gives(e2, m),
            mb,
        ) by {
        let (e1, ma) = choose|e1: R, ma: <MM as Kind<A>>::Of|
            #[trigger] cloned(env, e1) && #[trigger] input.gives(e1, ma)
                && MM::bound(ma, run_related::<R, A, B, <MM as Kind<B>>::Of>(rel, env), mb);
        let q = |a: A, m: <MM as Kind<B>>::Of|
            exists|rb: ReaderT<R, <MM as Kind<B>>::Of, B>, e2: R| #[trigger] rel(a, rb) && #[trigger] cloned(env, e2) && rb.gives(e2, m);
        assert(run_related::<R, A, B, <MM as Kind<B>>::Of>(rel, env) == q);
    }
}

/// Lifting a value into a reader gives one that runs in every environment and lifts
/// a clone of the value with the inner `pure`.
pub proof fn reader_pure_contents<R: Clone + 'static, MM: Applicative<T> + 'static, T: Clone + 'static>(
    v: T,
    out: ReaderT<R, <MM as Kind<T>>::Of, T>,
)
    requires
        <ReaderTHKTMarker<R, MM> as Applicative<T>>::is_pure(v, out),
    ensures
        forall|env: R| #[trigger] out.accepts(env),
        forall|env: R, m: <MM as Kind<T>>::Of| #[trigger] out.gives(env, m) ==> exists|v2: T| #[trigger] cloned(v, v2) && MM::is_pure(v2, m),
{
}


/// The bound reader may be run on `env` when the reader accepts every clone of it
/// and, on everything it produces there, the inner `bind` may feed each value to the
/// step "`pre` holds and every related reader accepts every clone of `env`".
pub proof fn reader_bind_runs_contents<R: Clone + 'static, MM: Bind<A, B> + 'static, A: 'static, B: 'static>(
    input: ReaderT<R, <MM as Kind<A>>::Of, A>,
    pre: spec_fn(A) -> bool,
    rel: spec_fn(A, ReaderT<R, <MM as Kind<B>>::Of, B>) -> bool,
    out: ReaderT<R, <MM as Kind<B>>::Of, B>,
)
    requires
        <ReaderTHKTMarker<R, MM> as Bind<A, B>>::bind_runs(input, pre, rel, out),
    ensures
        forall|env: R|
            (forall|e1: R| #[trigger] cloned(env, e1) ==> input.accepts(e1)) && (forall|e1: R, ma: <MM as Kind<A>>::Of|
                #[trigger] cloned(env, e1) && #[trigger] input.gives(e1, ma) ==> MM::bind_ok(
                    ma,
                    |a: A|
                        pre(a) && forall|rb: ReaderT<R, <MM as Kind<B>>::Of, B>, e2: R|
                            #[trigger] rel(a, rb) && #[trigger] cloned(env, e2) ==> rb.accepts(e2),
                )) ==> #[trigger] out.accepts(env),
{
    assert forall|env: R|
        (forall|e1: R| #[trigger] cloned(env, e1) ==> input.accepts(e1)) && (forall|e1: R, ma: <MM as Kind<A>>::Of|
            #[trigger] cloned(env, e1) && #[trigger] input.gives(e1, ma) ==> MM::bind_ok(
                ma,
                |a: A|
                    pre(a) && forall|rb: ReaderT<R, <MM as Kind<B>>::Of, B>, e2: R|
                        #[trigger] rel(a, rb) && #[trigger] cloned(env, e2) ==> rb.accepts(e2),
            )) implies #[trigger] out.accepts(env) by {
        let step = |a: A|
            pre(a) && forall|rb: ReaderT<R, <MM as Kind<B>>::Of, B>, e2: R| #[trigger] rel(a, rb) && #[trigger] cloned(env, e2) ==> rb.accepts(e2);
        assert(run_pre::<R, A, B, <MM as Kind<B>>::Of>(pre, rel, env) == step);
        assert(reader_bind_ok_at::<R, MM, A, B>(input, pre, rel, env));
    }
}

/// Flattening a reader of readers: the result runs the outer reader on a clone of
/// the environment and binds what it produces, with the inner `bind`, to running each
/// inner reader on another clone; it runs where the outer reader accepts every clone
/// and the inner `bind` may feed it inner readers that accept every clone.
pub proof fn reader_join_contents<R: Clone + 'static, MM: 'static, A: Clone + 'static>(
    mma: ReaderT<R, <MM as Kind<ReaderT<R, <MM as Kind<A>>::Of, A>>>::Of, ReaderT<R, <MM as Kind<A>>::Of, A>>,
    out: ReaderT<R, <MM as Kind<A>>::Of, A>,
) where
    MM: Applicative<A> + Bind<ReaderT<R, <MM as Kind<A>>::Of, A>, A>,

    requires
        <ReaderTHKTMarker<R, MM> as Monad<A>>::joined(mma, out),
    ensures
        forall|env: R|
            (forall|e1: R| #[trigger] cloned(env, e1) ==> mma.accepts(e1)) && (forall|
                e1: R,
                mx: <MM as Kind<ReaderT<R, <MM as Kind<A>>::Of, A>>>::Of,
            |
                #[trigger] cloned(env, e1) && #[trigger] mma.gives(e1, mx) ==> MM::bind_ok(
                    mx,
                    |rb: ReaderT<R, <MM as Kind<A>>::Of, A>| forall|e2: R| #[trigger] cloned(env, e2) ==> rb.accepts(e2),
                )) ==> #[trigger] out.accepts(env),
        forall|env: R, m: <MM as Kind<A>>::Of| #[trigger] out.gives(env, m) ==> exists|
            e1: R,
            mx: <MM as Kind<ReaderT<R, <MM as Kind<A>>::Of, A>>>::Of,
        |
            #[trigger] cloned(env, e1) && #[trigger] mma.gives(e1, mx) && MM::bound(
                mx,
                |rb: ReaderT<R, <MM as Kind<A>>::Of, A>, m2: <MM as Kind<A>>::Of| exists|e2: R| #[trigger] cloned(env, e2) && rb.gives(e2, m2),
                m,
            ),
{
    assert forall|env: R|
        (forall|e1: R| #[trigger] cloned(env, e1) ==> mma.accepts(e1)) && (forall|
            e1: R,
            mx: <MM as Kind<ReaderT<R, <MM as Kind<A>>::Of, A>>>::Of,
        |
            #[trigger] cloned(env, e1) && #[trigger] mma.gives(e1, mx) ==> MM::bind_ok(
                mx,
                |rb: ReaderT<R, <MM as Kind<A>>::Of, A>| forall|e2: R| #[trigger] cloned(env, e2) ==> rb.accepts(e2),
            )) implies #[trigger] out.accepts(env) by {
        let roc = |rb: ReaderT<R, <MM as Kind<A>>::Of, A>| forall|e2: R| #[trigger] cloned(env, e2) ==> rb.accepts(e2);
        assert(runs_on_clones::<R, <MM as Kind<A>>::Of, A>(env) == roc);
        assert(reader_join_ok_at::<R, MM, A>(mma, env));
    }
    assert forall|env: R, m: <MM as Kind<A>>::Of| #[trigger] out.gives(env, m) implies exists|
        e1: R,
        mx: <MM as Kind<ReaderT<R, <MM as Kind<A>>::Of, A>>>::Of,
    |
        #[trigger] cloned(env, e1) && #[trigger] mma.gives(e1, mx) && MM::bound(
            mx,
            |rb: ReaderT<R, <MM as Kind<A>>::Of, A>, m2: <MM as Kind<A>>::Of| exists|e2: R| #[trigger] cloned(env, e2) && rb.gives(e2, m2),
            m,
        ) by {
        let q = |rb: ReaderT<R, <MM as Kind<A>>::Of, A>, m2: <MM as Kind<A>>::Of| exists|e2: R| #[trigger] cloned(env, e2) && rb.gives(e2, m2);
        assert(run_on_clone::<R, <MM as Kind<A>>::Of, A>(env) == q);
    }
}


/// The container-style `map` over a reader maps, with the inner `map`, what the
/// reader produces in the same environment, and runs where the reader runs and the
/// inner `map` may be used on what it produces.
pub proof fn container_reader_map_contents<R: 'static, M: ContainerFunctor<A, B> + 'static, A: 'static, B: 'static>(
    input: ReaderT<R, M, A>,
    pre: spec_fn(A) -> bool,
    rel: spec_fn(A, B) -> bool,
    out: ReaderT<R, M::Mapped, B>,
) where
    M::Mapped: 'static,

    requires
        <ReaderT<R, M, A> as ContainerFunctor<A, B>>::mapped(input, rel, out),
        <ReaderT<R, M, A> as ContainerFunctor<A, B>>::map_runs(input, pre, out),
    ensures
        forall|env: R| input.accepts(env) && (forall|ma: M| #[trigger] input.gives(env, ma) ==> M::map_ok(ma, pre)) ==> #[trigger] out.accepts(env),
        forall|env: R, mb: M::Mapped| #[trigger] out.gives(env, mb) ==> exists|ma: M| #[trigger] input.gives(env, ma) && M::mapped(ma, rel, mb),
{
}

/// The container-style `apply` of readers runs the reader of values on a clone of the
/// environment and the reader of functions on the environment, and applies the inner
/// containers with the inner `apply`.
pub proof fn container_reader_apply_contents<R: Clone + 'static, M: ContainerApply<A, B> + 'static, A: 'static, B: 'static>(
    values: ReaderT<R, M, A>,
    fns: ReaderT<R, M::Fns, CFn<A, B>>,
    out: ReaderT<R, M::Mapped, B>,
) where
    M::Mapped: 'static,
    M::Fns: 'static,

    requires
        <ReaderT<R, M, A> as ContainerApply<A, B>>::applied(values, fns, out),
    ensures
        forall|env: R|
            (forall|e1: R| #[trigger] cloned(env, e1) ==> values.accepts(e1)) && fns.accepts(env) && (forall|e1: R, mv: M, mf: M::Fns|
                #![trigger values.gives(e1, mv), fns.gives(env, mf)]
                cloned(env, e1) && values.gives(e1, mv) && fns.gives(env, mf) ==> M::apply_ok(mv, mf)) ==> #[trigger] out.accepts(env),
        forall|env: R, mb: M::Mapped| #[trigger] out.gives(env, mb) ==> exists|e1: R, mv: M, mf: M::Fns|
            #![trigger values.gives(e1, mv), fns.gives(env, mf)]
            cloned(env, e1) && values.gives(e1, mv) && fns.gives(env, mf) && M::applied(mv, mf, mb),
{
}

/// The container-style `bind` of a reader runs it on a clone of the environment and
/// binds what it produces, with the inner `bind`, to running on another clone a reader
/// related to each value.
pub proof fn container_reader_bind_contents<R: Clone + 'static, M: ContainerBind<A, B> + 'static, A: 'static, B: 'static>(
    input: ReaderT<R, M, A>,
    rel: spec_fn(A, ReaderT<R, M::Mapped, B>) -> bool,
    out: ReaderT<R, M::Mapped, B>,
) where
    M::Mapped: 'static,
    M::Fns: 'static,

    requires
        <ReaderT<R, M, A> as ContainerBind<A, B>>::bound(input, rel, out),
    ensures
        forall|env: R, mb: M::Mapped| #[trigger] out.gives(env, mb) ==> exists|e1: R, ma: M|
            #[trigger] cloned(env, e1) && #[trigger] input.gives(e1, ma) && M::bound(
                ma,
                |a: A, m: M::Mapped| exists|rb: ReaderT<R, M::Mapped, B>, e2: R| #[trigger] rel(a, rb) && #[trigger] cloned(env, e2) && rb.gives(e2, m),
                mb,
            ),
{
    assert forall|env: R, mb: M::Mapped| #[trigger] out.gives(env, mb) implies exists|e1: R, ma: M|
        #[trigger] cloned(env, e1) && #[trigger] input.gives(e1, ma) && M::bound(
            ma,
            |a: A, m: M::Mapped| exists|rb: ReaderT<R, M::Mapped, B>, e2: R| #[trigger] rel(a, rb) && #[trigger] cloned(env, e2) && rb.gives(e2, m),
            mb,
        ) by {
        let q = |a: A, m: M::Mapped| exists|rb: ReaderT<R, M::Mapped, B>, e2: R| #[trigger] rel(a, rb) && #[trigger] cloned(env, e2) && rb.gives(e2, m);
        assert(run_related::<R, A, B, M::Mapped>(rel, env) == q);
    }
}

/// The container-style `pure` of a reader runs in every environment and lifts a clone
/// of the value with the inner `pure`.
pub proof fn container_reader_pure_contents<R: Clone + 'static, M: ContainerApplicative<A> + 'static, A: Clone + 'static>(
    v: A,
    out: ReaderT<R, M, A>,
) where
    M::Mapped: 'static,
    M::Fns: 'static,

    requires
        <ReaderT<R, M, A> as ContainerApplicative<A>>::is_pure(v, out),
    ensures
        forall|env: R| #[trigger] out.accepts(env),
        forall|env: R, m: M| #[trigger] out.gives(env, m) ==> exists|v2: A| #[trigger] cloned(v, v2) && M::is_pure(v2, m),
{
}

/// The container-style `ask` runs in every environment and lifts a clone of it with
/// the inner `pure`.
pub proof fn container_reader_ask_contents<R: Clone + 'static, M: ContainerApplicative<R> + 'static, A: 'static>(out: ReaderT<R, M, R>)
    requires
        <ReaderT<R, M, A> as ContainerMonadReader<R, A>>::asks(out),
    ensures
        forall|env: R| #[trigger] out.accepts(env),
        forall|env: R, m: M| #[trigger] out.gives(env, m) ==> exists|e2: R| #[trigger] cloned(env, e2) && M::is_pure(e2, m),
{
}

/// The container-style `local` runs the computation on the transformed environment:
/// it runs where the transformation accepts the environment and the computation
/// accepts every transformed one, and gives what the computation gives there.
pub proof fn container_reader_local_contents<R: 'static, M: ContainerApplicative<R> + 'static, A: 'static>(
    map_pre: spec_fn(R) -> bool,
    map_rel: spec_fn(R, R) -> bool,
    computation: ReaderT<R, M, A>,
    out: ReaderT<R, M, A>,
)
    requires
        <ReaderT<R, M, A> as ContainerMonadReader<R, A>>::localized(map_pre, map_rel, computation, out),
    ensures
        forall|env: R| map_pre(env) && (forall|e2: R| #[trigger] map_rel(env, e2) ==> computation.accepts(e2)) ==> #[trigger] out.accepts(env),
        forall|env: R, m: M| #[trigger] out.gives(env, m) ==> exists|e2: R| #[trigger] map_rel(env, e2) && computation.gives(e2, m),
{
}

} // verus!
