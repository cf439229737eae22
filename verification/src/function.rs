//! Heap-allocated function wrappers [`CFn`] and [`CFnOnce`], and the relational view
//! of functions that every contract of this library is written in.
//!
//! A function is described by two predicates: `accepts(a)` (it may be called on `a`)
//! and `gives(a, b)` (calling it on `a` may return `b`).

use vstd::prelude::*;
use vstd::std_specs::ops::{ShlSpecImpl, ShrSpecImpl};

verus! {

/// A function value that can be called any number of times through a shared reference.
pub trait Callable<A, B> {
    /// The function may be called on `a`.
    spec fn accepts(&self, a: A) -> bool;

    /// Calling the function on `a` may return `b`.
    spec fn gives(&self, a: A, b: B) -> bool;

    /// Calls the function.
    fn call_with(&self, a: A) -> (b: B)
        requires
            self.accepts(a),
        ensures
            self.gives(a, b),
    ;
}

impl<A, B, F: Fn(A) -> B> Callable<A, B> for F {
    open spec fn accepts(&self, a: A) -> bool {
        call_requires(*self, (a,))
    }

    open spec fn gives(&self, a: A, b: B) -> bool {
        call_ensures(*self, (a,), b)
    }

    fn call_with(&self, a: A) -> (b: B) {
        (self)(a)
    }
}

/// A function value that is consumed by its single call.
pub trait CallableOnce<A, B> {
    /// The function may be called on `a`.
    spec fn accepts(&self, a: A) -> bool;

    /// Calling the function on `a` may return `b`.
    spec fn gives(&self, a: A, b: B) -> bool;

    /// Calls the function, consuming it.
    fn call_boxed(self: Box<Self>, a: A) -> (b: B)
        requires
            self.accepts(a),
        ensures
            self.gives(a, b),
    ;
}

impl<A, B, F: FnOnce(A) -> B> CallableOnce<A, B> for F {
    open spec fn accepts(&self, a: A) -> bool {
        call_requires(*self, (a,))
    }

    open spec fn gives(&self, a: A, b: B) -> bool {
        call_ensures(*self, (a,), b)
    }

    fn call_boxed(self: Box<Self>, a: A) -> (b: B) {
        (*self)(a)
    }
}

/// The arguments on which the closure `f` may be called.
pub open spec fn pre_of<A, B, F: Fn(A) -> B>(f: F) -> spec_fn(A) -> bool {
    |a: A| call_requires(f, (a,))
}

/// The predicate that holds of everything.
pub open spec fn always<A>() -> spec_fn(A) -> bool {
    |a: A| true
}

/// Every value satisfying `p` satisfies `q`.
pub open spec fn pred_within<A>(p: spec_fn(A) -> bool, q: spec_fn(A) -> bool) -> bool {
    forall|a: A| #[trigger] p(a) ==> q(a)
}

/// The arguments that the wrapper `f` accepts.
pub open spec fn accepts_pred<A, B>(f: CFn<A, B>) -> spec_fn(A) -> bool {
    |a: A| f.accepts(a)
}

/// The input/output relation of the wrapper `f`.
pub open spec fn gives_rel<A, B>(f: CFn<A, B>) -> spec_fn(A, B) -> bool {
    |a: A, b: B| f.gives(a, b)
}

/// The input/output relation of the closure `f`.
pub open spec fn graph<A, B, F: Fn(A) -> B>(f: F) -> spec_fn(A, B) -> bool {
    |a: A, b: B| call_ensures(f, (a,), b)
}

/// Relational composition: `c` is related to `a` through some intermediate `b`.
pub open spec fn compose_rel<A, B, C>(p: spec_fn(A, B) -> bool, q: spec_fn(B, C) -> bool) -> spec_fn(A, C) -> bool {
    |a: A, c: C| exists|b: B| #[trigger] p(a, b) && q(b, c)
}

/// The equality relation.
pub open spec fn same_rel<T>() -> spec_fn(T, T) -> bool {
    |x: T, y: T| y == x
}

/// The relation `p` relates each input to at most one output.
pub open spec fn functional<A, B>(p: spec_fn(A, B) -> bool) -> bool {
    forall|a: A, b1: B, b2: B| #![trigger p(a, b1), p(a, b2)] p(a, b1) && p(a, b2) ==> b1 == b2
}

/// Every pair related by `p` is related by `q`.
pub open spec fn rel_within<A, B>(p: spec_fn(A, B) -> bool, q: spec_fn(A, B) -> bool) -> bool {
    forall|a: A, b: B| #[trigger] p(a, b) ==> q(a, b)
}

/// `out` does what `p` does: it accepts every argument `p` accepts and gives only
/// results `p` may give.
pub open spec fn refines<A, B>(p: CFn<A, B>, out: CFn<A, B>) -> bool {
    &&& forall|a: A| p.accepts(a) ==> #[trigger] out.accepts(a)
    &&& forall|a: A, b: B| #[trigger] out.gives(a, b) ==> p.gives(a, b)
}

/// `b` may result from calling `f` on some clone of `a`.
pub open spec fn gives_on_clone<A: Clone, B>(f: CFn<A, B>, a: A, b: B) -> bool {
    exists|a2: A| #[trigger] cloned(a, a2) && f.gives(a2, b)
}

/// `f` may be called on every clone of `a`.
pub open spec fn accepts_clones<A: Clone, B>(f: CFn<A, B>, a: A) -> bool {
    forall|a2: A| #[trigger] cloned(a, a2) ==> f.accepts(a2)
}

/// The wrapper `c` behaves exactly as the closure `f`.
pub open spec fn wraps<A, B, F: Fn(A) -> B>(c: CFn<A, B>, f: F) -> bool {
    &&& forall|a: A| #[trigger] c.accepts(a) == call_requires(f, (a,))
    &&& forall|a: A, b: B| #[trigger] c.gives(a, b) == call_ensures(f, (a,), b)
}

/// A boxed, repeatable function `A -> B`.
#[verifier::reject_recursive_types(A)]
#[verifier::reject_recursive_types(B)]
pub struct CFn<A, B>(pub Box<dyn Callable<A, B>>);

/// A boxed function `A -> B` that is called at most once.
#[verifier::reject_recursive_types(A)]
#[verifier::reject_recursive_types(B)]
pub struct CFnOnce<A, B>(pub Box<dyn CallableOnce<A, B>>);

impl<A, B> CFn<A, B> {
    /// The wrapped function may be called on `a`.
    pub open spec fn accepts(&self, a: A) -> bool {
        self.0.accepts(a)
    }

    /// Calling the wrapped function on `a` may return `b`.
    pub open spec fn gives(&self, a: A, b: B) -> bool {
        self.0.gives(a, b)
    }

    /// Boxes the closure `f`; the result behaves exactly as `f`.
    pub fn new<F>(f: F) -> (r: Self) where F: Fn(A) -> B + 'static
        ensures
            wraps(r, f),
    {
        let r = CFn(Box::new(f));
        assert(forall|a: A| #[trigger] r.accepts(a) == call_requires(f, (a,)));
        assert(forall|a: A, b: B| #[trigger] r.gives(a, b) == call_ensures(f, (a,), b));
        r
    }

    /// Calls the wrapped function; it can be called again afterwards.
    pub fn call(&self, arg: A) -> (b: B)
        requires
            self.accepts(arg),
        ensures
            self.gives(arg, b),
    {
        self.0.call_with(arg)
    }
}

impl<A, B> CFnOnce<A, B> {
    /// The wrapped function may be called on `a`.
    pub open spec fn accepts(&self, a: A) -> bool {
        self.0.accepts(a)
    }

    /// Calling the wrapped function on `a` may return `b`.
    pub open spec fn gives(&self, a: A, b: B) -> bool {
        self.0.gives(a, b)
    }

    /// Boxes the closure `f`; the result behaves exactly as `f`.
    #[verifier::rlimit(50)]
    pub fn new<F>(f: F) -> (r: Self) where F: FnOnce(A) -> B + 'static
        ensures
            forall|a: A| #[trigger] r.accepts(a) == call_requires(f, (a,)),
            forall|a: A, b: B| #[trigger] r.gives(a, b) == call_ensures(f, (a,), b),
    {
        CFnOnce(Box::new(f))
    }

    /// Calls the wrapped function, consuming the wrapper.
    pub fn call_once(self, arg: A) -> (b: B)
        requires
            self.accepts(arg),
        ensures
            self.gives(arg, b),
    {
        self.0.call_boxed(arg)
    }
}

/// A wrapper can be used in place of a reference to the boxed function it holds.
impl<A, B> core::ops::Deref for CFn<A, B> {
    type Target = Box<dyn Callable<A, B>>;

    fn deref(&self) -> (out: &Box<dyn Callable<A, B>>)
        ensures
            *out == self.0,
    {
        &self.0
    }
}

/// A once-callable wrapper can be used in place of a reference to the boxed function
/// it holds.
impl<A, B> core::ops::Deref for CFnOnce<A, B> {
    type Target = Box<dyn CallableOnce<A, B>>;

    fn deref(&self) -> (out: &Box<dyn CallableOnce<A, B>>)
        ensures
            *out == self.0,
    {
        &self.0
    }
}

/// `h` calls `f` and then `g` on its result: it accepts every argument that `f` accepts
/// when `g` accepts every result `f` may give there, and its every result comes from `g`
/// applied to a result of `f`.
pub open spec fn composes<A, B, C>(f: CFn<A, B>, g: CFn<B, C>, h: CFn<A, C>) -> bool {
    &&& forall|a: A| f.accepts(a) && (forall|b: B| #[trigger] f.gives(a, b) ==> g.accepts(b)) ==> #[trigger] h.accepts(a)
    &&& forall|a: A, c: C| #[trigger] h.gives(a, c) ==> exists|b: B| #[trigger] f.gives(a, b) && g.gives(b, c)
}

/// The function `x -> g(f(x))`.
fn compose<A: 'static, B: 'static, C: 'static>(f: CFn<A, B>, g: CFn<B, C>) -> (h: CFn<A, C>)
    ensures
        composes(f, g, h),
{
    let fg: Ghost<CFn<A, B>> = Ghost(f);
    let gg: Ghost<CFn<B, C>> = Ghost(g);
    let composed = move |x: A| -> (c: C)
        requires
            fg@.accepts(x),
            forall|b: B| #[trigger] fg@.gives(x, b) ==> gg@.accepts(b),
        ensures
            exists|b: B| #[trigger] fg@.gives(x, b) && gg@.gives(b, c),
    {
        let b = f.call(x);
        g.call(b)
    };
    CFn::new(composed)
}

/// Forward composition `f >> g`: the function `x -> g(f(x))`.
impl<A: 'static, B: 'static, C: 'static> std::ops::Shr<CFn<B, C>> for CFn<A, B> {
    type Output = CFn<A, C>;

    fn shr(self, rhs: CFn<B, C>) -> (out: CFn<A, C>)
        ensures
            composes(self, rhs, out),
    {
        compose(self, rhs)
    }
}

impl<A: 'static, B: 'static, C: 'static> ShrSpecImpl<CFn<B, C>> for CFn<A, B> {
    open spec fn obeys_shr_spec() -> bool {
        false
    }

    open spec fn shr_req(self, rhs: CFn<B, C>) -> bool {
        true
    }

    open spec fn shr_spec(self, rhs: CFn<B, C>) -> CFn<A, C> {
        choose|h: CFn<A, C>| composes(self, rhs, h)
    }
}

/// Backward composition `g << f`: the function `x -> g(f(x))`.
impl<A: 'static, B: 'static, C: 'static> std::ops::Shl<CFn<A, B>> for CFn<B, C> {
    type Output = CFn<A, C>;

    fn shl(self, rhs: CFn<A, B>) -> (out: CFn<A, C>)
        ensures
            composes(rhs, self, out),
    {
        compose(rhs, self)
    }
}

impl<A: 'static, B: 'static, C: 'static> ShlSpecImpl<CFn<A, B>> for CFn<B, C> {
    open spec fn obeys_shl_spec() -> bool {
        false
    }

    open spec fn shl_req(self, rhs: CFn<A, B>) -> bool {
        true
    }

    open spec fn shl_spec(self, rhs: CFn<A, B>) -> CFn<A, C> {
        choose|h: CFn<A, C>| composes(rhs, self, h)
    }
}

/// `h` calls `f` and then `g` on its result, each at most once (see [`composes`]).
pub open spec fn composes_once<A, B, C>(f: CFnOnce<A, B>, g: CFnOnce<B, C>, h: CFnOnce<A, C>) -> bool {
    &&& forall|a: A| f.accepts(a) && (forall|b: B| #[trigger] f.gives(a, b) ==> g.accepts(b)) ==> #[trigger] h.accepts(a)
    &&& forall|a: A, c: C| #[trigger] h.gives(a, c) ==> exists|b: B| #[trigger] f.gives(a, b) && g.gives(b, c)
}

/// The once-callable function `x -> g(f(x))`.
fn compose_fn_once<A: 'static, B: 'static, C: 'static>(f: CFnOnce<A, B>, g: CFnOnce<B, C>) -> (h: CFnOnce<A, C>)
    ensures
        composes_once(f, g, h),
{
    let fg: Ghost<CFnOnce<A, B>> = Ghost(f);
    let gg: Ghost<CFnOnce<B, C>> = Ghost(g);
    let composed = move |x: A| -> (c: C)
        requires
            fg@.accepts(x),
            forall|b: B| #[trigger] fg@.gives(x, b) ==> gg@.accepts(b),
        ensures
            exists|b: B| #[trigger] fg@.gives(x, b) && gg@.gives(b, c),
    {
        let b = f.call_once(x);
        g.call_once(b)
    };
    CFnOnce::new(composed)
}

/// Forward composition `f >> g` of once-callable functions.
impl<A: 'static, B: 'static, C: 'static> std::ops::Shr<CFnOnce<B, C>> for CFnOnce<A, B> {
    type Output = CFnOnce<A, C>;

    fn shr(self, rhs: CFnOnce<B, C>) -> (out: CFnOnce<A, C>)
        ensures
            composes_once(self, rhs, out),
    {
        compose_fn_once(self, rhs)
    }
}

impl<A: 'static, B: 'static, C: 'static> ShrSpecImpl<CFnOnce<B, C>> for CFnOnce<A, B> {
    open spec fn obeys_shr_spec() -> bool {
        false
    }

    open spec fn shr_req(self, rhs: CFnOnce<B, C>) -> bool {
        true
    }

    open spec fn shr_spec(self, rhs: CFnOnce<B, C>) -> CFnOnce<A, C> {
        choose|h: CFnOnce<A, C>| composes_once(self, rhs, h)
    }
}

/// Backward composition `g << f` of once-callable functions.
impl<A: 'static, B: 'static, C: 'static> std::ops::Shl<CFnOnce<A, B>> for CFnOnce<B, C> {
    type Output = CFnOnce<A, C>;

    fn shl(self, rhs: CFnOnce<A, B>) -> (out: CFnOnce<A, C>)
        ensures
            composes_once(rhs, self, out),
    {
        compose_fn_once(rhs, self)
    }
}

impl<A: 'static, B: 'static, C: 'static> ShlSpecImpl<CFnOnce<A, B>> for CFnOnce<B, C> {
    open spec fn obeys_shl_spec() -> bool {
        false
    }

    open spec fn shl_req(self, rhs: CFnOnce<A, B>) -> bool {
        true
    }

    open spec fn shl_spec(self, rhs: CFnOnce<A, B>) -> CFnOnce<A, C> {
        choose|h: CFnOnce<A, C>| composes_once(rhs, self, h)
    }
}

} // verus!
