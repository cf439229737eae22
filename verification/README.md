# fp_rs

Functional programming constructs — functors, applicatives, monads, profunctors,
lenses and a reader monad transformer — written in Rust and verified with Verus.

Every function is described relationally: a wrapped function `CFn<A, B>` has the
predicates `accepts(a)` (it may be called on `a`) and `gives(a, b)` (calling it on
`a` may return `b`), and each operation states how the predicates of its result
follow from those of its arguments. The classic laws (identity, composition,
homomorphism, interchange, associativity, and the profunctor, strong and choice
laws) are stated over these contracts and proved.

A closure handed to `map`, `bind`, `lift2` or `local` need only accept the values it
is actually called on: for a container, the values it holds; for a function or a
reader, the values computed when the result is run, which is where the condition
appears (in what the result accepts).

## Layout

- `src/function.rs` — `CFn`, `CFnOnce`, composition with `>>` and `<<`.
- `src/kind_based/` — type-constructor markers (`OptionKind`, `VecKind`,
  `ResultKind<E>`, `CFnKind<X>`, `CFnOnceKind<X>`).
- `src/functor.rs`, `src/apply.rs`, `src/applicative.rs`, `src/monad.rs`,
  `src/identity.rs` — the marker-based abstractions and their instances.
- `src/transformers/reader.rs` — `ReaderT` and `MonadReader`.
- `src/profunctor.rs` — `Profunctor`, `Strong`, `Choice`, `Forget`, lenses and `view`.
- `src/legacy/` — the same abstractions implemented directly on the containers
  (`Option<A>`, `Result<A, E>`, `Vec<A>`, ...), re-exported at the crate root.
- `src/laws/` — the laws, as proof functions.
- `tests/` — executable tests.
