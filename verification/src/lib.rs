//! Functional programming constructs (functors, applicatives, monads, profunctors
//! and a reader transformer) over type-constructor markers, with verified contracts.

pub mod applicative;
pub mod apply;
pub mod function;
pub mod functor;
pub mod identity;
pub mod kind_based;
pub mod laws;
pub mod legacy;
pub mod monad;
pub mod profunctor;
pub mod transformers;

pub use function::{CFn, CFnOnce};
pub use identity::{Identity, IdentityKind};
pub use kind_based::kind::{CFnKind, CFnOnceKind, Kind, Kind1, OptionKind, ResultKind, VecKind};
pub use profunctor::{Choice, Profunctor, Strong};
pub use transformers::reader::{MonadReader, Reader, ReaderT, ReaderTHKTMarker};

pub use legacy::applicative::Applicative;
pub use legacy::apply::Apply;
pub use legacy::functor::Functor;
pub use legacy::monad::{Bind, Monad};
