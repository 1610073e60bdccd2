//! A fine-grained reactive value cache ("memo").
//!
//! A memo exposes a derived value that is recomputed only when its tracked
//! source actually changes, caches the last value, and suppresses downstream
//! notification when a newly computed value equals the previous one.  Memos
//! live inside a [`scope::Scope`], which owns the equality-checked cells, the
//! derived computations, and the run-counting observers that stand for
//! downstream reactive work.

pub mod derivation;
pub mod laws;
pub mod memo;
pub mod model;
pub mod scope;
pub mod value;

pub use derivation::Derivation;
pub use memo::{create_memo, create_memo_snapshot, Memo};
pub use scope::{Observer, Scope, Signal};
pub use value::CellValue;
