//! A fixed-size worker pool's job queue, with its shutdown protocol proved, and
//! a few small text and arithmetic utilities: line search, a quota tracker,
//! a bounded counter.
pub mod arith;
pub mod counter;
pub mod minigrep;
pub mod pool;
pub mod quota;
pub mod shapes;
pub mod shoes;

pub use arith::{add_one, add_two};
pub use minigrep::{search, search_case_insensitive, Config};
pub use pool::{JobQueue, Message, PoolError};
pub use quota::{LimitTracker, Messenger};
