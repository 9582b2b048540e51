//! What the operations promise, over their inputs and results: each law takes
//! the results of calls and says how they relate to what went in, or to each
//! other.

pub mod answers;
pub mod backends;
pub mod configs;
pub mod logs;
pub mod metrics;
pub mod texts;
