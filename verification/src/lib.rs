//! Instrumented search algorithms over sorted sequences of unsigned
//! integers, together with a benchmark harness that measures how many
//! value comparisons each algorithm performs.

pub mod harness;
pub mod search;
