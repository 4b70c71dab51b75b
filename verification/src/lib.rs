//! Sequence adapters in the spirit of Ruby's `Enumerable`: overlapping
//! fixed-size windows of consecutive elements (`each_cons`), and maximal
//! runs of consecutive equal elements (`cons_group`).
//!
//! Both adapters are lazy, pull-based producers: each call to `next` hands
//! back one window or one run, or signals exhaustion. Every operation
//! carries a contract that pins down exactly which windows and runs come
//! out, and in which order.

pub mod groups;
pub mod windows;

pub use groups::ConsGroup;
pub use groups::ConsGroupExt;

pub use windows::Cons;
pub use windows::EachConsExt;
pub use windows::InvalidSize;
pub use windows::Producer;
pub use windows::SliceSource;
pub use windows::each_cons;
