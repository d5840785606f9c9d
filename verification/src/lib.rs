//! A hash-consing library: every distinct value is stored at most once, and
//! interning a value returns a shared handle to its unique stored instance.
//!
//! The interning table keeps one entry per distinct value together with a
//! reference count of the handles that have been granted for it.  Because
//! the verifier cannot observe implicit destructor runs, the handle
//! lifecycle is explicit here: a handle is returned to its table with
//! `release`, and a handle is duplicated through `clone_handle`, so that the
//! table's counts always reflect the operations performed on it.

pub mod handle;
pub mod laws;
pub mod model;
pub mod single_threaded;
pub mod store;
pub mod thread_safe;
pub mod value;

pub use handle::Hc;
pub use single_threaded::HCTable;
pub use thread_safe::HcTable;
pub use value::BoolExpr;
pub use value::BoolExprHC;
pub use value::HcValue;
