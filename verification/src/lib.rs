//! Attention over masks and over a key/value memory.
//!
//! * [`mask`]: attention over a mask that is given as a stream of index pairs in any order,
//!   folded into one accumulator ([`accum`]) per query, sequentially or in parallel.
//! * [`memory`] and [`query`]: a key/value memory with owner-enforced deletes, an append-only
//!   audit log, exact reads and attention queries. [`snapshot`] and [`audit_text`] turn it
//!   into columns and lines, and back.
//!
//! The scalars are the caller's ([`arith`]): a contract says which operations are applied to
//! which scalars in which order, so that it holds of floating-point numbers to the last bit.
//! What the folds compute apart from rounding is said by the laws, which hold of every
//! arithmetic that is exact on its finite scalars ([`exact`]); [`witness`] is one.
//!
//! [`model`] and [`records`] hold the mathematical side of the contracts. [`formulas`] writes
//! out, in the caller's operations, what scores, folds and queries are. The modules whose
//! names end in `laws`, and [`closed_form`], state what holds across several calls.
//! [`outside`] holds what is believed of the hash map and the clock.
pub mod accum;
pub mod arith;
pub mod audit_text;
pub mod closed_form;
pub mod error;
pub mod exact;
pub mod formulas;
pub mod generator_laws;
pub mod mask;
pub mod mask_laws;
pub mod matrix;
pub mod memory;
pub mod memory_laws;
pub mod model;
pub mod outside;
pub mod query;
pub mod query_laws;
pub mod records;
pub mod similarity_laws;
pub mod snapshot;
pub mod snapshot_laws;
pub mod witness;
