//! A small N-dimensional numeric array engine: arrays built from nested
//! literals, reshaping, row-major indexing, elementwise arithmetic,
//! comparison and integer ranges.
//!
//! Floating-point elements are carried as IEEE-754 binary64 bit patterns
//! (`FloatBits`); operations that need floating-point arithmetic take it from
//! the caller as a function on bit patterns.

mod arith;
mod array;
mod buffer;
mod generate;
mod index;
mod literal;
mod number;
mod shape;

pub use arith::{
    elementwise_outcome, float_results, has_zero_divisor, int_apply, int_zip, lemma_add_then_sub,
    min_len, trunc_quotient, ArithOp,
};
pub use array::{elements_equal, Array, ArrayError};
pub use buffer::{Elements, NumericalArray};
pub use generate::{arange, arange_bounds, is_range};
pub use index::{
    clamped, flat_offset, offset_from, suffix_product, ArrayIndexInput, ArrayIndexOutput,
};
pub use literal::{
    children, leaf_elements, leaves, lemma_extract_counts, level, next_level, profile, same_kind,
    well_formed, Literal,
};
pub use number::{FloatBits, Number};
pub use shape::{chain_divides, product};
