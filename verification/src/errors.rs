use vstd::prelude::*;

verus! {

/// Every failure a bit-vector operation can report.
///
/// All validity conditions flow through this enum; no operation panics on
/// bad input.
#[derive(Debug, Clone, Copy, PartialEq, Eq, Structural)]
pub enum Error {
    /// Fewer than two vectors were passed to `concat`.
    InsufficientConcatOperands,
    /// The target width of an extension is smaller than the current width:
    /// `(current, requested)`.
    InsufficientWidthForExtension(usize, usize),
    /// A truncation index or upper bound is at or past the vector's width:
    /// `(width, index)`.
    IndexOutOfWidth(usize, usize),
    /// A range truncation was asked for with `upper < lower`:
    /// `(upper, lower)`.
    UpperBelowLower(usize, usize),
    /// A narrowing cast was asked of a vector wider than the target type:
    /// `(target_bits, width)`.
    ValueTooWideForCast(usize, usize),
    /// A construction width cannot hold the value: `(required, requested)`.
    WidthTooSmallForValue(usize, usize),
}

} // verus!
