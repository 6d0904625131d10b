use vstd::prelude::*;

verus! {

/// Why a dataset description is turned down before any iteration runs.
#[derive(Clone, Copy, Debug, PartialEq, Eq, Structural)]
pub enum ConfigError {
    /// The coordinate space has no dimension at all.
    NoDimensions,
    /// Dimension `dim` has zero bins; `dim` is the first such dimension.
    ZeroBins { dim: usize },
    /// The total number of bins does not fit the machine's index type.
    TooManyBins,
    /// The declared number of dimensions, or the length of a per-dimension
    /// sequence, differs from the number of per-dimension bin counts.
    DimensionLengthMismatch,
    /// The declared total number of bins is not the product of the
    /// per-dimension bin counts.
    BinCountMismatch,
    /// The per-window sequences do not all have the same length.
    WindowLengthMismatch,
    /// The histogram of window `window` does not have one count per bin;
    /// `window` is the first such window.
    HistogramLengthMismatch { window: usize },
    /// The thermal energy `kT` is not strictly positive.
    NonPositiveThermalEnergy,
}

} // verus!
