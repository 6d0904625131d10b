use vstd::prelude::*;
use crate::error::ConfigError;
use crate::grid::{admissible, as_ints, grid_fault, product, BinGrid};

verus! {

/// What a dataset declares about its own size, and the lengths of the
/// sequences it actually holds.
///
/// The sequences themselves hold measured values and stay with the caller;
/// the rules below only need to know how long each of them is.
#[derive(Debug)]
pub struct DatasetExtents {
    /// The declared number of coordinate dimensions.
    pub dimens: usize,
    /// The declared total number of bins.
    pub num_bins: usize,
    /// The number of bins along each dimension.
    pub num_bins_per_dim: Vec<usize>,
    /// The length of the per-dimension sequence of bin widths.
    pub bin_width_len: usize,
    /// The length of the per-dimension sequence of lower bounds.
    pub hist_min_len: usize,
    /// The length of the per-dimension sequence of upper bounds.
    pub hist_max_len: usize,
    /// The length of the per-window sequence of force constants.
    pub force_constant_len: usize,
    /// The length of the per-window sequence of bias centers.
    pub center_len: usize,
    /// For each window, the number of bin counts its histogram holds.
    pub histogram_lens: Vec<usize>,
}

impl DatasetExtents {
    /// The per-dimension bin counts as mathematical integers.
    pub open spec fn dims(&self) -> Seq<int> {
        as_ints(self.num_bins_per_dim@)
    }

    /// The number of windows: one per histogram.
    pub open spec fn windows(&self) -> int {
        self.histogram_lens@.len() as int
    }

    /// Every per-dimension sequence has one entry per dimension.
    pub open spec fn dimensions_agree(&self) -> bool {
        &&& self.dimens == self.dims().len()
        &&& self.bin_width_len == self.dimens
        &&& self.hist_min_len == self.dimens
        &&& self.hist_max_len == self.dimens
    }

    /// Every per-window sequence has one entry per window.
    pub open spec fn windows_agree(&self) -> bool {
        &&& self.force_constant_len == self.windows()
        &&& self.center_len == self.windows()
    }

    /// Every histogram has one count per bin.
    pub open spec fn histograms_agree(&self) -> bool {
        forall|w: int| 0 <= w < self.windows() ==> self.histogram_lens@[w] == self.num_bins
    }

    /// The dataset can be handed to the solver: its grid is admissible, its
    /// sequences agree with each other, and its thermal energy is positive.
    pub open spec fn consistent(&self, thermal_energy_positive: bool) -> bool {
        &&& admissible(self.dims())
        &&& self.dimensions_agree()
        &&& self.num_bins == product(self.dims())
        &&& self.windows_agree()
        &&& self.histograms_agree()
        &&& thermal_energy_positive
    }

    /// `fault` is the first rule the dataset breaks. The rules are examined in
    /// this order: the grid itself, the per-dimension lengths, the declared
    /// total, the per-window lengths, the histogram lengths from the first
    /// window on, and the sign of the thermal energy.
    pub open spec fn first_fault(&self, thermal_energy_positive: bool, fault: ConfigError) -> bool {
        match fault {
            ConfigError::NoDimensions | ConfigError::ZeroBins { .. } | ConfigError::TooManyBins => {
                grid_fault(self.dims(), fault)
            },
            ConfigError::DimensionLengthMismatch => {
                &&& admissible(self.dims())
                &&& !self.dimensions_agree()
            },
            ConfigError::BinCountMismatch => {
                &&& admissible(self.dims())
                &&& self.dimensions_agree()
                &&& self.num_bins != product(self.dims())
            },
            ConfigError::WindowLengthMismatch => {
                &&& admissible(self.dims())
                &&& self.dimensions_agree()
                &&& self.num_bins == product(self.dims())
                &&& !self.windows_agree()
            },
            ConfigError::HistogramLengthMismatch { window } => {
                &&& admissible(self.dims())
                &&& self.dimensions_agree()
                &&& self.num_bins == product(self.dims())
                &&& self.windows_agree()
                &&& window < self.windows()
                &&& self.histogram_lens@[window as int] != self.num_bins
                &&& forall|w: int| 0 <= w < window ==> self.histogram_lens@[w] == self.num_bins
            },
            ConfigError::NonPositiveThermalEnergy => {
                &&& admissible(self.dims())
                &&& self.dimensions_agree()
                &&& self.num_bins == product(self.dims())
                &&& self.windows_agree()
                &&& self.histograms_agree()
                &&& !thermal_energy_positive
            },
        }
    }
}

/// The size of a dataset that passed every consistency rule: its grid of bins
/// and its number of windows.
#[derive(Debug)]
pub struct DatasetShape {
    grid: BinGrid,
    num_windows: usize,
}

impl DatasetShape {
    /// The bin count of each dimension.
    pub closed spec fn dims(&self) -> Seq<int> {
        self.grid@
    }

    /// The number of windows.
    pub closed spec fn windows(&self) -> int {
        self.num_windows as int
    }

    /// Examines a dataset before the first iteration. `thermal_energy_positive`
    /// says whether `kT > 0` holds of the dataset's thermal energy.
    ///
    /// Succeeds exactly on a consistent dataset; otherwise names the first
    /// rule that is broken.
    pub fn check(extents: &DatasetExtents, thermal_energy_positive: bool) -> (r: Result<
        DatasetShape,
        ConfigError,
    >)
        ensures
            r is Ok <==> extents.consistent(thermal_energy_positive),
            r matches Ok(shape) ==> shape.dims() == extents.dims() && shape.windows()
                == extents.windows(),
            r matches Err(fault) ==> extents.first_fault(thermal_energy_positive, fault),
    {
        let grid = match BinGrid::new(extents.num_bins_per_dim.clone()) {
            Ok(grid) => grid,
            Err(fault) => {
                return Err(fault);
            },
        };
        let dimens: usize = grid.dimens();
        if extents.dimens != dimens || extents.bin_width_len != dimens || extents.hist_min_len
            != dimens || extents.hist_max_len != dimens {
            return Err(ConfigError::DimensionLengthMismatch);
        }
        if extents.num_bins != grid.num_bins() {
            return Err(ConfigError::BinCountMismatch);
        }
        let num_windows: usize = extents.histogram_lens.len();
        if extents.force_constant_len != num_windows || extents.center_len != num_windows {
            return Err(ConfigError::WindowLengthMismatch);
        }
        let mut w: usize = 0;
        while w < num_windows
            invariant
                num_windows == extents.histogram_lens@.len(),
                admissible(extents.dims()),
                extents.dimensions_agree(),
                extents.num_bins == product(extents.dims()),
                extents.windows_agree(),
                w <= num_windows,
                forall|k: int| 0 <= k < w ==> extents.histogram_lens@[k] == extents.num_bins,
            decreases num_windows - w,
        {
            if extents.histogram_lens[w] != extents.num_bins {
                return Err(ConfigError::HistogramLengthMismatch { window: w });
            }
            w += 1;
        }
        if !thermal_energy_positive {
            return Err(ConfigError::NonPositiveThermalEnergy);
        }
        Ok(DatasetShape { grid, num_windows })
    }

    /// The grid of bins.
    pub fn grid(&self) -> (r: &BinGrid)
        ensures
            r@ == self.dims(),
    {
        &self.grid
    }

    /// The total number of bins: the length of a probability estimate.
    pub fn num_bins(&self) -> (r: usize)
        ensures
            r == product(self.dims()),
            r >= 1,
    {
        self.grid.num_bins()
    }

    /// The number of windows: the length of a bias-offset estimate.
    pub fn num_windows(&self) -> (r: usize)
        ensures
            r == self.windows(),
    {
        self.num_windows
    }
}

/// Of a dataset that is not consistent, exactly one fault is the first.
pub proof fn lemma_first_fault_unique(
    extents: DatasetExtents,
    thermal_energy_positive: bool,
    a: ConfigError,
    b: ConfigError,
)
    requires
        extents.first_fault(thermal_energy_positive, a),
        extents.first_fault(thermal_energy_positive, b),
    ensures
        a == b,
        !extents.consistent(thermal_energy_positive),
{
    match a {
        ConfigError::ZeroBins { dim } => {
            assert(extents.dims()[dim as int] <= 0);
        },
        ConfigError::HistogramLengthMismatch { window } => {
            assert(extents.histogram_lens@[window as int] != extents.num_bins);
        },
        _ => {},
    }
    match b {
        ConfigError::ZeroBins { dim } => {
            assert(extents.dims()[dim as int] <= 0);
        },
        ConfigError::HistogramLengthMismatch { window } => {
            assert(extents.histogram_lens@[window as int] != extents.num_bins);
        },
        _ => {},
    }
}

} // verus!
