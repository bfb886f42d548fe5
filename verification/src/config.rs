//! Validation of the simulation parameters.

use vstd::prelude::*;

verus! {

/// Number of voxels along each axis of the grid laid over the slab.
#[derive(Clone, Copy, Debug, PartialEq, Eq, Structural)]
pub struct GridConfig {
    pub nx: usize,
    pub ny: usize,
    pub nz: usize,
}

/// A single parameter check that failed.
#[derive(Clone, Copy, Debug, PartialEq, Eq, Structural)]
pub enum Problem {
    /// A uniform distribution whose `min` is not below its `max`.
    UniformBounds,
    /// A normal distribution whose standard deviation is not positive.
    NormalStdev,
    /// A power law whose `min` is not below its `max`.
    PowerLawBounds,
    /// A Henyey-Greenstein asymmetry factor outside `[-1, 1]`.
    AsymmetryRange,
    /// A slab width, height or edge margin that is not positive.
    SlabDimensions,
    /// A voxel grid with no cells along some axis.
    GridDimensions,
}

/// A grid is usable exactly when no axis has zero cells; its dimensions need not be equal.
pub proof fn lemma_grid_validity(grid: GridConfig)
    ensures
        grid.is_valid() <==> (grid.nx != 0 && grid.ny != 0 && grid.nz != 0),
{
}

impl GridConfig {
    /// A grid is usable when it has at least one cell along each axis.
    pub open spec fn is_valid(&self) -> bool {
        self.nx != 0 && self.ny != 0 && self.nz != 0
    }

    /// Validates the grid values specified in the config.
    pub fn validate(&self) -> (res: Result<(), Problem>)
        ensures
            res is Ok <==> self.is_valid(),
            res is Ok <==> (self.nx != 0 && self.ny != 0 && self.nz != 0),
            res is Err ==> res == Err::<(), Problem>(Problem::GridDimensions),
    {
        if self.nx == 0 || self.ny == 0 || self.nz == 0 {
            return Err(Problem::GridDimensions);
        }
        Ok(())
    }
}

impl Problem {
    /// The text that reports the problem.
    pub open spec fn text(self) -> Seq<char> {
        match self {
            Problem::UniformBounds => "Uniform distribution requires min < max"@,
            Problem::NormalStdev => "Normal distribution requires stdev > 0"@,
            Problem::PowerLawBounds => "Power law requires min < max"@,
            Problem::AsymmetryRange => "HG asymmetry parameter g should be in range [-1.0, 1.0]"@,
            Problem::SlabDimensions => "Slab dimensions must be positive"@,
            Problem::GridDimensions => "Grid dimensions must be nonzero"@,
        }
    }

    /// Returns the text that reports the problem.
    pub fn message(&self) -> (msg: &'static str)
        ensures
            msg@ == self.text(),
    {
        match self {
            Problem::UniformBounds => "Uniform distribution requires min < max",
            Problem::NormalStdev => "Normal distribution requires stdev > 0",
            Problem::PowerLawBounds => "Power law requires min < max",
            Problem::AsymmetryRange => "HG asymmetry parameter g should be in range [-1.0, 1.0]",
            Problem::SlabDimensions => "Slab dimensions must be positive",
            Problem::GridDimensions => "Grid dimensions must be nonzero",
        }
    }
}

/// The part of the configuration that a failed check belongs to.
#[derive(Clone, Copy, Debug, PartialEq, Eq, Structural)]
pub enum Section {
    Clump,
    Photon,
    Slab,
    Grid,
}

impl Section {
    /// The context in which a problem of this section is reported.
    pub open spec fn text(self) -> Seq<char> {
        match self {
            Section::Clump => "Invalid clump configuration"@,
            Section::Photon => "Invalid photon configuration"@,
            Section::Slab => "Invalid slab configuration"@,
            Section::Grid => "Invalid grid configuration"@,
        }
    }

    /// Returns the context in which a problem of this section is reported.
    pub fn context(&self) -> (msg: &'static str)
        ensures
            msg@ == self.text(),
    {
        match self {
            Section::Clump => "Invalid clump configuration",
            Section::Photon => "Invalid photon configuration",
            Section::Slab => "Invalid slab configuration",
            Section::Grid => "Invalid grid configuration",
        }
    }
}

/// The clump property whose distribution failed a check.
#[derive(Clone, Copy, Debug, PartialEq, Eq, Structural)]
pub enum ClumpProperty {
    Radius,
    Density,
    Opacity,
}

impl ClumpProperty {
    /// The context in which a problem of this property's distribution is reported.
    pub open spec fn text(self) -> Seq<char> {
        match self {
            ClumpProperty::Radius => "Invalid clump radius"@,
            ClumpProperty::Density => "Invalid clump density"@,
            ClumpProperty::Opacity => "Invalid clump opacity"@,
        }
    }

    /// Returns the context in which a problem of this property's distribution is reported.
    pub fn context(&self) -> (msg: &'static str)
        ensures
            msg@ == self.text(),
    {
        match self {
            ClumpProperty::Radius => "Invalid clump radius",
            ClumpProperty::Density => "Invalid clump density",
            ClumpProperty::Opacity => "Invalid clump opacity",
        }
    }
}

/// A configuration check that failed, with the section (and, for clumps, the property) it
/// belongs to.
#[derive(Clone, Copy, Debug, PartialEq, Eq, Structural)]
pub struct ConfigError {
    pub section: Section,
    pub property: Option<ClumpProperty>,
    pub problem: Problem,
}

/// Outcomes of the checks of the three clump distributions.
#[derive(Clone, Copy, Debug, PartialEq, Eq)]
pub struct ClumpChecks {
    pub radius: Result<(), Problem>,
    pub density: Result<(), Problem>,
    pub opacity: Result<(), Problem>,
}

/// The first failed check among the clump distributions, in the order radius, density, opacity.
pub open spec fn first_clump_error(clump: ClumpChecks) -> Option<ConfigError> {
    if let Err(p) = clump.radius {
        Some(ConfigError { section: Section::Clump, property: Some(ClumpProperty::Radius), problem: p })
    } else if let Err(p) = clump.density {
        Some(ConfigError { section: Section::Clump, property: Some(ClumpProperty::Density), problem: p })
    } else if let Err(p) = clump.opacity {
        Some(ConfigError { section: Section::Clump, property: Some(ClumpProperty::Opacity), problem: p })
    } else {
        None
    }
}

/// The first failed check, in the order clump distributions, photon, slab and grid, or `None`
/// when all pass.
pub open spec fn first_config_error(
    clump: ClumpChecks,
    photon: Result<(), Problem>,
    slab: Result<(), Problem>,
    grid: GridConfig,
) -> Option<ConfigError> {
    if first_clump_error(clump) is Some {
        first_clump_error(clump)
    } else if let Err(p) = photon {
        Some(ConfigError { section: Section::Photon, property: None, problem: p })
    } else if let Err(p) = slab {
        Some(ConfigError { section: Section::Slab, property: None, problem: p })
    } else if !grid.is_valid() {
        Some(ConfigError { section: Section::Grid, property: None, problem: Problem::GridDimensions })
    } else {
        None
    }
}

/// `Ok` when no error is given, else that error.
pub open spec fn outcome(e: Option<ConfigError>) -> Result<(), ConfigError> {
    match e {
        Some(e) => Err(e),
        None => Ok(()),
    }
}

impl ClumpChecks {
    /// The first failed check among the clump distributions.
    pub fn validate(&self) -> (res: Result<(), ConfigError>)
        ensures
            res == outcome(first_clump_error(*self)),
            res is Ok <==> (self.radius is Ok && self.density is Ok && self.opacity is Ok),
            self.radius matches Err(p) ==> res == Err::<(), ConfigError>(
                ConfigError { section: Section::Clump, property: Some(ClumpProperty::Radius), problem: p },
            ),
            self.radius is Ok ==> (self.density matches Err(p) ==> res == Err::<(), ConfigError>(
                ConfigError { section: Section::Clump, property: Some(ClumpProperty::Density), problem: p },
            )),
            self.radius is Ok && self.density is Ok ==> (self.opacity matches Err(p) ==> res == Err::<
                (),
                ConfigError,
            >(ConfigError { section: Section::Clump, property: Some(ClumpProperty::Opacity), problem: p })),
    {
        if let Err(p) = self.radius {
            return Err(ConfigError { section: Section::Clump, property: Some(ClumpProperty::Radius), problem: p });
        }
        if let Err(p) = self.density {
            return Err(ConfigError { section: Section::Clump, property: Some(ClumpProperty::Density), problem: p });
        }
        if let Err(p) = self.opacity {
            return Err(ConfigError { section: Section::Clump, property: Some(ClumpProperty::Opacity), problem: p });
        }
        Ok(())
    }
}

/// The reported error is the first failed check, in the order clump radius, density, opacity,
/// photon, slab and grid; the configuration is valid exactly when every check passes.
pub proof fn lemma_config_error_order(
    clump: ClumpChecks,
    photon: Result<(), Problem>,
    slab: Result<(), Problem>,
    grid: GridConfig,
)
    ensures
        outcome(first_config_error(clump, photon, slab, grid)) is Ok <==> (clump.radius is Ok
            && clump.density is Ok && clump.opacity is Ok && photon is Ok && slab is Ok && grid.nx != 0
            && grid.ny != 0 && grid.nz != 0),
        clump.radius matches Err(p) ==> outcome(first_config_error(clump, photon, slab, grid)) == Err::<
            (),
            ConfigError,
        >(ConfigError { section: Section::Clump, property: Some(ClumpProperty::Radius), problem: p }),
        clump.radius is Ok ==> (clump.density matches Err(p) ==> outcome(
            first_config_error(clump, photon, slab, grid),
        ) == Err::<(), ConfigError>(
            ConfigError { section: Section::Clump, property: Some(ClumpProperty::Density), problem: p },
        )),
        clump.radius is Ok && clump.density is Ok ==> (clump.opacity matches Err(p) ==> outcome(
            first_config_error(clump, photon, slab, grid),
        ) == Err::<(), ConfigError>(
            ConfigError { section: Section::Clump, property: Some(ClumpProperty::Opacity), problem: p },
        )),
        clump.radius is Ok && clump.density is Ok && clump.opacity is Ok ==> (photon matches Err(p)
            ==> outcome(first_config_error(clump, photon, slab, grid)) == Err::<(), ConfigError>(
            ConfigError { section: Section::Photon, property: None, problem: p },
        )),
        clump.radius is Ok && clump.density is Ok && clump.opacity is Ok && photon is Ok ==> (
        slab matches Err(p) ==> outcome(first_config_error(clump, photon, slab, grid)) == Err::<
            (),
            ConfigError,
        >(ConfigError { section: Section::Slab, property: None, problem: p })),
        clump.radius is Ok && clump.density is Ok && clump.opacity is Ok && photon is Ok && slab is Ok
            && (grid.nx == 0 || grid.ny == 0 || grid.nz == 0) ==> outcome(
            first_config_error(clump, photon, slab, grid),
        ) == Err::<(), ConfigError>(
            ConfigError { section: Section::Grid, property: None, problem: Problem::GridDimensions },
        ),
{
}

/// Validates a whole configuration from the outcomes of the checks of its sections: it is valid
/// when every check passes, and otherwise the first failure is reported.
pub fn validate_config(
    clump: ClumpChecks,
    photon: Result<(), Problem>,
    slab: Result<(), Problem>,
    grid: &GridConfig,
) -> (res: Result<(), ConfigError>)
    ensures
        res == outcome(first_config_error(clump, photon, slab, *grid)),
        res is Ok <==> (clump.radius is Ok && clump.density is Ok && clump.opacity is Ok
            && photon is Ok && slab is Ok && grid.is_valid()),
        res is Ok <==> (clump.radius is Ok && clump.density is Ok && clump.opacity is Ok
            && photon is Ok && slab is Ok && grid.nx != 0 && grid.ny != 0 && grid.nz != 0),
        clump.radius matches Err(p) ==> res == Err::<(), ConfigError>(
            ConfigError { section: Section::Clump, property: Some(ClumpProperty::Radius), problem: p },
        ),
        clump.radius is Ok ==> (clump.density matches Err(p) ==> res == Err::<(), ConfigError>(
            ConfigError { section: Section::Clump, property: Some(ClumpProperty::Density), problem: p },
        )),
        clump.radius is Ok && clump.density is Ok ==> (clump.opacity matches Err(p) ==> res == Err::<
            (),
            ConfigError,
        >(ConfigError { section: Section::Clump, property: Some(ClumpProperty::Opacity), problem: p })),
        clump.radius is Ok && clump.density is Ok && clump.opacity is Ok ==> (photon matches Err(p)
            ==> res == Err::<(), ConfigError>(
            ConfigError { section: Section::Photon, property: None, problem: p },
        )),
        clump.radius is Ok && clump.density is Ok && clump.opacity is Ok && photon is Ok ==> (
        slab matches Err(p) ==> res == Err::<(), ConfigError>(
            ConfigError { section: Section::Slab, property: None, problem: p },
        )),
        clump.radius is Ok && clump.density is Ok && clump.opacity is Ok && photon is Ok && slab is Ok && (
        grid.nx == 0 || grid.ny == 0 || grid.nz == 0) ==> res == Err::<(), ConfigError>(
            ConfigError { section: Section::Grid, property: None, problem: Problem::GridDimensions },
        ),
{
    let clump_res = clump.validate();
    if clump_res.is_err() {
        return clump_res;
    }
    if let Err(p) = photon {
        return Err(ConfigError { section: Section::Photon, property: None, problem: p });
    }
    if let Err(p) = slab {
        return Err(ConfigError { section: Section::Slab, property: None, problem: p });
    }
    if let Err(p) = grid.validate() {
        return Err(ConfigError { section: Section::Grid, property: None, problem: p });
    }
    Ok(())
}

} // verus!
