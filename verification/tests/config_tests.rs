use nougat::config::{
    validate_config, ClumpChecks, ClumpProperty, ConfigError, GridConfig, Problem, Section,
};

fn all_ok() -> ClumpChecks {
    ClumpChecks { radius: Ok(()), density: Ok(()), opacity: Ok(()) }
}

fn grid() -> GridConfig {
    GridConfig { nx: 4, ny: 4, nz: 2 }
}

#[test]
fn grid_with_cells_on_every_axis_is_valid() {
    assert_eq!(grid().validate(), Ok(()));
    assert_eq!(GridConfig { nx: 1, ny: 1, nz: 1 }.validate(), Ok(()));
}

#[test]
fn grid_with_an_empty_axis_is_rejected() {
    assert_eq!(GridConfig { nx: 0, ny: 4, nz: 2 }.validate(), Err(Problem::GridDimensions));
    assert_eq!(GridConfig { nx: 4, ny: 0, nz: 2 }.validate(), Err(Problem::GridDimensions));
    assert_eq!(GridConfig { nx: 4, ny: 4, nz: 0 }.validate(), Err(Problem::GridDimensions));
}

#[test]
fn valid_sections_give_a_valid_config() {
    assert_eq!(validate_config(all_ok(), Ok(()), Ok(()), &grid()), Ok(()));
}

#[test]
fn clump_radius_is_checked_first() {
    let clump = ClumpChecks {
        radius: Err(Problem::UniformBounds),
        density: Err(Problem::NormalStdev),
        opacity: Ok(()),
    };
    let bad_grid = GridConfig { nx: 0, ny: 0, nz: 0 };
    assert_eq!(
        validate_config(clump, Err(Problem::AsymmetryRange), Err(Problem::SlabDimensions), &bad_grid),
        Err(ConfigError {
            section: Section::Clump,
            property: Some(ClumpProperty::Radius),
            problem: Problem::UniformBounds,
        })
    );
}

#[test]
fn clump_density_and_opacity_are_reported() {
    let clump = ClumpChecks { radius: Ok(()), density: Err(Problem::NormalStdev), opacity: Err(Problem::PowerLawBounds) };
    assert_eq!(
        validate_config(clump, Ok(()), Ok(()), &grid()),
        Err(ConfigError { section: Section::Clump, property: Some(ClumpProperty::Density), problem: Problem::NormalStdev })
    );
    let clump = ClumpChecks { radius: Ok(()), density: Ok(()), opacity: Err(Problem::PowerLawBounds) };
    assert_eq!(
        clump.validate(),
        Err(ConfigError { section: Section::Clump, property: Some(ClumpProperty::Opacity), problem: Problem::PowerLawBounds })
    );
    assert_eq!(all_ok().validate(), Ok(()));
}

#[test]
fn photon_slab_and_grid_follow_in_order() {
    assert_eq!(
        validate_config(all_ok(), Err(Problem::AsymmetryRange), Err(Problem::SlabDimensions), &grid()),
        Err(ConfigError { section: Section::Photon, property: None, problem: Problem::AsymmetryRange })
    );
    assert_eq!(
        validate_config(all_ok(), Ok(()), Err(Problem::SlabDimensions), &GridConfig { nx: 0, ny: 1, nz: 1 }),
        Err(ConfigError { section: Section::Slab, property: None, problem: Problem::SlabDimensions })
    );
    assert_eq!(
        validate_config(all_ok(), Ok(()), Ok(()), &GridConfig { nx: 3, ny: 1, nz: 0 }),
        Err(ConfigError { section: Section::Grid, property: None, problem: Problem::GridDimensions })
    );
}

#[test]
fn problems_report_their_text() {
    assert_eq!(Problem::UniformBounds.message(), "Uniform distribution requires min < max");
    assert_eq!(Problem::NormalStdev.message(), "Normal distribution requires stdev > 0");
    assert_eq!(Problem::PowerLawBounds.message(), "Power law requires min < max");
    assert_eq!(
        Problem::AsymmetryRange.message(),
        "HG asymmetry parameter g should be in range [-1.0, 1.0]"
    );
    assert_eq!(Problem::SlabDimensions.message(), "Slab dimensions must be positive");
    assert_eq!(Problem::GridDimensions.message(), "Grid dimensions must be nonzero");
}

#[test]
fn sections_and_properties_report_their_context() {
    assert_eq!(Section::Clump.context(), "Invalid clump configuration");
    assert_eq!(Section::Photon.context(), "Invalid photon configuration");
    assert_eq!(Section::Slab.context(), "Invalid slab configuration");
    assert_eq!(Section::Grid.context(), "Invalid grid configuration");
    assert_eq!(ClumpProperty::Radius.context(), "Invalid clump radius");
    assert_eq!(ClumpProperty::Density.context(), "Invalid clump density");
    assert_eq!(ClumpProperty::Opacity.context(), "Invalid clump opacity");
}
