# nougat

Monte Carlo radiative transfer through a plane-parallel slab populated by discrete, spherical
clumps (Townsend 2007).

- `src/` is the verified library: the ordered validation of the configuration, the voxel grid
  that lists for each voxel the clumps whose voxel-space bounding box, both corners included,
  covers it, the bookkeeping of a
  photon's path (scatter count, clumps already tested, clumps currently crossed, way out of the
  slab), and the tally of a run.
- `app/` is the command-line program: reading the TOML file, the floating-point geometry and
  sampling, and the parallel photon loop, which call the library.
- `tests/` exercises the library on concrete values.
