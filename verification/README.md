# brush_incremental

Incremental reconstruction of Gaussian-splat scenes from a growing set of views:
which frames are trained on and when, where new Gaussians are placed, how splats
follow their frames when poses change, and what viewers and files are told.

- `src/` is the library. Its logic is verified with Verus. What is believed
  without proof is what outside functions do: the wrappers in `chance` (`rand`),
  in `dash` (`dashmap`), and `share`, `rgba_from_raw` and `png_from_luma` in
  `raster` (`Arc::clone` and `image`). Numbers that are floating point in memory
  cross the library as their bit patterns; the arithmetic on them is handed in as
  functions.
- `tests/` runs the library on concrete values.
- `app/` is what surrounds the library: floating-point geometry, files, threads,
  the viewer widgets, and the interface to C++. A rendering back end implements
  `app/backend.rs`.

| Module | What it holds |
| --- | --- |
| `database`, `view_sampling` | frames, poses, and which view is trained on next |
| `trainer`, `context`, `stream` | the decisions of the three training loops |
| `stream_run` | what viewers hear over a whole run |
| `landmarks`, `pixels`, `densify`, `texture`, `single_view` | where Gaussians are placed |
| `transforms`, `camera` | rigid motions of splats and cameras |
| `scene_loader`, `image_cache`, `raster` | images and their loading |
| `export`, `npy`, `text` | files |
| `ui`, `frustum`, `zones`, `bridge`, `config` | viewers, tracing, C++ and settings |
| `ieee` | comparison of floating-point numbers by their bits |
| `chance`, `dash` | what is relied on of `rand` and `dashmap` |
