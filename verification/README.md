# threed_from_scratch

A small software rasterizer: meshes are transformed, lit, clipped against the
view frustum, projected and drawn into a color buffer that SDL shows in a
window.

- `src/` is the library, verified with Verus: packed ARGB colors, the
  row-major pixel and depth buffers with their drawing of dots and
  rectangles, meshes and the reading of OBJ face lines, the fan split of
  clipped polygons, and the render-mode controls.
- `app/` is the program around it: SDL windowing and input, file reading,
  PNG textures, and all floating-point geometry (vectors, matrices, camera,
  clipping, projection, line and triangle rasterization, lighting).
- `tests/` exercises the library.
