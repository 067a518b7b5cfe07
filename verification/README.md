# shader_canvas

A WGSL/WESL shader canvas split in two.

- `src/` is the verified library (Verus): the shader playlist of a
  directory (which entries are shaders, their order, moving through them,
  refreshing), which file events reload the current shader, what a load
  attempt yields and which source to draw, the single-file watcher of the
  instanced canvas, the input state the keys drive, the instance grid and
  the instance buffer layout.  `order.rs` holds the byte order of paths,
  `paths.rs` what is read of a path.
- `app/` is the rest: reading directories and modification times, file
  watching, WESL compilation, GPU buffers, uniforms, and the float math of
  instance positions and rotations.
- `tests/` runs the library on concrete values.
