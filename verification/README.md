# cavegen

A GPU cave-noise generator built on Bevy: a chain of compute shaders runs over
a grid (noise, domain warps, a cellular automaton) and the result is coloured
through an editable colour gradient.

- `src/` is the verified library (Verus): the gradient model (stable sorting of
  stops by their `f32` positions, binary search, choice of the stops a sample
  mixes), the frame cache used by the gradient editor, the ping-pong bind-group
  selection and render-graph layout of the compute passes, the data layout of
  the gradient texture and of the GPU readback, the readback rebuild decisions
  and the camera key mapping.
- `app/` is the Bevy/egui program around it: windows, GPU resources, shaders,
  the egui panel and everything computed in floating point (colour mixing,
  parameters, camera motion).
- `tests/` exercises the library.
