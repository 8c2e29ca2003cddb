# basic_dsp

Data vectors of real or interleaved complex samples, and time-domain
interpolation on them, with proved contracts for their index and layout
logic.

- `src/vector.rs`: the vector type `DspVec`, moving samples between complex
  and real form (real and imaginary parts, magnitude and phase, pairwise maps,
  the complex dot product, decimation) and the checks these operations make.
- `src/wrapping.rs`: the positions a wrapping iterator visits in a circular
  buffer.
- `src/layout.rs`: values per sample, and the split of a buffer into whole
  SIMD registers and a scalar rest.
- `src/interpolation.rs`: the plan of `interpolatef` (path, lengths), the
  layout of impulse responses, the windows and taps of each output sample,
  the scalar and SIMD-step interpolation loops, and `interpolate_with_plan`,
  which carries a plan out on a vector.
- `app/`: the floating-point side for `f32` samples (sample arithmetic,
  impulse response functions, statistics), built on the library.

The library is generic over the sample type; arithmetic on sample values
reaches it as closures, and its contracts state which samples each closure
call receives and where each result goes.
