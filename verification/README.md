# featurize-core

Compile-time-checked preprocessing pipelines for numeric and image feature
extraction, with the pipeline machinery verified in Verus.

- `src/` is the verified library: the typestate builder (`pipeline`), the
  stage and operation traits with operation fusion (`traits`), the NaN
  policies and errors (`errors`), the length-changing and index-remapping
  operations (`ops`), the integer image operations and the sampling
  geometry of bilinear scaling (`image`), the frame
  bookkeeping of audio spectrograms (`audio`) and the laws that hold of
  them (`properties`).
- `app/` holds what computes with floating-point values (the point-wise
  operations, grayscale, per-channel normalization, bilinear interpolation, the
  log-mel spectrogram), the `burn` / `candle` tensor conversions and the
  WASM entry point.
- `tests/` exercises the library from outside, with small point-wise
  operations of its own.
