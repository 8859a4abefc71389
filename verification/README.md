# pitch_core

Streaming pitch (f0) tracking, split in two:

- `src/` — the verified library (Verus). Everything that decides *which*
  audio a pitch estimator looks at and *which* frames it reports: sliding
  windows and batches (`framer`), the overlap-and-save streams of the
  neural backends (`swiftf0`, `fcpe`, `rmvpe`, `crepe`), model-input layout
  and decoder bin ranges (`rmvpe`, `decode`), lag bounds of the
  autocorrelation method (`praat`), batch numbering (`pyin`), chunking
  (`pesto`), name parsing and the backend registry (`crepe::Capacity`,
  `swiftf0::Mode`, `backends`), and the shared error type. Buffers are
  generic over the sample type; nothing in `src/` reads a sample value.
  Each stream keeps its buffer on its frame grid, so frame `k` always
  reads the audio at stream position `hop * k`, and frame indices never
  repeat except that progressive SwiftF0 re-emits each preliminary frame
  once, settled.
- `app/` — the floating-point signal processing and runtimes built on it:
  the `PitchEstimator` trait and `PitchFrame`, SWIPE (swipe-rs), pYIN
  (pyin), Praat autocorrelation (realfft), resampling (rubato), the ONNX
  backends (ort), the `PitchTracker`, and Python bindings (pyo3).
- `tests/` — executable tests of the library.
