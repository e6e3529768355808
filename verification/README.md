# plato-window

Sliding windows over sample streams, with four padding strategies for the
boundaries (none, zero, mirror, wrap), verified with Verus.

- `src/` is the verified library. It is generic over the sample type: the
  padding and window arithmetic only move values around, so it works for
  `f64` samples as well as integers. `padding.rs` holds `PaddingStrategy`
  and its laws, `config.rs` the `WindowConfig` builder, and `window.rs` the
  `Window` type, `collect_all` and the laws that tie sliding, `at`, `count`
  and `collect_all` together.
- `app/` holds what computes on floating-point samples (window statistics,
  convolution, moving averages, deviations, maxima and minima) and the serde
  forms of the library's types.
- `tests/` exercises the library on concrete data.
