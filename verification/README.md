# advanced_rust

A collection of small Rust components (idioms, macros, concurrency, async
runtimes, FFI wrappers), each with its behaviour stated as `requires` /
`ensures` contracts and proved with Verus.

- `src/` is the verified library. Every module states a mathematical model
  of its types (spec functions and views) and proves its functions against
  it. Properties that relate several operations stand as public proof
  functions whose names begin with `law_`.
- `tests/` runs the library on concrete values.
- `app/` is the executable around the library: printing, threads, tokio,
  procedural macros built with `syn` and `quote`, C and Python FFI glue, and
  the parts that compute with floating point.
