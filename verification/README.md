# zc_infer_core

The core of an inference engine for mixture-of-experts language models: the model
format on disk, the blocks of quantised tensors inside it, the scheduling of
reads, the caches, the routing of tokens to experts, and the plans by which a
layer is computed.

- `src/` is the library. Every function in it is verified with Verus, but for one
  wrapper around std's test for UTF-8; the laws that span several functions are
  the public `law_*` proof functions.
- `tests/` runs the library on concrete values.
- `app/` is the ordinary Rust around it: command line tools, file and ring I/O,
  the GPU spike, and the floating-point kernels, which follow the library's plans.

Floating-point numbers appear in the library as their bit patterns. A plan says
which bytes of which tensor meet which part of the hidden state; the kernels in
`app/` multiply and add.
