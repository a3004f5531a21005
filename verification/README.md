# seeker

The verified core of a language-model server: the scheduler that batches requests
over shared cache slabs, the rules of its HTTP dialects, the tokenizer assembly,
and the forward passes of its model families, recorded as device commands.

## Layout

- `src/` is the library. Every item is verified.
  - `src/server/` holds the request worker as a state machine (`worker`, `setup`,
    `admission`, `media`, `scheduler`, `steps`, `decode`, `eviction`), what a
    sequence emits (`sequence`, `stop`, `transcript`), the prefix cache and slots,
    requests and replies of the three dialects (`types`, `convert`, `prompts`,
    `respond`, `stream`), and the served files (`static_assets`).
  - `src/models/` records passes. `recorder` gives each command list a meaning:
    the memory that it leaves, with symbolic terms for what kernels compute. The
    contract of a pass says which term stands where, and what the pass takes of
    scratch. `cache_check` tells whether a cache is laid out as a model needs it.
  - `src/tokenizer/` assembles a tokenizer from a model file's metadata.
- `app/` is the program around it: routes, wire formats, the worker thread, and
  everything in floating point. It reaches the device through the trait `Engine`.
- `tests/` runs the library on concrete values.

Numbers in floating point are a type parameter of the library: it carries them
and never computes with them.

## What is not proved

`tokenizers` and `base64` are reached through a few wrappers (`tokenizer/bundle.rs`
and `base64_text.rs`), whose contracts state what the crates document. What a
kernel computes is a symbolic term, not a number. Scratch is counted tensor by
tensor: padding between tensors, and what a kernel takes for itself, are left out.
