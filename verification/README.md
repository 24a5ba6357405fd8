# ds4

The deciding parts of an inference engine for DS4 models, written in Rust and verified with Verus:
tokenizer and chat template, sessions and their KV cache, sampling decisions, paged attention
tables, the distributed wire protocol, and for each backend which kernels run, on which sizes, and
what is refused.

* `src/` is the library. Every function states what it returns or changes, and Verus proves it.
  Functions named `law_...` prove properties that span several functions.
* `tests/` runs the library on concrete values.
* `app/` is the command-line program: arguments, files, streams, and floating-point arithmetic.

Single-precision numbers appear in the library as bit patterns (`u32`). What has to be computed with
them is the caller's; the library says on which elements, and what the outcome decides.

Outside work (reading a file, evaluating a model, asking a driver) is handed to the library as its
outcome. Functions that would alternate such work with decisions are steps from an event to the next
action.
