# rust_llm

An LLM inference engine whose bookkeeping is verified with Verus.

- `src/` is the library. Every function in it carries a `requires`/`ensures` contract that
  Verus proves: schedulers and batchers, the paged, CPU and offloaded KV caches, the prompt
  cache, the grammar used for constrained decoding, the tokenizer's text handling, the GGUF
  and safetensors header readers, the chat loop's decisions, LoRA adapter bookkeeping,
  graph capture and the model configurations. Laws that relate several calls stand as
  public `lemma_*` proof functions beside the code they are about.
- `app/` is the program around it: the command line, file and network I/O, the HTTP server,
  and the floating-point model maths (attention, MLP, dequantisation, sampling), which the
  library does not hold.
- `tests/` runs the library on concrete values.

Calls into std and outside crates that the library makes (the clock, `str::to_lowercase`,
hashing, `serde_json::from_str`, UTF-8 decoding) go through small trusted wrappers whose doc
comments say what is assumed of them.
