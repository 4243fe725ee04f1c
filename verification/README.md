# gguf-recast

Tools for GGUF model files, verified with Verus.

- `remix`: an AutoRound INT4 checkpoint in safetensors becomes a GGUF with
  Q4_0 and Q4_0_AR16 weights. The packed codes and scales are carried over
  without loss.
- `recast`: the BF16 tensors of a GGUF become FP16, tensor by tensor, by their
  largest magnitude and a policy of name patterns.
- `migrate`: type codes that moved between enums are rewritten to the current
  ones. Nothing else in a file changes.

## Layout

- `src/` is the library. `gguf` reads and writes the file format, `safetensors`
  reads checkpoints, `quant` packs blocks, `ieee` and `fp` are floating point on
  bit patterns, `json` and `yaml` stand around the parsers, and `remix`,
  `recast` and `migrate` are the tools. The modules named `laws`, `naming`,
  `range`, `readback`, `titles` and `turned` hold what is proved of the tools as
  a whole.
- `app/` is the command line: arguments, files, and messages.
- `tests/` runs the library on small files.

Numbers in floating point appear in the library as their bit patterns. The
exponential of BF16 values is handed in as a table.
