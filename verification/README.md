# native_neural_network

The verified core of a small neural-network toolkit: model containers and
their binary formats, compression codecs, token batching, ternary
quantization, low-rank adapters, and the optimizers and learning-rate
schedules of the trainer. Every function in `src/` carries a contract that
Verus proves.

## Layout

- `src/bytes.rs`: little-endian fields inside byte buffers.
- `src/format/`: the RMD1 dense-model payload, the RNN0 container encoder
  (general layout; inputs that call for the canonical fixed-size header are
  refused, since that header is built by the configuration layer),
  the LMLP graph and training-configuration blobs, blob names and layouts.
- `src/rnn_format/`: the container parser, blob bounds and digests, header
  summaries, and the proof that what the encoder writes the parser reads
  back.
- `src/codec/`: the LZ77 codec (with its round-trip proof).
- `src/digest.rs`: SHA-256, through the `sha2` crate. The toolkit's own
  SHA-256 lives in its configuration and security layers, which are not part
  of this library, so the digest comes from `sha2`.
- `src/batching.rs`: padding and masking of token sequences.
- `src/math.rs`: the `Float` trait the numeric kernels are generic over.
- `src/gradients.rs`, `src/optim.rs`, `src/schedule.rs`, `src/lm_step.rs`:
  gradient norms and clipping, SGD and AdamW, learning-rate schedules, and
  the optimizer half of a language-model training step.
- `src/quant.rs`: ternary packing, quantization and the ternary mat-vec.
- `src/lora.rs`: low-rank adapter merge and forward delta.
- `src/graph.rs`: signal propagation modes, signals, edges, expert routing.
- `src/pool_files.rs`: names and headers of the shared parameter pool files.
- `src/paths.rs`: path validation and the decisions of chunked file I/O.
- `app/`: file I/O, `f32`/`f64` implementations of `Float`, the finiteness
  checks, the mixture-of-experts gating and load loss on `f32` scores, and
  warm starts from the parameter pool. The trainers that need the language
  model, loss and network layers are not part of this repository.
- `tests/`: scenario tests against the compiled library.
