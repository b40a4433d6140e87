# web_rwkv

Tokenizers, model metadata and inference plans for RWKV and power-retention (Brumby,
PowerCoder) language models, verified with Verus.

`src/` is the verified library. It decides and computes; it never touches a device.

- `tokenizer`, `bpe`: the RWKV tokenizer (greedy longest match) and the byte-level BPE
  tokenizer of `tokenizer.json` files.
- `runtime::reader`, `runtime::info`: tensors by name, from one archive or several, and what
  their names and shapes say of a model.
- `runtime::lora`, `runtime::blend`, `runtime::loader`, `runtime::convert`: how each tensor is
  read, converted and blended with LoRAs, and which tensors a blend pattern selects.
- `runtime::brumby`, `runtime::assembly`, `runtime::naming`: the parts of a power-retention
  model, which tensors they are loaded from, and that no two share a name.
- `runtime::state`, `runtime::dispatch`, `runtime::bundle`, `runtime::job`: the layout of the
  state, and the operations of an inference in order.
- `web`: sessions that are fed tensor by tensor.
- `hash`, `pattern`, `runtime::archive`: the calls into `ahash`, `regex` and `safetensors`,
  with what is taken for granted of them; `native`: the byte order of the machine.
- `text`, `names`: strings, and a map keyed by names.

Floats are carried as their bits. `app/` turns plans into work on a device, for which it asks
a `Gpu`, and holds what needs floating point, JSON derives or JavaScript bindings.
