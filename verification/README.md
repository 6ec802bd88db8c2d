# steam_protobuf_dumper

Extracts the protobuf file descriptors that Steam client binaries embed, and
writes them back out as `.proto` source files. The library is written in Verus:
each function carries a contract that the verifier proves.

## Layout

- `src/wire.rs`: varints, field skipping and message framing on raw bytes.
- `src/scanner.rs`: finding candidate descriptors (`0x0A`, a length byte, a
  file name matching `^[a-zA-Z_0-9\\/.]+\.proto$`) in binary data.
- `src/collector.rs`: parsing candidates with the `protobuf` crate and
  collecting the descriptors that parse.
- `src/proto.rs`: reading parsed `protobuf` messages into the library's own
  model (`src/descriptor.rs`); the only place where the `protobuf` types are
  touched.
- `src/dumper.rs`: the dependency analysis: the type map, the file graph and
  the public-dependency closure.
- `src/options.rs`: standard and custom options, the latter read from the
  unknown fields of the options messages.
- `src/render.rs`, `src/text.rs`, `src/util.rs`: the `.proto` text of each file.
- `app/main.rs`: the command-line program (arguments, memory-mapping the
  binaries, writing the files, logging).

## Usage

```bash
steam-protobuf-dumper [--debug] <binary>... <output_dir>
```
