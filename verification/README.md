# yule_log

A streaming parser and writer for [ULog](https://docs.px4.io/main/en/dev_log/ulog_file_format.html)
files, written in Verus: the decoding and encoding of every message type, the format grammar, the
parser's state machine and its options are verified against contracts stated over mathematical
models of the messages.

## Layout

- `src/` — the verified library.
  - `tokenizer.rs`, `formats.rs` — the grammar of format definitions (`name:type field;...`).
  - `message_buf.rs`, `primitive.rs`, `field_helpers.rs`, `text.rs` — little-endian values and
    text read from and written to bytes.
  - `data.rs`, `messages.rs` — the decoding of logged data and of the other message bodies.
  - `parser.rs`, `steps.rs`, `builder.rs` — the streaming parser: it asks for the next bytes
    (`bytes_wanted`), takes them (`supply`) or a failed read (`fail_read`), and hands back
    messages. `steps.rs` holds the model of each step.
  - `encode.rs`, `encode_data.rs`, `encode_msg.rs` — the bytes of each message.
  - `fidelity.rs`, `format_laws.rs` — the laws that tie decoding and encoding together: a parsed
    message encodes to the bytes it came from when those bytes are written canonically (for instance, every
    `bool` byte 0 or 1, format and key text in the form the encoder writes, no bytes left over
    after a value, flag bits of exactly forty bytes). `file_fidelity.rs` carries this over a
    whole file read as the parser asks, with the header, timestamps and padding kept: when
    every message body read is canonical and reading stops between two messages, the messages
    handed out encode, one after the other, to the bytes read.
  - `values.rs`, `macro_utils.rs` — flattening of decoded data into named scalars, and typed
    access to field values.
  - `info_text.rs`, `text_forms.rs` — the text of messages and definitions for people to
    read, for every value that is not a floating-point number.
  - `path_filter.rs` — which time series, and which of their data, a list of paths selects.
  - `pool.rs` — the bookkeeping of a pool of byte buffers tiered by power-of-two capacity.
- `app/` — what surrounds the library: reading a file into the parser, writing messages out,
  the text forms of messages with floating-point values, time series of values, and the
  shared buffer pool.
- `tests/` — tests of the library on concrete values.
