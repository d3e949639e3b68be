# nearclip_protocol

The messages NearClip devices exchange — errors, heartbeats, protocol
versions, capability negotiation, device discovery and pairing — with their
protobuf (proto3) wire encoding, written and proved in Verus.

## Layout

- `src/wire.rs` — the wire format: varints, field keys, the walk over the
  fields of an encoded message (`merge_message`), and the lemmas every message
  builds on (reading a field back, reading two inputs one after the other,
  reading unknown fields).
- `src/proto.rs` — what comes from the `protobuf` crate: its error types and
  its UTF-8 check on string payloads.
- `src/common.rs`, `src/discovery.rs`, `src/pairing.rs` — the enumerations and
  messages of the three packages. Each message `X` has a model `XModel`
  (`encode`, `apply`, `merge`, `well_formed`), an owned type `X`, a read
  handle `XView` and a write handle `XMut`.

## What is proved

For every message:

- `parse` succeeds exactly when the input is a well-formed encoding, and then
  gives the message the model reads from it; `serialize` gives `encode`, and
  refuses only an encoding longer than `i32::MAX` bytes.
- Every message value is well formed: its kept unknown bytes are whole fields
  it does not read (a type invariant of the unknown-field store), and the
  same holds of its sub-messages (`lemma_*_well_formed`).
- Writing a message out and reading it back gives it back, for every message
  `serialize` accepts, that is whose encoding is at most `size_limit()`
  (`i32::MAX`) bytes long, and whose sub-messages' unknown groups fit in the
  nesting left to them (`well_formed_at`; `serialize`'s `ensures`,
  `lemma_*_roundtrip`);
  reading two encodings one after the other gives the second merged into the
  first (`lemma_*_concat`); merging with the empty message changes nothing
  (`lemma_*_merge_empty`, `lemma_*_empty_merge`).
- Writes through a write handle `XMut` (from `as_mut`, `XMut::new` or a
  sub-message's `_mut` accessor) land in the message it was made from.
- Fields a message does not read — unknown numbers, other wire types, groups
  — are kept byte for byte and written after its own fields. A message read
  on its own has 100 levels of nesting (`group_depth_limit()`); each
  sub-message, map entry and group spends one, so groups nest at most 100
  deep at the top, 99 deep in a sub-message, and so on; everything `parse` returns is well formed
  (`lemma_*_parse_well_formed`), and merging keeps messages well formed
  (`lemma_*_merge_well_formed`).
- The metadata map keeps its keys unique; after an insert the key finds its
  new value and other keys are unchanged (`lemma_map_insert_lookup`,
  `lemma_map_remove_lookup`).

Fields are numbered in the order they are declared in each message.
