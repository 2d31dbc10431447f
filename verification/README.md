# axum_typed_multipart

Type-safe reading of `multipart/form-data` requests for axum, with the rules
that decide what a request means proved by Verus.

## Layout

- `src/` — the verified library:
  - `field_name.rs` — the grammar of nested field names (`user[address].street`),
    a left-to-right scanner with its specification; `field_name_laws.rs` proves
    that names parse back from any mix of dot and bracket notation.
  - `parse_index.rs` — the index after a list field's name (`[3]`, `[]`, none).
  - `field_builder.rs`, `multipart_builder.rs`, `external_address.rs` — the
    builders that gather fields and produce values; `builder_laws.rs` states
    which occurrence of a field is kept and what an absent field becomes.
  - `try_from_chunks.rs` — reading integers, truth values, characters, text,
    UUIDs, dates and decimals from a field's bytes.
  - `typed_multipart_error.rs` — the errors, their messages and HTTP statuses.
  - `util.rs` — truth words (`yes`, `off`, ...) and the per-field size limit.
  - `text.rs`, `number.rs` — decimal notation and UTF-8 slicing helpers.
- `app/` — the axum side: extractors, the asynchronous conversion traits and
  their impls, which stream a request's fields into the library.
- `tests/` — tests of the library on concrete values.
