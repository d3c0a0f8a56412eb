# hasuchanbot

A Telegram bot that collects quotes from its administrators and shows them
back on request, written in Verus.

- `src/` is the verified library: reading commands (`/menu`, `/startw`,
  `/stopw`, `/yuru N`, ...), the bot's data and what each command does to it,
  the quote store (a text file of base64 lines, read with `BufRead::lines`
  semantics and kept sorted and unique), the paged quote list with its
  buttons, and the handling of chat messages.
- `app/` is the program around it: file I/O, the Telegram dispatcher, and the
  terminal loop. It hands the library plain values and performs what the
  library decides.
- `tests/` runs the library on concrete values.

Notes on choices:
- The unique, sorted lines of a file (what the program once built with a
  `BTreeSet<&String>`) are made by a verified sorted insertion in
  `file_data::sorted_unique`, comparing strings by their UTF-8 bytes as
  `String`'s `Ord` does. vstd's contracts for `BTreeSet` hold only where
  `key_obeys_cmp_spec` holds of the key type, and vstd establishes that for no
  `String` order, so a `BTreeSet<String>` would have given nothing to prove
  against; this was read in vstd's source rather than tried in code.
- `tokio-util` (0.6, `codec`) is named only so that teloxide-core 0.3.4, which
  uses `tokio_util::codec` without asking for that feature, builds; no code here
  uses it directly.
