# linuxrpc

A Discord rich presence client for Linux whose configuration handling and
presence logic are verified with Verus.

- `src/text.rs` — whitespace, trimming, line and field splitting over `Seq<char>`.
- `src/config.rs` — the configuration model (sections of values under keys),
  reading a configuration file's text, writing it out, and the edits made to it.
- `src/roundtrip.rs` — proof that writing a configuration and reading the text
  back gives the same configuration, when every key and value fits on one line:
  no key holds a line break, and every value is non-empty, holds no line break or
  carriage return, has no surrounding whitespace, and is neither a `//` comment
  nor a `[...]` header.
- `src/rpc.rs` — the presence state: its defaults, the random choice of message
  and icon, the buttons shown, the now-playing text.
- `src/cli.rs` — what the configuration prompt does to a configuration.
- `app/` — the program: files, `playerctl`, the Discord connection and the prompt.
