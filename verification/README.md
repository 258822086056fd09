# termkeys

Keyboard input for terminal panes, verified with Verus.

- `src/keys.rs`: key codes, modifier sets, key events, terminal keys and the
  keyboard protocol a pane's child has negotiated.
- `src/encode.rs`: the bytes sent to a PTY child for a key, in legacy (xterm)
  form or, under the kitty protocol, in `CSI u` form.
- `src/decode.rs`: the key that a terminal input sequence denotes (kitty
  `CSI u`, xterm `modifyOtherKeys`, xterm modified keys, legacy bytes).
- `src/laws.rs`: round-trip properties of encoder and decoder together.
- `src/text.rs`: decimal numerals, separator searches, UTF-8 of one character.
- `src/platform/`: reading `/proc/<pid>/stat` and `cmdline` contents, and the
  stubs for platforms without process inspection.
- `src/session.rs`: the application's start-up, onboarding, toast and exit
  decisions.
- `app/`: conversion from and to crossterm key events, and the Linux `/proc`
  readers that hand file contents to the library.
