# Lapi Launcher

A terminal launcher for Linux desktop applications, written in Rust and
verified with Verus.

`src/` is the verified library: the search and navigation state machine
(`app`), the layout of every view (`layout`), desktop entries and their
command lines (`desktop`), the configuration model and its files
(`config`, `document`, `paths`), icon themes (`icons`), the system and
storage panels (`system`, `storage`), the terminal graphics protocol
(`graphics`), the recent list (`history`), the interface texts (`i18n`),
the command line (`cli`), and the text helpers they share (`text`).
`laws` proves properties that span several operations.

`app/` is the program around it: it reads files and the environment,
runs the terminal loop with crossterm and ratatui, decodes images, and
starts processes. `tests/` exercises the library.
