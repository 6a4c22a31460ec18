# toptui

A terminal process monitor. `src/` is the verified library:

- `text`: line, field and whitespace-token splitting of text and unsigned decimal
  numbers, each with the meaning of the corresponding `str` method;
- `status`, `users`, `meminfo`, `process`: what the `/proc/<pid>/status`, `cmdline`,
  `stat`, `/proc/meminfo` and `/etc/passwd` texts give;
- `system`: one refresh step of the process table;
- `clock`: a duration as hours, minutes, seconds and milliseconds;
- `layout`, `grid`: the screen panels (through ratatui's layout solver), the order of
  the process cards and the part of it the grid shows.

`app/main.rs` reads the files, does the floating-point time and percentage arithmetic,
runs the refresh thread and draws with ratatui.
