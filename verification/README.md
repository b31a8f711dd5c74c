# orage

A Lightning node daemon. `src/` is the verified library: the expansion of
command-line arguments with TOML configuration files (`config`,
`config_file`, which also parses the files' TOML text), the log format (`logger`), the fee estimate, the line printed for
each control request and the control address (`node`), and text helpers (`text`). `app/` runs the
daemon: it reads files and the clock, and plugs the library into the
Lightning stack.
