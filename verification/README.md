# naenae

`naenae` wraps a command, watches its live output, matches regex rules
against each line and sends Discord webhook notifications for start,
finish, failure and rule matches. It can also attach to a running process
and follow the files its output goes to.

## Layout

- `src/` is the verified library (Verus):
  - `text.rs`: character-level string work (lines, words, trimming,
    replacing, decimal numbers) with specifications of what `str` does;
  - `pattern.rs`: compiled regular expressions from the `regex` crate;
  - `formatting.rs`: command lines, durations, truncation, message layout;
  - `rules.rs`: rule compilation and the per-line decision of which rules
    notify, with cooldown and maximum-count throttling, and its laws;
  - `config.rs`, `cli.rs`: configuration and command line as plain values;
  - `procfs.rs`: reading `/proc` status and command lines, owner checks,
    attach sources and the process listing;
  - `run.rs`: planning a run (`--command` split with `shell-words`),
    lifecycle messages and the outcome of a job;
  - `stream.rs`: turning terminal output and followed log files into lines.
- `app/` is the program around it: command line parsing (`clap`), reading
  the TOML configuration (`serde`, `toml`), spawning the command (`tokio`,
  `portable-pty`), signals (`libc`) and the webhook (`reqwest`).
- `tests/` exercises the library on concrete values.
