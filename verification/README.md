# deepseek_tui

The core of a terminal chat client, verified with Verus.

- `src/skills.rs`, `src/commands.rs`: skill definitions, their registry, and the
  commands that list skills and run one.
- `src/composer_history.rs`, `src/location.rs`: the history of typed prompts, and
  where it and the skills are kept.
- `src/rlm_query.rs`, `src/json.rs`: the tool that runs prompts in parallel.
- `src/notifications.rs`, `src/duration.rs`: desktop notifications and durations
  in words.
- `src/sidebar.rs`, `src/layout.rs`: the panels beside the transcript.
- `src/text.rs`, `src/order.rs`: text and sorting.

Each module states what its functions return as specifications over sequences of
characters and bytes, and closes with the laws that hold of them together.

`app/` does what the library only decides: it reads and writes files, runs
commands, talks to the service and draws on the terminal.
