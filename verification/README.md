# spr

The decisions behind `spr stacked`, which keeps a pull request for every revision
of a stack of Jujutsu revisions.

- `src/` is the verified library. The command is a state machine
  (`spr::stacked`): its state says what it asks for, and a step takes the reply.
  Errors (`spr::error`) are trails of messages.
- `app/` carries out what the command asks for, with git, GitHub and the user.
- `tests/` runs the library against a small repository that lives in memory.

What holds of every run is stated and proved in `src/stacked/*_laws.rs`.
