# tali

Tali runs command manifests: it shows the plan, asks for approval, collects inputs and
secrets, runs each step, masks secret values in everything it records, and keeps complete
logs of every run.

## Layout

- `src/` is the library, written in Verus. Every function there carries a contract that
  Verus proves:
  - `text`, `numbers`: the character-level building blocks (trimming, searching, replacing,
    decimal numbers, byte counts, ages).
  - `interpolate`: `{{ name }}` placeholders and secret masking.
  - `paths`: paths as text by the rules of Unix or of Windows (separators, prefixes such as
    `C:` or `\\server\share`, components, joining).
  - `safety`: which manifest paths stay inside the working directory.
  - `condition`: the `when` condition language: parser, validation and evaluation over facts
    gathered from the machine; `condition_compose`: how `not`, `&&`, `||` and parentheses
    combine the values of conditions.
  - `manifest`: manifests, their steps, and the checks a manifest must pass.
  - `input`: values for a run's inputs, from the command line and from prompts.
  - `runner`, `logs`: the progress of a run, the record of each step, output snippets, and
    what is printed for plans, dry runs and finished runs.
  - `store`, `cleanup`, `gitignore`, `update_check`, `cli`, `doctor`, `self_test`, `skill`:
    the decisions behind the other commands.
- `app/` is the `tali` executable: command-line parsing, files, processes, the clock, the
  terminal and JSON/TOML formats. It hands plain values to the library and acts on what the
  library decides.
- `tests/` exercises the library on concrete values.
