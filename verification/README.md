# merle 🐶

An all-local, verifier-first coding assistant: the model proposes, the tests decide. A fix stays
only when the tests pass on it, and behind any other try the file is put back.

```
merle fix calc.py --test "pytest -q"                    # verified fix of one file
merle do  "add input validation" --test "cargo test"    # a task, with tools
merle explain src/foo.rs                                # a plain explanation
merle context "where are dates parsed"                  # the files that matter for a task
merle                                                   # a session
```

`MERLE_BASE` names the model server, `http://localhost:8080/v1` by default.

## Layout

- `src/` is what merle decides and computes, verified with Verus.
  - `fix`: the fix of a file, from event to event; `agent`: a turn of the agent, likewise.
  - `guard`: which commands would discard uncommitted work.
  - `reply`, `stream`: reading what the model wrote; `message`, `request`: what is sent to it.
  - `tools`: what a tool call asks for; `failure`: the telling lines of a test failure.
  - `diff`: the difference that is shown and remembered; `memory`: remembered fixes.
  - `command`: what the commands print and how they end.
  - `text`, `json`: strings and JSON values.
- `tests/` runs the library on examples.
- `app/` is the program around it: arguments, files, processes, the model server and the store.

A machine such as `fix::Fix` hands out effects and is told what came of the last one. What it does
is stated as a function on its model, and the laws in its module are proved of that function: for
one, that a fix which ends with success left just what the tests passed on in the file, and that
one which ends without left the file as it was.
