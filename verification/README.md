# difftest

Run two programs with the same inputs and compare their stdout, exit code
and (optionally) stderr; report each test case as PASS, FAIL (with a
line-by-line diff) or ERR.

- `src/` is the library, verified with Verus: word splitting (`words`), line
  splitting and the diff (`diff`), test cases and the comparison of two runs
  (`runner`), and the command's report (`report`), with the character-level
  helpers in `text`.
- `app/` is the `difftest` command: argument parsing, starting the programs,
  feeding them stdin, polling them against the timeout and printing.
- `tests/` exercises the library on concrete inputs.
