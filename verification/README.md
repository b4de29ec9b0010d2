# rkh_chk

Helps dealing with the *changed files* warnings that `rkhunter` writes to its
log: finds the files of a scan section, the RPMs that own them, the DNF
transactions that touched those RPMs, and the `rkhunter --propupd` commands
to run.

* `src/` is the library, verified with Verus: reading the scan sections of
  the log (`utils`), package base names (`rpm`), `dnf history info` output
  (`dnf`), configuration values (`config`), the steps of the workflow
  (`workflow`), errors (`error`), and the text
  utilities these rest on (`text`). The calls into `jiff` and the few std
  functions without a Verus specification stand behind the trusted items of
  `time` and `text`.
* `app/` is the `rkh-chk` program: environment, files, commands, prompts and
  logging, each decision taken by the library.
* `tests/` runs the library on concrete inputs.
