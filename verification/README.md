# utf8proj

The verified core of utf8proj, an explainable project scheduling engine:
the project model and its progress roll-up, diagnostics and how they are
reported, baselines and their comparison with a schedule, the status
dashboard, the text report of a schedule (the `schedule` command's table,
with `-V` names `[task_id] Display Name`), the text navigation and hover of
the language server, PSPLIB benchmark files and the projects made from
them, synthetic benchmark projects, and the container dependency fix
applied to project files as text.

Every executable function in `src/` carries a contract that Verus proves,
except a few small wrappers around chrono and std (date arithmetic and
formatting, the clock, Unicode character classes, lowercasing), whose
contracts state what those libraries document.

Not included: reading `.proj` and `.tjp` project text. Its grammars are
not part of this crate, so there is no project parser here, and the front
end has no commands that start from a project file (check, schedule,
baseline); the schedule report takes a project and a schedule built
elsewhere. Amounts that the report shows as floating-point numbers (the
duration in days, the SPI, the cost range) are made into text by the
front end.

Layout:

- `src/` — the library, one module per concern (`project`, `diagnostic`,
  `cli`, `report`, `baseline`, `status`, `navigation`, `hover`, `lsp`,
  `files`, `psplib`, `psplib_project`, `synthetic`, `fixes`, `patch`, ...).
- `tests/` — tests that run the compiled library.
- `app/` — the command-line front end: file and directory reading, the
  JSON form of diagnostics, and the arithmetic done in floating point
  (durations in hours and days, the report's SPI and cost texts).
