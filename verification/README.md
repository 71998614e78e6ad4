# promethee

A Windows hardening tool driven by a CSV rules file: it applies the rules,
backs up the current state of what they cover, or audits the machine
against them.

## Layout

- `src/` is the library, verified with Verus. It holds everything the tool
  decides: reading and writing the rules file, each kind of method (security
  template settings, services, advanced auditing, local policy settings in
  LGPO text, software restriction rules, firewall rules, local groups and
  users, Appx packages, Windows capabilities and optional features), the
  PowerShell commands they run, and how their output is read. Each public
  function states in its contract what it returns; the laws of the library
  (what reads back after a write, what applying a rule makes its current
  value) are public proof functions beside the code they speak of.
- `app/` is the program around it: the command line, logging, PowerShell,
  `LGPO.exe`, the registry and account lookups, files, and the state that a
  run reads once and writes back at its end.
- `tests/` runs the library on concrete values.
