# dscan11

A cached storage scanner for Windows. A scan walks one or more roots, adds up
what it finds and keeps a snapshot; later views, audits and removals work on the
snapshot and never rescan.

- `src/` is the library, written in Verus: totals and folder sizes of a scan,
  category rules and their fingerprint, removals and their journal, workspaces,
  audits, the browser, the command line and all texts.
- `app/` is the program around it: files, JSON, directories, the console.
- `tests/` runs the library on concrete values.

Paths follow the rules of Windows or those of Unix, whichever the caller names;
the program takes those of the system it runs on. It is a tool for Windows: drives,
volumes, cloud placeholders and sizes on disk are known there only.

Numbers that the program shows as doubles (percentages, sizes, bars) are computed
in whole numbers, rounded as doubles round.
