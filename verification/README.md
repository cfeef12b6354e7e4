# DCleaner

The decisions of a clean-up tool for Windows, verified with Verus, and the
program around them.

- `src/` decides: which paths, keys and databases a scan looks at, what it
  offers and what is selected from the start, which running programs stand in
  the way, what a clean removes and what it came to, how the registry is backed
  up before anything is deleted from it, and how backups are listed and
  restored. Every function has a contract, and the promises that span several
  functions stand as proof functions whose names begin with `law_`.
- `app/` acts: the window and its commands, walking the disk, reading the
  registry, running programs and statements. It hands the library plain values
  and does what the library says.
- `tests/` runs the library on concrete values.

| module | what it holds |
| --- | --- |
| `text`, `utf16`, `clock` | texts, their bytes, points in time |
| `item`, `offer` | what is offered, how it is numbered and picked again |
| `disk` | what stands at a path, how it is measured and previewed |
| `system`, `browser`, `firefox`, `application`, `registry`, `scan` | the parts of a scan, and the scan as a whole |
| `launch` | commands in the registry and the programs they start |
| `command`, `process` | programs that are run, programs that are running |
| `database` | clearing a browser database, and what the cookie whitelist keeps |
| `backup` | backups of the registry |
| `clean` | the run through the selected items |
