# Super Copier

A tool for copying and managing files, with a window: fast copies that can be
resumed and verified, moving and renaming, searching by name, finding
duplicates, large files and big folders, organizing and synchronizing folders,
disk usage, zip archives, bootable USB drives, and sending files to another
computer on the same network.

## Layout

- `src/` — the library. It holds what the program decides: plans, state
  machines, wire formats, parsers, the rules of each tab and the texts that it
  shows. Every function has a contract that Verus proves. The functions
  `law_…` state what holds across several operations: a path that was sent
  arrives at the same place, an extracted entry stays below its destination, a
  second synchronization has nothing to do, a drive that the system runs from
  is never written to.
- `app/` — the window and everything that touches the system: files, sockets,
  processes, threads. It asks the library for the next step, carries it out
  and tells the library how it went.
- `tests/` — tests of the library on concrete values.

## How work runs

Each piece of work has a state in the library, such as `CopyTab` for the tab
and `MoveRun`, `SyncRun`, `ExtractRun` or `WriteRun` for the work itself. A
call of `next` gives the next step; the program carries the step out and
reports the outcome with another call, which may give an event for the tab.
No function of the library reads a file, the clock or the network, so that its
contract says exactly what it does.

Paths are a root and a list of components (`FilePath`). Times are milliseconds
that the caller measures. Texts that need fractions of a second are made by the
program and handed in.

What the library takes on trust stands in functions marked
`#[verifier::external_body]`, each with a note on the outside function that it
calls: BLAKE3 hashes, calendar dates, JSON, the time stamps of zip archives,
random identifiers, and a few functions on text of the standard library.
