# amberbeam_core

The core of AmberBeam, a file transfer program for SFTP, FTP and FTPS, as a
Verus library. Its logic is proved by Verus against contracts: endpoints,
listings and their parsers, the queue and the decisions of the transfer
runner, conflict handling, the comparison walk, the importers of other
programs' server lists, the site list, settings and history, sealed
exports, host key and certificate decisions, watching a directory, editing
in place, and the steps of searching and unfolding a selection.

- `src/` — the library. Calls into outside crates (XML reading, hashing,
  sealing, the credential store, JSON of release answers, case mapping)
  stand behind small trusted wrappers whose contracts say what the crate's
  source shows. A few plain getters and constructors carry no contract.
- `tests/` — the tests, run against the compiled library.
- `app/` — the I/O around it: files on disk and their JSON shapes, the local
  file system, the clock, the environment, and the loop that runs a watch.

Not here: the network sessions themselves (SFTP, FTP, FTPS), the
asynchronous transfer runner that drives them, and the command dispatcher of
the window. What those decide is in `src/`; opening connections and moving
bytes is not part of this crate.
