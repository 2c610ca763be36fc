# rua

RUA builds Arch Linux AUR packages. This crate holds its decisions as a
library verified with Verus, and the program around them.

- `src/` — the verified library:
  - `search`: ordering of search keywords (longest first, stable) and
    filtering of AUR search results by the remaining keywords;
  - `tarcheck`: the archive format of a package file, the classification of
    the files inside a built package (all files, executables, SUID files,
    install script) and the review menu;
  - `makepkg`: reading the `makepkg` configuration printed by the loader
    script (`VAR=VALUE` entries ended by NUL), with the `PKGEXT` check;
  - `suffix`: the length of the version suffix shared by built archives;
  - `text`: character-level string helpers.
- `app/` — the command line program: argument parsing, the AUR request,
  files, archives and decompression streams, the terminal, the environment.
- `tests/` — tests of the library.
