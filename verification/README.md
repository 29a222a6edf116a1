# pica

A package manager for OpenWrt in the style of pacman (`pica -S`, `-U`, `-R`,
`-Q`, ...) and its packager (`pica-pack build`). The decisions of both tools
live in a library whose functions carry contracts proved with Verus; two thin
programs around it read files, run `opkg`, `apk`, `tar` and the download
tools, and print.

Layout:

- `src/` — the verified library.
  - `text`, `json`, `strset`: text, JSON values and sorted name lists, with
    their specifications.
  - `pica_core`: selectors (`app@origin:version(branch)`), repository
    indexes, the version order of the command-line tool, the clock.
  - `pica_pkg_core`: manifests (`key = value` text) and the package version
    order, with the laws that printed manifests read back and that the
    version order is transitive where releases are numbers.
  - `pica_pkg_cli`: the decisions of `pica`: command plans, install routes,
    candidates, feed policy, prechecks, install pipeline (dependency plan,
    hook files, deployed files, stage order), state documents, sync, remove
    and upgrade, and the output of `opkg` and `apk`.
  - `pica_cli`: queries, size display, lock handling and the repository
    install of the command-line tool.
  - `pica_pack`: build settings, build jobs, manifest rewriting, checksum
    lists and the per-backend repository index of the packager.
- `tests/` — tests of the library on concrete values.
- `app/` — the two programs: `main` picks `pica-pack` when the program name
  holds `pack`, else `pica`.
