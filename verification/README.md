# makefile_checker

Checks the packages of an OpenWrt tree against their upstream sources and reports
which ones are outdated.

- `src/` is the library, verified with Verus: reading makefiles, telling where a
  package comes from, comparing versions, judging the answers of upstream
  services, reporting, and writing new versions back into makefiles.
- `app/` is the program round it: menus, HTTP requests, files.
- `tests/` runs the library on concrete makefiles, tags and pages.

The contracts speak of texts as sequences of characters. Regular expressions,
semantic versions, URLs, percent encoding and SHA-256 come from other crates; the
functions that call them stand in `src/outside.rs`, with what is taken to be true
of them.
