# ghreposync

Copies GitHub repository labels and milestones from a source repository to a
target repository: missing ones are created, differing ones updated, and
matching ones (by name or title, case-insensitive) left alone. Nothing is
ever deleted.

- `src/` is the verified library: repository references (`sync`), the plans
  of a label or milestone sync (`sync::labels`, `sync::milestones`) with their
  laws (`sync::label_laws`, `sync::milestone_laws`), the request URLs,
  authorization header and paging of the GitHub client (`github::client`),
  the resource types (`github::model`), the command line values (`cli`) and
  text helpers (`text`).
- `app/` is the command-line program: argument parsing, HTTP, JSON and
  terminal output around the library.
- `tests/` exercises the library on concrete values.
