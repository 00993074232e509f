# bsl_context

Platform context of 1C:Enterprise 8.3 for language tools: the types, methods,
properties, constructors and system enumeration values of a platform version,
read from its syntax assistant (`shcntx_ru.hbk`), with a fuzzy search over them
and a static check of BSL fragments against them. An MCP server puts it in
front of language models.

## Layout

- `src/` — the library, written and proved with Verus.
  - `container`, `content`, `toc`, `hbk_models`: the binary container, its
    compressed table of contents and its page archive.
  - `html`, `blocks`, `pages`, `page_models`: the help pages, cut into chapters
    and read into methods, properties, types, enumerations and constructors.
  - `visitor`, `loader`, `mapper`, `entities`, `storage`: walking the table of
    contents and building the index.
  - `search`, `format`: search and Markdown cards.
  - `lexis`, `scope`, `expression`, `check`: validation of BSL fragments.
  - `server`, `config`: what the tools answer, and the settings.
  - `laws`: properties of the library as a whole.
- `tests/` — tests of the library on concrete values.
- `app/` — the server program: settings file, logging, single-instance lock,
  reading the container from disk, HTTP and MCP transport.

## Validation levels

The `level` of a check is clamped to `1..=2`:

- **1** — references with an explicit type name in the text (`Новый TypeX`,
  `TypeY.ValueZ`) and the argument counts of global functions.
- **2** — also local type inference within a procedure: `X = Новый TypeX`,
  `X = TypeY.ValueZ`, and the `// @type TypeX` annotation, which types the
  first assignment after its line, up to an empty line.

Return-type tracking (a variable typed by what a method returns) is not
implemented, so there is no third level. The `strict` profile keeps only
high-confidence findings at level 1; `full` keeps every finding at the level
asked for.
