# notedoctor

Health checks for a local Markdown / Obsidian knowledge base, verified with
Verus. A diagnosis reports

- broken links: `[[target]]` / `[[target|alias]]` links whose target names no note;
- orphan notes: notes with no incoming and no outgoing link;
- dead assets: `.png` / `.jpg` / `.jpeg` files that no `![alt](path)` references.

Layout:

- `src/` — the verified library: `parser` (wiki links and image references
  read from a note's text), `path` (file name, stem and extension of a Unix
  path), `scanner` (which files are notes and which are images), `diagnostic`
  (the diagnosis), `models` (the report), `render` (the report's text,
  line by line, with the tone of each segment), `text` (character helpers and the
  std calls on text), `laws` (properties proved of every diagnosis and parse).
- `app/` — the command line: prompts for a path, walks the directory tree,
  reads the notes, prints the report's lines with each tone as a colour.
- `tests/` — tests of the library, including comparisons with the `regex`
  crate and with `std::path`.
