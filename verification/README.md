# mdpdf

Converts Markdown into styled PDFs that carry their own sources, and extracts the sources
back. The library under `src/` is written in Verus: its public functions state their
behaviour in contracts that Verus proves, and Verus checks every function, helpers included,
for panics and overflow.

## Layout

- `src/` — the verified library
  - `pdf_object.rs` — the model of a PDF object graph: objects by id, the trailer, the
    largest object number; lookup, dereferencing and updates, and the document invariant
  - `embed.rs` — embedding the Markdown source, the CSS template and the metadata
  - `extract.rs` — recovering the embedded sources
  - `roundtrip.rs` — the proof that extraction gives back what embedding put in, for every
    document whose objects are numbered within its largest object number and whose
    trailer `Info` and `Root` references, and the catalog's `Names` reference, lead to an
    object where they are references; and that a document carrying no Markdown source is
    refused
  - `markdown.rs` — the code-block background a CSS template declares, the highlighting
    theme and the rendering options
  - `templates.rs`, `template.rs`, `template_enum.rs` — the built-in templates and the HTML
    page around a rendered body
  - `paths.rs` — titles, output names and paths, template file names, configuration paths
  - `gui.rs` — the records of the desktop interface and the order of the user's templates
  - `invocation.rs`, `status_messages.rs`, `constants.rs`, `text.rs` — command-line
    decisions, progress messages, the program's texts, and character-level helpers
- `tests/` — tests of the library on concrete values
- `app/` — the program: command line (clap), file I/O, Markdown rendering (comrak and
  syntect), printing to PDF (headless Chrome), loading and saving PDFs (lopdf), and the
  commands of the desktop interface

The KaTeX library and the CSS of the built-in templates are read at run time from the
directory `assets` beside the executable.
