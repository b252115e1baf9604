# changelog_roller

Rolls Org-mode changelogs: checks whether the "upcoming" section holds
changes, stamps it with a version while starting a fresh, empty copy,
inserts numbered items under its subheadings, and tells whether a revision
added visible entries compared with another.

The library is written in Verus and verified.

- `src/org_syntax.rs`: the trusted interface to the orgize parser: one
  wrapper per orgize accessor, each keyed by the text and a headline's
  position in document order, with a name for what orgize reports.
- `src/outline.rs`: a plain model of the headline tree (titles, levels,
  byte spans, tokens, sections and their lists and paragraphs), read from
  orgize's parse; `reads_outline` says exactly what it holds.
- `src/roller.rs`: locating a section by a path of titles, readiness,
  visible content and additions, rolling, inserting items.  Each operation
  has a function over the model with an exact contract, and a function over
  the text that parses it first.
- `src/text.rs`: trimming, byte-level splicing of UTF-8 text, decimal numbers
  and list bullets.
- `src/congruence.rs`: every answer depends only on the values an outline
  holds, so each answer is a function of the text.
- `src/laws.rs`: properties relating the operations to one another and to
  the text they change.
- `src/operation.rs`, `src/config.rs`, `src/logging.rs`, `src/cli.rs`: the
  operations as the command line uses them, and its settings.
- `app/main.rs`: the `changelog-roller` command (argument parsing, files,
  git).
- `tests/`: tests of the library.
