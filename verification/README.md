# i18n-pseudo

Pseudo-translation of i18n resources, as a verified library and a command-line
front end.

Strategies alter translation values so that internationalization problems
show up in a user interface: accented letters, inserted CJK ideographs and
symbols, Unicode stress sequences, expansion, RTL embedding and brackets.
Placeholders (`{name}`, `%s`, ...) and HTML tags are swapped for
Private Use Area tokens before the strategies run and swapped back afterwards.

Layout:

- `src/` — the library, verified with Verus:
  - `strategies/` — the seven strategies, the pipeline and its construction;
  - `cli.rs` — resolution of presets and enable/disable flags;
  - `markup.rs` — recognition of HTML tags;
  - `pseudo.rs` — protection of placeholders and tags, transformation of one text;
  - `resource.rs` — the translation-resource model and its transformation;
  - `session.rs` — argument checks, format-detection outcome, output destination, errors;
  - `text.rs` — character-sequence helpers;
  - `laws.rs` — properties proved of the library as a whole.
- `app/` — the program: command-line parsing, file I/O, format parsers.
- `tests/` — tests of the library.

Expansion ratios are given to the library in thousandths (`1300` for 1.3).
