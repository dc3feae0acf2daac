# code_reader_core

The core of a code reader for blind and low-vision developers: it takes
editor-like input (a language name, the source text, the cursor line, the
kind of reading wanted, and any diagnostics) and returns a sentence for a
screen reader or speech engine.

The library is written in Verus. Each public function states what it
returns in its `ensures` clause over spec functions, and Verus proves it.
Python source is parsed with tree-sitter; the tree is copied into plain
values (`SyntaxTree`), and every search and description over it is verified.

Layout:

- `src/lib.rs`: `read_code`, the entry point, and the spec of each reading.
- `src/text.rs`: whitespace, trimming, words, lines and numbers as text.
- `src/speech/`: the simple speech form of a line of code.
- `src/model/`: the input, output and diagnostic types.
- `src/diagnostics/`: speech for the diagnostics on or near the cursor.
- `src/languages/python/`: the tree-sitter calls (`parser.rs`, the only
  trusted code besides two std wrappers in `text.rs`), the tree and its
  searches (`syntax.rs`), signature text (`signature.rs`) and one module per
  reading.
- `tests/`: the tests.
- `app/main.rs`: a command-line front end that reads a JSON input on
  standard input and prints the JSON output.
