# email_classifier

A local email priority classifier. Each message gets one of three ordered
priorities, applied as a notmuch tag:

| Priority | Tag           | Meaning         |
|----------|---------------|-----------------|
| `P1`     | `prio-low`    | least important |
| `P2`     | `prio-normal` |                 |
| `P3`     | `prio-high`   | most important  |

A message is classified by multinomial logistic regression over 392 features: a
384-dimensional embedding of its text, and two blocks of four that tell the
confirmed history of its sender, by domain and by address.

## Layout

- `src/` is the library, verified with Verus: cleaning texts, reading messages,
  asking notmuch and reading its answers, the layout of features and models, the
  embedding cache, and the decisions of an evaluation. Numbers that are
  floating-point are carried through it, by a type parameter or by their bits, and
  never computed with.
- `app/` is the program around it: the file system, the notmuch program, the
  embedding model, the store behind the cache, the solver and the floating-point
  arithmetic.
- `tests/` runs the library.

The embedding backend loads the ONNX runtime library when the program runs.

The strings of the library are modelled as sequences of characters. What the
library takes from other crates stands behind a few declarations whose contracts
are trusted: the public suffix list (`domain`), the message parser (`mailfile`),
the hash of a text (`cache`), quoted strings and `String::push` (`strings`), and
reading UTF-8 (`domain`).

What holds across functions is stated as proof functions named `law_*`, next to
the functions they speak of; those on prepared texts stand in `text_laws`, those on
what an evaluation may know in `eval_laws`.

The message parser does not get through every file. `rawmail` tells which files
are handed to it, and `rawscan` finds the shapes it does not get through; files with
one of them are reported as unparsable.
