# nefor_mag

A verified compiler library for MAG, a small typed language whose programs come to an artifact, a
JSON document. The library reads source text, checks it, evaluates it within limits and serializes
what it comes to; it also decides when an artifact that was built before may be used again.

- `src/` is the library. Every function carries a contract over mathematical models of its
  arguments, and what holds of the compiler as a whole is stated by public proof functions: that
  limits never alter a successful result as long as no remembered call is forgotten (`leeway`), that
  what is recalled of a call is what it came to and that bindings keep their values (`recall`), that
  identities of bindings are given out once (`identities`), that evaluation only spends
  (`spending`), that a call does not see the values of its caller (`callers`), that descriptors read
  back as the types they were written for (`roundtrip`) and tell types apart (`distinct`), that
  positions and sources of a product input are matched one to one (`coverage`), and others next to
  what they are about.
- `tests/` runs the library on concrete programs, documents and projects.
- `app/` is the `mag` command: arguments, files, the artifact cache on disk.

The library reads no files. A program that asks for a file or a module that it was not supplied with
fails, and the world that it leaves behind says what it asked for; the command supplies it and runs
the program again from the start.

`serde_json` writes and reads JSON text and `sha2` digests it. What the library takes from them, and
from the standard library where Verus has no specification, is declared in `wire`, `identity`, `text`,
`ast` and `project_cache`, each declaration with what it claims.
