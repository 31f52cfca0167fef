# auto_skip

Finds the definition of a Rust type by reading source files, and lists its fields.

A derive macro that maps one type to another sees its own type only. To leave out
the fields that the other type lacks, it has to know the fields of that type. This
library looks for the definition in the inline module that the type's path points
into, in the file where the type is referenced, in the inline modules of that file,
behind type aliases, and in the files that `use` declarations lead to (`crate::`,
`self::` and `super::` paths). A type whose name ends in `Ex` and that cannot be found
is taken to mirror the type without `Ex`.

The library is written in Verus and does no I/O. It computes on `Answers`, what is
known of the disk, and returns either a result or the `Question` that is open next.

- `src/path.rs`: file paths as components
- `src/syntax.rs`: the part of a source file that is read
- `src/parse.rs`: from text to that part, with `syn`
- `src/answers.rs`: questions and answers
- `src/resolve.rs`: from `use` paths to files
- `src/fields.rs`: sets of names and maps from names to types
- `src/search.rs`: the search for a definition
- `src/discover.rs`: discovery from where a type is referenced
- `src/laws.rs`: what discovery promises as a whole
- `app/lib.rs`: the procedural-macro side, which reads spans and files
