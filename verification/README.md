# mesh_parsers

Finds the contracts of a polyglot code base: services, endpoints, messages, topics and the
relations between them. Files are parsed with tree-sitter grammars; what is read off their
syntax trees is written in Verus and proved against its contracts.

- `src/` is the verified library.
  - `guard`, `grammars`, `queries`: bounds on what is parsed, parsers and queries.
  - `syntax`: syntax trees as lists of nodes with their text, and walks over them.
  - `languages`: one extractor for each language, AsyncAPI and OpenAPI specs, protobuf wire
    schemas, user patterns, and the indexer that picks among them.
  - `decapitate`, `splice`: source text without function bodies, with maps of its lines.
  - `contracts`, `index`, `model`: the contract graph and what a file adds to it.
  - `graph`, `page`, `topology`, `topology_text`, `topology_laws`: pictures of the graph.
  - `markdown`: answers in Markdown, within their size limit.
- `tests/` runs the library with the real grammars.
- `app/` is ordinary Rust around it: files, YAML and JSON through serde, logging, and parsers
  that are kept between files.

What the library takes on trust of other crates stands beside each call, in the contract and
the comment of the function that makes it. A workspace decides which packages stand for a file
and for the names of packages that it declares: extraction takes them as `ServicePackages`, and
`app/indexing.rs` gathers them.
