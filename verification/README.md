# graph-specs

A checker that holds markdown specifications and source code to each other.
The specs declare concepts (`##` headings), their signatures (fenced blocks),
their relationships (bullets such as `- implements: Port`) and the bounded
contexts that own them (`contexts/*.md`). The code side is read either from
Rust sources or from a code-facts keyspace, Rust or PHP.

## Layout

- `src/` is the verified library. Every function states its result in a
  contract that Verus proves, except the trusted items it rests on (listed
  below):
  - `markdown/`: the spec reader (context documents, concept sections,
    bullets, front matter, grounding ladder, spec trees, invariants);
  - `rust_reader`, `rust_signature`: Rust source read with syn into plain
    items, and the normalized signature of an item (its tokens without
    noise attributes and restricted visibility, printed as proc-macro2
    prints them);
  - `rust_syntax`, `keyspace`, `rust_keyspace`, `php_keyspace`,
    `keyspace_reader`, `anchors`, `php`, `php_grammar`, `php_syntax`,
    `surface`: the code readers and the declared surface;
  - `assembly`, `check`: how the two sides are read and gathered for the
    comparison;
  - `render`, `records`, `report`, `report_records`: the text and record
    forms of an outcome and of the verb-coverage report;
  - `order`, `text`, `paths`: the orders, text operations and path rules
    the rest is stated over.
- Trusted items, whose contracts Verus believes without proof:
  - `markdown::events::read_events` runs pulldown-cmark's parser; its events
    are named by `markdown_events`;
  - `php_grammar::php_syntax` runs the tree-sitter-php grammar; its tree is
    named by `php_tree` (`syntax_of` copies the tree into plain values);
  - `rust_signature::item_tokens` and `rust_reader::file_items` run syn
    over a signature block and a source file; what they read is named by
    `rust_item_tokens` and `rust_file_items` (`tokens_of` and the
    `*_of` converters copy syn's values into plain ones);
  - `text::to_lowercase` calls `str::to_lowercase`, named by `lowercase`,
    with the ASCII case mapping stated;
  - `String::push` is given its documented effect.
- The anchor index and the container map (maps in which the first entry
  for a key wins) and the crossing set (an ordered set) are `Vec`s, with
  first-wins lookup and sorted insertion stated over `Seq`.
- `app/` is the command-line program: it walks directories, reads files,
  parses keyspace JSON and writes the output.
- `tests/` holds the tests, run against the compiled library.
