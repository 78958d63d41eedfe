# formatter

The document-building core of an R code formatter, verified with Verus.

- `tokens`: tokens of R code and tokens with their comments.
- `ast`: the syntax tree the parser builds, and the shape (`expr_wf`) the
  formatter relies on.
- `whitespace`: the parser of runs of comments and newlines (built on `nom`).
- `doc`: the document algebra (texts, breaks, nestings, groups).
- `config`: the formatting options.
- `doc_rules`: what document each piece of the tree becomes, as spec functions,
  with the reference counter threaded through them.
- `code`: the executable conversion, proved to build exactly those documents.
- `preservation`: the proof that formatting keeps the code's tokens and
  comments, in order.
- `flat`: the text a document prints when no group breaks, and the proof that
  the layout options other than the embracing one do not change it.
