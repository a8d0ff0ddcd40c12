# aetheris-app

The verified core of Aetheris, a desktop client for Kubernetes: the project
store (projects, their cluster contexts, hand-added namespaces, remembered
namespaces, table columns and favourite objects), the classification of
resource kinds, the object list (order, search, status filters, watch
events, cache), log colouring and the messages shown to the user.

Everything under `src/` is written in Verus and verified: each public
function states what it returns or changes (`format_error`, which reads
the messages of an `anyhow` error's chain, states what holds of any chain;
`format_error_message` fixes the summary of given messages), and the properties that span
calls (a value set is read back, clean-up leaves the store clean, a
deletion undoes an addition, ...) are proof functions in `src/laws.rs` and
next to the functions they speak of.

- `src/` - the library, one module per concern (`store`, `project`,
  `favorite`, `editing`, `controls`, `objects`, `cache`, `clusters`, `resource`, `columns`, `status`,
  `namespaces`, `pods`, `ansi`, `messages`, `quantity`), with the helpers
  they share (`text`, `order`, `sorted`, `stable`, `keyed`).
- `tests/` - tests of the library on concrete values.
- `app/` - a small command-line front end: reading and writing
  `projects.json`, looking up translations in the gettext catalogues (the
  library takes interface text already translated), finding the
  stylesheet, and the floating-point handling of resource quantities.
