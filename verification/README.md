# rv_plugin

The record behind a picture of ownership and borrowing. A visitor is shown the declarations,
assignments, calls and patterns of a function; it keeps track of the access points of resources
(variables, references, fields, functions), of the loans between them and of the events that the
picture shows, and at the end closes the scopes and loans that are still open.

* `src/` is the library, verified with Verus. `state.rs`, `steps.rs` and `aliases.rs` hold the model
  that contracts speak of; `expr_visitor.rs`, `declare.rs`, `scopes.rs` and `lifetimes.rs` hold the
  operations; `checks/` holds tests that unverified callers make before they call an operation;
  `laws/` states what holds of the record throughout.
* `app/` shows the compiler's own expressions, types and patterns to the library.
* `tests/` runs the library on concrete programs.
