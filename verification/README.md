# kroom-core

An inversion-of-control container for dependency injection, verified with Verus.

* `src/container.rs` — the container: interfaces bound, by their `TypeId`, to the
  constructors registered for them; `get` builds the single implementation, `get_all`
  one instance of each, in registration order.
* `src/registration.rs`, `src/injectable.rs`, `src/scope.rs` — what an implementation
  provides and how it is described.
* `src/dependency_resolver.rs`, `src/graph.rs` — the dependency graph (a `daggy::Dag`),
  which never holds a cycle; `resolve` succeeds exactly when every named type is known and
  the edges it calls for close no cycle.
* `src/injectable_macro/` — the decisions of the `#[injectable]` attribute, on a plain
  model of the struct it is put on.
* `src/test/` — sample user repositories.
* `app/` — what stays outside verification: the link-time registry (`inventory`), the
  token handling of the attribute (`syn`, `quote`) and a demonstration.
