# cup

Checks container images for updates: which images there are, which tokens the registries want,
which tags and digests they have, and what is to be reported of each image.

- `src/` is the library. Everything it decides is stated in contracts and proved with Verus:
  reading references, tags and answers, choosing what to request, and putting the report together.
  Proof functions whose names begin with `law_` state what holds across several functions.
- `app/` makes the requests, to registries, to other instances and to the Docker daemon, and hands
  the answers to the library.
- `tests/` runs the library on concrete values.

The library calls three other crates. Maps are keyed by an `FxHashMap` (`src/index.rs`), JSON is
read by `serde_json` (`src/json.rs`), and links are resolved by `reqwest::Url` (`src/request.rs`).
What is taken for granted of these calls is written at each of them.
