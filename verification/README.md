# ethos_protocol_backend

The logic of the vault backend as a verified library: caches and their
partitions, two-phase commit, incident handling, alerting, deployment
rollbacks, screening, cost tracking, encryption of sensitive fields and the
other services behind the API.

* `src/` is the library. Every function states in its contract what it returns
  or changes, and Verus proves it. Public proof functions state what holds
  across functions, such as that a cache gives back what was put into it or
  that recovery never contradicts a commit decision.
* `app/` is the ordinary Rust around it: HTTP handlers, SQLite tables, settings
  of the environment, outgoing requests, and arithmetic on floating-point
  numbers.
* `tests/` runs the library on concrete values.

Some conventions run through the library:

* A moment is a number of nanoseconds since the Unix epoch (`clock::Time`). A
  function that reads the clock or draws an id delegates to one whose name ends
  in `_at` or `_with`, which takes them as arguments.
* A floating-point number is carried as its bits (`measure::Measure`) and only
  compared. A quotient of integers is a `ratio::Ratio`.
* A string-keyed map is a `table::Table`, which keeps the order of insertion.
* Items marked `external_body` and the `assume_specification` items are the
  boundary to outside crates. Their contracts are believed, not proved; the doc
  comment of each says what it claims of which function.
