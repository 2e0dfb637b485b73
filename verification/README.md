# jaq_core

Native filters of a jq interpreter: the functions behind `sort_by`, `group_by`, `range`, `indices`,
`explode`, `@base64`, `fromdateiso8601` and the like, with their meaning stated as contracts
that Verus proves.

- `src/` is the library. `filters` lists which native filters there are; `natives` has each of them
  as a function from values to values, and `dispatch` ties the two together; the other modules hold what these are made of, and `laws`
  relates filters to one another. Filters are generic over the values of an interpreter (`val::ValT`).
  Where a filter needs something that only the interpreter can do (run another filter, add two
  values, compute with floating-point numbers), it takes it as a function.
- `tests/` runs the library.
- `app/` runs native filters for an interpreter, and adds floating-point numbers, the clock,
  the environment and the log.
