# sql_macros_derive

Query generation for the `Sql*` table derives (`SqlSelect`, `SqlSelectAll`,
`SqlSelectMany`, `SqlInsert`, `SqlInsertMany`, `SqlUpdate`, `SqlDelete`,
`SqlTable`), written in Verus.

- `src/` is the verified library. `attrs` holds the plain values of the
  `#[table(...)]` attribute and the rules that read them; `model` builds the
  table model (columns, table name, custom methods resolved against the
  columns) and the SQL fragments; one module per derive turns the model into
  the methods it generates: their names, SQL text, parameters and bind
  arguments. Each public function states its result exactly over spec
  functions; the laws of the library (operator words, raw filter templates and how
  they render, placeholder numbering, snake case of ASCII names) are public
  proof functions. `model::ascii_case_agrees` tests std's case tables on the
  ASCII characters, the premise of the snake-case law.
- `app/` is the procedural-macro side: it reads the derive input with
  `darling`/`syn`, converts it into the library's types, and renders the
  library's plans as tokens with `quote`.
- `tests/` runs the library on concrete inputs.
