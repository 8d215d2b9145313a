# alan_von_palladium

The front-end support library of the Palladium compiler, written in Verus:
every function in `src/` carries a contract that Verus proves.

- `src/lexer/` — tokens, the escape table, and the scanner: white space and
  nested comments, string and char literals, numbers, identifiers and
  keywords, operators by longest match; byte spans with 1-based lines and
  character columns.
- `src/errors/` — spans, compile errors and their one-line texts, diagnostics
  and the advice each error carries, diagnostic codes, terminal styles and
  boxed messages, the text of a terminal report with its source snippet, and
  the suggestion heuristics (edit distance, C habits, delimiter balance),
  with a proof that the delimiter check accepts exactly the properly nested
  delimiters.
- `src/effects.rs` — effect sets and the effect analysis of functions.
- `src/codegen.rs` — the C backend's bookkeeping: the tuple-shape registry and
  its struct definitions, C spellings of types, type inference for
  declarations (variables, declared struct fields, calls of declared
  functions and of `impl` methods through their receiver or their path,
  tuples and their elements, casts, the values of `if` expressions and
  blocks inside their own bindings, and a `loop`'s first `break` value), the
  scope a function body starts in, the array write rule (which arrays a
  function may write or lend to a writer), and how call arguments are
  sequenced.
- `src/enums.rs` — the C definition of an enum: its tag enumeration, the
  data struct of each variant that carries data, the tagged struct with its
  union, and a constructor per variant. The union member of each variant and
  which payload slots are held through a pointer are handed in.
- `src/patterns.rs` — the C condition under which a `match` pattern matches
  its subject.
- `src/shapes.rs` — the walks that register every tuple shape an expression
  builds, innermost first and in evaluation order, and every tuple type a
  program writes in its signatures and `let` annotations.
- `src/signature.rs` — the C signature line of a function: return type, name,
  and each parameter as a value, a pointer or an array declarator; whether
  a prototype names only defined struct tags; and the forward declarations
  of a program's functions.
- `src/structs.rs` — the C definition of a struct declaration, field by
  field, and the field types that field access is typed by.
- `src/driver.rs` — how a compile-and-run ended and the exit code it reports.
- `src/text.rs` — text building blocks, and the few calls into `std` whose
  contracts are trusted.
- `app/` — what touches the outside world: reading a source file, printing a
  report, reading a child's exit status, an iterator over tokens, and a
  standard error type for compile errors.
