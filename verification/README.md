# basilcore

The core of the Basil language tool chain as a Verus library: the lexer, the
parsers, the bytecode format, the template language, the debugger and the atomic
game validator, with contracts in `requires`/`ensures` that Verus proves. Calls
into the standard library that Verus cannot see (channels, UTF-8 decoding) stand
behind small trusted wrappers whose contracts say only what the standard library
documents.

## Layout

- `src/lexer.rs` — the tokenizer (keywords, numerals, strings with `#{...}`
  interpolation, line continuation, newline-as-separator), specified by
  `tokens_of`.
- `src/parser.rs` — the Pratt parser of expressions, specified by `expr_bp` and
  its helpers.
- `src/statements.rs` — the statement parser and `parse`, specified by `stmt`,
  `body` and `program`.
- `src/ast.rs` — expressions and statements, with their mathematical views.
- `src/service.rs` — symbols and diagnostics of a source file.
- `src/bytecode.rs` — op codes, chunks and the byte format of compiled programs
  (with its round-trip law).
- `src/locals.rs` — slots of local variables.
- `src/compiler.rs` — the expression stage of the bytecode compiler: the code of
  an expression (`emit_expr`), specified by `ex`, with the tables of routines,
  struct types, fixed-length strings and WITH targets that it reads; the
  routines of a program (`collect_routines`); the top-level code of the
  statements that do not contain other statements (`emit_let`, `emit_print`,
  `emit_dim_array`, `emit_dim_object_array`, `emit_dim_fixed_str`, `emit_type_def`, `emit_exec`,
  `emit_describe`, `emit_raise`, `mark_line`); and the condition of a SELECT
  CASE arm (`case_condition`).
- `src/jumps.rs` — labels, GOTO, GOSUB, RETURN-to-label and line markers of one
  scope of code, and the resolution of jump distances once every label is
  known (`LabelScope::resolve`, specified by `resolved_code`), with the last
  steps of a compiled function and program (`finish_function`,
  `finish_program`). The emitters of compound statements (IF, loops, TRY,
  SELECT CASE, WITH, FUNC bodies), the statements inside functions, and
  `compile` itself are not part of this crate yet.
- `src/render.rs`, `src/template.rs` — the template language of `RENDER$`
  (directive parsing and its text helpers).
- `src/evaluation.rs` — template evaluation as a step function: from a state
  and the reply to the last action, the next state and action (`render_step`),
  with the numeric `@FOR` plan and the dispatch of template functions.
- `src/cgi.rs` — form encoding and decoding, query strings, file-name patterns.
- `src/atomic/` — atomic game programs and their validator.
- `src/debug.rs` — the debugger's breakpoints, stepping and events.
- `src/features.rs`, `src/order.rs`, `src/input.rs`, `src/text.rs`,
  `src/common.rs` — feature selection, ordering helpers, deterministic input,
  text helpers and errors.
- `app/` — what stays outside the verified library: JSON forms of the library's
  types, number formatting, a shared debugger, file dates, and the loop that runs
  `render_step` against a host trait through which a caller evaluates Basil
  expressions (the virtual machine itself is not part of this crate).
- `tests/` — tests on concrete values.

Laws of the library are public proof functions whose names begin with `law_`.
