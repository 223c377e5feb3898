# monkey_c

A compiler for Monkey C, a small C-style language, to x86-64 NASM assembly,
written in Verus. Each pass is an executable function whose contract says
exactly what it returns, stated over a mathematical model of its input.

## Layout

- `src/text.rs` — characters, strings, decimal numbers and the numeric
  literal syntax.
- `src/token.rs` — token kinds: lexing a word, spelling a kind back,
  classifying kinds.
- `src/parser.rs` — source lines to nested blocks of words.
- `src/variable_types.rs` — the entries of the symbol table.
- `src/semantic_analyzer.rs` — blocks to the symbol table, name resolution,
  errors and their reports.
- `src/error_positions.rs` — where the analyzer's errors point.
- `src/three_address_code_gen.rs` — the symbol table to three-address code,
  and its listing.
- `src/block_labels.rs` — how conditionals and loops are opened and closed
  in three-address code.
- `src/expr_values.rs` — what the instructions built for an expression
  compute.
- `src/code_generator.rs` — three-address code to assembly.
- `src/enbeded_funcs.rs` — the built-in `print_*` functions.
- `app/main.rs` — the command-line driver: reads the file, prints errors,
  writes the assembly and runs `nasm` and `gcc`.

A decimal number such as `3.14` is a `float` literal (an `f` suffix may
follow); a `double` literal takes the suffix `d`, as in `2.5d` (a notation of
this compiler's own). `//` starts a comment; a single `/` divides.

Each pass has a checked form (`try_*`, returning `None` where the pass cannot
go on) and a form whose `requires` rules those inputs out.
