# blarg

A command line argument parser whose core is verified with Verus.

Parameters are declared as *arguments* (positional) and *options* (`--name`, `-n`), each with a
cardinality (`Nargs`): a precise number of values, any number, or at least one. A parser may
branch into sub-commands on the value of a `Condition` argument. Parsing matches the tokens to the
parameters, hands each matched value to the field of its parameter (which converts it into the
program's variable), and answers `-h`/`--help` with a help message laid out in columns for the
terminal. The contracts follow each field from `Parameter::option`/`argument` through the
builder into the built parser: which values each field is handed, in order, and whether they
convert, which decides the parse's status.

## Layout

- `src/matcher/`: the token matcher, a state machine from tokens to matched parameters, with its
  abstract state and the step functions that its contracts are written in.
- `src/tokens.rs`: a token parser in which a cluster of short options may end with the value of
  its last option (`-vfVALUE`).
- `src/parser.rs`, `src/middleware.rs`, `src/builder.rs`: configuration checks, the parse of one
  command and of sub-commands, and the builder API (`CommandLineParser`, `SubCommandParser`).
- `src/parameter.rs`, `src/field.rs`, `src/capture.rs`, `src/choice.rs`: parameters, the fields
  they capture into, value conversion, and documented choices.
- `src/printer.rs`, `src/render.rs`, `src/compact.rs`: the help message, its column layout and
  word wrapping, and a compact single-column form.
- `src/derive.rs`: deriving a parser from a struct's fields and attributes, modelled as plain
  values: which parameter each field stands for, which attribute combinations are refused, the
  builder call set up for each parameter, and what a derived parser fills.
- `src/interface.rs`: the user interface trait and the error context display.
- `src/laws.rs`: properties that span several operations.
- `app/`: reading the process's arguments and exiting with the parser's status.

The executable tests are under `tests/`.
