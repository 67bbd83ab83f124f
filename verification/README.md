# Mettle

Mettle is a small language for protocol workflows, checks and load tests, and
a runtime for it. This crate holds its logic: the lexer and parser, the
compiler with its name resolution and checks, the execution of plans, the
scheduling and measurement of workloads, the HTTP capability, and everything
that the command line and the language server say. All of it is written and
proved with Verus.

## Layout

- `src/`: the verified library.
  - Text and numbers: `text`, `natural`, `binary64`, `decimal`, `figures`,
    `duration`, `timing`, `histogram`.
  - Values and documents: `value`, `json`, `documents`, `redaction`, `report`,
    `summary`, `records`.
  - Language: `syntax`, `lexer`, `grammar`, `parser`, `relocation`,
    `positions`.
  - Compiler: `names`, `capability`, `plan`, `lowering`, `placing`, `compiler`,
    `assembly`, `project`, `definition`.
  - Runtime: `execution`, `executor`, `parallel`, `metrics`, `workload`.
  - HTTP: `http`, `http_schema`, `http_report`.
  - Commands: `options`, `arguments`, `dotenv`, `sources`, `selection`, `batch`,
    `output`, `lsp`, `messages`.
  - Laws that relate several of these: `object_laws`, `language_laws`,
    `binding_laws`, `call_laws`, `plan_laws`, `execution_laws`, `reply_laws`,
    `privacy_laws`, `request_laws`, `source_laws`, `distance_laws`,
    `duration_laws`.
- `app/`: files, the network, timers, the terminal and the loop that performs
  what the library asks for.
- `tests/`: tests of the library.

## How contracts are written

Each type has a `model`, a mathematical value. A function of the language, such
as what a program compiles to or what a flow evaluates to, is a spec function
over models, and the executable function returns a value whose model is the one
that the spec function gives.

An execution is a function of the replies that it got so far. Where it needs
something from outside, such as the result of a request or the end of a delay,
it stops and says what it waits for; `app/` performs that and runs the
execution again with one more reply.
