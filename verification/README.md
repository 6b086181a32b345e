# wcc

Command-line tools that move code between source files and the clipboard. What the tools decide and
compute is a Verus library under `src/`; `app/` is the program around it, which reads and writes
files, talks to the clipboard and to other programs, and draws on the terminal. Shares and times
that are shown as floating-point numbers, and the writing out of a rebuilt file with `prettyplease`,
stand in `app/` too.

One program holds all tools. The name it is started by says which one runs:

| Name       | What it does                                                            |
|------------|-------------------------------------------------------------------------|
| `wcc`      | runs a command and copies what it wrote                                 |
| `wce`      | copies the errors of a build with the functions they stand in           |
| `wcf`      | replaces functions, structs and enums by those on the clipboard         |
| `wcg`      | lists the functions, types and calls of a folder                        |
| `wcgv`     | writes the symbols of a workspace as a graph, asking a language server  |
| `wcgv_syn` | writes the functions and types of a folder as a graph                   |
| `wcl`      | counts what the files of a folder hold and copies the smallest          |
| `wcm`      | looks for a text in all files below a folder, compressed ones too       |
| `wcn`      | copies a file, or a part of it, with a header that names it             |
| `wcp`      | writes the clipboard to a file and shows what changed                   |
| `wcs`      | replaces a text in all source files below a folder                      |
| `wcu`      | watches a command and keeps what it wrote                               |
| `wcz`      | archives folders                                                        |
| `wff`      | finds functions, structs and `impl` blocks and copies one               |

## The library

- `text`, `bytes`, `unicode`, `ordered`, `path`, `ranges`, `braces`: texts, lines, paths and places
  in a text, with the specification functions that all contracts are written in.
- `syntax`, `models`, `pattern`, `diff`, `packing`, `uri`: what comes from other crates. Each trusted function
  there says in its comment what it calls and what is claimed of it.
- `json`, `edges`: documents and the edges of graphs.
- `common`, `config`: sizes, colours and settings that the tools share.
- `wcc`, `wce`, `wcf*`, `wcg*`, `wcgv*`, `wcl*`, `wcm`, `wcn`, `wcp`, `wcs`, `wcu`, `wcz`, `wff`: one
  tool each. A module with a longer name holds a part of its tool: `wcf_replace` exchanges blocks,
  `wcf_heads` keeps what stands before their `fn`, `wcf_flow` is the course of a run, `wcg_report` the report, and so on.

Public functions called `law_..` are statements about several functions at once, such as that a
packed stream reads back, that the changes of all functions add up to those of the file, or that a
line outside a replaced block stays as it was.
