# uscanner

A code index for Unreal Engine projects: symbols, files, lines of code, class members, macros and
assets, with a semantic model of C++ behind it. The library in `src/` is verified with Verus. The
server around it, in `app/`, is ordinary Rust.

## Layout

- `src/text.rs`, `src/textmap.rs`, `src/textset.rs`, `src/sort.rs`: texts, maps and sets keyed by
  texts, and a stable sort.
- `src/query/`: the string pool, the indexes of names, members and macros, patterns, and the search
  of a store, stage by stage.
- `src/sema/`: types, symbols, scopes, name lookup, overload resolution, templates, the control-flow
  graph and the data-flow warnings, over a syntax tree.
- `src/server/`: assets, live find, ranking, the choice between project and engine, requests,
  projects, caches and reports.
- `src/runtime_index.rs`: which index kept on disk may still be used.
- `app/`: SQLite, files, threads and messages.
- `tests/`: the library from outside.

## How a search is written

The library never reads a store. A search is a value: it says what it asks for next, takes the
answer, and ends with the page that is shown. Its contract says what it is after each answer, so that
whatever the store gives back, the results are those that the contract states. `app/` asks the store
and hands the rows over.

## What is proved beyond the contracts

What holds across functions stands as public proof functions: in the `*_laws.rs` files of `src/sema/`
and `src/query/`, and elsewhere beside the functions that they speak of.

## What is taken on trust

Contracts that are not proved stand beside the outside function that they speak of: `Regex::find_iter`
in `src/server/asset/fallback.rs`, `Sha256::digest` and `hex::encode` in `src/runtime_index.rs`,
`char::is_uppercase` in `src/server/asset/record.rs` and `String::push` in `src/text.rs`.
