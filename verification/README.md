# hostab

A manager for `/etc/hosts`: list, add, remove, disable, enable, toggle and move
hostnames, check the file, resolve names against it, merge hosts lists from
other sources, and serve it all over an HTTP API.

The library under `src/` holds the logic and is verified with Verus: each public
function carries a `requires`/`ensures` contract over mathematical models of
the entries and texts it works on.

| Module | What it holds |
|---|---|
| `text` | white space, trimming, words and lines as std defines them |
| `addr`, `validation` | the syntax of IP addresses, hostnames, comments and safe paths |
| `model` | entries and display rows |
| `parser`, `serializer`, `roundtrip` | reading and writing hosts files, and what a saved file reads back as |
| `edit`, `store` | what each command does to the entries of a file |
| `check` | the issues `verify` reports |
| `cli`, `commands`, `api`, `resolve` | filters, listings, and the replies of the command line and the HTTP API |
| `table` | raw, markdown and boxed renderings |
| `merge` | merged blocks, source labels and the refusal of private addresses |
| `remerge` | why merging again replaces the blocks of an earlier merge |
| `laws` | properties that relate the edits to each other |
| `stored` | what a file reads back as once edits are written and read again |
| `parsed` | which entries read from a file are written back as they were read |

`app/` is the program around the library: argument parsing, file locking and
atomic writes, DNS, HTTP fetching and serving, and JSON output.
