# herdr-ferry

Moves files and clipboard content between the machine that Herdr runs on and the laptop
that is attached to it, over the user's own SSH.

`src/` holds the rules of the ferry, each with a contract that Verus proves. `app/` is the
program around them: arguments, files, processes, the terminal.

| Module | What it settles |
|---|---|
| `text`, `order`, `path` | texts, stable sorting, Unix paths by their components |
| `raw` | any path as a text, and back |
| `util` | sizes and ages in words, the deny-list of secrets, quoting for the shell, digests, free places for files |
| `state` | items, claims and deliveries, listing, duplicates, the history, what is forgotten |
| `send` | what may be sent, the cap of the outbox, staging, reading the clipboard |
| `outbox`, `inbox` | what clients ask for, waiting, receiving, pasting |
| `herdr`, `json` | the context, questions to Herdr and its answers, the counts in the sidebar |
| `ssh`, `client` | the way to the server, delivery, watching, pushing, clipboard and notifications |
| `fuzzy`, `gather`, `picker` | matching, candidates, keys and lines of the picker |
| `doctor` | the report on what is missing |
| `command`, `error` | command lines, and what can go wrong |
| `outside` | calls into other crates, with what is taken for granted of each |

What holds of the whole is stated by the functions whose names start with `law_`: for
example that a claim keeps others out while it holds and that reading an item gives back what
was last written of it (`state`), that a payload is checked
before it is reported delivered (`client`), that the outbox stays within its cap (`send`),
and that the server gets exactly the words it was sent (`ssh`).

Paths are texts and follow the rules of Unix. Every path has a text: `raw` writes the bytes
that are no UTF-8 as marks and gives them back (`law_path_comes_back`). Where a path is
shown or handed on as text, a replacement character stands for them.

A payload in the inbox lies beside the `item.json` of its item. One that is itself called
`item.json` or `item.json.tmp` lies in `payload/` below, so that neither replaces the other.

Nothing is proved of `outside.rs`, of the two functions in `json.rs` that call serde_json,
of `String::push` (declared in `text.rs`), and of `app/`.
