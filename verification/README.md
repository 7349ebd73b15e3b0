# agent2api_core

The logic of a local gateway that offers several chat providers behind one API: accounts and their
queue, model lists and routing, rules for models, the Responses protocol on top of Chat, a word
filter, keys, updates, sign-in, and what is taken down for finding faults.

All of it is verified with Verus. The contracts speak of plain values: a JSON value has a `Json`, an
account a sequence of entries, a list of accounts a sequence of those, and so on. Each executable
function says exactly which value it returns for every input that it accepts.

## Layout

| Module | What it holds |
| --- | --- |
| `text`, `words`, `number`, `order`, `json`, `js` | texts, lists of texts, numbers as doubles, stable ordering, JSON values, loose reading of them |
| `account_store` | records, the one queue of priorities, every operation on the accounts; `store_laws` has what holds of the queue throughout |
| `account_transfer` | export and import of accounts |
| `routing`, `checkin` | which account a request is sent with; daily check-in |
| `providers` | the merged list of models, the route of a request, and what is particular to one provider |
| `model_rules`, `model_seeds`, `shared_rules` | which models are offered, under which names, and how they start |
| `protocol` | Responses requests, answers and streams on top of Chat |
| `desensitize` | the word filter: terms, matching, settings, terms from afar |
| `login` | sign-in tasks, and a sign-in as a machine from events to actions |
| `debug_traffic` | exchanges with providers: what is kept of them, and how they are cut |
| `api_keys`, `update` | keys of clients; versions, addresses and installers |

Laws that span several functions are public proof functions beside the functions they speak of.

## What is not proved

The library calls `serde_json`, `sha2`, `url` and a few functions of the standard library. Each call
stands in a function marked `external_body`, whose doc comment says what is claimed of it. Results
that take pages to state have a name (`json_of_text`, `text_of_json`, `url_of_text`, `sha256_of`,
`lowered`, ...), and contracts are exact over these names.

Time, chance, the environment and everything on disk or on the network come in as arguments. `app/`
reads the clock, files, the database and the network, and hands plain values to the library.
