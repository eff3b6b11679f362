# cardbox

A card is one run's immutable record: what it came from, what it cost, the samples it
produced, how it scored, the checkpoint it left. `cardbox` keeps cards in an append-only log,
so that a card exists from the moment a run starts rather than only when one succeeds, and so
that nothing depending on a card can be written without it.

`src/` is the mechanism, verified with Verus. It does no I/O: it decides what may be written,
says which statements an event is in the read models, and steps through an export, an import, a
removal, a collection of blobs and a migration, one action at a time. `app/` performs the
actions: it owns the eventsdb log, the blob directory and the Lua state, and exposes the store
to Teal as `require("store")`.

## What is stated, and where

| module | what it is | what is proved of it |
| --- | --- | --- |
| `rule`, `command` | the decisions a conditional write runs, the alias commands | exact contracts |
| `history` | laws of the decisions over a log | a decision is accepted once, a close is final, a bind is idempotent, no name dangles |
| `projection`, `sql` | one event as statements and parameters | exact contracts |
| `tables` | what the statements make of the tables | batches are one fold, counters count, the first open stays, `cb_aliases` and `cb_tags` are the fold of their streams |
| `pruning` | what a prune takes and leaves | a pruned card's rows go and no other's, `refs` counts the pointers of the cards that stay, a rebuild after a prune reads the same |
| `carry` | carrying a database of a retired name forward | a retired cursor stands with the live one or past it, none is made, one rebuild at most |
| `export`, `import`, `wire`, `lines` | JSON Lines out and back | what was exported is imported, each record once and in order |
| `record`, `reading` | an event, and a stream page by page | a read gives back what each write answered, the pages are the whole |
| `retain`, `blobs` | removal, and the collection of blobs | exact contracts; what is pointed at stays, what nothing points at goes |
| `json`, `print`, `digest` | values, their text, their fingerprint | decoding undoes encoding, the fingerprint does not depend on the order of fields |
| `stamp` | a moment as a name | the civil date is the right one, stamps sort as they read |

What is not proved is said where it is trusted: each function marked "Trusted" calls one
function of `serde_json`, `eventsdb`, `sha2`, `hex` or the standard library, and its contract
is what that function is taken to do. The effect of a statement on the tables, in `tables`, is
that of the SQL text beside it.

A `cards.db` whose tables are of an earlier shape, without the columns for the identity of a run
or the source of an evaluation, gains them when it is opened, and its rows stay. Tags and prunes
that an earlier build folded past are in the tables after `store:rebuild()`.

## Running

The root is `CARDBOX_ROOT`, else `$HOME/.cardbox`; the Teal modules are read from
`CARDBOX_TEAL`, else `teal/`.
