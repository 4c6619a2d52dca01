# Agent Bookkeeper

A catalog of the records that coding agents write: which records a source holds, which revision
of each is current, what happened to it in order, and what every subscriber has yet to receive.
Records stay where they are. The catalog keeps their identities, their places and the digests of
their bytes.

## Layout

- `src/` is the library, verified with Verus.
  - `domain`, `ident`, `hash`, `text`, `paths`, `json`, `clock`: values and their text forms.
  - `catalog`, `ledger`, `records`, `sources`, `scrub`, `subscriptions`, `leases`: the catalog, its
    mathematical model, and the operations on it.
  - `source_fs`, `scan`: what a source is, and a scan of it step by step.
  - `payload`, `controller`: copies handed to consumers, and a bounded run of deliveries.
  - `receipts`, `evidence`, `hindsight`, `mempalace`, `transcript`: the consumers.
  - `rows`, `backup`, `admin`, `measurement`, `cli`: stored columns, backups, status, resource
    figures, and the command line.
  - `consistency`, `laws`, `history`: what every operation keeps, what holds across operations,
    and what holds in every state that operations can lead to.
- `app/` is the program around it: the file system, SQLite, HTTP and processes.
- `tests/` holds the tests.

Every operation on the catalog is a function of the model in `ledger`. Where time or chance enters,
the operation has a twin that takes the time and the fresh identifiers as arguments and has an
exact contract; the operation itself promises that outcome for some time and some identifiers of the
random form.

Where the outside world must be asked, `scan` and `controller` say what is to be done next and take the
answer in. A scan refuses a step out of turn, so that nothing is committed that was not checked.
