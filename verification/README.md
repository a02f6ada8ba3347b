# additional-accounts-request

A library for calling programs that follow the additional-accounts interface:
a caller first asks the target program, page by page, which extra accounts an
instruction needs (its "preflight" function), then calls the instruction with
those accounts appended.

`src/` is the verified library (Verus):

- `accounts` — the account and page types, and `page_to`, which moves a list
  of requested accounts to a given page.
- `keys` — account addresses and membership checks.
- `instruction` — the instruction data sent to a target program: the first
  eight bytes of the SHA-256 digest of `global:<name>` or
  `global:preflight_<name>`, then the arguments (and the page).
- `discovery` — the decisions of the page-by-page discovery loop, as a state
  that records one preflight answer at a time.
- `return_data` — decoding of the compact answer (a little-endian count, then
  34 bytes per account) and its resolution against the supplied accounts.
- `matching` — the matching of requested addresses to supplied ones, and its
  laws.

`app/` holds the cross-program calls themselves (invoke, return data,
logging) and the wire types that carry anchor's serialization derives.
