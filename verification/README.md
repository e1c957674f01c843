# saltator_cs_api

The client-server surface of a Matrix homeserver, with its rules verified by
Verus.

`src/` is the library. It holds what the surface decides and computes, as
functions on plain values with proved contracts: which requests are refused and
with which error, how events and state are shown, how pages, syncs and
hierarchies are put together, which servers a join goes through, which steps
create or upgrade a room, what an appservice or a push gateway is sent. JSON is a
type of the library (`json.rs`), and contracts speak of its mathematical view.
Where the rules call another crate (identifier parsing, push rulesets, filters, URLs,
base64), the call stands behind a small function whose contract says what is
relied on.

Properties that span several functions are public proof functions whose names
begin with `law_`: that tokens read back, that pages join up, that private
receipts stay private, that tables stay bounded, that nothing is left out of a
transaction.

`app/` is ordinary Rust around the library: the axum router, the traits behind
which the account, room, media and federation servers stand, the long polls, the
delivery loops, and the token buckets, whose refill is floating-point
arithmetic.

`tests/` runs the library on concrete values.
