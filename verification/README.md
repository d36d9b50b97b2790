# floresta_peers

Which peers a Bitcoin node knows, which it talks to, and what it asks of them.

* `src/` is the library. Everything in it is verified with Verus.
  * `address_man`, `book`, `selection`, `buckets`: the address book, what it says, and how an
    address to connect to is picked from it.
  * `local_address`, `net_addr`, `service_flags`, `stats`: what is kept about an address.
  * `disk`: the form in which addresses are saved. `dns`, `dns_proxy`: what to look up, and what
    to make of the answers.
  * `node`: the peers a node is connected to, from the handshake until they leave. Requests are
    queued in `outbox`, answers to our user in `responses`.
  * `address_laws`, `book_laws`, `disk_laws`, `node::laws`: what holds of all this as a whole.
  * `clock`, `random`, `chain_data`, and single functions elsewhere, call the standard library and
    the `rand` and `bitcoin` crates. What they promise is stated there, and believed.
* `app/` does what the library leaves to its caller: files, DNS lookups and channels.
* `tests/` runs the library on concrete values.
