# miner_factory

Finds mining devices on a network. A `MinerFactory` queues addresses from subnets
(`10.0.0.0/24`, IPv6 too), octet selectors and range strings (`192.168.1.1-254`), and a
scan works through them in stages: TCP probes first, then identification of the hosts that
answered, then retries, and, where the port check is not strict, one last attempt for hosts
that never answered.

- `src/` holds the decisions, verified with Verus: what a selector selects, which hosts to
  contact next and how many at once, how long to wait, which firmware an answer shows, and
  what to report. The public proof functions named `law_` state what holds of the library
  as a whole, for instance that a scan accounts for every queued address.
- `app/` carries the decisions out with tokio: sockets, timers, panics of drivers. Firmware
  drivers and transports implement its traits.
- `tests/` runs the library on concrete values.

What the library believes without proof stands in a few small functions marked
`external_body`, each with a comment on the outside function that it calls: parsing and
ranges of `ipnet`, the shuffle of `rand`, the file descriptor limit of `rlimit`, and
`str::to_uppercase`.
