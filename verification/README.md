# firehol

A service that keeps the sets of an `inet firehol` table of nftables in line with published
address lists: the FireHOL levels 1 and 2, and the bogons of Team Cymru for IPv4 and IPv6.
Networks of the configured whitelist, and those that GitHub publishes, are accepted before any
list is matched.

Beside the ETags and the fetched feeds the service keeps, for each list, a delta file of its last
change: a line `-network` for each merged network that the list lost, and then a line `+network`
for each that it gained.

The logic is a library that is verified with Verus. What it decides, it decides as functions
from plain values to plain values, or as machines that take what came of the last action and
say what is to be done next.

- `src/net.rs`, `src/netset.rs`, `src/blocks.rs`: networks, sets of them, and the laws of
  merging them into blocks
- `src/ipset.rs`, `src/feeds.rs`, `src/delta.rs`, `src/github.rs`, `src/json.rs`: what the feeds
  hold, when they are fetched, and what changed in them
- `src/objects.rs`, `src/policy.rs`, `src/listing.rs`, `src/whitelist.rs`, `src/update.rs`,
  `src/contents.rs`: the table, what its rules do to a packet, what nftables reports of it, how
  it is changed, and what its sets hold afterwards
- `src/cycle.rs`, `src/restore.rs`, `src/scheduler.rs`: one update cycle, the restoration from
  the cache, and when cycles are run
- `src/service.rs`, `src/windows.rs`, `src/config.rs`: the services and their configuration
- `src/outside.rs`: the calls into `ipnet` and `std`, with what is relied on
- `app/`: the command line, downloads, files, `nft` and the services of the systems
