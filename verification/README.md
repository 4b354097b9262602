# Elysium

Elysium makes a virtual LAN for games out of WireGuard tunnels between friends. One node hosts a
room, the others join it with a code, and each gets an address in 10.7.0.0/24.

`src/` is the library: the decisions that a node makes from what it holds, each with its contract,
verified by Verus. What a tunnel lets through, who may join a room and under which address, where a packet goes, how
codes, keys, probes and STUN messages are written and read, and which commands set the machine up.

`app/` is the program around it: sockets, the virtual adapter, processes, files and the window,
with the order in which it asks the library and does what the library says.

`tests/` runs the library.

## What rests on trust

The library calls boringtun for the WireGuard protocol, base64 for keys as text, serde_json and
iroh for the ticket of a host, rand for chance, chrono and the standard library for time, and the
standard library for upper case. The items that make these calls stand in `noise`, `keys`, `ticket`,
`random`, `clock` and `text`. Each says above it what is taken for granted of the call.

Times, latencies and rates are whole numbers in the library: a token of the limiter has a billion
parts, jitter is counted in parts of a nanosecond, and what is shown of a link is in tenths. A
latency that another node reports is carried as the bits of the number that it sent.
