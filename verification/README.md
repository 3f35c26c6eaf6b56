# mlink_core

A mesh of devices: peers find each other over Bluetooth, the local network or a local socket,
agree on a session, and exchange messages, calls, topics and streams over however many links
they share.

- `src/` is the library, written and proved in Verus. It holds the wire format, the sessions, the
  node and the APIs on top of it, and makes every decision. It reads no socket and no file: an
  operation says which bytes go over which connection, and takes back what came of it.
  - `protocol`: frames, flags, acknowledgements, duplicate detection, compression
  - `mesh`: links, sessions, connections, nodes, rooms, peers, security, reconnection, scanning
  - `api`: messages, topics, calls, streams
  - `transport`: what the transports announce, read off the air and put on a byte stream
- `app/` runs the library over tokio, mDNS, Bluetooth and files.
- `tests/` runs the library on concrete values.
