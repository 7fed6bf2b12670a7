# vrchat_osc

OSC and OSCQuery services for VRChat: an application announces its services over multicast DNS,
finds those of others, sends them OSC packets and answers OSCQuery requests.

- `src/` is the library, verified with Verus: address-space trees and type tags, the answers of
  OSCQuery servers, DNS names and messages as far as service discovery needs them, the multicast DNS
  node, and the book-keeping of an application. Each function states what it does in terms of a
  mathematical model; the `law_*` proof functions state what holds of several functions together.
- `app/` puts the library on the network: sockets, HTTP, JSON and background tasks.
- `tests/` runs the library on concrete values, with the crates that it calls.

The library calls `hickory-proto` for the wire format of DNS messages and for names as text, `rosc`
for the wire format of OSC packets, `wildmatch` for patterns and `convert_case` for names of services.
What it relies on of these is written down at the functions that call them, which are marked
`#[verifier::external_body]`.
