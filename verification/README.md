# voxa

Verified foundations of a real-time multimodal agent runtime, written in
Verus. The library in `src/` holds the runtime's data and rules with their
contracts: validated audio and video payloads, structured errors, graph
construction with a deterministic topological order, bounded signal queues,
turn-based transport control, run control and start-up planning, the
decisions of edge routing and of managed service streams (request retries,
strict in-order delivery, the in-flight window), node
package manifests and factory registration, the wire formats of the
JavaScript and Python node hosts, and the studio's bounded histories,
traces, metrics and media capture counters.

`app/` is ordinary Rust around the library: file and network I/O, threads,
JSON conversion and metric values that are floating-point numbers.
`tests/` runs the library on concrete values.
