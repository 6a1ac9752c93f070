# aegis_core

The verified core of the Aegis edge-telemetry gateway. Aegis quiets
repetitive log noise, finds which service broke first when an incident fans
out across services, remembers every incident and the fix an engineer
recorded for it, and turns all of that into one decision card.

The rules live in `src/` and are proved with Verus; `app/` is the daemon
around them (sockets, timers, SQLite, HTTP, MCP).

## Layout

| module | what it holds |
|---|---|
| `signature`, `pattern` | line masking and BLAKE3 signatures |
| `service`, `service_catalog` | service names from lines; business-impact text |
| `dedup`, `summary` | the noise gate: first occurrences, collapsed windows, routine roll-ups |
| `causal` | multi-service chains and their root cause |
| `silence` | services that stop talking |
| `incident_memory`, `similarity` | fingerprints, resolutions, similarity search |
| `decision` | red / orange / green cards and the decision stage |
| `control`, `control_plane` | shared counters and timed modes; REST and MCP replies |
| `sink`, `hec`, `sidecar`, `ingest`, `id`, `config` | event rendering, delivery pacing, endpoints, datagrams, ids, defaults |
| `text`, `table`, `order` | strings, name tables and sorting, with their proofs |

Times are unix milliseconds and ratios are basis points inside the library;
`app/model.rs` converts to the seconds and fractions of the wire formats.

Laws that span several calls are public proof functions named `law_*`
(for example `decision::law_known_fix_resurfaces`,
`dedup::law_repeat_closes_once`, `causal::law_fired_chain_shape`).
