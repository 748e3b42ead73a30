# rfw

A TCP port forwarder: it listens on local endpoints and forwards every connection to a remote one.

`src/` is the library. Its functions carry contracts, stated over mathematical models of the data,
which Verus proves:

| Module | What it holds |
|---|---|
| `text` | decimal numbers, splitting, words, padding |
| `bytes` | byte counts for people (`1.230 GB`) |
| `config` | forwarder definitions, their labels, the check for duplicates |
| `settings` | runtime settings and the live data-plane knobs |
| `sources` | command line, file and environment, and which of them wins |
| `stats` | lifetime counters, derived rates, the registry |
| `cancel` | cancellation tokens and the right to cancel them |
| `manager` | which forwarders run; start, stop, follow a new list |
| `reload` | which file events count, what a changed file changes |
| `forwarder` | listening loop, connecting with failover, data path |
| `report` | the periodic traffic report |
| `metrics` | the HTTP endpoint: requests, routes, Prometheus text, JSON |

Public proof functions named `law_...` state what holds across functions: that byte totals are
lifetime sums, that following a list of forwarders leaves unchanged ones alone, that the first
address to accept a connection is used, and so on.

`app/` is the program around it: arguments, files, sockets, timers, logging. It performs what the
library decides and hands back what came of it.

`tests/` runs the library on concrete values.
