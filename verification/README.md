# Watchtower

Watchtower is a log collection sidecar. Applications send structured log records
over gRPC; the agent batches them and delivers every batch to all configured
sinks (Elasticsearch, OpenSearch, a larger Watchtower, or an embedded SQLite store
with a web viewer). When its queue is full, batches are spilled to disk and
replayed at the next start.

The rules of the agent are a Verus library. Each function states in its contract
what it returns or changes, and Verus proves it.

## Layout

- `src/` – the verified library
  - `config`, `config::env` – settings, their defaults, their validation, and the
    environment variables that set them
  - `proto` – the messages; `json`, `sink::encode` – their JSON documents
  - `pipeline`, `batching` – admission, batching and fan-out
  - `server` – acknowledgement of batches and streams
  - `sink::elastic`, `sink::forward`, `sink::retry`, `sink::store` – bulk requests,
    forwarding, repeated attempts, rows and queries of the store
  - `spillover` – the format and the replay of the spillover file
  - `viewer`, `health`, `http` – answers of the HTTP servers
  - `metrics` – counters and their Prometheus text
  - `client` – records, attributes and connection settings of applications
  - `calendar`, `duration`, `number`, `text` – the vocabulary of all others
- `tests/` – tests of the library
- `app/` – the program: command line, files, sockets, timers and the database

Functions named `law_..` are proofs of what holds across several functions: that
appended batches come back from the spillover file, that no date stands for two
days, that pauses between attempts double, and so on.
