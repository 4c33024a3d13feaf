# sandcat

The rules of an instant-messaging backend, written in Rust and proved with
Verus.

- `src/` is the library. It decides where messages are stored, what is read
  back, how they are counted, when they expire and who is let in. Every
  function states in its contract what it returns; `laws.rs`, `keyspace.rs` and
  the functions named `law_..` elsewhere state what holds of several of them
  together.
- `app/` talks to MongoDB, Redis, PostgreSQL, an object store and HTTP clients.
  It asks the library what to do next and tells it what came of it.
- `tests/` runs the library against stores that lie in memory.

An operation that needs an answer from outside is a value: it names what to do
next (`current`, `request`, `step`, `next_index`), takes note of the answer (`on_..`)
and gives the outcome (`finish`).

| Module | What it is about |
| --- | --- |
| `shard`, `calendar`, `text` | the collection of each month and slice of users |
| `provision` | the indexes of the collections |
| `save`, `read`, `stream`, `update`, `lookup`, `clean` | operations on the box |
| `filter`, `order`, `message`, `walk` | what these operations share |
| `store`, `laws` | a picture of the database, and the laws of the box |
| `cache`, `counter`, `keyspace` | the cache, its counters, and their laws |
| `auth` | tokens, and requests that carry them |
| `migrate`, `benchmark`, `oss`, `postgres`, `config`, `error` | the rest |

What is taken on trust is marked `external_body` or `assume_specification`; the
comment above each says which outside function it stands for.
