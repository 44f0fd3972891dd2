# infercache

A semantic cache for the chat completions of large language models, as a reverse proxy. The
library in `src/` holds what the proxy decides and computes, with its contracts proved by Verus;
`app/` is the server around it.

| module | what it holds |
| --- | --- |
| `text` | trimming, lines, pieces and prefixes of texts |
| `bytes` | text that comes as bytes in pieces, cut anywhere |
| `json` | JSON values: what they hold, how they are read and built |
| `digest` | SHA-256 digests in hexadecimal |
| `score` | comparison of similarity scores by their bits |
| `models` | chat requests, cached payloads, and the assembly of a stored stream to one completion |
| `vector_store` | the bounded in-memory store and its similarity search |
| `point` | cached payloads as the points of a vector database |
| `coalescing` | one leader for equal requests in flight |
| `proxy` | how a request is served, from its arrival to what is cached of its answer |
| `state`, `metrics`, `endpoints` | counters, exported time series, bodies of the status endpoints |
| `config` | settings and their defaults |
| `embeddings` | how the bytes of a text fall to the components of an offline embedding |

Floating-point numbers cross the border of the library as their bits: the dot product, the
parsing of the threshold and the normalization of embeddings are done in `app/`.

The laws of the library are the public proof functions whose names begin with `law_`, next to
the functions they speak of.
