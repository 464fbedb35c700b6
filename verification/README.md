# search_engine

A web crawler and search index whose logic is verified with Verus.

- `src/` is the verified library:
  - `crawler/worker.rs`: one crawler worker as a state machine. Each step
    takes the outcome of the previous action and returns the next action
    (poll the queue, check the page count, claim a domain, load robots rules,
    fetch, store, index, record links, queue new links, stop).
  - `crawler/shared.rs`: what the workers share: the time each domain was
    last claimed (claims of one domain at least `DOMAIN_DELAY_MS` apart) and
    the page counter (never past its limit).
  - `index/graph.rs`: the link graph (page to the set of pages it links to).
  - `index/tokenizer.rs`: query terms and document terms.
  - `index/redis_index.rs`: per-term keys and per-document term counts.
  - `parser/robots.rs`: robots.txt rules and whether a path is blocked.
  - `parser/html.rs`: links, text, title and description of a page
    (HTML parsing by `scraper`).
  - `utils/url_utils.rs`: normal form, host and path of URLs (parsing by `url`).
  - `utils/text.rs`: whitespace, words, trimming, prefixes.
  - `storage/mongo_db.rs`: the stored page record.
- `app/` is the program around it: Redis, MongoDB, HTTP and files, the worker
  loop, PageRank and TF-IDF scoring (floating point), and `main`.
- `tests/` runs the library on concrete inputs.
