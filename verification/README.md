# hc_helper

Helpers for services of the Hack Club: a queue in front of Airtable that keeps
its rate limit, searches and writes in Airtable tables, logging in with Hack Club
Auth, cached lookups of people and projects, and the submission of projects.

Everything that is decided or computed stands in `src/` and is verified with
Verus: each function says in its contract what it returns, and the properties
that span several calls are proof functions beside them. Nothing in `src/` does
input or output: times are passed in, and requests and answers are plain values.
The state of a login alone is drawn at random there.

- `src/text.rs`, `src/expiry.rs`, `src/cache.rs`: text, lists that lapse, caches
- `src/http.rs`, `src/link.rs`: requests, answers and addresses; the calls into
  `reqwest` and `actix-web` that the logic makes
- `src/airtable.rs`, `src/airtable/queue.rs`: tables, formulas, searches, writes,
  the rate limit and retries
- `src/auth/`: login and what is known of people
- `src/hackatime.rs`, `src/hackatime/data.rs`: the time that people spent
- `src/submission.rs`: submissions
- `app/`: the web service around it, in ordinary Rust: it sends the requests,
  keeps the shared state and tells the time
- `tests/`: tests of the library
