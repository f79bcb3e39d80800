# waf_core

A web application firewall at the HTTP layer, written in Verus: the library decides on requests,
and every decision is specified and proved.

## What it does

- Lists of networks, automatic bans, traps, caps of concurrent requests, hard limits on the shape
  of a request, and sliding-window rate limits per address and per route.
- Detection rules for SQL injection, cross-site scripting, path traversal, command injection and
  file inclusion, a list of suspicious User-Agents, and signals from the behaviour of an address,
  of its network and of the clients that share its User-Agent. Each adds to a score; thresholds
  turn the score into *allow*, *challenge*, *block* or *tarpit*.
- Three tests for challenged clients: a silent integrity check, a proof of work and a captcha.
  A client that passes is given a signed cookie.
- Five under-attack levels that tighten everything at once, moved by hand or by a watchdog, and a
  lockdown that only lets clients through which prove to be browsers.
- A dashboard server with a token.

## Layout

- `src/` is the library. `engine.rs` holds the decision as a whole and the laws about it;
  `proxy.rs` and `admin.rs` hold what stands around it. The other modules are the parts: the rules
  (`rules/`), what remembers traffic (`ratelimit.rs`, `reputation.rs`, `behavior.rs`, `subnet.rs`,
  `signature.rs`, `connections.rs`, `goodbot.rs`), tokens and cookies (`challenge.rs`, `bic.rs`),
  and what they are made of (`text.rs`, `num.rs`, `net.rs`, `table.rs`, `crypto.rs`).
- `tests/` runs the library.
- `app/` is the program around it: sockets, files, DNS, the event store and the Pingora proxy.

Functions that need the time have a variant whose name ends in `_at` and that takes it as an
argument; their contracts are exact. Functions that read the clock say that some time exists at
which they do the same.
