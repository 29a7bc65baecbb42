# httpress

An HTTP benchmark tool. The library under `src/` is verified with Verus; the
command under `app/` reads the arguments, creates the HTTP client and sends
requests.

- `src/cli.rs`: the command-line arguments as plain values.
- `src/config.rs`: the benchmark configuration built from the arguments:
  durations (`500ms`, `10s`, `2m`, a bare number of seconds), headers
  (`Key: Value`), the stop condition, and the errors.
- `src/headers.rs`: the header map (each key once, the last value given wins)
  and the check of header names and values before a request is built.
- `src/client.rs`: the validation of a request (URI, then headers), the step after a request is
  sent (timeout, transport failure, response; no body read for `HEAD`) and the
  classification of transport errors (TLS, DNS, refused, reset, timeout).
- `src/text.rs`: Unicode white space, trimming, substring search and decimal
  parsing on characters.

Each public function states its result in its `ensures`; the `law_*` proof
functions state what holds across calls and inputs.
