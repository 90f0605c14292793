# llamalogs

A client for Llama Logs, which turns distributed logs into a real time
interactive graph. Logs are aggregated on the client by (sender, receiver),
statistics by (component, name), and everything aggregated is sent to the
service as one request.

- `src/` is the verified library: the records (`types`, `log`, `args`), the
  aggregating `Logger` state with its contracts, and the properties that hold
  across calls (`laws`).
- `app/` holds what the library cannot: the threaded client with its channel,
  the HTTP request, JSON, and the floating-point values of statistics, which
  it keeps beside the library's records in the slots that the library names.
- `tests/` exercises the library on concrete values.
