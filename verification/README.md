# aurpc

Asynchronous RPCs over UDP, with a 24-bit header (8 bits of flags, a 16-bit
big-endian request id) in front of each payload.

- `src/` is the verified library: the wire format (`message`), the table of
  requests that await a response (`awaiting`), peer addresses (`addr`), the
  error type (`error`) and the decisions the socket takes on each request,
  message and response (`rpc`), each with its contract and the laws that tie
  them together.
- `app/` holds the asynchronous socket around it: binding, sending and
  receiving datagrams, the channels and tasks, and `Display` for errors.
- `tests/` exercises the library on concrete values.
