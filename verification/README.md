# chat

A relay chat. Users register at a server and talk to each other through it. The
server keeps accounts and who may chat with whom, but no messages: those stay
with the clients, who hand history on to each other on request.

A chat begins with a first message, which only records that its sender would
like to talk. The other side opens the chat by pulling history from them; when
the answer comes through, both may write freely. A chat may be encrypted with a
password that the two have agreed on; the server never sees it.

- `src/` is the library, verified with Verus: the server's tables, sessions and
  message handling (`server`), the client's tables, commands, message handling
  and encryption (`client`), the messages between them (`protocol`), and what
  holds of all of it (`laws`, `server::laws`, `client::laws`).
  `outside` and `server::state` hold the calls into other crates, with what is
  believed of them.
- `app/` is the program around it: sockets, SQLite files, the clock, the window.
- `tests/` runs the library.
