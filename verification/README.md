# Patchbay

One MCP gateway in front of many MCP servers. Each server is a *jack*: it is
switched on or off for every agent at once, or for one agent by a list of its
own, and an agent can be denied altogether. What an agent may reach is decided
in one place, before anything is sent to a server.

The library in `src/` holds the decisions, with contracts that Verus proves:

- `config`: the configuration, who is granted what, every change of it, how it is
  loaded and stored
- `app_state`: the running state; every change says what is to be written first
  and what is to be done afterwards
- `gateway`: the JSON-RPC and HTTP surface, sessions and their event streams
- `upstream`: the servers, how they start and stop, and the messages to and from
  them over stdio and HTTP
- `ui`, `tray`, `approval`: what the user is shown and asked
- `utils`: the frame of protected secrets, and the request log
- `json`, `name_map`, `numerals`, `text`: the ground they stand on

A change of the state takes two calls. `x_write` says what has to be written to
disk; `x` takes what came of that and commits only what was saved.

`app/` is the program around it: files, processes, sockets, dialogs and the tray.
Outside Windows there is no tray: the gateway runs by itself.
