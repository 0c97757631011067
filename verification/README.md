# fabric_servers

A systemd socket-activated daemon that runs a network of Minecraft servers in the windows of one
tmux session, behind a single Velocity proxy, and serves their BlueMap over HTTP.

`src/` is a Verus library with the daemon's rules and state machines:

- `config`: fixed parameters, and the states of the servers
- `connect`: Minecraft clients, from the first packet to the proxy; the status response
- `bluemap`: BlueMap's HTTP connections, answered from the rendered files when the backend is away
- `tmux`: the plan that starts the servers, and the signals that end them
- `socket`: the sockets that systemd hands over
- `monitor`: watching the proxy, the time since the last connection, and the listeners
- `text`, `path`, `number`: text, file paths, and decimal numbers
- `outside`: what is called in other crates, and what is believed of it

`app/` performs the actions that the library asks for: sockets, files, processes, clocks and logs.
It reads `favicon.png` and `server_description.json` from its working directory; without them, only
clients that ask about the server go without an answer.
