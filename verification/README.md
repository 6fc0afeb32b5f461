# meta_mcp

A local MCP proxy: it aggregates several MCP servers behind one endpoint on
port 3663 and exposes only the tools of the currently active servers, with
tool names prefixed by a per-server slug (`{slug}__{tool}`).

`src/` is the verified library (Verus). It holds the configuration model and
its edits, the active-set rule, slugs, tool aggregation and routing, the
JSON-RPC core of both client transports, the client side of the backend
protocol (request ids, reply matching, the server-sent-events decoder), the
stdio bridge's decisions, the OAuth login and refresh decisions, and the edit
of MCP client config files. Calls into `url`, `form_urlencoded`, `sha2`,
`base64`, `uuid` and the clock go through a few trusted wrappers whose
contracts are stated next to them.

`app/` is the program around it: the HTTP server (axum), backend processes
and connections (tokio, reqwest), files on disk, the browser and the loopback
listener of the login. It makes no decision the library does not make.

`tests/` runs the library on concrete values.
