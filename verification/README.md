# MCP Local Router

An aggregation proxy for MCP (Model Context Protocol) servers. It starts the upstream
servers that its configuration names and offers their tools through one interface, over
standard input and output or over HTTP with server-sent events.

- `src/` is the library: everything the router decides, verified with Verus.
- `app/` is the program around it: processes, sockets, channels, JSON and the command line.
- `tests/` runs the library.

## Configuration

```json
{
  "mcpServers": {
    "filesystem": {
      "command": "npx",
      "args": ["-y", "@modelcontextprotocol/server-filesystem", "/home/user"],
      "env": { "TOKEN": "value" }
    }
  }
}
```

Each key is the name of an upstream server. `env` may be left out.

## Endpoints

With `--transport sse` the router serves

- `/sse`: the tools of all upstreams together;
- `/sse/{serverName}`: the tools of one upstream;
- `POST /message?sessionId=...`: the messages of the clients of all streams. Each stream
  begins with an `endpoint` event that gives the path with the session.

## What is proved

Each function states what it returns or changes. The laws, which relate several functions,
are the proof functions whose names begin with `law_`. Among them:

- every listed tool can be called, and the call goes to the upstream that listed the tool
  last (`aggregator`);
- every page of an upstream's tools is taken in, and the service lists exactly what its
  upstreams offered (`tools`, `aggregator`);
- a startup that is through has registered exactly the configured upstreams (`startup`);
- a shutdown cancels every running client once and leaves none, after which calls are
  refused (`shutdown`, `aggregator`);
- a message posted to an open session reaches it, and a closed or refused session is not
  found (`sessions`);
- a stream is its endpoint event, then one item for each message in order (`http`);
- a run takes its steps in order, and over standard input and output, once all upstreams
  are started, it does not exit before it has shut them down (`lifecycle`).

Three functions are trusted: two that build errors with `rmcp`, in `rpc`, and one that draws
a number with `rand`, in `session_id`.
