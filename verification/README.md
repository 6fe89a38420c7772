# webhook-rs

Exposes a local HTTP endpoint to the internet through a websocket tunnel:
a server in the cloud takes webhook requests and hands them to a client
running next to the target application, which forwards them and sends the
answers back.

## Layout

- `src/` is the library, verified with Verus. It holds the tunnel message
  format (writing and reading messages, with the law that reading a written
  message gives it back; it is proved for well-formed messages, whose lines
  are single words where the format asks for words, whose header names are
  left unchanged by lower-casing and whose ids the UUID parser reads back,
  which it reports when it reads them; a `TunnelMessage2` is written with
  the end marker after it, and each end of the tunnel reads a websocket
  message from its bytes before that marker, so a written message crosses
  unchanged), the request/response parser, the configuration
  checks, the routing of a request to its target, the tunnel state (request
  queue, response map) and the decisions each end takes on a websocket
  message.
- `app/` is the program around it: command line, files and environment,
  the HTTP and websocket servers, the websocket client, the HTTP requests to
  the targets, and signing of the auth token.
- `tests/` runs the library on concrete values.

## Server

```bash
webhook-rs server -c config-server.toml
```

```toml
web_address = "127.0.0.1:9000"
webhook_path = "/webhook"   # or "*" to forward every path
jwt_secret = "super-strong-secret"
```

## Client

```bash
webhook-rs client -c config-client.toml
```

```toml
ws_address = "ws://127.0.0.1:9000/_ws"
target_address = "127.0.0.1:4200"
target_secure = false
jwt_secret = "super-strong-secret"
```
