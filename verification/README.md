# rust_daemon

A cross-platform service daemon: it keeps long-running processes alive,
restarts them on abnormal exit, writes rotating logs, and serves an
HMAC-signed control API and a Web UI with login sessions.

The daemon's decisions live in the verified library under `src/`, each
function with a contract that Verus proves:

- `lifecycle` — which process runs for which service, operations in flight,
  abnormal-exit counting and retries, stop flags and waiting restarts.
- `auth` — the HMAC-SHA256 request signature and its five-minute window,
  random tokens, control commands.
- `session` — Web UI sessions with their CSRF tokens, the session-then-CSRF
  check of every API request, and the login rate limit (five failed logins
  block an address for a minute).
- `document` — the reading of JSON request bodies and definition files.
- `config` — defaults and clamping of service definitions, saved payloads,
  the services a directory defines, the autostart order, environment values.
- `logger` — log file names, lines, rollover and retention decisions.
- `webui` — routing of static paths, the path-traversal check (as the
  platform reads paths: on Windows also backslashes and drive prefixes),
  file extensions,
  the static file cache, client address, login and service-id validation.
- `util`, `text`, `number`, `name_map` — constant-time comparison, MIME types,
  cookies, the clock, string and number handling, a map keyed by names.

`app/` holds the program around it: the HTTP servers (axum), process
spawning and killing (tokio, libc), file I/O, the environment and the
system status snapshot (sysinfo), and the cut of a definition's priority,
a JSON number taken as a float, to an integer.
