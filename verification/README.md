# iridium_proxy

A proxy between a home-automation web front end, an Iridium server and a
Breezart ventilation unit, with its protocol logic verified by Verus.

- `src/` is the verified library: KNX frame classification (`knx`), the
  Breezart status line, value store, set commands and polling pace
  (`breezart`), websocket message framing and routing (`websocket`), the
  Iridium session cookie and call retries (`iridium`), login sessions kept in
  an LRU cache (`auth`), and the character and number helpers they share
  (`text`).
- `app/` is the program around it: the HTTP and websocket server, the TCP
  connection to the unit, the HTTP client of the Iridium server and logging.
- `tests/` runs the library on concrete values.

The program reads the Iridium server's `host:port` from the `PROXY_HOST`
environment variable and serves static files from `www/static/`.
