# px_core

The verified core of a personal TCP proxy: a client that offers SOCKS5 (and a
plain "ingress" listener for a TUN helper) on the local machine and carries
each connection over TLS to a server, which connects to the target.

## Layout

- `src/` — the library, verified with Verus.
  - `proto` — the tunnel's first packet ("PXT1") and the server's four-byte
    response, read from and written to byte buffers, with round-trip laws.
  - `socks5` — the SOCKS5 front end (no authentication, CONNECT only) and
    the client side of the same exchange.
  - `text`, `bytes` — character and byte helpers (numerals, splitting,
    trimming, big-endian fields, UTF-8).
  - `net`, `net_laws` — IP and socket address text as the standard library
    writes and reads it, "host:port" targets, and the laws that written text
    reads back as the same address.
  - `runtime` — how failed upstream opens are answered on each front end,
    error chains, the runtime logger, first-read observation.
  - `pem` — certificates and private keys from the PEM text of their files.
  - `config` — configuration types and platform defaults.
  - `logbuf` — the control panel's bounded log.
  - `panel`, `panel_state` — the control panel's decisions: helper command
    lines, route commands, start-up checks, status reports.
  - `tools` — command-line arguments of the programs, DNS-over-TCP framing.
- `tests/` — tests of the library on concrete values.
- `app/` — the programs around the library (`px server`, `px client`,
  `px bench`, `px dns-helper`, `px panel`): sockets, TLS, processes, files.
