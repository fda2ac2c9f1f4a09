# conduit

The verified core of Conduit, a desktop tool that shares a host's uplinks
with a LAN interface (NAT) and runs TCP/UDP port forwarders.

- `src/` is the library, checked by Verus:
  - `text` — lines, words, trimming, substring search and joining over `Seq<char>`,
    each with the meaning of the std method it stands for;
  - `report` and `linux` — reading the forwarding state out of `/proc`, `iptables -S`
    and `ss` output, the root commands that start and stop sharing, and the laws that
    stopping undoes starting and that a started share is detected;
  - `windows` — the same report from the registry query and `netstat`;
  - `port` — port numbers as text (`parse::<u16>` semantics) and socket addresses;
  - `i18n` — the interface texts in Chinese and English;
  - `state` — the application state and its transition function `update`, which
    returns the action (probe, root batch, relay start/stop, file dialog) to perform;
  - `relay` — the client-session table of a UDP relay;
  - `ids` — fresh forwarder identifiers (UUID v4).
- `app/` is the program: the iced window, the host probes, `pkexec`, the tokio relays
  and the JSON files.
- `tests/` runs the library on concrete values.
