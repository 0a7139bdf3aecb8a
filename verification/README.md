# Conduit

Conduit shares a machine's internet connection with the networks behind its
other interfaces (NAT through iptables) and forwards TCP and UDP ports.

The decisions are a verified library (`src/`):

- `text`: the string work the rest needs (trimming, lines, words, searching,
  decimal ports), each function stated over `Seq<char>`.
- `i18n`, `types`: the translation table, the configuration and the state of
  rules and shares, with their views.
- `network`: the machine's interfaces with their MAC and IP addresses,
  which of them are offered, how a system report is read from
  command output, which commands start and stop sharing, and the script that
  runs them.
- `forward`: the table of UDP clients that a forwarder keeps.
- `app`: the state of the window and `update`, one event at a time, stated
  by `step`; the effects it asks for are returned as a `Command`.
- `laws`: what holds across several calls (stopping undoes starting,
  starting is safe to repeat, adding and removing give back the state
  before, identities stay distinct).

`app/` is the window (iced), the file and process work, the forwarders'
sockets (tokio), and the loop that performs the commands `update` returns.
