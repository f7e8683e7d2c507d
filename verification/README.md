# pqcdump

`pqcdump` surveys captured SSH and TLS traffic for post-quantum cryptography:
which hosts support it, and which sessions use it.

`src/` is the library. Its functions carry contracts that Verus proves.

| module       | what it holds                                                                |
|--------------|------------------------------------------------------------------------------|
| `text`       | decimal numbers, `address:port` texts, comma-separated lists                 |
| `table`      | sets and tables that keep the order in which entries came in                 |
| `layers`     | the layers of an Ethernet frame, as `etherparse` finds them                  |
| `kexinit`    | the wire format of `SSH_MSG_KEXINIT`                                         |
| `ssh`        | sessions, negotiation, and what hosts announced                              |
| `ssh_laws`   | what holds of sessions and hosts, whatever packets come in                   |
| `packet`     | what is looked for in a packet                                               |
| `capture`    | the count and the time span of the packets                                   |
| `catalog`    | what is known of key-exchange methods, TLS groups and cipher suites          |
| `report`     | SSH hosts and sessions of a report                                           |
| `tls_report` | TLS hosts and sessions of a report                                           |
| `summary`    | the whole report                                                             |

What is not proved but taken from other crates stands behind functions marked
`external_body`, and behind one `assume_specification`; their doc comments say what is
claimed of the function that they call.

`app/` is the program: command line, capture file, embedded data and HTML output. It
recognises TLS hellos and hands them to a `HelloReader`; the one that it has counts them
and passes them over. It hands segments to a `Reassembler`; the one that it has leaves each
segment to itself, so that a message spread over several segments is not read.
