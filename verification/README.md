# hype

Host discovery for IPv4: reads a target list on stdin, probes every host with
an ICMP echo request and then TCP SYNs to common ports (stopping at the first
probe that gets an answer), and prints the hosts that are up.

- `src/` is the library, verified with Verus: target-list cleaning and
  dotted-quad parsing (`input`, `ipv4`, `text`), the layout of the SYN
  segments and the matching of replies (`tcp_syn`), the order of the probe
  stages (`probe`), the HTTP probe's race between HTTP and HTTPS (`http`) and
  the batching of printed hosts (`batch`).
- `app/` is the program around it: raw sockets, the ICMP client, the
  sender and receiver threads, the async runtime and the progress bar.
- `tests/` runs the library, partly against `pnet`'s own packet builder and
  the standard library's address parser.
