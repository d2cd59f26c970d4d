# eternal_monitor

The decision-making core of the EternalMonitor Windows host, written in
Verus: every function in `src/` carries a contract that Verus proves,
except the few `#[verifier::external_body]` wrappers around std, getrandom,
subtle, semver and plist calls, whose contracts are believed, not proved
(each says so in its doc comment).

- `src/` — the verified library: protocol-v2 codecs (`wire`, `media`,
  `control`), fragment reassembly, send pacing and NACK repair
  (`pacer`, `retransmit`, `sender`, `fault`), tunnel framing and the Apple
  device-service client's framing and answers (`link`, `tunnels`,
  `usbmuxd`, `apple_usb`), the session and pairing machines, input mapping
  and relay (`input`, `hid`, `relay`, `inject_plan`, `probe_guard`,
  `recorder`), audio scheduling, logging, the daily release check and the
  window's status texts. Laws that span calls are public `proof fn`s next
  to the code they speak of.
- `tests/` — executable scenarios for the library.
- `app/` — the runtime around it: files, sockets, threads, `tracing`, the
  release service and the Windows driver tasks. It makes no decision the
  library could make.

Times inside the library are integers (microseconds or nanoseconds on a
monotonic clock); rates are integer thresholds; floating point stays in
`app/`.
