# speed_cloudflare_cli

A command line tool that measures latency, packet loss, download speed and
upload speed against Cloudflare, with its logic in a verified library.

- `src/` is the library. Its functions carry contracts that Verus proves. It
  decides which requests to make and what to make of the answers; it
  reads the server's description of the connection, picks the reported speeds,
  rates them and writes the report.
- `app/` is the program: arguments, network, progress bars, printing, JSON, and
  the floating-point formulas.
- `tests/` runs the library on concrete values.

Measured values enter the library as the bit patterns of doubles
(`double::Double`). The contracts order them by the numbers that the patterns
encode.

What is believed without proof stands in two places: `style::paint` and
`style::paint_bold` (terminal colours of the `colored` crate), and the buffer
and random bytes of uploads in `request` (the `bytes` and `rand` crates).
