# quicpacket

QUIC packets, as far as a packet is looked at on its own: headers are read and
written, packet numbers are shortened and recovered, packets are sealed and
opened, and a window remembers which packet numbers were received.

Each function states in its contract what it returns and what it leaves in the
buffer, and Verus proves it. The contract holds for every input that the
function's `requires` admits: the others are those on which a size or a number
is out of bounds, or a field that is needed is missing. Of a random byte, of the
time, and of the writer behind a formatter nothing is stated; a function that
takes the byte or the time as an argument says what is done with it.

- `header`, `reply`: packet headers, and the packets that a server answers with
  before there is a connection; `header_laws` proves what a receiver reads of a
  header that was written; `text` shows headers.
- `pkt_num`, `window`, `space`: packet numbers, the window of those received, and
  the state of a packet number space, with what it holds of `stream` and `ranges`.
- `protect`, `crypto`: the protection of packets, and its keys.
- `octets`, `wire`, `fields`: the cursor that packets are read from and written to,
  and the encodings on it.
- `primitives`, `rand`, the clock in `space`, and the formatter in `text`: what is
  taken on trust. The cryptography is that of `ring`.
