# ultimate_control

A client library for the Universal Control protocol, as spoken between the
Universal Control application and a Revelator io24, with its packet format
verified in Verus.

- `src/types.rs` – address pairs and packets.
- `src/wire.rs` – the wire format as specifications: the frame a packet is
  written as, and what reading a frame yields.
- `src/packet.rs` – writing packets to bytes and reading them back.
- `src/codec.rs` – taking packets off a growing `bytes::BytesMut` buffer.
- `src/semantic.rs` – inflating the payload of `ZM` packets.
- `src/requests.rs` – the requests a client sends.
- `src/text.rs` – the standard UTF-8 conversions the packets use.
- `src/laws.rs` – proofs that relate writing, reading and decoding.
- `app/` – the command-line client: sockets, the async runtime and printing.
