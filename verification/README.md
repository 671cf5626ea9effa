# meteo_core

The logic of a weather station and of its receivers, in Rust verified with Verus.
A station measures pressure, temperature, humidity and CO2, and sends readings,
encrypted, as datagrams or, to older receivers, as packets over TCP. What a
receiver has not acknowledged stays with the station; what leaves a full backlog
is counted.

- `src/` is the library. It does no input and output: each loop of the station and
  of a receiver is an automaton that takes an event and gives an action.
  - `datagram`, `codec`, `varint`, `bytes`, `float_bits`: the datagram format and the
    readings in it.
  - `uplink`, `recv_window`, `server`: both ends of the datagram protocol.
  - `wire`, `backlog`, `sender`, `logger`: the packet format over TCP, and its ends.
  - `sensor_cycle`, `clock`, `wifi_pick`, `supervisor`, `led_color`, `led_status`: the
    station around it.
  - `config`, `text`: the configuration that is compiled in.
  - `crypto`, `time`: what they share.
- `tests/` runs the library, with a simulation of both ends of the protocol over a
  bad network in `tests/sender_dst.rs`.
- `app/` drives the library: receivers on a host, the build step, and in
  `app/firmware` the station itself, which needs the crates of the chip and is left
  out of a build for a host.

Encryption (`aes-gcm`), serialisation (`postcard`), fixed-capacity collections
(`heapless`) and configuration files (`toml`) come from outside. What the proofs
take for granted of them stands at the functions marked `external_body`.
