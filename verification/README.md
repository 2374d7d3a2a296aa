# shared

Accelerometer telemetry between a sensor board and a plotting host, with
the message logic verified by Verus.

- `src/message_id.rs`, `src/acc_msg.rs`: the message and its identifier,
  their wire numbers, and the one-line text rendering.
- `src/wire.rs`: frames (postcard encoding followed by a CRC-32/CKSUM),
  written and read through the `postcard` and `crc` crates.
- `src/receiver.rs`: reassembly of messages from a byte stream that may
  hold garbage or corrupted bytes.
- `src/queue.rs`, `src/transmitter.rs`: the sensor's sample queue and
  framing, and a simulator that sends test frames.
- `src/rate.rs`, `src/history.rs`: the host's rate window and plot history.
- `app/`: the plotting program (serial I/O, GUI, floating point) and the
  simulator's serial loop.
