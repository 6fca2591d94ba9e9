# baud

The logic of a small serial terminal, verified with Verus.

- `src/linebuf.rs`: `LineAssembler`, which turns received byte chunks into
  lines, with its model (`split_stream`, `decoded_lines`) and laws (chunking
  does not matter, the stream reassembles from its lines).
- `src/format.rs`: line endings and `HH:MM:SS.mmm` timestamps.
- `src/numbers.rs`: reading a typed baud rate, writing numbers in decimal.
- `src/serial.rs`: port-name ordering, what the reader
  thread does after each read, error texts.
- `src/session.rs`: `BaudApp`, the terminal's state and every decision the
  window makes, as functions from state and event to new state and action.
- `src/text.rs`: the two calls into std that the library trusts.
- `app/`: the window (eframe/egui), the serial port (serialport) and the clock
  (chrono), which hand plain values to the library.
