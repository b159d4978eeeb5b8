# tty

Firmware logic for connecting an RS-232 device to a teleprinter current loop
(ITA-2 / Baudot code), verified with Verus.

- `src/baudot.rs`: the shift states, the ASCII to ITA-2 and ITA-2 to ASCII
  tables, `BaudotChar::to_ascii` / `from_ascii`, and laws about the code tables
  (round trip of letters, digits and punctuation; shift codes; format
  characters).
- `src/stream.rs`: `BaudotStream`, the current loop as a state machine. Its
  abstract state is `StreamView`; `read_step`, `write_step` and `queue_step`
  say what one poll or one queued character does, and the executable methods
  are proved to follow them. `lemma_reachable_state` exports the invariant that
  every reachable stream keeps; `queue_input` handles a chunk of bytes from the
  computer (end of transmission, or translate and queue).
- `src/transmission.rs`: laws over whole frames and queues: a frame sends the
  start bit, five data bits and the stop bit; what the sending side puts on the
  loop the receiving side reads back; what is queued is printed; the queue
  drains, also from the middle of a frame.
- `src/translate.rs`: translation of line ends in text from the computer: lone
  LF or CR becomes CR LF, complete pairs pass through; laws on length, pairing,
  kept bytes and idempotence.
- `app/main.rs`: the Raspberry Pi Pico firmware: pins, UART, timers, and the
  main loop around the library.
