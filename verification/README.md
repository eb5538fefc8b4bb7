# rpi_mini_os

The verified core of a minimal Raspberry Pi 3 (AArch64) kernel that shows a
text console on a 1024x768 framebuffer and reads its input from the UART.

- `src/framebuffer.rs`: colours, the GPU mailbox protocol (the request for a
  framebuffer, the reply it is built from, the words and status bits of the
  mailbox), and the pixel memory of the framebuffer with pixel writes and
  screen fills.
- `src/graphics.rs`: 8x8 glyphs from the `font8x8` Basic Latin table, the
  cursor, and the text console that places, wraps and draws characters.
- `src/console.rs`: the line editor fed byte by byte, and the `clear`/`cls`
  command.
- `src/uart.rs`: the PL011 control word, flag tests and line endings.
- `src/lib.rs`: the QEMU semihosting exit codes.
- `app/main.rs`: the memory-mapped I/O, the global state behind spin locks,
  the print macros, the test runner and the main loop.

The library keeps a model of the framebuffer's memory; the program copies it
to the GPU's memory after each change.
