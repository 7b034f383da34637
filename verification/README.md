# st7789

A verified driver for ST7789 TFT panels (320x240, 240x240 and 135x240) on an
SPI bus: initialisation, rotation, inversion, hardware scrolling, rectangles,
lines, pixels, color buffers and bitmap-font text.

Every operation of the driver records, in a `Transcript`, the exact bus steps
the panel must receive: chip-select, data/command, reset and backlight pin
levels, SPI writes and delays. The driver is written in Verus and its
contracts state each transcript exactly.

- `src/` the verified driver: `command` (registers and opcodes), `bus` (bus
  steps), `protocol` (what each transaction looks like on the wire),
  `display` (the driver), `line` and `text` (geometry of lines and text),
  `pins`, and `laws` (properties common to all operations).
- `app/` runs transcripts on an RP2040 with `embassy-rp` and `embassy-time`.
- `tests/` runs the driver on concrete panels.
