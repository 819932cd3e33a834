# bootloader

A bootloader for the STM32F411: at reset it checks the application image
stored at `0x0800_8000` (magic word, size bound, CRC-32) and jumps to it, or
enters a recovery mode in which a host sends a new image over USART2.

- `src/` is the verified library (Verus):
  - `types.rs`: image header, its little-endian layout, boot errors;
  - `crc.rs`: the IEEE CRC-32, table-driven, proved equal to the bitwise
    definition, with its affinity, residue and error-detection laws;
  - `check.rs`: image validation;
  - `flash.rs`, `regs.rs`: flash sector map and register values;
  - `recovery.rs`: the recovery protocol as a state machine, one event per step;
  - `upload.rs`: what whole frames of that machine do: a full upload erases
    the sectors the image spans and writes exactly the sent image in place; a
    refused size, a failed erase and a failed write each get exactly one reply
    and lead back to waiting for a size.
- `app/` is the firmware around it: register access, the UART and flash
  drivers, the jump to the application, and the loop that drives the
  recovery state machine.
- `tests/` runs the library on concrete values.
