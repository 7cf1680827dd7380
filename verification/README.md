# mios

The verified core of a small x86_64 kernel.

- `src/` is the library, checked by Verus: PSF2 font validation, UTF-8
  decoding and glyph lookup (`psf2`), text rendering into a pixel buffer with
  cursor movement, line wrapping and backspace (`font_render`), scancode
  translation (`keyboard`), interrupt gate layout (`idt`), the interrupt
  controller and serial line programming sequences (`pic`, `serial_io`),
  decimal output and ACPI table reports (`serial_io`, `acpi`), and the lock
  word (`typer`).
- `app/` is the freestanding kernel around it: boot requests, port I/O,
  copying the pixel buffer to the framebuffer, the interrupt table and the
  keyboard interrupt handler.
- `tests/` exercises the library on concrete inputs.
