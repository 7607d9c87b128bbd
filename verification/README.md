# shared

A keyboard report relay, verified with Verus.

A sender board writes keyboard reports to a serial line; a receiver board
collects the bytes, rebuilds each report and hands its key slots to a USB HID
keyboard emulator. The library holds the parts that decide something:

- `src/report.rs`: the report type, its nine-byte wire form (through
  postcard) and the conversions to and from usbd-hid's `KeyboardReport`;
  laws: reading back what was written gives the same report, the wire form is
  injective and nine bytes long, trailing bytes are ignored, converting to
  usbd-hid's report and back gives the same report.
- `src/framing.rs`: the receiver's byte-by-byte reassembly; laws: a stream of
  reports comes out as the same reports, in order.
- `src/device.rs`: the single-key report and the LED blink sequence; laws:
  the sequence's shape and that the LED ends dark.
- `src/typing.rs`: the two reports of a key tap and the waits and reports of
  the greeting, computed with keycode's keyboard state; laws: a tap of a key
  that is not held sends its code and then the slots as they were, leaving
  the keyboard as it was; from an idle keyboard the greeting sends 46
  reports; the greeting's text is erased.

`app/` holds the firmware: one image whose `ROLE` picks the board (keyboard
emulator, serial receiver, serial sender), the hardware setup, the serial and
USB I/O and the async loops that carry out what the library decides.
