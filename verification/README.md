# escpos-emulator

An emulator for ESC/POS receipt printers, verified with Verus.

- `src/commands.rs` – the commands of the protocol and their mathematical view.
- `src/parser.rs` – the streaming parser: `esc_spec`, `gs_spec` and `run`
  say what a byte stream means; `EscPosParser::parse_stream` is proved to
  compute it, keeping an incomplete command until more bytes arrive. The laws
  of the parser (where it stops, how the code page follows the commands, when
  input may be split between calls) are proof functions in the same file.
- `src/decode.rs` – the two text decoders (encoding_rs Windows-1252 and lossy
  UTF-8), as trusted wrappers whose results are named.
- `src/printer.rs` – the printer model: `PrinterView::apply` says what each
  command does to the receipt; laws on how the receipt grows.
- `src/emulator.rs` – the printer together with the log of commands received.
- `src/canvas.rs` – the rendered receipt image, made by the `image` crate.
- `src/session.rs` – what a print connection does with each socket read.
- `src/ui.rs` – window state and the reading of system tool output.
- `app/` – the program: the TCP server on port 9100 (tokio), the window
  (eframe/egui) and the printer installation commands.
- `tests/` – tests on concrete values.
