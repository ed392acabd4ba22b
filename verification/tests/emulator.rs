use escpos_emulator::commands::EscPosCommand;
use escpos_emulator::emulator::EmulatorState;
use escpos_emulator::printer::PrinterState;

#[test]
fn commands_reach_the_printer_and_the_log() {
    let mut state = EmulatorState::new();
    assert!(state.get_command_log().is_empty());
    assert!(state.get_printer_state().get_buffer().is_empty());
    let commands = vec![
        EscPosCommand::Text("hello".to_string()),
        EscPosCommand::SetItalic(true),
        EscPosCommand::NewLine,
    ];
    for c in commands.iter() {
        state.process_command(c);
    }
    assert_eq!(state.get_command_log(), &commands[..]);
    assert_eq!(state.get_printer_state().get_buffer(), &["hello".to_string(), String::new()][..]);
    assert!(state.get_printer_state().italic);

    state.clear_printer_buffer();
    assert!(state.get_printer_state().get_buffer().is_empty());
    assert_eq!(state.get_command_log().len(), 3);
    assert!(state.get_printer_state().italic);

    state.clear_command_log();
    assert!(state.get_command_log().is_empty());
    assert!(state.get_printer_state().italic);
}

#[test]
fn printer_state_clone_is_equal() {
    let mut printer = PrinterState::new();
    printer.process_command(&EscPosCommand::Text("abc".to_string()));
    let copy = printer.clone();
    assert_eq!(copy.get_buffer(), printer.get_buffer());
    assert_eq!(copy.font_size, printer.font_size);
}

#[test]
fn rendered_receipt_bytes() {
    let mut printer = PrinterState::new();
    printer.set_line_height(2);
    printer.process_command(&EscPosCommand::Text("x".to_string()));
    let raw = printer.render_receipt().into_raw();
    assert_eq!(raw.len(), 3 * 640 * 2);
    assert!(raw.iter().all(|b| *b == 255));
    let image = image::RgbImage::from_raw(640, 2, raw).unwrap();
    assert_eq!(image.dimensions(), (640, 2));
}
