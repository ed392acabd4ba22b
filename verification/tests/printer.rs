use escpos_emulator::commands::{EscPosCommand, Font, Justification};
use escpos_emulator::parser::EscPosParser;
use escpos_emulator::printer::{PaperWidth, PrinterState};

fn lines(state: &PrinterState) -> Vec<String> {
    state.get_buffer().to_vec()
}

fn text(s: &str) -> EscPosCommand {
    EscPosCommand::Text(s.to_string())
}

#[test]
fn paper_widths_in_dots() {
    assert_eq!(PaperWidth::Width50mm.get_width_dots(), 384);
    assert_eq!(PaperWidth::Width78mm.get_width_dots(), 576);
    assert_eq!(PaperWidth::Width80mm.get_width_dots(), 640);
}

#[test]
fn characters_per_line_by_font_size() {
    let w = PaperWidth::Width80mm;
    assert_eq!(w.get_max_chars(8), 80);
    assert_eq!(w.get_max_chars(12), 80);
    assert_eq!(w.get_max_chars(13), 64);
    assert_eq!(w.get_max_chars(16), 64);
    assert_eq!(w.get_max_chars(17), 53);
    assert_eq!(w.get_max_chars(24), 53);
    assert_eq!(w.get_max_chars(25), 80);
    assert_eq!(w.get_max_chars(0), 80);
    assert_eq!(PaperWidth::Width50mm.get_max_chars(12), 48);
    assert_eq!(PaperWidth::Width50mm.get_max_chars(20), 32);
    assert_eq!(PaperWidth::Width78mm.get_max_chars(14), 57);
}

#[test]
fn new_printer_state() {
    let state = PrinterState::new();
    assert_eq!(state.paper_width, PaperWidth::Width80mm);
    assert_eq!(state.current_font, Font::FontA);
    assert_eq!(state.justification, Justification::Left);
    assert!(!state.emphasis && !state.underline && !state.italic);
    assert!(state.get_buffer().is_empty());
    assert_eq!(state.line_height, 24);
    assert_eq!(state.font_size, 12);
    assert_eq!(state.dpi, 180);
}

#[test]
fn settings_commands() {
    let mut state = PrinterState::new();
    state.process_command(&EscPosCommand::SetFont(Font::FontB));
    state.process_command(&EscPosCommand::SetJustification(Justification::Right));
    state.process_command(&EscPosCommand::SetEmphasis(true));
    state.process_command(&EscPosCommand::SetUnderline(true));
    state.process_command(&EscPosCommand::SetItalic(true));
    state.process_command(&EscPosCommand::SetLineHeight(30));
    state.process_command(&EscPosCommand::SetFontSize(16));
    state.process_command(&EscPosCommand::SetCodePage(16));
    state.process_command(&EscPosCommand::LineFeed);
    state.process_command(&EscPosCommand::CarriageReturn);
    state.process_command(&EscPosCommand::InitializePrinter);
    state.process_command(&EscPosCommand::Unknown(vec![0x1B, b'Z']));
    assert_eq!(state.current_font, Font::FontB);
    assert_eq!(state.justification, Justification::Right);
    assert!(state.emphasis && state.underline && state.italic);
    assert_eq!(state.line_height, 30);
    assert_eq!(state.font_size, 16);
    assert!(state.get_buffer().is_empty());
}

#[test]
fn text_goes_on_the_current_line() {
    let mut state = PrinterState::new();
    state.process_command(&text("Hello"));
    state.process_command(&text(", world"));
    assert_eq!(lines(&state), vec!["Hello, world".to_string()]);
    state.process_command(&EscPosCommand::NewLine);
    state.process_command(&text("next"));
    assert_eq!(lines(&state), vec!["Hello, world".to_string(), "next".to_string()]);
}

#[test]
fn text_that_does_not_fit_starts_a_new_line() {
    let mut state = PrinterState::new();
    state.set_paper_width(PaperWidth::Width50mm);
    state.set_font_size(20); // 32 characters a line
    state.process_command(&text(&"a".repeat(30)));
    state.process_command(&text("bb"));
    let full = format!("{}bb", "a".repeat(30));
    assert_eq!(lines(&state), vec![full.clone()]);
    state.process_command(&text("c"));
    assert_eq!(lines(&state), vec![full.clone(), "c".to_string()]);
    // text longer than a line is not split
    state.process_command(&text(&"d".repeat(40)));
    assert_eq!(lines(&state), vec![full, "c".to_string(), "d".repeat(40)]);
    // characters, not bytes, are counted
    let mut state = PrinterState::new();
    state.set_paper_width(PaperWidth::Width50mm);
    state.set_font_size(20);
    state.process_command(&text(&"é".repeat(31)));
    state.process_command(&text("é"));
    assert_eq!(lines(&state), vec!["é".repeat(32)]);
}

#[test]
fn text_is_kept_whole() {
    let mut state = PrinterState::new();
    state.set_font_size(20);
    let pieces = ["abc ", "defgh", &"x".repeat(50), "yz", "", "end"];
    for p in pieces.iter() {
        state.process_command(&text(p));
    }
    assert_eq!(lines(&state).concat(), pieces.concat());
}

#[test]
fn paper_cut_prints_a_separator() {
    let mut state = PrinterState::new();
    state.process_command(&text("x"));
    state.process_command(&EscPosCommand::CutPaper);
    assert_eq!(lines(&state), vec!["x".to_string(), "-".repeat(80)]);
    state.set_paper_width(PaperWidth::Width78mm);
    state.set_font_size(14);
    state.process_command(&EscPosCommand::CutPaper);
    assert_eq!(lines(&state)[2], "-".repeat(57));
}

#[test]
fn image_prints_a_placeholder() {
    let mut state = PrinterState::new();
    state.process_command(&EscPosCommand::PrintImage(vec![1, 2, 3]));
    assert_eq!(lines(&state), vec!["[IMAGE]".to_string()]);
    state.process_command(&EscPosCommand::PrintImage(vec![]));
    assert_eq!(lines(&state), vec!["[IMAGE][IMAGE]".to_string()]);
}

#[test]
fn receipt_only_grows() {
    let mut state = PrinterState::new();
    let commands = vec![
        text("first"),
        EscPosCommand::NewLine,
        text("second"),
        EscPosCommand::SetEmphasis(true),
        EscPosCommand::CutPaper,
        text("third"),
        EscPosCommand::PrintImage(vec![0]),
    ];
    for c in commands.iter() {
        let before = lines(&state);
        state.process_command(c);
        let after = lines(&state);
        assert!(after.len() >= before.len());
        if let Some((last, init)) = before.split_last() {
            assert_eq!(&after[..init.len()], init);
            assert!(after[init.len()].starts_with(last.as_str()));
        }
    }
}

#[test]
fn clear_buffer_keeps_settings() {
    let mut state = PrinterState::new();
    state.process_command(&EscPosCommand::SetItalic(true));
    state.process_command(&text("abc"));
    state.clear_buffer();
    assert!(state.get_buffer().is_empty());
    assert!(state.italic);
    assert_eq!(state.calculate_total_height(), 0);
}

#[test]
fn widths_and_height() {
    let mut state = PrinterState::new();
    assert_eq!(state.get_paper_width_dots(), 640);
    assert_eq!(state.get_printing_width_dots(), 610);
    state.set_paper_width(PaperWidth::Width50mm);
    assert_eq!(state.get_printing_width_dots(), 354);
    state.process_command(&text("a"));
    state.process_command(&EscPosCommand::NewLine);
    state.process_command(&EscPosCommand::NewLine);
    assert_eq!(state.calculate_total_height(), 72);
    state.set_line_height(10);
    assert_eq!(state.calculate_total_height(), 30);
}

#[test]
fn rendered_receipt_is_a_white_page() {
    let mut state = PrinterState::new();
    state.set_paper_width(PaperWidth::Width50mm);
    state.process_command(&text("line one"));
    state.process_command(&EscPosCommand::NewLine);
    let image = state.render_receipt();
    assert_eq!(image.width(), 384);
    assert_eq!(image.height(), 48);
    assert_eq!(image.pixel(0, 0), (255, 255, 255));
    assert_eq!(image.pixel(383, 47), (255, 255, 255));
    assert_eq!(image.pixel(100, 20), (255, 255, 255));
    let empty = PrinterState::new().render_receipt();
    assert_eq!((empty.width(), empty.height()), (640, 0));
}

#[test]
fn parsed_stream_on_the_printer() {
    let mut parser = EscPosParser::new();
    let mut state = PrinterState::new();
    let bytes = b"\x1B@\x1Ba\x01SHOP\nItem 1\n\x1BE\x01Total\x1D\x56\x00";
    for c in parser.parse_stream(bytes).iter() {
        state.process_command(c);
    }
    assert_eq!(
        lines(&state),
        vec!["SHOP".to_string(), "Item 1".to_string(), "Total".to_string(), "-".repeat(80)]
    );
    assert_eq!(state.justification, Justification::Center);
    assert!(state.emphasis);
}
