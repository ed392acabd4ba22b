use escpos_emulator::commands::{EscPosCommand, Font, Justification};
use escpos_emulator::parser::{text_command, EscPosParser};

fn parse_all(bytes: &[u8]) -> Vec<EscPosCommand> {
    let mut parser = EscPosParser::new();
    parser.parse_stream(bytes)
}

fn esc(bytes: &[u8]) -> (Option<EscPosCommand>, usize) {
    EscPosParser::new().parse_esc_command(bytes)
}

fn gs(bytes: &[u8]) -> (Option<EscPosCommand>, usize) {
    EscPosParser::new().parse_gs_command(bytes)
}

#[test]
fn new_parser_is_empty_on_code_page_zero() {
    let parser = EscPosParser::new();
    assert_eq!(parser.pending_len(), 0);
    assert_eq!(parser.code_page(), 0);
    let parser = EscPosParser::default();
    assert_eq!(parser.pending_len(), 0);
    assert_eq!(parser.code_page(), 0);
}

#[test]
fn esc_simple_commands() {
    assert_eq!(esc(&[0x1B, b'@']), (Some(EscPosCommand::InitializePrinter), 2));
    assert_eq!(esc(&[0x1B, b'F']), (Some(EscPosCommand::SetEmphasis(false)), 2));
    assert_eq!(esc(&[0x1B, b'4']), (Some(EscPosCommand::SetItalic(true)), 2));
    assert_eq!(esc(&[0x1B, b'5']), (Some(EscPosCommand::SetItalic(false)), 2));
    assert_eq!(esc(&[0x1B, b'm']), (Some(EscPosCommand::CutPaper), 2));
    assert_eq!(esc(&[0x1B, b'i']), (Some(EscPosCommand::CutPaper), 2));
}

#[test]
fn esc_commands_with_argument() {
    assert_eq!(esc(&[0x1B, b'M', 0]), (Some(EscPosCommand::SetFont(Font::FontA)), 3));
    assert_eq!(esc(&[0x1B, b'M', 1]), (Some(EscPosCommand::SetFont(Font::FontB)), 3));
    assert_eq!(esc(&[0x1B, b'M', 2]), (Some(EscPosCommand::SetFont(Font::FontC)), 3));
    assert_eq!(esc(&[0x1B, b'M', 7]), (Some(EscPosCommand::SetFont(Font::FontA)), 3));
    assert_eq!(esc(&[0x1B, b'a', 0]), (Some(EscPosCommand::SetJustification(Justification::Left)), 3));
    assert_eq!(esc(&[0x1B, b'a', 1]), (Some(EscPosCommand::SetJustification(Justification::Center)), 3));
    assert_eq!(esc(&[0x1B, b'a', 2]), (Some(EscPosCommand::SetJustification(Justification::Right)), 3));
    assert_eq!(esc(&[0x1B, b'a', 9]), (Some(EscPosCommand::SetJustification(Justification::Left)), 3));
    assert_eq!(esc(&[0x1B, b'E', 1]), (Some(EscPosCommand::SetEmphasis(true)), 3));
    assert_eq!(esc(&[0x1B, b'E', 0]), (Some(EscPosCommand::SetEmphasis(false)), 3));
    assert_eq!(esc(&[0x1B, b'-', 2]), (Some(EscPosCommand::SetUnderline(true)), 3));
    assert_eq!(esc(&[0x1B, b'-', 0]), (Some(EscPosCommand::SetUnderline(false)), 3));
    assert_eq!(esc(&[0x1B, b'3', 40]), (Some(EscPosCommand::SetLineHeight(40)), 3));
    assert_eq!(esc(&[0x1B, b'!', 16]), (Some(EscPosCommand::SetFontSize(16)), 3));
    assert_eq!(esc(&[0x1B, b't', 16]), (Some(EscPosCommand::SetCodePage(16)), 3));
    assert_eq!(esc(&[0x1B, b'J', 5]), (Some(EscPosCommand::LineFeed), 3));
}

#[test]
fn esc_commands_wait_for_their_argument() {
    for op in [b'M', b'a', b'E', b'-', b'3', b'!', b't', b'J'] {
        assert_eq!(esc(&[0x1B, op]), (None, 0));
    }
    assert_eq!(esc(&[0x1B]), (None, 0));
    assert_eq!(esc(&[]), (None, 0));
}

#[test]
fn esc_unknown_command() {
    assert_eq!(esc(&[0x1B, b'Z', 1]), (Some(EscPosCommand::Unknown(vec![0x1B, b'Z'])), 2));
}

#[test]
fn esc_raster_image() {
    // width 8, height 8: 64 / 8 = 8 payload bytes
    let mut data = vec![0x1B, b'*', 0, 8, 0, 8];
    let payload: Vec<u8> = (1..=8).collect();
    data.extend_from_slice(&payload);
    data.push(0xAA);
    assert_eq!(esc(&data), (Some(EscPosCommand::PrintImage(payload)), 14));
    // payload not all there yet
    assert_eq!(esc(&[0x1B, b'*', 0, 8, 0, 8, 1, 2]), (None, 0));
    // header not all there yet
    assert_eq!(esc(&[0x1B, b'*', 0, 8, 0]), (None, 0));
    // width 256, height 256: the 16-bit product wraps to 0
    assert_eq!(esc(&[0x1B, b'*', 1, 0, 1, 0]), (Some(EscPosCommand::PrintImage(vec![])), 6));
    // width 0x0100 height 0x0003: 768 / 8 = 96
    let mut big = vec![0x1B, b'*', 1, 0, 0, 3];
    big.extend(std::iter::repeat(7u8).take(96));
    assert_eq!(esc(&big), (Some(EscPosCommand::PrintImage(vec![7u8; 96])), 102));
}

#[test]
fn gs_commands() {
    for m in [0u8, 1, 48, 49] {
        assert_eq!(gs(&[0x1D, b'V', m]), (Some(EscPosCommand::CutPaper), 3));
    }
    assert_eq!(gs(&[0x1D, b'V', 65, 3]), (Some(EscPosCommand::CutPaper), 4));
    assert_eq!(gs(&[0x1D, b'V', 66, 0]), (Some(EscPosCommand::CutPaper), 4));
    assert_eq!(gs(&[0x1D, b'V', 65]), (None, 0));
    assert_eq!(gs(&[0x1D, b'V']), (None, 0));
    assert_eq!(gs(&[0x1D, b'V', 7]), (Some(EscPosCommand::Unknown(vec![0x1D, b'V', 7])), 3));
    assert_eq!(gs(&[0x1D, b'!', 0]), (Some(EscPosCommand::Unknown(vec![0x1D, b'!'])), 2));
    assert_eq!(gs(&[0x1D]), (None, 0));
}

#[test]
fn stream_text_and_line_ends() {
    let commands = parse_all(b"Hello\r\nWorld\n");
    assert_eq!(
        commands,
        vec![
            EscPosCommand::Text("Hello".to_string()),
            EscPosCommand::CarriageReturn,
            EscPosCommand::NewLine,
            EscPosCommand::Text("World".to_string()),
            EscPosCommand::NewLine,
        ]
    );
}

#[test]
fn stream_mixed_commands() {
    let mut bytes = vec![0x1B, b'@', 0x1B, b'a', 1, 0x1B, b'E', 1];
    bytes.extend_from_slice(b"TOTAL");
    bytes.extend_from_slice(&[0x0A, 0x1D, b'V', 0]);
    let mut parser = EscPosParser::new();
    let commands = parser.parse_stream(&bytes);
    assert_eq!(
        commands,
        vec![
            EscPosCommand::InitializePrinter,
            EscPosCommand::SetJustification(Justification::Center),
            EscPosCommand::SetEmphasis(true),
            EscPosCommand::Text("TOTAL".to_string()),
            EscPosCommand::NewLine,
            EscPosCommand::CutPaper,
        ]
    );
    assert_eq!(parser.pending_len(), 0);
}

#[test]
fn incomplete_command_waits_for_more_data() {
    let mut parser = EscPosParser::new();
    let first = parser.parse_stream(b"AB\x1B");
    assert_eq!(first, vec![EscPosCommand::Text("AB".to_string())]);
    assert_eq!(parser.pending_len(), 1);
    let second = parser.parse_stream(b"a");
    assert_eq!(second, vec![]);
    assert_eq!(parser.pending_len(), 2);
    let third = parser.parse_stream(&[2, b'x']);
    assert_eq!(
        third,
        vec![EscPosCommand::SetJustification(Justification::Right), EscPosCommand::Text("x".to_string())]
    );
    assert_eq!(parser.pending_len(), 0);
}

#[test]
fn incomplete_gs_and_image_wait_for_more_data() {
    let mut parser = EscPosParser::new();
    assert_eq!(parser.parse_stream(&[0x1D, b'V', 65]), vec![]);
    assert_eq!(parser.pending_len(), 3);
    assert_eq!(parser.parse_stream(&[0]), vec![EscPosCommand::CutPaper]);
    assert_eq!(parser.pending_len(), 0);

    // an image payload may hold line feeds and escape bytes
    assert_eq!(parser.parse_stream(&[0x1B, b'*', 0, 4, 0, 4, 0x0A]), vec![]);
    assert_eq!(parser.pending_len(), 7);
    assert_eq!(parser.parse_stream(&[0x1B]), vec![EscPosCommand::PrintImage(vec![0x0A, 0x1B])]);
    assert_eq!(parser.pending_len(), 0);
}

#[test]
fn pending_bytes_are_an_incomplete_command() {
    let mut parser = EscPosParser::new();
    parser.parse_stream(b"line\n\x1B*\x00");
    assert_eq!(parser.pending_len(), 3);
    let mut parser = EscPosParser::new();
    parser.parse_stream(b"x\x1D");
    assert_eq!(parser.pending_len(), 1);
}

#[test]
fn code_page_16_decodes_windows_1252() {
    let mut parser = EscPosParser::new();
    let commands = parser.parse_stream(&[0x1B, b't', 16, b'1', 0xBD, b' ', b'c', b'a', b'f', 0xE9, 0x0A]);
    assert_eq!(
        commands,
        vec![EscPosCommand::SetCodePage(16), EscPosCommand::Text("1½ café".to_string()), EscPosCommand::NewLine]
    );
    assert_eq!(parser.code_page(), 16);
    // the euro sign sits at 0x80 in Windows-1252
    assert_eq!(parser.parse_stream(&[0x80]), vec![EscPosCommand::Text("€".to_string())]);
}

#[test]
fn other_code_pages_decode_lossy_utf8() {
    let commands = parse_all("café".as_bytes());
    assert_eq!(commands, vec![EscPosCommand::Text("café".to_string())]);
    let commands = parse_all(&[b'a', 0xE9, b'b']);
    assert_eq!(commands, vec![EscPosCommand::Text("a\u{FFFD}b".to_string())]);
    let mut parser = EscPosParser::new();
    let commands = parser.parse_stream(&[0x1B, b't', 2, 0xBD]);
    assert_eq!(commands, vec![EscPosCommand::SetCodePage(2), EscPosCommand::Text("\u{FFFD}".to_string())]);
}

#[test]
fn text_that_decodes_to_nothing_gives_no_command() {
    // a UTF-8 byte-order mark alone decodes to empty text under code page 16
    let mut parser = EscPosParser::new();
    let commands = parser.parse_stream(&[0x1B, b't', 16, 0xEF, 0xBB, 0xBF, 0x0A]);
    assert_eq!(commands, vec![EscPosCommand::SetCodePage(16), EscPosCommand::NewLine]);
}

#[test]
fn code_page_is_the_last_one_selected() {
    let mut parser = EscPosParser::new();
    parser.parse_stream(&[0x1B, b't', 16, b'a', 0x1B, b't', 3, 0x0A, 0x1B, b't', 5]);
    assert_eq!(parser.code_page(), 5);
    parser.parse_stream(b"no change\n");
    assert_eq!(parser.code_page(), 5);
}

#[test]
fn splitting_after_a_line_end_changes_nothing() {
    let a: &[u8] = b"\x1B@Head\x1B!\x10line\n";
    let b: &[u8] = b"Tail\x1Bm\r";
    let mut whole = EscPosParser::new();
    let mut joined = a.to_vec();
    joined.extend_from_slice(b);
    let at_once = whole.parse_stream(&joined);

    let mut split = EscPosParser::new();
    let mut in_two = split.parse_stream(a);
    assert_eq!(split.pending_len(), 0);
    in_two.extend(split.parse_stream(b));
    assert_eq!(at_once, in_two);
    assert_eq!(whole.pending_len(), split.pending_len());
    assert_eq!(whole.code_page(), split.code_page());
}

#[test]
fn clone_keeps_pending_bytes_and_code_page() {
    let mut parser = EscPosParser::new();
    parser.parse_stream(&[0x1B, b't', 16, 0x1B]);
    let mut copy = parser.clone();
    assert_eq!(copy.pending_len(), 1);
    assert_eq!(copy.code_page(), 16);
    assert_eq!(copy.parse_stream(b"@"), vec![EscPosCommand::InitializePrinter]);
    assert_eq!(parser.parse_stream(b"@"), vec![EscPosCommand::InitializePrinter]);
}

#[test]
fn text_command_of_decoded_text() {
    assert_eq!(text_command("abc".to_string()), Some(EscPosCommand::Text("abc".to_string())));
    assert_eq!(text_command(String::new()), None);
}

#[test]
fn splitting_after_a_complete_command_or_with_bytes_pending_changes_nothing() {
    let cases: Vec<(&[u8], &[u8])> = vec![
        (b"ab\x1BE\x01", b"cd\n"),
        (b"ab\x1B", b"E\x01cd"),
        (b"x\x1D\x56", b"\x41\x00y"),
        (b"\x1B*\x00\x08\x00\x08\x01\x02", b"\x03\x04\x05\x06\x07\x08z"),
        (b"", b"anything\x1B@"),
    ];
    for (a, b) in cases {
        let mut whole = EscPosParser::new();
        let mut joined = a.to_vec();
        joined.extend_from_slice(b);
        let at_once = whole.parse_stream(&joined);
        let mut split = EscPosParser::new();
        let mut in_two = split.parse_stream(a);
        in_two.extend(split.parse_stream(b));
        assert_eq!(at_once, in_two);
        assert_eq!(whole.pending_len(), split.pending_len());
        assert_eq!(whole.code_page(), split.code_page());
    }
}

#[test]
fn splitting_inside_text_gives_two_texts() {
    let mut whole = EscPosParser::new();
    assert_eq!(whole.parse_stream(b"AB"), vec![EscPosCommand::Text("AB".to_string())]);
    let mut split = EscPosParser::new();
    let mut in_two = split.parse_stream(b"A");
    in_two.extend(split.parse_stream(b"B"));
    assert_eq!(in_two, vec![EscPosCommand::Text("A".to_string()), EscPosCommand::Text("B".to_string())]);
}

#[test]
fn commands_clone_equal() {
    let commands = vec![
        EscPosCommand::Text("x".to_string()),
        EscPosCommand::PrintImage(vec![1, 2]),
        EscPosCommand::Unknown(vec![0x1B, b'Z']),
        EscPosCommand::SetFont(Font::FontC),
        EscPosCommand::SetCodePage(16),
    ];
    for c in commands.iter() {
        assert_eq!(&c.clone(), c);
    }
}

#[test]
fn lone_byte_order_mark_on_code_page_16_is_the_one_split_that_changes_text() {
    // at once, FF FE switches the decoder to UTF-16LE: "A"
    let mut whole = EscPosParser::new();
    let at_once = whole.parse_stream(&[0x1B, b't', 16, 0xFF, 0xFE, 0x41, 0x00]);
    assert_eq!(at_once, vec![EscPosCommand::SetCodePage(16), EscPosCommand::Text("A".to_string())]);
    // split after the mark: the mark alone decodes to nothing, then Windows-1252
    let mut split = EscPosParser::new();
    let mut in_two = split.parse_stream(&[0x1B, b't', 16, 0xFF, 0xFE]);
    assert_eq!(in_two, vec![EscPosCommand::SetCodePage(16)]);
    in_two.extend(split.parse_stream(&[0x41, 0x00]));
    assert_eq!(in_two, vec![EscPosCommand::SetCodePage(16), EscPosCommand::Text("A\u{0}".to_string())]);
}

#[test]
fn splitting_after_commands_that_do_not_end_in_text() {
    // on code page 0 text never decodes to nothing, so a first part whose
    // commands end in anything but text can be split off
    let cases: Vec<(&[u8], &[u8])> = vec![(b"\x1B@", b"ab"), (b"ab\x1B!\x0c", b"cd"), (b"", b"xy")];
    for (a, b) in cases {
        let mut whole = EscPosParser::new();
        let mut joined = a.to_vec();
        joined.extend_from_slice(b);
        let at_once = whole.parse_stream(&joined);
        let mut split = EscPosParser::new();
        let mut in_two = split.parse_stream(a);
        assert!(!matches!(in_two.last(), Some(EscPosCommand::Text(_))));
        in_two.extend(split.parse_stream(b));
        assert_eq!(at_once, in_two);
    }
}
