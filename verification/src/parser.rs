//! The streaming ESC/POS parser.
use vstd::prelude::*;

use crate::commands::{views, CommandView, EscPosCommand, Font, Justification};
use crate::decode::{
    decode_utf8_lossy, decode_windows_1252, is_byte_order_mark, utf8_lossy_decode, windows_1252_decode,
};

verus! {

/// The escape byte that starts an `ESC` command.
pub const ESC: u8 = 0x1B;
/// The byte that starts a `GS` command.
pub const GS: u8 = 0x1D;
/// Line feed.
pub const LF: u8 = 0x0A;
/// Carriage return.
pub const CR: u8 = 0x0D;
/// The code page (`ESC t 16`) whose text is decoded as Windows-1252.
pub const CODE_PAGE_WINDOWS_1252: u8 = 16;

/// Font chosen by the argument of `ESC M n`; unknown values select font A.
pub open spec fn font_from_byte(n: u8) -> Font {
    if n == 1 {
        Font::FontB
    } else if n == 2 {
        Font::FontC
    } else {
        Font::FontA
    }
}

/// Justification chosen by the argument of `ESC a n`; unknown values select left.
pub open spec fn justification_from_byte(n: u8) -> Justification {
    if n == 1 {
        Justification::Center
    } else if n == 2 {
        Justification::Right
    } else {
        Justification::Left
    }
}

/// Number of payload bytes of a raster image `ESC * wH wL hH hL`: the
/// big-endian width times the big-endian height, taken modulo 2^16 as the
/// 16-bit product is, divided by eight.
pub open spec fn raster_len(wh: u8, wl: u8, hh: u8, hl: u8) -> int {
    let width = wh * 256 + wl;
    let height = hh * 256 + hl;
    ((width * height) % 0x10000) / 8
}

/// The command that an `ESC` sequence at the start of `data` stands for and
/// the number of bytes it takes; `None` when more bytes are needed.
pub open spec fn esc_spec(data: Seq<u8>) -> Option<(CommandView, int)> {
    if data.len() < 2 {
        None
    } else {
        let op = data[1];
        let has_arg = data.len() >= 3;
        if op == 0x40 {
            // ESC @
            Some((CommandView::InitializePrinter, 2))
        } else if op == 0x4D {
            // ESC M n
            if has_arg { Some((CommandView::SetFont(font_from_byte(data[2])), 3)) } else { None }
        } else if op == 0x61 {
            // ESC a n
            if has_arg {
                Some((CommandView::SetJustification(justification_from_byte(data[2])), 3))
            } else {
                None
            }
        } else if op == 0x45 {
            // ESC E n
            if has_arg { Some((CommandView::SetEmphasis(data[2] != 0), 3)) } else { None }
        } else if op == 0x46 {
            // ESC F
            Some((CommandView::SetEmphasis(false), 2))
        } else if op == 0x2D {
            // ESC - n
            if has_arg { Some((CommandView::SetUnderline(data[2] != 0), 3)) } else { None }
        } else if op == 0x34 {
            // ESC 4
            Some((CommandView::SetItalic(true), 2))
        } else if op == 0x35 {
            // ESC 5
            Some((CommandView::SetItalic(false), 2))
        } else if op == 0x33 {
            // ESC 3 n
            if has_arg { Some((CommandView::SetLineHeight(data[2] as u32), 3)) } else { None }
        } else if op == 0x21 {
            // ESC ! n
            if has_arg { Some((CommandView::SetFontSize(data[2] as u32), 3)) } else { None }
        } else if op == 0x74 {
            // ESC t n
            if has_arg { Some((CommandView::SetCodePage(data[2]), 3)) } else { None }
        } else if op == 0x6D || op == 0x69 {
            // ESC m, ESC i
            Some((CommandView::CutPaper, 2))
        } else if op == 0x4A {
            // ESC J n
            if has_arg { Some((CommandView::LineFeed, 3)) } else { None }
        } else if op == 0x2A {
            // ESC * wH wL hH hL data
            if data.len() >= 6 {
                let len = raster_len(data[2], data[3], data[4], data[5]);
                if data.len() >= 6 + len {
                    Some((CommandView::PrintImage(data.subrange(6, 6 + len)), 6 + len))
                } else {
                    None
                }
            } else {
                None
            }
        } else {
            Some((CommandView::Unknown(seq![ESC, op]), 2))
        }
    }
}

/// The command that a `GS` sequence at the start of `data` stands for and
/// the number of bytes it takes; `None` when more bytes are needed.
pub open spec fn gs_spec(data: Seq<u8>) -> Option<(CommandView, int)> {
    if data.len() < 2 {
        None
    } else if data[1] == 0x56 {
        // GS V m [n]
        if data.len() < 3 {
            None
        } else {
            let m = data[2];
            if m == 0 || m == 1 || m == 48 || m == 49 {
                Some((CommandView::CutPaper, 3))
            } else if m == 65 || m == 66 {
                if data.len() < 4 { None } else { Some((CommandView::CutPaper, 4)) }
            } else {
                Some((CommandView::Unknown(seq![GS, 0x56, m]), 3))
            }
        }
    } else {
        Some((CommandView::Unknown(seq![GS, data[1]]), 2))
    }
}

/// A result of a command parser matches the expected command and length;
/// an awaited command is `(None, 0)`.
pub open spec fn step_matches(
    res: (Option<EscPosCommand>, usize),
    expected: Option<(CommandView, int)>,
) -> bool {
    match expected {
        Some((command, consumed)) => {
            &&& res.0 is Some
            &&& res.0.unwrap()@ == command
            &&& res.1 == consumed
        },
        None => res.0 is None && res.1 == 0,
    }
}

/// A recognised command takes at least two bytes and no more than are there.
pub proof fn lemma_command_length(data: Seq<u8>)
    ensures
        esc_spec(data) matches Some((_, n)) ==> 2 <= n <= data.len(),
        gs_spec(data) matches Some((_, n)) ==> 2 <= n <= data.len(),
{
}

/// A recognised command depends only on its own bytes: bytes after it do
/// not change it.
pub proof fn lemma_command_prefix_stable(data: Seq<u8>, more: Seq<u8>)
    ensures
        esc_spec(data) is Some ==> esc_spec(data + more) == esc_spec(data),
        gs_spec(data) is Some ==> gs_spec(data + more) == gs_spec(data),
{
    let all = data + more;
    if data.len() >= 2 {
        assert(all[1] == data[1]);
        if data.len() >= 3 {
            assert(all[2] == data[2]);
        }
        if data.len() >= 6 {
            assert(all[3] == data[3]);
            assert(all[4] == data[4]);
            assert(all[5] == data[5]);
            let len = raster_len(data[2], data[3], data[4], data[5]);
            if data.len() >= 6 + len {
                assert(all.subrange(6, 6 + len) =~= data.subrange(6, 6 + len));
            }
        }
    }
}

/// Bytes that end a run of text: they start a command of their own.
pub open spec fn is_control(b: u8) -> bool {
    b == ESC || b == GS || b == LF || b == CR
}

/// The end of the run of text that starts at `i`: the first index at or
/// after `i` that holds a control byte, or the end of the buffer.
pub open spec fn text_end(buf: Seq<u8>, i: int) -> int
    decreases buf.len() - i,
{
    if 0 <= i < buf.len() && !is_control(buf[i]) {
        text_end(buf, i + 1)
    } else {
        i
    }
}

/// The text that a run of printable bytes decodes to under a code page:
/// Windows-1252 on code page 16, lossy UTF-8 on every other one.
pub open spec fn decode_spec(code_page: u8, bytes: Seq<u8>) -> Seq<char> {
    if code_page == CODE_PAGE_WINDOWS_1252 {
        windows_1252_decode(bytes)
    } else {
        utf8_lossy_decode(bytes)
    }
}

/// The text command for decoded text; empty text gives no command.
pub open spec fn text_command_spec(text: Seq<char>) -> Option<CommandView> {
    if text.len() > 0 {
        Some(CommandView::Text(text))
    } else {
        None
    }
}

/// The token that starts at index `i` of `buf`: the command it gives (if
/// any) and the index after it; `None` when the token is a command that
/// needs more bytes.
pub open spec fn token_at(buf: Seq<u8>, i: int, code_page: u8) -> Option<(Option<CommandView>, int)> {
    let b = buf[i];
    if b == LF {
        Some((Some(CommandView::NewLine), i + 1))
    } else if b == CR {
        Some((Some(CommandView::CarriageReturn), i + 1))
    } else if b == ESC {
        if i + 1 < buf.len() {
            match esc_spec(buf.subrange(i, buf.len() as int)) {
                Some((command, n)) => Some((Some(command), i + n)),
                None => None,
            }
        } else {
            None
        }
    } else if b == GS {
        if i + 1 < buf.len() {
            match gs_spec(buf.subrange(i, buf.len() as int)) {
                Some((command, n)) => Some((Some(command), i + n)),
                None => None,
            }
        } else {
            None
        }
    } else {
        let j = text_end(buf, i);
        Some((text_command_spec(decode_spec(code_page, buf.subrange(i, j))), j))
    }
}

/// The code page after a command: `ESC t n` selects page `n`.
pub open spec fn code_page_after(code_page: u8, command: Option<CommandView>) -> u8 {
    match command {
        Some(CommandView::SetCodePage(page)) => page,
        _ => code_page,
    }
}

/// The commands of an optional command, as a sequence.
pub open spec fn optional_seq(command: Option<CommandView>) -> Seq<CommandView> {
    match command {
        Some(c) => seq![c],
        None => Seq::empty(),
    }
}

/// Parsing `buf` from index `i` on code page `code_page`: the commands, the
/// index at which parsing stopped (the end of the buffer, or the start of a
/// command that needs more bytes) and the code page at that point.
pub open spec fn run(buf: Seq<u8>, i: int, code_page: u8) -> (Seq<CommandView>, int, u8)
    decreases buf.len() - i,
{
    if i < 0 || i >= buf.len() {
        (Seq::empty(), i, code_page)
    } else {
        proof {
            lemma_token_advances(buf, i, code_page);
        }
        match token_at(buf, i, code_page) {
            None => (Seq::empty(), i, code_page),
            Some((command, j)) => {
                let rest = run(buf, j, code_page_after(code_page, command));
                (optional_seq(command) + rest.0, rest.1, rest.2)
            },
        }
    }
}

/// A run of text ends after its start when it starts with a printable byte,
/// and never past the end of the buffer.
pub proof fn lemma_text_end_bounds(buf: Seq<u8>, i: int)
    requires
        0 <= i <= buf.len(),
    ensures
        i <= text_end(buf, i) <= buf.len(),
        i < buf.len() && !is_control(buf[i]) ==> i < text_end(buf, i),
        text_end(buf, i) < buf.len() ==> is_control(buf[text_end(buf, i)]),
        forall|k: int| i <= k < text_end(buf, i) ==> !is_control(#[trigger] buf[k]),
    decreases buf.len() - i,
{
    if i < buf.len() && !is_control(buf[i]) {
        lemma_text_end_bounds(buf, i + 1);
    }
}

/// Every token moves forward and stays inside the buffer.
pub proof fn lemma_token_advances(buf: Seq<u8>, i: int, code_page: u8)
    requires
        0 <= i < buf.len(),
    ensures
        token_at(buf, i, code_page) matches Some((_, j)) ==> i < j <= buf.len(),
{
    lemma_text_end_bounds(buf, i);
    lemma_command_length(buf.subrange(i, buf.len() as int));
}

/// Parsing stops inside the buffer.
pub proof fn lemma_run_bounds(buf: Seq<u8>, i: int, code_page: u8)
    requires
        0 <= i <= buf.len(),
    ensures
        i <= run(buf, i, code_page).1 <= buf.len(),
    decreases buf.len() - i,
{
    if i < buf.len() {
        lemma_token_advances(buf, i, code_page);
        if let Some((command, j)) = token_at(buf, i, code_page) {
            lemma_run_bounds(buf, j, code_page_after(code_page, command));
        }
    }
}

/// The bytes left after parsing are nothing, or a command that needs more
/// bytes: an `ESC` or `GS` sequence that is not complete yet.
pub open spec fn awaits_more(rest: Seq<u8>) -> bool {
    ||| rest.len() == 0
    ||| rest[0] == ESC && esc_spec(rest) is None
    ||| rest[0] == GS && gs_spec(rest) is None
}

/// Parsing stops only at the end of the bytes or at a command that is not
/// complete yet; it never leaves text, a line feed or a complete command
/// behind.
pub proof fn lemma_parse_stops_at_incomplete_command(buf: Seq<u8>, i: int, code_page: u8)
    requires
        0 <= i <= buf.len(),
    ensures
        awaits_more(buf.skip(run(buf, i, code_page).1)),
    decreases buf.len() - i,
{
    if i < buf.len() {
        lemma_token_advances(buf, i, code_page);
        match token_at(buf, i, code_page) {
            Some((command, j)) => {
                lemma_parse_stops_at_incomplete_command(buf, j, code_page_after(code_page, command));
            },
            None => {
                let rest = buf.skip(i);
                assert(rest =~= buf.subrange(i, buf.len() as int));
                assert(rest[0] == buf[i]);
                if i + 1 < buf.len() {
                    assert(rest[1] == buf[i + 1]);
                }
            },
        }
    } else {
        assert(buf.skip(i).len() == 0);
    }
}

/// The code page after a sequence of commands: each `ESC t n` selects page
/// `n`, so the last one wins; with none, the page stays.
pub open spec fn code_page_after_all(commands: Seq<CommandView>, code_page: u8) -> u8
    decreases commands.len(),
{
    if commands.len() == 0 {
        code_page
    } else {
        code_page_after_all(commands.drop_first(), code_page_after(code_page, Some(commands[0])))
    }
}

/// The parser's code page after parsing is the one that the commands it
/// returned select, in order, starting from the code page it had.
pub proof fn lemma_code_page_follows_commands(buf: Seq<u8>, i: int, code_page: u8)
    requires
        0 <= i <= buf.len(),
    ensures
        run(buf, i, code_page).2 == code_page_after_all(run(buf, i, code_page).0, code_page),
    decreases buf.len() - i,
{
    if i < buf.len() {
        lemma_token_advances(buf, i, code_page);
        if let Some((command, j)) = token_at(buf, i, code_page) {
            let next = code_page_after(code_page, command);
            lemma_code_page_follows_commands(buf, j, next);
            let rest = run(buf, j, next).0;
            match command {
                Some(c) => {
                    assert((seq![c] + rest).drop_first() =~= rest);
                },
                None => {
                    assert(optional_seq(command) + rest =~= rest);
                },
            }
        }
    }
}

/// A run of text in bytes placed after other bytes ends at the same place,
/// shifted by their length.
proof fn lemma_text_end_shift(a: Seq<u8>, b: Seq<u8>, k: int)
    requires
        0 <= k <= b.len(),
    ensures
        text_end(a + b, a.len() + k) == a.len() + text_end(b, k),
    decreases b.len() - k,
{
    let all = a + b;
    if k < b.len() {
        assert(all[a.len() + k] == b[k]);
        lemma_text_end_shift(a, b, k + 1);
    }
}

/// A run of text that ends before a control byte of `a` ends at the same
/// place when more bytes follow `a`.
proof fn lemma_text_end_prefix(a: Seq<u8>, b: Seq<u8>, i: int, m: int)
    requires
        0 <= i <= m < a.len(),
        is_control(a[m]),
    ensures
        text_end(a + b, i) == text_end(a, i),
    decreases a.len() - i,
{
    let all = a + b;
    assert(all[i] == a[i]);
    if i < m && !is_control(a[i]) {
        lemma_text_end_prefix(a, b, i + 1, m);
    }
}

/// Parsing bytes placed after other bytes gives what parsing them alone
/// gives, with the stopping index shifted.
proof fn lemma_run_shift(a: Seq<u8>, b: Seq<u8>, k: int, code_page: u8)
    requires
        0 <= k <= b.len(),
    ensures
        run(a + b, a.len() + k, code_page) == (
            run(b, k, code_page).0,
            a.len() + run(b, k, code_page).1,
            run(b, k, code_page).2,
        ),
    decreases b.len() - k,
{
    let all = a + b;
    let i = a.len() + k;
    if k < b.len() {
        assert(all[i] == b[k]);
        assert(all.subrange(i, all.len() as int) =~= b.subrange(k, b.len() as int));
        lemma_text_end_shift(a, b, k);
        lemma_text_end_bounds(b, k);
        assert(all.subrange(i, text_end(all, i)) =~= b.subrange(k, text_end(b, k)));
        lemma_command_length(b.subrange(k, b.len() as int));
        assert(token_at(all, i, code_page) == match token_at(b, k, code_page) {
            Some((c, j)) => Some((c, a.len() + j)),
            None => None,
        });
        lemma_token_advances(b, k, code_page);
        if let Some((command, j)) = token_at(b, k, code_page) {
            lemma_run_shift(a, b, j, code_page_after(code_page, command));
        }
    }
}

/// Parsing from `i` ends with a run of text that reaches the end of the
/// bytes, so that bytes appended later would lengthen that run.
pub open spec fn ends_in_open_text(buf: Seq<u8>, i: int, code_page: u8) -> bool
    decreases buf.len() - i,
{
    if i < 0 || i >= buf.len() {
        false
    } else {
        proof {
            lemma_token_advances(buf, i, code_page);
        }
        match token_at(buf, i, code_page) {
            None => false,
            Some((command, j)) => {
                if !is_control(buf[i]) && j == buf.len() {
                    true
                } else {
                    ends_in_open_text(buf, j, code_page_after(code_page, command))
                }
            },
        }
    }
}

/// Parsing can end in open text only when it takes all the bytes and the
/// last byte is printable: bytes that end in a line feed, carriage return,
/// escape or GS byte, or that leave a command pending, never end in open text.
pub proof fn lemma_open_text_needs_printable_end(buf: Seq<u8>, i: int, code_page: u8)
    requires
        0 <= i <= buf.len(),
        ends_in_open_text(buf, i, code_page),
    ensures
        run(buf, i, code_page).1 == buf.len(),
        buf.len() > 0,
        !is_control(buf.last()),
    decreases buf.len() - i,
{
    lemma_token_advances(buf, i, code_page);
    let (command, j) = token_at(buf, i, code_page).unwrap();
    if !is_control(buf[i]) && j == buf.len() {
        lemma_text_end_bounds(buf, i);
        let next = code_page_after(code_page, command);
        assert(run(buf, j, next).1 == j);
        assert(!is_control(buf[buf.len() - 1]));
    } else {
        lemma_open_text_needs_printable_end(buf, j, code_page_after(code_page, command));
    }
}

/// Parsing from `i` ends with a run of text that reaches the end of the
/// bytes and decodes to no text at all, so that it gives no command.
pub open spec fn ends_in_empty_text(buf: Seq<u8>, i: int, code_page: u8) -> bool
    decreases buf.len() - i,
{
    if i < 0 || i >= buf.len() {
        false
    } else {
        proof {
            lemma_token_advances(buf, i, code_page);
        }
        match token_at(buf, i, code_page) {
            None => false,
            Some((command, j)) => {
                if !is_control(buf[i]) && j == buf.len() {
                    decode_spec(code_page, buf.subrange(i, j)).len() == 0
                } else {
                    ends_in_empty_text(buf, j, code_page_after(code_page, command))
                }
            },
        }
    }
}

/// Parsing that ends in open text that decodes to something ends with a
/// text command.
pub proof fn lemma_open_text_gives_last_text(buf: Seq<u8>, i: int, code_page: u8)
    requires
        0 <= i <= buf.len(),
        ends_in_open_text(buf, i, code_page),
        !ends_in_empty_text(buf, i, code_page),
    ensures
        run(buf, i, code_page).0.len() > 0,
        run(buf, i, code_page).0.last() is Text,
    decreases buf.len() - i,
{
    lemma_token_advances(buf, i, code_page);
    let (command, j) = token_at(buf, i, code_page).unwrap();
    let next = code_page_after(code_page, command);
    if !is_control(buf[i]) && j == buf.len() {
        assert(run(buf, j, next).0 == Seq::<CommandView>::empty());
        assert(optional_seq(command) + run(buf, j, next).0 =~= optional_seq(command));
    } else {
        lemma_open_text_gives_last_text(buf, j, next);
        let rest = run(buf, j, next).0;
        assert((optional_seq(command) + rest).last() == rest.last());
    }
}

/// Parsing `a + b` from `i`, when parsing `a` from `i` does not end in open
/// text: the commands of `a` come first, then parsing goes on at the index
/// where parsing `a` stopped, on the code page it left.
proof fn lemma_run_prefix(a: Seq<u8>, b: Seq<u8>, i: int, code_page: u8)
    requires
        0 <= i <= a.len(),
        !ends_in_open_text(a, i, code_page),
    ensures
        ({
            let first = run(a, i, code_page);
            let rest = run(a + b, first.1, first.2);
            run(a + b, i, code_page) == (first.0 + rest.0, rest.1, rest.2)
        }),
    decreases a.len() - i,
{
    let all = a + b;
    let first = run(a, i, code_page);
    if i == a.len() || token_at(a, i, code_page) is None {
        assert(first.0 + run(all, i, code_page).0 =~= run(all, i, code_page).0);
    } else {
        lemma_token_advances(a, i, code_page);
        let (command, j) = token_at(a, i, code_page).unwrap();
        assert(all[i] == a[i]);
        // the token at i is the same in `a` and in `a + b`
        if a[i] == ESC || a[i] == GS {
            let tail = a.subrange(i, a.len() as int);
            assert(all.subrange(i, all.len() as int) =~= tail + b);
            lemma_command_prefix_stable(tail, b);
        } else if a[i] != LF && a[i] != CR {
            lemma_text_end_bounds(a, i);
            assert(j < a.len());
            lemma_text_end_prefix(a, b, i, j);
            assert(all.subrange(i, text_end(a, i)) =~= a.subrange(i, text_end(a, i)));
        }
        assert(token_at(all, i, code_page) == token_at(a, i, code_page));
        let next = code_page_after(code_page, command);
        lemma_run_prefix(a, b, j, next);
        let rest = run(all, run(a, j, next).1, run(a, j, next).2);
        assert(optional_seq(command) + run(a, j, next).0 + rest.0 =~= optional_seq(command) + (run(a, j, next).0 + rest.0));
    }
}

/// Splitting the input between two calls of `parse_stream` changes nothing,
/// unless the first call ends in a run of text that reaches the end of its
/// bytes: a parser with `pending` bytes on `code_page` that is given `a` and
/// then `b` returns, in all, the commands that it returns when given `a + b`
/// at once, and is left with the same pending bytes and code page.
/// (With `a = "A"` and `b = "B"` the first call ends in open text, and the
/// two calls give two texts where one call gives one.)
pub proof fn lemma_split_input(pending: Seq<u8>, a: Seq<u8>, b: Seq<u8>, code_page: u8)
    requires
        !ends_in_open_text(pending + a, 0, code_page),
    ensures
        ({
            let first = run(pending + a, 0, code_page);
            let kept = (pending + a).skip(first.1);
            let second = run(kept + b, 0, first.2);
            let whole = run(pending + (a + b), 0, code_page);
            &&& whole.0 == first.0 + second.0
            &&& (pending + (a + b)).skip(whole.1) == (kept + b).skip(second.1)
            &&& whole.2 == second.2
        }),
{
    let buf = pending + a;
    let first = run(buf, 0, code_page);
    let k = first.1;
    lemma_run_bounds(buf, 0, code_page);
    assert(pending + (a + b) =~= buf + b);
    lemma_run_prefix(buf, b, 0, code_page);
    let kept = buf.skip(k);
    let done = buf.take(k);
    assert(buf + b =~= done + (kept + b));
    lemma_run_shift(done, kept + b, 0, first.2);
    let second = run(kept + b, 0, first.2);
    lemma_run_bounds(kept + b, 0, first.2);
    assert((buf + b).skip(k + second.1) =~= (kept + b).skip(second.1));
}

/// Splitting the input between two calls of `parse_stream` after a part
/// whose commands are none or do not end in text changes nothing, unless
/// that part ends in a run of text that decodes to nothing (which
/// `parse_stream` shows can only be a lone byte-order mark on code page 16:
/// split after `FF FE` on that page, `41 00` then reads as Windows-1252
/// where at once it reads as UTF-16).
pub proof fn lemma_split_input_after_non_text(pending: Seq<u8>, a: Seq<u8>, b: Seq<u8>, code_page: u8)
    requires
        run(pending + a, 0, code_page).0.len() == 0 || !(run(pending + a, 0, code_page).0.last() is Text),
        !ends_in_empty_text(pending + a, 0, code_page),
    ensures
        ({
            let first = run(pending + a, 0, code_page);
            let kept = (pending + a).skip(first.1);
            let second = run(kept + b, 0, first.2);
            let whole = run(pending + (a + b), 0, code_page);
            &&& whole.0 == first.0 + second.0
            &&& (pending + (a + b)).skip(whole.1) == (kept + b).skip(second.1)
            &&& whole.2 == second.2
        }),
{
    if ends_in_open_text(pending + a, 0, code_page) {
        lemma_open_text_gives_last_text(pending + a, 0, code_page);
    }
    lemma_split_input(pending, a, b, code_page);
}

/// What each `ESC` command's bytes stand for, stated on the bytes: the
/// command and the number of bytes it takes, whatever follows it.
pub proof fn lemma_esc_command_bytes(n: u8, rest: Seq<u8>)
    ensures
        esc_spec(seq![0x1Bu8, 0x40u8] + rest) == Some((CommandView::InitializePrinter, 2int)),
        esc_spec(seq![0x1Bu8, 0x4Du8, n] + rest) == Some((
            CommandView::SetFont(
                if n == 1 {
                    Font::FontB
                } else if n == 2 {
                    Font::FontC
                } else {
                    Font::FontA
                },
            ),
            3int,
        )),
        esc_spec(seq![0x1Bu8, 0x61u8, n] + rest) == Some((
            CommandView::SetJustification(
                if n == 1 {
                    Justification::Center
                } else if n == 2 {
                    Justification::Right
                } else {
                    Justification::Left
                },
            ),
            3int,
        )),
        esc_spec(seq![0x1Bu8, 0x45u8, n] + rest) == Some((CommandView::SetEmphasis(n != 0), 3int)),
        esc_spec(seq![0x1Bu8, 0x46u8] + rest) == Some((CommandView::SetEmphasis(false), 2int)),
        esc_spec(seq![0x1Bu8, 0x2Du8, n] + rest) == Some((CommandView::SetUnderline(n != 0), 3int)),
        esc_spec(seq![0x1Bu8, 0x34u8] + rest) == Some((CommandView::SetItalic(true), 2int)),
        esc_spec(seq![0x1Bu8, 0x35u8] + rest) == Some((CommandView::SetItalic(false), 2int)),
        esc_spec(seq![0x1Bu8, 0x33u8, n] + rest) == Some((CommandView::SetLineHeight(n as u32), 3int)),
        esc_spec(seq![0x1Bu8, 0x21u8, n] + rest) == Some((CommandView::SetFontSize(n as u32), 3int)),
        esc_spec(seq![0x1Bu8, 0x74u8, n] + rest) == Some((CommandView::SetCodePage(n), 3int)),
        esc_spec(seq![0x1Bu8, 0x6Du8] + rest) == Some((CommandView::CutPaper, 2int)),
        esc_spec(seq![0x1Bu8, 0x69u8] + rest) == Some((CommandView::CutPaper, 2int)),
        esc_spec(seq![0x1Bu8, 0x4Au8, n] + rest) == Some((CommandView::LineFeed, 3int)),
{
    let cases = seq![
        seq![0x1Bu8, 0x40u8], seq![0x1Bu8, 0x4Du8, n], seq![0x1Bu8, 0x61u8, n], seq![0x1Bu8, 0x45u8, n],
        seq![0x1Bu8, 0x46u8], seq![0x1Bu8, 0x2Du8, n], seq![0x1Bu8, 0x34u8], seq![0x1Bu8, 0x35u8],
        seq![0x1Bu8, 0x33u8, n], seq![0x1Bu8, 0x21u8, n], seq![0x1Bu8, 0x74u8, n], seq![0x1Bu8, 0x6Du8],
        seq![0x1Bu8, 0x69u8], seq![0x1Bu8, 0x4Au8, n]
    ];
    assert forall|k: int| 0 <= k < cases.len() implies {
        let all = #[trigger] cases[k] + rest;
        &&& all[0] == cases[k][0]
        &&& all[1] == cases[k][1]
        &&& cases[k].len() == 3 ==> all[2] == cases[k][2]
        &&& all.len() >= cases[k].len()
    } by {}
    assert(cases[0] == seq![0x1Bu8, 0x40u8]);
    assert(cases[1] == seq![0x1Bu8, 0x4Du8, n]);
    assert(cases[2] == seq![0x1Bu8, 0x61u8, n]);
    assert(cases[3] == seq![0x1Bu8, 0x45u8, n]);
    assert(cases[4] == seq![0x1Bu8, 0x46u8]);
    assert(cases[5] == seq![0x1Bu8, 0x2Du8, n]);
    assert(cases[6] == seq![0x1Bu8, 0x34u8]);
    assert(cases[7] == seq![0x1Bu8, 0x35u8]);
    assert(cases[8] == seq![0x1Bu8, 0x33u8, n]);
    assert(cases[9] == seq![0x1Bu8, 0x21u8, n]);
    assert(cases[10] == seq![0x1Bu8, 0x74u8, n]);
    assert(cases[11] == seq![0x1Bu8, 0x6Du8]);
    assert(cases[12] == seq![0x1Bu8, 0x69u8]);
    assert(cases[13] == seq![0x1Bu8, 0x4Au8, n]);
}

/// `ESC` commands that take an argument wait for it; an `ESC` followed by
/// any other byte than those of the known commands is an unknown
/// two-byte command.
pub proof fn lemma_esc_waits_and_unknown(op: u8, rest: Seq<u8>)
    ensures
        (op == 0x4D || op == 0x61 || op == 0x45 || op == 0x2D || op == 0x33 || op == 0x21 || op == 0x74
            || op == 0x4A) ==> esc_spec(seq![0x1Bu8, op]) is None,
        esc_spec(seq![0x1Bu8]) is None,
        !(op == 0x40 || op == 0x4D || op == 0x61 || op == 0x45 || op == 0x46 || op == 0x2D || op == 0x34
            || op == 0x35 || op == 0x33 || op == 0x21 || op == 0x74 || op == 0x6D || op == 0x69 || op == 0x4A
            || op == 0x2A) ==> esc_spec(seq![0x1Bu8, op] + rest) == Some((CommandView::Unknown(seq![0x1Bu8, op]), 2int)),
{
    let all = seq![0x1Bu8, op] + rest;
    assert(all[1] == op);
}

/// A raster image `ESC * wH wL hH hL` takes six header bytes and then
/// exactly `(width * height mod 65536) / 8` payload bytes, with width
/// `256 * wH + wL` and height `256 * hH + hL`; the payload is the command's
/// image. When the product is below 65536 that is `width * height / 8`.
/// With fewer payload bytes the command waits for more.
pub proof fn lemma_raster_bytes(wh: u8, wl: u8, hh: u8, hl: u8, payload: Seq<u8>, rest: Seq<u8>)
    requires
        payload.len() == (((256 * wh + wl) * (256 * hh + hl)) % 65536) / 8,
    ensures
        esc_spec(seq![0x1Bu8, 0x2Au8, wh, wl, hh, hl] + payload + rest) == Some((
            CommandView::PrintImage(payload),
            6 + payload.len() as int,
        )),
        (256 * wh + wl) * (256 * hh + hl) < 65536 ==> payload.len() == (256 * wh + wl) * (256 * hh + hl) / 8,
        forall|k: int|
            0 <= k < payload.len() ==> esc_spec(seq![0x1Bu8, 0x2Au8, wh, wl, hh, hl] + #[trigger] payload.take(k)) is None,
{
    let header = seq![0x1Bu8, 0x2Au8, wh, wl, hh, hl];
    let all = header + payload + rest;
    assert(all[1] == 0x2Au8 && all[2] == wh && all[3] == wl && all[4] == hh && all[5] == hl);
    assert(all.subrange(6, 6 + payload.len() as int) =~= payload);
    assert forall|k: int| 0 <= k < payload.len() implies esc_spec(header + #[trigger] payload.take(k)) is None by {
        let part = header + payload.take(k);
        assert(part[1] == 0x2Au8 && part[2] == wh && part[3] == wl && part[4] == hh && part[5] == hl);
    }
}

/// What each `GS` command's bytes stand for, stated on the bytes.
pub proof fn lemma_gs_command_bytes(op: u8, m: u8, k: u8, rest: Seq<u8>)
    ensures
        (m == 0 || m == 1 || m == 48 || m == 49) ==> gs_spec(seq![0x1Du8, 0x56u8, m] + rest) == Some((
            CommandView::CutPaper,
            3int,
        )),
        (m == 65 || m == 66) ==> gs_spec(seq![0x1Du8, 0x56u8, m, k] + rest) == Some((CommandView::CutPaper, 4int)),
        (m == 65 || m == 66) ==> gs_spec(seq![0x1Du8, 0x56u8, m]) is None,
        gs_spec(seq![0x1Du8, 0x56u8]) is None,
        gs_spec(seq![0x1Du8]) is None,
        !(m == 0 || m == 1 || m == 48 || m == 49 || m == 65 || m == 66) ==> gs_spec(seq![0x1Du8, 0x56u8, m] + rest)
            == Some((CommandView::Unknown(seq![0x1Du8, 0x56u8, m]), 3int)),
        op != 0x56 ==> gs_spec(seq![0x1Du8, op] + rest) == Some((CommandView::Unknown(seq![0x1Du8, op]), 2int)),
{
    let three = seq![0x1Du8, 0x56u8, m] + rest;
    assert(three[1] == 0x56u8 && three[2] == m);
    let four = seq![0x1Du8, 0x56u8, m, k] + rest;
    assert(four[1] == 0x56u8 && four[2] == m);
    let two = seq![0x1Du8, op] + rest;
    assert(two[1] == op);
}

/// A token that `token_at` finds at the start of `first + rest` and that
/// ends where `first` ends: parsing `first + rest` gives its command, then
/// what parsing `rest` gives on the code page after it.
proof fn lemma_run_first_token(first: Seq<u8>, rest: Seq<u8>, code_page: u8, command: Option<CommandView>)
    requires
        first.len() > 0,
        token_at(first + rest, 0, code_page) == Some((command, first.len() as int)),
    ensures
        ({
            let r = run(rest, 0, code_page_after(code_page, command));
            run(first + rest, 0, code_page) == (optional_seq(command) + r.0, first.len() + r.1, r.2)
        }),
{
    lemma_run_shift(first, rest, 0, code_page_after(code_page, command));
}

/// A complete `ESC` or `GS` command in the stream gives its command, and
/// parsing goes on right after it; an `ESC t n` command leaves the code page
/// at `n`, whatever it was, and every other command leaves it as it was.
pub proof fn lemma_stream_command(command_bytes: Seq<u8>, rest: Seq<u8>, code_page: u8, command: CommandView)
    requires
        command_bytes.len() > 0,
        (command_bytes[0] == 0x1B && esc_spec(command_bytes) == Some((command, command_bytes.len() as int)))
            || (command_bytes[0] == 0x1D && gs_spec(command_bytes) == Some((command, command_bytes.len() as int))),
    ensures
        ({
            let next = match command {
                CommandView::SetCodePage(n) => n,
                _ => code_page,
            };
            let r = run(rest, 0, next);
            run(command_bytes + rest, 0, code_page) == (seq![command] + r.0, command_bytes.len() + r.1, r.2)
        }),
{
    let all = command_bytes + rest;
    lemma_command_length(command_bytes);
    lemma_command_prefix_stable(command_bytes, rest);
    assert(all[0] == command_bytes[0]);
    assert(all.subrange(0, all.len() as int) =~= all);
    lemma_run_first_token(command_bytes, rest, code_page, Some(command));
}

/// Selecting a code page: after `ESC t n`, parsing goes on on code page `n`
/// whatever the page was before.
pub proof fn lemma_stream_code_page(n: u8, rest: Seq<u8>, code_page: u8)
    ensures
        ({
            let r = run(rest, 0, n);
            run(seq![0x1Bu8, 0x74u8, n] + rest, 0, code_page) == (
                seq![CommandView::SetCodePage(n)] + r.0,
                3 + r.1,
                r.2,
            )
        }),
{
    lemma_esc_command_bytes(n, Seq::empty());
    assert(seq![0x1Bu8, 0x74u8, n] + Seq::<u8>::empty() =~= seq![0x1Bu8, 0x74u8, n]);
    lemma_stream_command(seq![0x1Bu8, 0x74u8, n], rest, code_page, CommandView::SetCodePage(n));
}

/// A line feed gives a new line and a carriage return a carriage return;
/// parsing goes on on the same code page right after it.
pub proof fn lemma_stream_line_ends(rest: Seq<u8>, code_page: u8)
    ensures
        ({
            let r = run(rest, 0, code_page);
            &&& run(seq![0x0Au8] + rest, 0, code_page) == (seq![CommandView::NewLine] + r.0, 1 + r.1, r.2)
            &&& run(seq![0x0Du8] + rest, 0, code_page) == (seq![CommandView::CarriageReturn] + r.0, 1 + r.1, r.2)
        }),
{
    assert((seq![0x0Au8] + rest)[0] == 0x0Au8);
    assert((seq![0x0Du8] + rest)[0] == 0x0Du8);
    lemma_run_first_token(seq![0x0Au8], rest, code_page, Some(CommandView::NewLine));
    lemma_run_first_token(seq![0x0Du8], rest, code_page, Some(CommandView::CarriageReturn));
}

/// A run of printable bytes (none of them `ESC`, `GS`, line feed or carriage
/// return) that ends at a control byte or at the end is one text command:
/// its bytes decoded as Windows-1252 on code page 16 and as lossy UTF-8 on
/// every other page; none when that text is empty. The code page stays.
pub proof fn lemma_stream_text(text: Seq<u8>, rest: Seq<u8>, code_page: u8)
    requires
        text.len() > 0,
        forall|k: int| 0 <= k < text.len() ==> {
            let b = #[trigger] text[k];
            b != 0x1B && b != 0x1D && b != 0x0A && b != 0x0D
        },
        rest.len() == 0 || rest[0] == 0x1B || rest[0] == 0x1D || rest[0] == 0x0A || rest[0] == 0x0D,
    ensures
        ({
            let decoded = if code_page == 16 { windows_1252_decode(text) } else { utf8_lossy_decode(text) };
            let commands = if decoded.len() > 0 { seq![CommandView::Text(decoded)] } else { Seq::empty() };
            let r = run(rest, 0, code_page);
            run(text + rest, 0, code_page) == (commands + r.0, text.len() + r.1, r.2)
        }),
{
    let all = text + rest;
    lemma_text_end_bounds(all, 0);
    let end = text_end(all, 0);
    assert forall|k: int| 0 <= k < text.len() implies !is_control(#[trigger] all[k]) by {
        assert(all[k] == text[k]);
    }
    if end < text.len() {
        assert(!is_control(all[end]));
    }
    if end > text.len() {
        assert(all[text.len() as int] == rest[0]);
        assert(!is_control(all[text.len() as int]));
    }
    assert(end == text.len());
    assert(all.subrange(0, end) =~= text);
    assert(!is_control(all[0]));
    let decoded = decode_spec(code_page, text);
    assert(optional_seq(text_command_spec(decoded)) == (if decoded.len() > 0 {
        seq![CommandView::Text(decoded)]
    } else {
        Seq::<CommandView>::empty()
    }));
    lemma_run_first_token(text, rest, code_page, text_command_spec(decoded));
}

/// Byte-level view of the parser: the bytes kept for a command that is not
/// complete yet, and the code page that decides how text is decoded.
pub struct ParserView {
    pub pending: Seq<u8>,
    pub code_page: u8,
}

/// Incremental ESC/POS parser. Bytes that end in an incomplete command are
/// kept until more data arrives.
pub struct EscPosParser {
    buffer: Vec<u8>,
    current_code_page: u8,
}

impl View for EscPosParser {
    type V = ParserView;

    closed spec fn view(&self) -> ParserView {
        ParserView { pending: self.buffer@, code_page: self.current_code_page }
    }
}

/// Whether a byte ends a run of text.
pub fn is_control_byte(b: u8) -> (r: bool)
    ensures
        r == is_control(b),
{
    b == ESC || b == GS || b == LF || b == CR
}

/// The command for text that a span of printed bytes decoded to: a text
/// command, or none when the decoded text is empty.
pub fn text_command(text: String) -> (command: Option<EscPosCommand>)
    ensures
        command matches Some(c) ==> text_command_spec(text@) == Some(c@),
        command is None ==> text_command_spec(text@) is None,
{
    if !text.as_str().is_empty() {
        Some(EscPosCommand::Text(text))
    } else {
        None
    }
}

impl EscPosParser {
    /// A parser with nothing pending, on code page 0 (PC437).
    pub fn new() -> (parser: Self)
        ensures
            parser@.pending == Seq::<u8>::empty(),
            parser@.code_page == 0,
    {
        Self { buffer: Vec::new(), current_code_page: 0 }
    }

    /// Number of bytes kept for a command that is not complete yet.
    pub fn pending_len(&self) -> (n: usize)
        ensures
            n == self@.pending.len(),
    {
        self.buffer.len()
    }

    /// The code page that decides how text is decoded.
    pub fn code_page(&self) -> (page: u8)
        ensures
            page == self@.code_page,
    {
        self.current_code_page
    }

    /// Parses the `ESC` command at the start of `data`.
    pub fn parse_esc_command(&self, data: &[u8]) -> (res: (Option<EscPosCommand>, usize))
        ensures
            step_matches(res, esc_spec(data@)),
    {
        if data.len() < 2 {
            return (None, 0);
        }
        let op = data[1];
        let has_arg = data.len() >= 3;
        if op == 0x40 {
            (Some(EscPosCommand::InitializePrinter), 2)
        } else if op == 0x4D {
            if has_arg {
                let font = match data[2] {
                    0 => Font::FontA,
                    1 => Font::FontB,
                    2 => Font::FontC,
                    _ => Font::FontA,
                };
                (Some(EscPosCommand::SetFont(font)), 3)
            } else {
                (None, 0)
            }
        } else if op == 0x61 {
            if has_arg {
                let justification = match data[2] {
                    0 => Justification::Left,
                    1 => Justification::Center,
                    2 => Justification::Right,
                    _ => Justification::Left,
                };
                (Some(EscPosCommand::SetJustification(justification)), 3)
            } else {
                (None, 0)
            }
        } else if op == 0x45 {
            if has_arg {
                (Some(EscPosCommand::SetEmphasis(data[2] != 0)), 3)
            } else {
                (None, 0)
            }
        } else if op == 0x46 {
            (Some(EscPosCommand::SetEmphasis(false)), 2)
        } else if op == 0x2D {
            if has_arg {
                let underline = data[2];
                (Some(EscPosCommand::SetUnderline(underline != 0)), 3)
            } else {
                (None, 0)
            }
        } else if op == 0x34 {
            (Some(EscPosCommand::SetItalic(true)), 2)
        } else if op == 0x35 {
            (Some(EscPosCommand::SetItalic(false)), 2)
        } else if op == 0x33 {
            if has_arg {
                let height = data[2] as u32;
                (Some(EscPosCommand::SetLineHeight(height)), 3)
            } else {
                (None, 0)
            }
        } else if op == 0x21 {
            if has_arg {
                let size = data[2] as u32;
                (Some(EscPosCommand::SetFontSize(size)), 3)
            } else {
                (None, 0)
            }
        } else if op == 0x74 {
            if has_arg {
                let code_page = data[2];
                (Some(EscPosCommand::SetCodePage(code_page)), 3)
            } else {
                (None, 0)
            }
        } else if op == 0x6D || op == 0x69 {
            (Some(EscPosCommand::CutPaper), 2)
        } else if op == 0x4A {
            if has_arg {
                (Some(EscPosCommand::LineFeed), 3)
            } else {
                (None, 0)
            }
        } else if op == 0x2A {
            if data.len() >= 6 {
                let width: u32 = (data[2] as u32) * 256 + (data[3] as u32);
                let height: u32 = (data[4] as u32) * 256 + (data[5] as u32);
                assert(width * height <= 0xFFFF * 0xFFFF) by (nonlinear_arith)
                    requires
                        width <= 0xFFFF,
                        height <= 0xFFFF,
                ;
                // the product of the two 16-bit fields wraps to 16 bits, as a
                // 16-bit multiplication does in a release build
                let len = ((width * height) % 0x10000 / 8) as usize;
                if data.len() >= 6 + len {
                    let payload = vstd::slice::slice_to_vec(&data[6..6 + len]);
                    (Some(EscPosCommand::PrintImage(payload)), 6 + len)
                } else {
                    (None, 0)
                }
            } else {
                (None, 0)
            }
        } else {
            (Some(EscPosCommand::Unknown(vec![ESC, op])), 2)
        }
    }

    /// Parses the `GS` command at the start of `data`.
    pub fn parse_gs_command(&self, data: &[u8]) -> (res: (Option<EscPosCommand>, usize))
        ensures
            step_matches(res, gs_spec(data@)),
    {
        if data.len() < 2 {
            return (None, 0);
        }
        if data[1] == 0x56 {
            if data.len() < 3 {
                return (None, 0);
            }
            let m = data[2];
            if m == 0 || m == 1 || m == 48 || m == 49 {
                (Some(EscPosCommand::CutPaper), 3)
            } else if m == 65 || m == 66 {
                if data.len() < 4 {
                    (None, 0)
                } else {
                    (Some(EscPosCommand::CutPaper), 4)
                }
            } else {
                (Some(EscPosCommand::Unknown(vec![GS, 0x56, m])), 3)
            }
        } else {
            (Some(EscPosCommand::Unknown(vec![GS, data[1]])), 2)
        }
    }

    /// Appends `data` to the pending bytes and parses as far as the bytes go.
    ///
    /// The commands are those of `run` over the pending bytes followed by
    /// `data`, from the start, on the current code page; the bytes from the
    /// index where parsing stopped stay pending, and the code page becomes
    /// the one in force there. The length bound is the largest text that
    /// the decoders take.
    pub fn parse_stream(&mut self, data: &[u8]) -> (commands: Vec<EscPosCommand>)
        requires
            old(self)@.pending.len() + data@.len() <= isize::MAX / 4,
        ensures
            ({
                let full = old(self)@.pending + data@;
                let out = run(full, 0, old(self)@.code_page);
                &&& views(commands@) == out.0
                &&& final(self)@.pending == full.skip(out.1)
                &&& final(self)@.code_page == out.2
                &&& awaits_more(final(self)@.pending)
                &&& ends_in_empty_text(full, 0, old(self)@.code_page) ==> {
                    &&& final(self)@.code_page == CODE_PAGE_WINDOWS_1252
                    &&& exists|s: int| 0 <= s < full.len() && is_byte_order_mark(#[trigger] full.subrange(s, full.len() as int))
                }
            }),
    {
        let ghost start_page = self.current_code_page;
        let ghost full = self.buffer@ + data@;
        self.buffer.extend_from_slice(data);
        assert(self.buffer@ =~= full);
        let ghost out = run(full, 0, start_page);
        let len = self.buffer.len();
        let mut commands: Vec<EscPosCommand> = Vec::new();
        let mut i: usize = 0;
        assert(views(commands@) =~= Seq::<CommandView>::empty());
        let ghost mut empty_tail = false;
        let ghost mut tail_start: int = 0;
        loop
            invariant
                ends_in_empty_text(full, 0, start_page)
                    == (empty_tail || ends_in_empty_text(full, i as int, self.current_code_page)),
                empty_tail ==> {
                    &&& i == len
                    &&& self.current_code_page == CODE_PAGE_WINDOWS_1252
                    &&& 0 <= tail_start < len
                    &&& is_byte_order_mark(full.subrange(tail_start, len as int))
                },
                self.buffer@ == full,
                len == full.len(),
                len <= isize::MAX / 4,
                i <= len,
                out == run(full, 0, start_page),
                views(commands@) + run(full, i as int, self.current_code_page).0 == out.0,
                run(full, i as int, self.current_code_page).1 == out.1,
                run(full, i as int, self.current_code_page).2 == out.2,
            ensures
                run(full, i as int, self.current_code_page).0 == Seq::<CommandView>::empty(),
                run(full, i as int, self.current_code_page).1 == i,
                run(full, i as int, self.current_code_page).2 == self.current_code_page,
                !ends_in_empty_text(full, i as int, self.current_code_page),
            decreases len - i,
        {
            if i >= len {
                break;
            }
            let ghost page = self.current_code_page;
            let ghost before = views(commands@);
            let ghost at = i as int;
            proof {
                lemma_token_advances(full, i as int, page);
            }
            let b = self.buffer[i];
            if b == LF {
                commands.push(EscPosCommand::NewLine);
                i += 1;
            } else if b == CR {
                commands.push(EscPosCommand::CarriageReturn);
                i += 1;
            } else if b == ESC {
                if i + 1 < len {
                    let rest = &self.buffer.as_slice()[i..len];
                    assert(rest@ == full.subrange(i as int, len as int));
                    let (command, consumed) = self.parse_esc_command(rest);
                    match command {
                        Some(cmd) => {
                            if let EscPosCommand::SetCodePage(page) = &cmd {
                                self.current_code_page = *page;
                            }
                            commands.push(cmd);
                            i += consumed;
                        },
                        None => {
                            break;
                        },
                    }
                } else {
                    break;
                }
            } else if b == GS {
                if i + 1 < len {
                    let rest = &self.buffer.as_slice()[i..len];
                    assert(rest@ == full.subrange(i as int, len as int));
                    let (command, consumed) = self.parse_gs_command(rest);
                    match command {
                        Some(cmd) => {
                            commands.push(cmd);
                            i += consumed;
                        },
                        None => {
                            break;
                        },
                    }
                } else {
                    break;
                }
            } else {
                let text_start = i;
                proof {
                    lemma_text_end_bounds(full, text_start as int);
                }
                while i < len && !is_control_byte(self.buffer[i])
                    invariant
                        self.buffer@ == full,
                        len == full.len(),
                        text_start <= i <= len,
                        text_end(full, i as int) == text_end(full, text_start as int),
                    decreases len - i,
                {
                    i += 1;
                }
                if i > text_start {
                    let bytes = &self.buffer.as_slice()[text_start..i];
                    let text = if self.current_code_page == CODE_PAGE_WINDOWS_1252 {
                        decode_windows_1252(bytes)
                    } else {
                        decode_utf8_lossy(bytes)
                    };
                    proof {
                        if i == len {
                            assert(ends_in_empty_text(full, at, page) == (text@.len() == 0));
                            empty_tail = text@.len() == 0;
                            tail_start = text_start as int;
                        }
                    }
                    if let Some(cmd) = text_command(text) {
                        commands.push(cmd);
                    }
                }
            }
            proof {
                let (command, next) = token_at(full, at, page).unwrap();
                assert(views(commands@) =~= before + optional_seq(command));
                assert(i == next);
                assert(self.current_code_page == code_page_after(page, command));
                let rest = run(full, next, code_page_after(page, command));
                assert(run(full, at, page).0 == optional_seq(command) + rest.0);
                assert(before + optional_seq(command) + rest.0 =~= before + (optional_seq(command) + rest.0));
                if next == len {
                    assert(!ends_in_empty_text(full, next, code_page_after(page, command)));
                }
            }
        }
        if i > 0 {
            let remaining = self.buffer.split_off(i);
            self.buffer = remaining;
        }
        assert(self.buffer@ =~= full.skip(out.1));
        proof {
            lemma_parse_stops_at_incomplete_command(full, 0, start_page);
            if empty_tail {
                assert(is_byte_order_mark(full.subrange(tail_start, full.len() as int)));
            }
        }
        commands
    }
}

impl Default for EscPosParser {
    /// The same parser as `EscPosParser::new`.
    fn default() -> (parser: Self)
        ensures
            parser@.pending == Seq::<u8>::empty(),
            parser@.code_page == 0,
    {
        Self::new()
    }
}

impl Clone for EscPosParser {
    /// A parser with the same pending bytes and code page.
    fn clone(&self) -> (copy: Self)
        ensures
            copy@ == self@,
    {
        let buffer = self.buffer.clone();
        assert(buffer@ =~= self.buffer@);
        Self { buffer, current_code_page: self.current_code_page }
    }
}

} // verus!
