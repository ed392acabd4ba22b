//! The model of the printer: what the receipt looks like after each command.
use vstd::prelude::*;

use crate::commands::{CommandView, EscPosCommand, Font, Justification};
use vstd::string::*;

use crate::canvas::{filled_image, image_pixels, image_size, ReceiptImage};

verus! {

/// Width of the paper roll.
#[derive(Debug, Clone, Copy, PartialEq, Eq, Structural)]
pub enum PaperWidth {
    /// 384 dots.
    Width50mm,
    /// 576 dots.
    Width78mm,
    /// 640 dots.
    Width80mm,
}

impl PaperWidth {
    /// Dots across the paper.
    pub open spec fn width_dots(self) -> u32 {
        match self {
            PaperWidth::Width50mm => 384,
            PaperWidth::Width78mm => 576,
            PaperWidth::Width80mm => 640,
        }
    }

    /// Characters that fit on a line at a font size: dots / 8 for sizes
    /// 8 to 12 and any size outside 8 to 24, dots / 10 for sizes 13 to 16,
    /// dots / 12 for sizes 17 to 24.
    pub open spec fn max_chars(self, font_size: u32) -> u32 {
        let dots = self.width_dots();
        if 8 <= font_size <= 12 {
            dots / 8
        } else if 13 <= font_size <= 16 {
            dots / 10
        } else if 17 <= font_size <= 24 {
            dots / 12
        } else {
            dots / 8
        }
    }

    /// Dots across the paper.
    pub fn get_width_dots(&self) -> (dots: u32)
        ensures
            dots == self.width_dots(),
    {
        match self {
            PaperWidth::Width50mm => 384,
            PaperWidth::Width78mm => 576,
            PaperWidth::Width80mm => 640,
        }
    }

    /// Characters that fit on a line at the given font size.
    pub fn get_max_chars(&self, font_size: u32) -> (chars: u32)
        ensures
            chars == self.max_chars(font_size),
            32 <= chars <= 80,
    {
        let dots = self.get_width_dots();
        if 8 <= font_size && font_size <= 12 {
            dots / 8
        } else if 13 <= font_size && font_size <= 16 {
            dots / 10
        } else if 17 <= font_size && font_size <= 24 {
            dots / 12
        } else {
            dots / 8
        }
    }
}

/// The printer's settings and the receipt printed so far, one `String` per line.
#[derive(Debug, Clone)]
pub struct PrinterState {
    pub paper_width: PaperWidth,
    pub current_font: Font,
    pub justification: Justification,
    pub emphasis: bool,
    pub underline: bool,
    pub italic: bool,
    pub buffer: Vec<String>,
    pub line_height: u32,
    pub font_size: u32,
    pub dpi: u32,
}

/// The value of a printer state, with the receipt as lines of characters.
pub struct PrinterView {
    pub paper_width: PaperWidth,
    pub current_font: Font,
    pub justification: Justification,
    pub emphasis: bool,
    pub underline: bool,
    pub italic: bool,
    pub lines: Seq<Seq<char>>,
    pub line_height: u32,
    pub font_size: u32,
    pub dpi: u32,
}

impl View for PrinterState {
    type V = PrinterView;

    open spec fn view(&self) -> PrinterView {
        PrinterView {
            paper_width: self.paper_width,
            current_font: self.current_font,
            justification: self.justification,
            emphasis: self.emphasis,
            underline: self.underline,
            italic: self.italic,
            lines: self.buffer@.map_values(|line: String| line@),
            line_height: self.line_height,
            font_size: self.font_size,
            dpi: self.dpi,
        }
    }
}

/// The receipt lines after printing `text` when a line holds `max_chars`
/// characters: the text starts the receipt when there is none; it goes on a
/// new line when the current line would then exceed `max_chars`; otherwise
/// it is appended to the current line. Text longer than a line is not split.
pub open spec fn lines_with_text(lines: Seq<Seq<char>>, text: Seq<char>, max_chars: u32) -> Seq<Seq<char>> {
    if lines.len() == 0 {
        seq![text]
    } else if lines.last().len() + text.len() > max_chars {
        lines.push(text)
    } else {
        lines.update(lines.len() - 1, lines.last() + text)
    }
}

/// The line that a paper cut prints: `max_chars` dashes.
pub open spec fn separator_line(max_chars: u32) -> Seq<char> {
    Seq::new(max_chars as nat, |k: int| '-')
}

/// The text printed in place of an image.
pub open spec fn image_placeholder() -> Seq<char> {
    seq!['[', 'I', 'M', 'A', 'G', 'E', ']']
}

impl PrinterView {
    /// Characters per line at the current paper width and font size.
    pub open spec fn line_chars(self) -> u32 {
        self.paper_width.max_chars(self.font_size)
    }

    /// The state with the given receipt lines.
    pub open spec fn with_lines(self, lines: Seq<Seq<char>>) -> PrinterView {
        PrinterView { lines, ..self }
    }

    /// The state after a command. Text is printed as `lines_with_text` says;
    /// a new line starts an empty line; a paper cut prints a separator; an
    /// image prints `[IMAGE]`; font, justification, emphasis, underline,
    /// italic, line height and font size commands set that setting; every
    /// other command leaves the state as it is.
    pub open spec fn apply(self, command: CommandView) -> PrinterView {
        match command {
            CommandView::Text(text) => self.with_lines(lines_with_text(self.lines, text, self.line_chars())),
            CommandView::NewLine => self.with_lines(self.lines.push(Seq::empty())),
            CommandView::SetFont(font) => PrinterView { current_font: font, ..self },
            CommandView::SetJustification(j) => PrinterView { justification: j, ..self },
            CommandView::SetEmphasis(on) => PrinterView { emphasis: on, ..self },
            CommandView::SetUnderline(on) => PrinterView { underline: on, ..self },
            CommandView::SetItalic(on) => PrinterView { italic: on, ..self },
            CommandView::CutPaper => self.with_lines(self.lines.push(separator_line(self.line_chars()))),
            CommandView::PrintImage(_) => self.with_lines(
                lines_with_text(self.lines, image_placeholder(), self.line_chars()),
            ),
            CommandView::SetLineHeight(h) => PrinterView { line_height: h, ..self },
            CommandView::SetFontSize(size) => PrinterView { font_size: size, ..self },
            _ => self,
        }
    }
}

/// `first` is a prefix of `second`.
pub open spec fn is_prefix_of(first: Seq<char>, second: Seq<char>) -> bool {
    first.len() <= second.len() && second.subrange(0, first.len() as int) == first
}

/// The receipt only grows: after any command, every line but the last is
/// as it was, the last line has at most grown at its end, and lines have at
/// most been added.
pub proof fn lemma_receipt_only_grows(state: PrinterView, command: CommandView)
    ensures
        ({
            let before = state.lines;
            let after = state.apply(command).lines;
            &&& before.len() <= after.len()
            &&& forall|k: int| 0 <= k < before.len() - 1 ==> #[trigger] after[k] == before[k]
            &&& before.len() > 0 ==> is_prefix_of(before.last(), after[before.len() - 1])
        }),
{
    let before = state.lines;
    let after = state.apply(command).lines;
    if before.len() > 0 {
        let last = before.len() - 1;
        assert(after[last].subrange(0, before.last().len() as int) =~= before.last());
    }
}

/// Text is never lost or changed: printing text adds exactly its characters
/// after all the characters already on the receipt.
pub proof fn lemma_text_is_kept(lines: Seq<Seq<char>>, text: Seq<char>, max_chars: u32)
    ensures
        lines_with_text(lines, text, max_chars).flatten() == lines.flatten() + text,
{
    broadcast use Seq::lemma_flatten_push;
    if lines.len() == 0 {
        assert(seq![text] =~= Seq::<Seq<char>>::empty().push(text));
        assert(Seq::<Seq<char>>::empty().flatten() =~= Seq::<char>::empty());
        assert(Seq::<char>::empty() + text =~= text);
    } else if lines.last().len() + text.len() <= max_chars {
        let init = lines.drop_last();
        assert(lines =~= init.push(lines.last()));
        assert(lines.update(lines.len() - 1, lines.last() + text) =~= init.push(lines.last() + text));
        assert(init.flatten() + (lines.last() + text) =~= init.flatten() + lines.last() + text);
    }
}

/// Commands that only change a setting leave the receipt lines as they are:
/// every command but text, a new line, a paper cut and an image.
pub proof fn lemma_settings_keep_receipt(state: PrinterView, command: CommandView)
    requires
        !(command is Text),
        !(command is NewLine),
        !(command is CutPaper),
        !(command is PrintImage),
    ensures
        state.apply(command).lines == state.lines,
{
}

/// Paper widths in dots and characters per line, with the numbers: 384,
/// 576 and 640 dots; a line holds dots / 8 characters at font sizes 8 to 12
/// and outside 8 to 24, dots / 10 at sizes 13 to 16 and dots / 12 at sizes
/// 17 to 24.
pub proof fn lemma_line_widths(size: u32)
    ensures
        PaperWidth::Width50mm.width_dots() == 384,
        PaperWidth::Width78mm.width_dots() == 576,
        PaperWidth::Width80mm.width_dots() == 640,
        (size < 13 || size > 24) ==> {
            &&& PaperWidth::Width50mm.max_chars(size) == 48
            &&& PaperWidth::Width78mm.max_chars(size) == 72
            &&& PaperWidth::Width80mm.max_chars(size) == 80
        },
        13 <= size <= 16 ==> {
            &&& PaperWidth::Width50mm.max_chars(size) == 38
            &&& PaperWidth::Width78mm.max_chars(size) == 57
            &&& PaperWidth::Width80mm.max_chars(size) == 64
        },
        17 <= size <= 24 ==> {
            &&& PaperWidth::Width50mm.max_chars(size) == 32
            &&& PaperWidth::Width78mm.max_chars(size) == 48
            &&& PaperWidth::Width80mm.max_chars(size) == 53
        },
{
}

/// Each setting command sets its setting to the command's value, whatever it
/// was, and changes nothing else.
pub proof fn lemma_setting_commands(state: PrinterView, on: bool, font: Font, justification: Justification, value: u32)
    ensures
        state.apply(CommandView::SetEmphasis(on)) == (PrinterView { emphasis: on, ..state }),
        state.apply(CommandView::SetUnderline(on)) == (PrinterView { underline: on, ..state }),
        state.apply(CommandView::SetItalic(on)) == (PrinterView { italic: on, ..state }),
        state.apply(CommandView::SetFont(font)) == (PrinterView { current_font: font, ..state }),
        state.apply(CommandView::SetJustification(justification)) == (PrinterView {
            justification: justification,
            ..state
        }),
        state.apply(CommandView::SetLineHeight(value)) == (PrinterView { line_height: value, ..state }),
        state.apply(CommandView::SetFontSize(value)) == (PrinterView { font_size: value, ..state }),
{
}

/// Commands with no effect on the printer: paper feed, carriage return,
/// initialisation, code page selection (the parser decodes text) and unknown
/// commands.
pub proof fn lemma_ignored_commands(state: PrinterView, page: u8, data: Seq<u8>)
    ensures
        state.apply(CommandView::LineFeed) == state,
        state.apply(CommandView::CarriageReturn) == state,
        state.apply(CommandView::InitializePrinter) == state,
        state.apply(CommandView::SetCodePage(page)) == state,
        state.apply(CommandView::Unknown(data)) == state,
{
}

/// How text is laid out, with `m` the characters per line: it starts the
/// receipt when there is none; it is appended to the last line when that
/// line then holds at most `m` characters; otherwise it starts a new line.
/// The settings stay.
pub proof fn lemma_text_layout(state: PrinterView, text: Seq<char>)
    ensures
        ({
            let m = state.paper_width.max_chars(state.font_size);
            let lines = state.lines;
            let after = state.apply(CommandView::Text(text));
            &&& after == (PrinterView { lines: after.lines, ..state })
            &&& lines.len() == 0 ==> after.lines == seq![text]
            &&& lines.len() > 0 && lines.last().len() + text.len() <= m ==> after.lines
                == lines.drop_last().push(lines.last() + text)
            &&& lines.len() > 0 && lines.last().len() + text.len() > m ==> after.lines == lines.push(text)
        }),
{
    let lines = state.lines;
    if lines.len() > 0 {
        assert(lines.update(lines.len() - 1, lines.last() + text) =~= lines.drop_last().push(lines.last() + text));
    }
}

/// A new line adds an empty line; a paper cut adds a line of as many dashes
/// as a line holds characters; an image prints as the text `[IMAGE]`. The
/// settings stay.
pub proof fn lemma_line_commands(state: PrinterView, data: Seq<u8>)
    ensures
        state.apply(CommandView::NewLine) == (PrinterView { lines: state.lines.push(Seq::empty()), ..state }),
        ({
            let after = state.apply(CommandView::CutPaper);
            let cut = after.lines.last();
            &&& after == (PrinterView { lines: after.lines, ..state })
            &&& after.lines.len() == state.lines.len() + 1
            &&& after.lines.drop_last() == state.lines
            &&& cut.len() == state.paper_width.max_chars(state.font_size)
            &&& forall|k: int| 0 <= k < cut.len() ==> cut[k] == '-'
        }),
        state.apply(CommandView::PrintImage(data)) == state.apply(
            CommandView::Text(seq!['[', 'I', 'M', 'A', 'G', 'E', ']']),
        ),
{
    let after = state.apply(CommandView::CutPaper);
    assert(after.lines.drop_last() =~= state.lines);
}

impl PrinterState {
    /// The state of a new printer: 80 mm paper, font A, left justified, no
    /// emphasis, underline or italic, an empty receipt, line height 24, font
    /// size 12, 180 dpi.
    pub open spec fn new_view() -> PrinterView {
        PrinterView {
            paper_width: PaperWidth::Width80mm,
            current_font: Font::FontA,
            justification: Justification::Left,
            emphasis: false,
            underline: false,
            italic: false,
            lines: Seq::empty(),
            line_height: 24,
            font_size: 12,
            dpi: 180,
        }
    }

    /// A new printer, as `new_view` describes it.
    pub fn new() -> (state: Self)
        ensures
            state@ == Self::new_view(),
            state.paper_width == PaperWidth::Width80mm,
            state.current_font == Font::FontA,
            state.justification == Justification::Left,
            !state.emphasis && !state.underline && !state.italic,
            state.buffer@.len() == 0,
            state.line_height == 24,
            state.font_size == 12,
            state.dpi == 180,
    {
        let state = Self {
            paper_width: PaperWidth::Width80mm,
            current_font: Font::FontA,
            justification: Justification::Left,
            emphasis: false,
            underline: false,
            italic: false,
            buffer: Vec::new(),
            line_height: 24,
            font_size: 12,
            dpi: 180,
        };
        assert(state@.lines =~= Seq::<Seq<char>>::empty());
        state
    }

    /// Applies one command to the printer, as `PrinterView::apply` says.
    pub fn process_command(&mut self, command: &EscPosCommand)
        ensures
            final(self)@ == old(self)@.apply(command@),
    {
        match command {
            EscPosCommand::Text(text) => {
                self.add_text(text.as_str());
            },
            EscPosCommand::NewLine => {
                self.add_new_line();
            },
            EscPosCommand::SetFont(font) => {
                self.current_font = *font;
            },
            EscPosCommand::SetJustification(justification) => {
                self.justification = *justification;
            },
            EscPosCommand::SetEmphasis(enabled) => {
                self.emphasis = *enabled;
            },
            EscPosCommand::SetUnderline(enabled) => {
                self.underline = *enabled;
            },
            EscPosCommand::SetItalic(enabled) => {
                self.italic = *enabled;
            },
            EscPosCommand::CutPaper => {
                self.add_separator();
            },
            EscPosCommand::PrintImage(_image_data) => {
                let placeholder = "[IMAGE]";
                proof {
                    reveal_strlit("[IMAGE]");
                    assert(placeholder@ =~= image_placeholder());
                }
                self.add_text(placeholder);
            },
            EscPosCommand::SetLineHeight(height) => {
                self.line_height = *height;
            },
            EscPosCommand::SetFontSize(size) => {
                self.font_size = *size;
            },
            EscPosCommand::SetCodePage(_code_page) => {
                // decoding is the parser's business
            },
            EscPosCommand::Unknown(_) => {},
            _ => {},
        }
    }

    /// Prints text as `lines_with_text` says.
    fn add_text(&mut self, text: &str)
        ensures
            final(self)@ == old(self)@.with_lines(
                lines_with_text(old(self)@.lines, text@, old(self)@.line_chars()),
            ),
    {
        let n = self.buffer.len();
        let ghost lines = old(self)@.lines;
        if n > 0 {
            let max_chars = self.paper_width.get_max_chars(self.font_size);
            let current_length = self.buffer[n - 1].as_str().unicode_len();
            let text_length = text.unicode_len();
            assert(current_length == lines.last().len());
            // both counts are lengths of strings in memory; the sum is taken wide
            if (current_length as u128) + (text_length as u128) > max_chars as u128 {
                self.add_new_line();
                assert(self@.lines.len() == n + 1);
                assert(self.buffer@.len() == n + 1);
                assert(self.buffer@[n as int]@ == self@.lines[n as int]);
                assert forall|k: int| 0 <= k < n implies self.buffer@[k]@ == #[trigger] lines[k] by {
                    assert(self@.lines[k] == lines.push(Seq::empty())[k]);
                }
                let mut last = self.buffer.pop().unwrap();
                assert(last@ == Seq::<char>::empty());
                last.append(text);
                self.buffer.push(last);
                assert(self@.lines =~= lines.push(text@));
            } else {
                let mut last = self.buffer.pop().unwrap();
                last.append(text);
                self.buffer.push(last);
                assert(self@.lines =~= lines.update(lines.len() - 1, lines.last() + text@));
            }
        } else {
            self.buffer.push(text.to_owned());
            assert(self@.lines =~= seq![text@]);
        }
    }

    /// Starts a new, empty line.
    fn add_new_line(&mut self)
        ensures
            final(self)@ == old(self)@.with_lines(old(self)@.lines.push(Seq::empty())),
    {
        self.buffer.push(String::new());
        assert(self@.lines =~= old(self)@.lines.push(Seq::empty()));
    }

    /// Prints a line of dashes as wide as a line of text.
    fn add_separator(&mut self)
        ensures
            final(self)@ == old(self)@.with_lines(
                old(self)@.lines.push(separator_line(old(self)@.line_chars())),
            ),
    {
        let max_chars = self.paper_width.get_max_chars(self.font_size);
        let dash = "-";
        proof {
            reveal_strlit("-");
        }
        let mut separator = String::new();
        let mut k: u32 = 0;
        while k < max_chars
            invariant
                k <= max_chars,
                dash@ == seq!['-'],
                separator@ == Seq::new(k as nat, |j: int| '-'),
            decreases max_chars - k,
        {
            separator.append(dash);
            k += 1;
            assert(separator@ =~= Seq::new(k as nat, |j: int| '-'));
        }
        self.buffer.push(separator);
        assert(self@.lines =~= old(self)@.lines.push(separator_line(old(self)@.line_chars())));
    }

    /// Empties the receipt; the settings stay.
    pub fn clear_buffer(&mut self)
        ensures
            final(self)@ == old(self)@.with_lines(Seq::empty()),
    {
        self.buffer.clear();
        assert(self@.lines =~= Seq::<Seq<char>>::empty());
    }

    /// The receipt lines.
    pub fn get_buffer(&self) -> (lines: &[String])
        ensures
            lines@ == self.buffer@,
    {
        self.buffer.as_slice()
    }

    /// Dots across the paper.
    pub fn get_paper_width_dots(&self) -> (dots: u32)
        ensures
            dots == self.paper_width.width_dots(),
    {
        self.paper_width.get_width_dots()
    }

    /// Dots across the printable area: the paper less 30 dots of margins.
    pub fn get_printing_width_dots(&self) -> (dots: u32)
        ensures
            dots == self.paper_width.width_dots() - 30,
    {
        let dots = self.paper_width.get_width_dots();
        dots.saturating_sub(30)
    }

    /// Height of the receipt in dots: the number of lines (as a `u32`) times
    /// the line height. The product must fit in a `u32`.
    pub fn calculate_total_height(&self) -> (height: u32)
        requires
            (self.buffer@.len() as u32) * self.line_height <= u32::MAX,
        ensures
            height == (self.buffer@.len() as u32) * self.line_height,
    {
        self.buffer.len() as u32 * self.line_height
    }

    /// Sets the paper width.
    pub fn set_paper_width(&mut self, width: PaperWidth)
        ensures
            final(self)@ == (PrinterView { paper_width: width, ..old(self)@ }),
    {
        self.paper_width = width;
    }

    /// Sets the line height.
    pub fn set_line_height(&mut self, height: u32)
        ensures
            final(self)@ == (PrinterView { line_height: height, ..old(self)@ }),
    {
        self.line_height = height;
    }

    /// Sets the font size.
    pub fn set_font_size(&mut self, size: u32)
        ensures
            final(self)@ == (PrinterView { font_size: size, ..old(self)@ }),
    {
        self.font_size = size;
    }

    /// Renders the receipt: a white image as wide as the paper (in dots) and
    /// as high as `calculate_total_height`. Text is not drawn yet. The
    /// height must fit in a `u32` and the image in memory.
    pub fn render_receipt(&self) -> (image: ReceiptImage)
        requires
            self.buffer@.len() * self.line_height <= u32::MAX,
            3 * self.paper_width.width_dots() * self.buffer@.len() * self.line_height <= isize::MAX,
        ensures
            image_size(image) == (self.paper_width.width_dots(), (self.buffer@.len() * self.line_height) as u32),
            image_pixels(image) == Seq::new(
                (self.paper_width.width_dots() * self.buffer@.len() * self.line_height) as nat,
                |k: int| (255u8, 255u8, 255u8),
            ),
    {
        let lines = self.buffer.len();
        proof {
            if self.line_height > 0 {
                assert(lines <= lines * self.line_height) by (nonlinear_arith)
                    requires self.line_height > 0;
                assert(lines as u32 == lines);
            } else {
                assert((lines as u32) * self.line_height == 0) by (nonlinear_arith)
                    requires self.line_height == 0;
            }
            assert((lines as u32) * self.line_height == lines * self.line_height);
        }
        let width = self.get_paper_width_dots();
        let height = self.calculate_total_height();
        assert(height == lines * self.line_height);
        assert(3 * width * height == 3 * self.paper_width.width_dots() * lines * self.line_height) by (nonlinear_arith)
            requires width == self.paper_width.width_dots(), height == lines * self.line_height;
        let mut image = filled_image(width, height, 255, 255, 255);
        assert(width * height == self.paper_width.width_dots() * lines * self.line_height) by (nonlinear_arith)
            requires width == self.paper_width.width_dots(), height == lines * self.line_height;
        let ghost white = image;
        let mut y_offset: u32 = 0;
        let mut k: usize = 0;
        while k < lines
            invariant
                lines == self.buffer@.len(),
                lines * self.line_height <= u32::MAX,
                k <= lines,
                y_offset == k * self.line_height,
                image == white,
            decreases lines - k,
        {
            let line = &self.buffer[k];
            if !line.as_str().is_empty() {
                self.render_text_line(&mut image, line.as_str(), y_offset);
            }
            assert((k + 1) * self.line_height <= lines * self.line_height) by (nonlinear_arith)
                requires k + 1 <= lines;
            assert((k + 1) * self.line_height == k * self.line_height + self.line_height) by (nonlinear_arith);
            y_offset += self.line_height;
            k += 1;
        }
        image
    }

    /// Draws one line of text at a vertical offset; drawing text is not
    /// implemented, so the image is left as it is.
    fn render_text_line(&self, _image: &mut ReceiptImage, _text: &str, _y_offset: u32)
        ensures
            *final(_image) == *old(_image),
    {
    }
}

} // verus!
