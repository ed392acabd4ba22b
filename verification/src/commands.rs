//! The commands that an ESC/POS byte stream is made of.
use vstd::prelude::*;

verus! {

/// Character font selected with `ESC M n`.
#[derive(Debug, Clone, Copy, PartialEq, Eq, Structural)]
pub enum Font {
    FontA,
    FontB,
    FontC,
}

/// Line justification selected with `ESC a n`.
#[derive(Debug, Clone, Copy, PartialEq, Eq, Structural)]
pub enum Justification {
    Left,
    Center,
    Right,
}

/// One decoded ESC/POS command.
#[derive(Debug, PartialEq, Eq)]
pub enum EscPosCommand {
    Text(String),
    NewLine,
    LineFeed,
    CarriageReturn,
    SetFont(Font),
    SetFontSize(u32),
    SetJustification(Justification),
    SetEmphasis(bool),
    SetUnderline(bool),
    SetItalic(bool),
    SetLineHeight(u32),
    CutPaper,
    PrintImage(Vec<u8>),
    InitializePrinter,
    SetCodePage(u8),
    Unknown(Vec<u8>),
}

/// The mathematical value of a command: text as a sequence of characters,
/// byte payloads as sequences of bytes.
pub enum CommandView {
    Text(Seq<char>),
    NewLine,
    LineFeed,
    CarriageReturn,
    SetFont(Font),
    SetFontSize(u32),
    SetJustification(Justification),
    SetEmphasis(bool),
    SetUnderline(bool),
    SetItalic(bool),
    SetLineHeight(u32),
    CutPaper,
    PrintImage(Seq<u8>),
    InitializePrinter,
    SetCodePage(u8),
    Unknown(Seq<u8>),
}

impl View for EscPosCommand {
    type V = CommandView;

    open spec fn view(&self) -> CommandView {
        match self {
            EscPosCommand::Text(s) => CommandView::Text(s@),
            EscPosCommand::NewLine => CommandView::NewLine,
            EscPosCommand::LineFeed => CommandView::LineFeed,
            EscPosCommand::CarriageReturn => CommandView::CarriageReturn,
            EscPosCommand::SetFont(f) => CommandView::SetFont(*f),
            EscPosCommand::SetFontSize(n) => CommandView::SetFontSize(*n),
            EscPosCommand::SetJustification(j) => CommandView::SetJustification(*j),
            EscPosCommand::SetEmphasis(b) => CommandView::SetEmphasis(*b),
            EscPosCommand::SetUnderline(b) => CommandView::SetUnderline(*b),
            EscPosCommand::SetItalic(b) => CommandView::SetItalic(*b),
            EscPosCommand::SetLineHeight(n) => CommandView::SetLineHeight(*n),
            EscPosCommand::CutPaper => CommandView::CutPaper,
            EscPosCommand::PrintImage(data) => CommandView::PrintImage(data@),
            EscPosCommand::InitializePrinter => CommandView::InitializePrinter,
            EscPosCommand::SetCodePage(p) => CommandView::SetCodePage(*p),
            EscPosCommand::Unknown(data) => CommandView::Unknown(data@),
        }
    }
}

impl Clone for EscPosCommand {
    /// An equal command.
    fn clone(&self) -> (copy: Self)
        ensures
            copy@ == self@,
    {
        match self {
            EscPosCommand::Text(s) => EscPosCommand::Text(s.clone()),
            EscPosCommand::NewLine => EscPosCommand::NewLine,
            EscPosCommand::LineFeed => EscPosCommand::LineFeed,
            EscPosCommand::CarriageReturn => EscPosCommand::CarriageReturn,
            EscPosCommand::SetFont(f) => EscPosCommand::SetFont(*f),
            EscPosCommand::SetFontSize(n) => EscPosCommand::SetFontSize(*n),
            EscPosCommand::SetJustification(j) => EscPosCommand::SetJustification(*j),
            EscPosCommand::SetEmphasis(b) => EscPosCommand::SetEmphasis(*b),
            EscPosCommand::SetUnderline(b) => EscPosCommand::SetUnderline(*b),
            EscPosCommand::SetItalic(b) => EscPosCommand::SetItalic(*b),
            EscPosCommand::SetLineHeight(n) => EscPosCommand::SetLineHeight(*n),
            EscPosCommand::CutPaper => EscPosCommand::CutPaper,
            EscPosCommand::PrintImage(data) => {
                let copy = data.clone();
                assert(copy@ =~= data@);
                EscPosCommand::PrintImage(copy)
            },
            EscPosCommand::InitializePrinter => EscPosCommand::InitializePrinter,
            EscPosCommand::SetCodePage(p) => EscPosCommand::SetCodePage(*p),
            EscPosCommand::Unknown(data) => {
                let copy = data.clone();
                assert(copy@ =~= data@);
                EscPosCommand::Unknown(copy)
            },
        }
    }
}

/// The views of a sequence of commands.
pub open spec fn views(commands: Seq<EscPosCommand>) -> Seq<CommandView> {
    commands.map_values(|c: EscPosCommand| c@)
}

} // verus!
