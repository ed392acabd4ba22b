//! The decisions of a printer connection: what to do with each read from
//! the socket. The network loop itself runs outside the library.
use vstd::prelude::*;

use crate::commands::{views, EscPosCommand};
use crate::parser::{run, EscPosParser, ParserView};

verus! {

/// What a read from the printer socket gave.
pub enum ReadOutcome {
    /// Some bytes (a read of at least one byte).
    Data(Vec<u8>),
    /// The peer closed the connection (a read of zero bytes).
    Closed,
    /// The read failed.
    Failed,
}

/// What the connection does next.
pub enum SessionStep {
    /// Hand these commands to the printer and read again.
    Process(Vec<EscPosCommand>),
    /// Stop reading and send the acknowledgement.
    Finish,
}

/// The state of one printer connection: its own parser, so that a command
/// split across reads is completed by the next read.
pub struct ConnectionSession {
    parser: EscPosParser,
}

impl View for ConnectionSession {
    type V = ParserView;

    closed spec fn view(&self) -> ParserView {
        self.parser@
    }
}

impl ConnectionSession {
    /// A session whose parser has nothing pending, on code page 0.
    pub fn new() -> (session: Self)
        ensures
            session@ == (ParserView { pending: Seq::empty(), code_page: 0 }),
    {
        Self { parser: EscPosParser::new() }
    }

    /// Number of bytes kept for a command that is not complete yet.
    pub fn pending_len(&self) -> (n: usize)
        ensures
            n == self@.pending.len(),
    {
        self.parser.pending_len()
    }

    /// The next step after a read. Data is parsed (after what was pending)
    /// and its commands are to be processed; a closed connection or a
    /// failed read ends the session, leaving its state as it was. Data must
    /// keep the parser's input within the length it takes.
    pub fn on_read(&mut self, outcome: ReadOutcome) -> (step: SessionStep)
        requires
            outcome matches ReadOutcome::Data(chunk) ==> old(self)@.pending.len() + chunk@.len() <= isize::MAX / 4,
        ensures
            match outcome {
                ReadOutcome::Data(chunk) => {
                    let full = old(self)@.pending + chunk@;
                    let out = run(full, 0, old(self)@.code_page);
                    &&& step matches SessionStep::Process(commands) && views(commands@) == out.0
                    &&& final(self)@ == (ParserView { pending: full.skip(out.1), code_page: out.2 })
                },
                _ => step is Finish && final(self)@ == old(self)@,
            },
    {
        match outcome {
            ReadOutcome::Data(chunk) => {
                let commands = self.parser.parse_stream(chunk.as_slice());
                SessionStep::Process(commands)
            },
            ReadOutcome::Closed => SessionStep::Finish,
            ReadOutcome::Failed => SessionStep::Finish,
        }
    }

    /// The bytes sent back when the session ends: `OK\n`.
    pub fn acknowledgement() -> (reply: Vec<u8>)
        ensures
            reply@ == seq![0x4Fu8, 0x4Bu8, 0x0Au8],
    {
        vec![0x4F, 0x4B, 0x0A]
    }
}

} // verus!
