//! The state that the print server and the window share: the printer model
//! and the log of the commands received.
use vstd::prelude::*;

use crate::commands::{views, CommandView, EscPosCommand};
use crate::printer::{PrinterState, PrinterView};

verus! {

/// The value of the emulator: the printer and the commands received, in order.
pub struct EmulatorView {
    pub printer: PrinterView,
    pub log: Seq<CommandView>,
}

/// The printer model together with the log of the commands it processed.
pub struct EmulatorState {
    printer_state: PrinterState,
    command_log: Vec<EscPosCommand>,
}

impl View for EmulatorState {
    type V = EmulatorView;

    closed spec fn view(&self) -> EmulatorView {
        EmulatorView { printer: self.printer_state@, log: views(self.command_log@) }
    }
}

impl EmulatorState {
    /// A new printer (as `PrinterState::new`) and an empty log.
    pub fn new() -> (state: Self)
        ensures
            state@.printer == PrinterState::new_view(),
            state@.log == Seq::<CommandView>::empty(),
    {
        let state = Self { printer_state: PrinterState::new(), command_log: Vec::new() };
        assert(state@.log =~= Seq::<CommandView>::empty());
        state
    }

    /// Applies a command to the printer and appends it to the log.
    pub fn process_command(&mut self, command: &EscPosCommand)
        ensures
            final(self)@.printer == old(self)@.printer.apply(command@),
            final(self)@.log == old(self)@.log.push(command@),
    {
        self.printer_state.process_command(command);
        self.command_log.push(command.clone());
        assert(views(self.command_log@) =~= old(self)@.log.push(command@));
    }

    /// Empties the receipt; the settings and the log stay.
    pub fn clear_printer_buffer(&mut self)
        ensures
            final(self)@.printer == old(self)@.printer.with_lines(Seq::empty()),
            final(self)@.log == old(self)@.log,
    {
        self.printer_state.clear_buffer();
    }

    /// The printer.
    pub fn get_printer_state(&self) -> (printer: &PrinterState)
        ensures
            printer@ == self@.printer,
    {
        &self.printer_state
    }

    /// The commands received, in order.
    pub fn get_command_log(&self) -> (log: &[EscPosCommand])
        ensures
            views(log@) == self@.log,
    {
        self.command_log.as_slice()
    }

    /// Empties the log; the printer stays.
    pub fn clear_command_log(&mut self)
        ensures
            final(self)@.printer == old(self)@.printer,
            final(self)@.log == Seq::<CommandView>::empty(),
    {
        self.command_log.clear();
        assert(views(self.command_log@) =~= Seq::<CommandView>::empty());
    }
}

} // verus!
