//! What one run knows: the stack as it was loaded, and the run's own state.

use vstd::prelude::*;
use vstd::string::*;

verus! {

/// The state of a run.
pub struct TempState {
    new_temp_file: String,
    master_record_file: String,
    temp_file_stack: Vec<String>,
    arg_file: Option<String>,
    buffer: String,
    input_temp_file: Option<String>,
    output_temp_file: Option<String>,
    silent: bool,
}

/// The state of a run, with its texts as sequences of characters.
pub struct StateView {
    /// Path of the slot file that this run creates if it captures new input.
    pub new_temp_file: Seq<char>,
    /// Path of the registry file.
    pub master_record_file: Seq<char>,
    /// The stack: the paths of the slots, oldest first.
    pub temp_file_stack: Seq<Seq<char>>,
    /// The file named on the command line, if any.
    pub arg_file: Option<Seq<char>>,
    /// The text that this run took in.
    pub buffer: Seq<char>,
    /// The input selector: the index of a slot, as the user wrote it.
    pub input_temp_file: Option<Seq<char>>,
    /// The output selector: the index of a slot, as the user wrote it.
    pub output_temp_file: Option<Seq<char>>,
    /// Whether the buffer is kept from standard output.
    pub silent: bool,
}

impl View for TempState {
    type V = StateView;

    closed spec fn view(&self) -> StateView {
        StateView {
            new_temp_file: self.new_temp_file@,
            master_record_file: self.master_record_file@,
            temp_file_stack: self.temp_file_stack.deep_view(),
            arg_file: self.arg_file.deep_view(),
            buffer: self.buffer@,
            input_temp_file: self.input_temp_file.deep_view(),
            output_temp_file: self.output_temp_file.deep_view(),
            silent: self.silent,
        }
    }
}

impl StateView {
    /// The state that a run starts in: nothing selected, not silent.
    pub open spec fn initial(
        new_temp_file: Seq<char>,
        master_record_file: Seq<char>,
        temp_file_stack: Seq<Seq<char>>,
        arg_file: Option<Seq<char>>,
        buffer: Seq<char>,
    ) -> StateView {
        StateView {
            new_temp_file,
            master_record_file,
            temp_file_stack,
            arg_file,
            buffer,
            input_temp_file: None,
            output_temp_file: None,
            silent: false,
        }
    }
}

impl TempState {
    /// The state that a run starts in.
    pub fn new(
        new_temp_file: String,
        master_record_file: String,
        temp_file_stack: Vec<String>,
        arg_file: Option<String>,
        buffer: String,
    ) -> (state: TempState)
        ensures
            state@ == StateView::initial(
                new_temp_file@,
                master_record_file@,
                temp_file_stack.deep_view(),
                arg_file.deep_view(),
                buffer@,
            ),
    {
        TempState {
            new_temp_file,
            master_record_file,
            temp_file_stack,
            arg_file,
            buffer,
            input_temp_file: None,
            output_temp_file: None,
            silent: false,
        }
    }

    /// Path of the slot file that this run creates if it captures new input.
    pub fn new_temp_file(&self) -> (path: &String)
        ensures
            path@ == self@.new_temp_file,
    {
        &self.new_temp_file
    }

    /// The path of the new slot file, as a text of its own.
    pub fn out_file_path_str(&self) -> (path: String)
        ensures
            path@ == self@.new_temp_file,
    {
        self.new_temp_file.clone()
    }

    /// Path of the registry file.
    pub fn master_record_file(&self) -> (path: &String)
        ensures
            path@ == self@.master_record_file,
    {
        &self.master_record_file
    }

    /// The stack: the paths of the slots, oldest first.
    pub fn temp_file_stack(&self) -> (stack: &Vec<String>)
        ensures
            stack.deep_view() == self@.temp_file_stack,
    {
        &self.temp_file_stack
    }

    /// The file named on the command line, if any.
    pub fn arg_file(&self) -> (file: &Option<String>)
        ensures
            file.deep_view() == self@.arg_file,
    {
        &self.arg_file
    }

    /// The text that this run took in.
    pub fn buffer(&self) -> (text: &String)
        ensures
            text@ == self@.buffer,
    {
        &self.buffer
    }

    /// The input selector.
    pub fn input_temp_file(&self) -> (index: &Option<String>)
        ensures
            index.deep_view() == self@.input_temp_file,
    {
        &self.input_temp_file
    }

    /// The output selector.
    pub fn output_temp_file(&self) -> (index: &Option<String>)
        ensures
            index.deep_view() == self@.output_temp_file,
    {
        &self.output_temp_file
    }

    /// Whether the buffer is kept from standard output.
    pub fn silent(&self) -> (silent: bool)
        ensures
            silent == self@.silent,
    {
        self.silent
    }

    /// Replaces the buffer.
    pub fn set_buffer(&mut self, buffer: String)
        ensures
            final(self)@ == (StateView { buffer: buffer@, ..old(self)@ }),
    {
        self.buffer = buffer;
    }

    /// Sets or lifts silence.
    pub fn set_silent(&mut self, silent: bool)
        ensures
            final(self)@ == (StateView { silent, ..old(self)@ }),
    {
        self.silent = silent;
    }

    /// Replaces the file named on the command line.
    pub fn set_arg_file(&mut self, arg_file: Option<String>)
        ensures
            final(self)@ == (StateView { arg_file: arg_file.deep_view(), ..old(self)@ }),
    {
        self.arg_file = arg_file;
    }

    /// Replaces the input selector.
    pub fn set_input_temp_file(&mut self, index: Option<String>)
        ensures
            final(self)@ == (StateView { input_temp_file: index.deep_view(), ..old(self)@ }),
    {
        self.input_temp_file = index;
    }

    /// Replaces the output selector.
    pub fn set_output_temp_file(&mut self, index: Option<String>)
        ensures
            final(self)@ == (StateView { output_temp_file: index.deep_view(), ..old(self)@ }),
    {
        self.output_temp_file = index;
    }
}

} // verus!
