//! What a run is given: the options of the command line and the two streams.

use vstd::prelude::*;

verus! {

/// The options of one invocation, already parsed.
#[derive(Clone, Debug)]
pub struct Options {
    /// List the slots: index and path.
    pub list_files: bool,
    /// List the slots with the content of each.
    pub list_contents: bool,
    /// Delete all stored state.
    pub clear: bool,
    /// Print nothing where no output slot is selected.
    pub silent: bool,
    /// A file to take the input from when standard input is a terminal.
    pub file: Option<String>,
    /// The slot, by its index, that new input overwrites.
    pub input: Option<String>,
    /// The slot, by its index, that is printed in place of the buffer.
    pub output: Option<String>,
}

/// The options, with their texts as sequences of characters.
pub struct OptionsView {
    pub list_files: bool,
    pub list_contents: bool,
    pub clear: bool,
    pub silent: bool,
    pub file: Option<Seq<char>>,
    pub input: Option<Seq<char>>,
    pub output: Option<Seq<char>>,
}

impl View for Options {
    type V = OptionsView;

    open spec fn view(&self) -> OptionsView {
        OptionsView {
            list_files: self.list_files,
            list_contents: self.list_contents,
            clear: self.clear,
            silent: self.silent,
            file: self.file.deep_view(),
            input: self.input.deep_view(),
            output: self.output.deep_view(),
        }
    }
}

impl OptionsView {
    /// No flag set and nothing selected.
    pub open spec fn none() -> OptionsView {
        OptionsView {
            list_files: false,
            list_contents: false,
            clear: false,
            silent: false,
            file: None,
            input: None,
            output: None,
        }
    }
}

impl Options {
    /// The options of an invocation without arguments.
    pub fn new() -> (opts: Options)
        ensures
            opts@ == OptionsView::none(),
    {
        Options {
            list_files: false,
            list_contents: false,
            clear: false,
            silent: false,
            file: None,
            input: None,
            output: None,
        }
    }
}

/// A maintenance action. Each ends the run once it is done.
#[derive(Clone, Copy, PartialEq, Eq, Structural, Debug)]
pub enum Maintenance {
    ListFiles,
    ListContents,
    Clear,
}

/// The action that the options ask for, if any. Of several, listing the
/// slots comes before listing their contents, and that before clearing.
pub open spec fn requested(opts: OptionsView) -> Option<Maintenance> {
    if opts.list_files {
        Some(Maintenance::ListFiles)
    } else if opts.list_contents {
        Some(Maintenance::ListContents)
    } else if opts.clear {
        Some(Maintenance::Clear)
    } else {
        None
    }
}

/// The two standard streams as a run finds them.
#[derive(Clone, Debug)]
pub struct Streams {
    /// All of standard input where it is a pipe; `None` where it is a
    /// terminal.
    pub stdin: Option<String>,
    /// Whether standard output is a pipe.
    pub stdout_is_pipe: bool,
}

/// The streams, with the input as a sequence of characters.
pub struct StreamsView {
    pub stdin: Option<Seq<char>>,
    pub stdout_is_pipe: bool,
}

/// One of the standard streams of the process.
#[derive(Clone, Copy, PartialEq, Eq, Structural, Debug)]
enum Channel {
    Stdin,
    Stdout,
}

/// Asks `atty::isnt` whether a stream of this process is anything but a
/// terminal. The answer depends on how the process was started, so nothing
/// is claimed of it.
#[verifier::external_body]
fn isnt_terminal(channel: Channel) -> (answer: bool) {
    atty::isnt(
        match channel {
            Channel::Stdin => atty::Stream::Stdin,
            Channel::Stdout => atty::Stream::Stdout,
        },
    )
}

impl Streams {
    /// Whether standard input of this process is a pipe. Only then is there
    /// input to read before a run.
    pub fn stdin_is_pipe() -> (answer: bool) {
        isnt_terminal(Channel::Stdin)
    }

    /// Whether standard output of this process is a pipe.
    pub fn stdout_is_pipe() -> (answer: bool) {
        isnt_terminal(Channel::Stdout)
    }
}

impl View for Streams {
    type V = StreamsView;

    open spec fn view(&self) -> StreamsView {
        StreamsView { stdin: self.stdin.deep_view(), stdout_is_pipe: self.stdout_is_pipe }
    }
}

} // verus!
