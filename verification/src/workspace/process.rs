//! What is known of a program that was started: its name, the lines it
//! wrote, and whether it has ended.

use crate::logger::ringbuffer::{pushed, RingBuffer, DEFAULT_MAX_CAPACITY};
use crate::text::{char_len, decimal, decimal_of, has_prefix, substring};
use vstd::prelude::*;
use vstd::string::{StrSliceExecFns, StringExecFns};

verus! {

/// Indicates the provenance of a given [`LogLine`].
#[derive(Copy, Clone, PartialEq, Eq, Debug)]
pub enum OutputChannel {
    Stdout,
    Stderr,
}

/// A string emitted by a shell command on a given [`OutputChannel`].
pub struct LogLine {
    pub line: String,
    pub channel: OutputChannel,
}

/// A log line as plain text with its channel.
pub struct LineView {
    pub line: Seq<char>,
    pub channel: OutputChannel,
}

impl View for LogLine {
    type V = LineView;

    open spec fn view(&self) -> LineView {
        LineView { line: self.line@, channel: self.channel }
    }
}

/// The views of the lines of a log.
pub open spec fn line_views(lines: Seq<LogLine>) -> Seq<LineView> {
    lines.map_values(|l: LogLine| l@)
}

/// The two characters with which a program asks for the terminal to be cleared.
pub open spec fn clear_sequence() -> Seq<char> {
    seq!['\u{1b}', 'c']
}

/// What a log that holds `log` and keeps at most `cap` lines holds after a
/// program wrote `text`: a line that starts with the request to clear the
/// terminal empties the log and is kept without the request; any other line
/// is added, and the oldest line leaves a full log.
pub open spec fn logged(log: Seq<LineView>, cap: nat, text: Seq<char>, channel: OutputChannel) -> Seq<LineView> {
    if has_prefix(text, clear_sequence()) {
        pushed(Seq::empty(), cap, LineView { line: text.skip(2), channel })
    } else {
        pushed(log, cap, LineView { line: text, channel })
    }
}

/// How a program ended: with an exit code, or without one when a signal
/// ended it.
#[derive(Copy, Clone, PartialEq, Eq, Debug)]
pub struct ExitStatus {
    pub code: Option<i32>,
}

impl ExitStatus {
    /// The program ended by itself and reported no failure.
    pub open spec fn spec_success(&self) -> bool {
        self.code == Some(0i32)
    }

    /// Whether the program ended by itself and reported no failure.
    pub fn success(&self) -> (r: bool)
        ensures
            r == self.spec_success(),
    {
        match self.code {
            Some(code) => code == 0,
            None => false,
        }
    }
}

/// Why a program did not do its work.
#[derive(Clone, PartialEq, Eq, Debug)]
pub enum ProcessError {
    /// The program could not be started.
    SpawnFailed { script: String },
    /// It could not be told how the program ended.
    WaitFailed { script: String },
    /// The program ended with an exit code other than zero.
    NonZeroExit { script: String, code: i32 },
    /// A signal ended the program.
    Signal { script: String },
}

/// Encapsulates shell commands.
pub struct Process {
    script: String,
    logs: RingBuffer<LogLine>,
    finished: bool,
}

impl Process {
    /// The name of the program.
    pub closed spec fn spec_script(&self) -> Seq<char> {
        self.script@
    }

    /// The lines that the program wrote and that are still kept, oldest first.
    pub closed spec fn spec_logs(&self) -> Seq<LineView> {
        line_views(self.logs@)
    }

    /// Whether the program has ended.
    pub closed spec fn spec_finished(&self) -> bool {
        self.finished
    }

    /// The number of lines that are kept at most.
    pub closed spec fn capacity(&self) -> nat {
        self.logs.capacity()
    }

    /// No more lines are kept than the log has room for, and the log has room.
    pub closed spec fn wf(&self) -> bool {
        self.logs.bounded() && self.logs.capacity() > 0
    }

    /// What is known of a program called `script` that was just started.
    pub fn new(script: String) -> (r: Self)
        ensures
            r.wf(),
            r.spec_script() == script@,
            r.spec_logs() == Seq::<LineView>::empty(),
            !r.spec_finished(),
            r.capacity() == DEFAULT_MAX_CAPACITY,
    {
        let r = Process { script, logs: RingBuffer::new(), finished: false };
        proof {
            assert(line_views(r.logs@) =~= Seq::<LineView>::empty());
        }
        r
    }

    /// A process is within its bound: it keeps no more lines than it has room for.
    pub proof fn lemma_log_is_bounded(&self)
        requires
            self.wf(),
        ensures
            self.spec_logs().len() <= self.capacity(),
    {
    }

    /// The name of the program.
    pub fn script(&self) -> (r: &str)
        ensures
            r@ == self.spec_script(),
    {
        self.script.as_str()
    }

    /// The lines that the program wrote and that are still kept, oldest first.
    pub fn stdout(&self) -> (r: &RingBuffer<LogLine>)
        ensures
            line_views(r@) == self.spec_logs(),
            r.capacity() == self.capacity(),
    {
        &self.logs
    }

    /// Whether the program has ended.
    pub fn finished(&self) -> (r: bool)
        ensures
            r == self.spec_finished(),
    {
        self.finished
    }

    /// Takes note of a line that the program wrote on `channel`.
    pub fn push_line(&mut self, line: String, channel: OutputChannel)
        requires
            old(self).wf(),
        ensures
            final(self).wf(),
            final(self).spec_logs() == logged(old(self).spec_logs(), old(self).capacity(), line@, channel),
            final(self).spec_script() == old(self).spec_script(),
            final(self).spec_finished() == old(self).spec_finished(),
            final(self).capacity() == old(self).capacity(),
    {
        let ghost before = self.logs@;
        let n = char_len(line.as_str());
        let clears = n >= 2 && line.as_str().get_char(0) == '\u{1b}' && line.as_str().get_char(1) == 'c';
        proof {
            if n >= 2 {
                assert(line@.subrange(0, 2) =~= seq![line@[0], line@[1]]);
                if clears {
                    assert(line@.subrange(0, 2) =~= clear_sequence());
                } else {
                    assert(clear_sequence()[0] == '\u{1b}');
                    assert(clear_sequence()[1] == 'c');
                }
            }
            assert(clears == has_prefix(line@, clear_sequence()));
        }
        if clears {
            let rest = substring(line.as_str(), 2, n);
            self.logs.clear();
            let entry = LogLine { line: rest, channel };
            self.logs.push(entry);
            proof {
                assert(line@.skip(2) =~= line@.subrange(2, n as int));
                assert(line_views(self.logs@) =~= pushed(Seq::<LineView>::empty(), self.logs.capacity(), entry@));
            }
        } else {
            let entry = LogLine { line, channel };
            self.logs.push(entry);
            proof {
                assert(line_views(self.logs@) =~= pushed(line_views(before), self.logs.capacity(), entry@));
            }
        }
    }

    /// Takes note that the program has ended, or that it could not be told
    /// how it ended. Either way the process counts as finished.
    pub fn wait(&mut self, waited: Option<ExitStatus>) -> (r: Result<ExitStatus, ProcessError>)
        ensures
            final(self).spec_finished(),
            final(self).spec_logs() == old(self).spec_logs(),
            final(self).spec_script() == old(self).spec_script(),
            final(self).capacity() == old(self).capacity(),
            final(self).wf() == old(self).wf(),
            match r {
                Ok(status) => waited == Some(status),
                Err(e) => {
                    &&& waited is None
                    &&& e matches ProcessError::WaitFailed { script }
                    &&& script@ == old(self).spec_script()
                },
            },
    {
        self.finished = true;
        match waited {
            Some(status) => Ok(status),
            None => Err(ProcessError::WaitFailed { script: self.script.clone() }),
        }
    }

    /// Takes note that the program has ended, and tells whether it did its work.
    pub fn wait_for_success(&mut self, waited: Option<ExitStatus>) -> (r: Result<(), ProcessError>)
        ensures
            final(self).spec_finished(),
            final(self).spec_logs() == old(self).spec_logs(),
            final(self).spec_script() == old(self).spec_script(),
            final(self).capacity() == old(self).capacity(),
            final(self).wf() == old(self).wf(),
            match r {
                Ok(()) => waited is Some && waited->0.code == Some(0i32),
                Err(ProcessError::WaitFailed { script }) => waited is None && script@ == old(self).spec_script(),
                Err(ProcessError::NonZeroExit { script, code }) => {
                    &&& waited is Some
                    &&& waited->0.code == Some(code)
                    &&& code != 0
                    &&& script@ == old(self).spec_script()
                },
                Err(ProcessError::Signal { script }) => waited is Some && waited->0.code is None && script@ == old(self).spec_script(),
                Err(ProcessError::SpawnFailed { .. }) => false,
            },
    {
        let status = match self.wait(waited) {
            Ok(status) => status,
            Err(e) => {
                return Err(e);
            },
        };
        match status.code {
            Some(code) => {
                if code == 0 {
                    Ok(())
                } else {
                    Err(ProcessError::NonZeroExit { script: self.script.clone(), code })
                }
            },
            None => Err(ProcessError::Signal { script: self.script.clone() }),
        }
    }
}

/// What is said to the user of a program that did not do its work.
pub open spec fn process_error_text(e: ProcessError) -> Seq<char> {
    match e {
        ProcessError::SpawnFailed { script } => "Failed to spawn process: `"@ + script@ + "`"@,
        ProcessError::WaitFailed { script } => "Process `"@ + script@ + "` failed"@,
        ProcessError::NonZeroExit { script, code } => "Process `"@ + script@ + "` exited with non-zero exit code: "@ + decimal_of(
            code,
        ),
        ProcessError::Signal { script } => "Process `"@ + script@ + "` exited due to signal"@,
    }
}

impl ProcessError {
    /// What is said to the user.
    pub fn to_string(&self) -> (r: String)
        ensures
            r@ == process_error_text(*self),
    {
        match self {
            ProcessError::SpawnFailed { script } => {
                let mut out = String::from_str("Failed to spawn process: `");
                out.append(script.as_str());
                out.append("`");
                out
            },
            ProcessError::WaitFailed { script } => {
                let mut out = String::from_str("Process `");
                out.append(script.as_str());
                out.append("` failed");
                out
            },
            ProcessError::NonZeroExit { script, code } => {
                let mut out = String::from_str("Process `");
                out.append(script.as_str());
                out.append("` exited with non-zero exit code: ");
                let digits = decimal(*code);
                out.append(digits.as_str());
                out
            },
            ProcessError::Signal { script } => {
                let mut out = String::from_str("Process `");
                out.append(script.as_str());
                out.append("` exited due to signal");
                out
            },
        }
    }
}

} // verus!
