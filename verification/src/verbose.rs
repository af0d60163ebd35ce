//! Progress messages for multi-step operations.
//!
//! What is said, and where, is decided here; the caller writes the log record
//! and prints to the terminal.

use vstd::prelude::*;

use crate::text;

verus! {

/// Whether the configured logger is already copying log output to the terminal.
/// Where it is not, messages are printed there as well, so that progress is
/// always visible. It is settled once.
#[derive(Clone, Copy, Debug, PartialEq, Eq, Structural)]
pub struct LogOutput {
    pub terminal: Option<bool>,
}

impl Default for LogOutput {
    fn default() -> (r: Self)
        ensures
            r.terminal is None,
    {
        LogOutput { terminal: None }
    }
}

/// Settles whether log records are already being printed to the terminal. Only
/// the first call has an effect.
pub fn set_log_terminal_output(output: &mut LogOutput, enabled: bool)
    ensures
        old(output).terminal is None ==> final(output).terminal == Some(enabled),
        old(output).terminal is Some ==> *final(output) == *old(output),
{
    if output.terminal.is_none() {
        output.terminal = Some(enabled);
    }
}

/// Whether log records reach the terminal; not, as long as it is not settled.
pub open spec fn reaches_terminal(output: LogOutput) -> bool {
    output.terminal == Some(true)
}

/// Whether log records reach the terminal; not, as long as it is not settled.
pub fn logs_to_terminal(output: &LogOutput) -> (r: bool)
    ensures
        r == reaches_terminal(*output),
{
    match output.terminal {
        Some(b) => b,
        None => false,
    }
}

/// A progress message: the log record, and the line for the terminal where the
/// record does not get there by itself.
#[derive(Debug)]
pub struct Message {
    pub record: String,
    pub terminal: Option<String>,
}

/// Whether `message` says `s`: in the log as it is, and on the terminal behind
/// the program's name.
pub open spec fn says(message: Message, s: Seq<char>, output: LogOutput) -> bool {
    &&& message.record@ == s
    &&& if reaches_terminal(output) {
        message.terminal is None
    } else {
        message.terminal matches Some(line) && line@ == "[semquery] "@ + s
    }
}

/// Whether `message` says `s` if and only if progress is shown.
pub open spec fn says_if(
    shown: bool,
    message: Option<Message>,
    s: Seq<char>,
    output: LogOutput,
) -> bool {
    if shown {
        message matches Some(m) && says(m, s, output)
    } else {
        message is None
    }
}

fn emit_verbose(msg: &str, output: &LogOutput) -> (r: Message)
    ensures
        says(r, msg@, *output),
{
    let terminal = if logs_to_terminal(output) {
        None
    } else {
        Some(text::concat("[semquery] ", msg))
    };
    Message { record: msg.to_string(), terminal }
}

/// On/off flag for verbose progress output.
#[derive(Clone, Copy, Debug, PartialEq, Eq, Structural)]
pub struct Verbose(pub bool);

impl Default for Verbose {
    fn default() -> (r: Self)
        ensures
            r == Verbose(false),
    {
        Verbose(false)
    }
}

/// The message at the end of a step.
pub open spec fn step_text(name: Seq<char>, elapsed_ms: nat) -> Seq<char> {
    name + ": "@ + text::decimal(elapsed_ms) + " ms"@
}

impl Verbose {
    pub fn enabled(&self) -> (r: bool)
        ensures
            r == self.0,
    {
        self.0
    }

    /// An informational message, when verbose mode is on.
    pub fn log(&self, msg: &str, output: &LogOutput) -> (r: Option<Message>)
        ensures
            says_if(self.0, r, msg@, *output),
    {
        if self.0 {
            Some(emit_verbose(msg, output))
        } else {
            None
        }
    }

    /// The elapsed time of a completed step, when verbose mode is on.
    pub fn step(&self, name: &str, elapsed_ms: u128, output: &LogOutput) -> (r: Option<Message>)
        ensures
            says_if(self.0, r, step_text(name@, elapsed_ms as nat), *output),
    {
        if self.0 {
            let mut msg = name.to_string();
            msg.append(": ");
            text::push_decimal(&mut msg, elapsed_ms);
            msg.append(" ms");
            Some(emit_verbose(msg.as_str(), output))
        } else {
            None
        }
    }

    /// Starts a timed step at the clock reading `now`, in nanoseconds.
    pub fn start(&self, name: &'static str, now: u64, output: &LogOutput) -> (r: (
        Step,
        Option<Message>,
    ))
        ensures
            r.0.begun(*self, name@, now),
            says_if(self.0, r.1, name@ + "..."@, *output),
    {
        Step::new(*self, name, now, output)
    }
}

/// A timer for a single verbose step.
pub struct Step {
    verbose: Verbose,
    name: &'static str,
    start: u64,
}

impl Step {
    /// Whether this is the step `name`, begun at `start`.
    pub closed spec fn begun(&self, verbose: Verbose, name: Seq<char>, start: u64) -> bool {
        self.verbose == verbose && self.name@ == name && self.start == start
    }

    /// Begins a step, and announces it when verbose mode is on.
    pub fn new(verbose: Verbose, name: &'static str, now: u64, output: &LogOutput) -> (r: (
        Step,
        Option<Message>,
    ))
        ensures
            r.0.begun(verbose, name@, now),
            says_if(verbose.0, r.1, name@ + "..."@, *output),
    {
        let message = if verbose.0 {
            let msg = text::concat(name, "...");
            Some(emit_verbose(msg.as_str(), output))
        } else {
            None
        };
        (Step { verbose, name, start: now }, message)
    }

    /// Ends the step at the clock reading `now`, and tells its time when
    /// verbose mode is on.
    pub fn finish(self, now: u64, output: &LogOutput) -> (r: Option<Message>)
        ensures
            forall|verbose: Verbose, name: Seq<char>, start: u64| #[trigger]
                self.begun(verbose, name, start) ==> says_if(
                    verbose.0,
                    r,
                    step_text(
                        name,
                        if start <= now {
                            ((now - start) / 1_000_000) as nat
                        } else {
                            0
                        },
                    ),
                    *output,
                ),
    {
        let elapsed: u64 = if self.start <= now {
            (now - self.start) / 1_000_000
        } else {
            0
        };
        self.verbose.step(self.name, elapsed as u128, output)
    }
}

/// A message is never lost: it is in the log, and on the terminal either with
/// the log or by itself.
pub proof fn law_messages_reach_the_terminal(message: Message, s: Seq<char>, output: LogOutput)
    requires
        says(message, s, output),
    ensures
        message.record@ == s,
        reaches_terminal(output) || message.terminal is Some,
        !(reaches_terminal(output) && message.terminal is Some),
{
}

/// A message says what it was given, in the log as it is; where the log does not
/// reach the terminal it says so there too, behind the name of the program. Where
/// progress is not shown nothing is said.
pub proof fn law_messages_say_what_is_given(
    shown: bool,
    message: Option<Message>,
    s: Seq<char>,
    output: LogOutput,
)
    requires
        says_if(shown, message, s, output),
    ensures
        message is Some <==> shown,
        message matches Some(m) ==> m.record@ == s,
        message matches Some(m) ==> (m.terminal is Some <==> output.terminal != Some(true)),
        message matches Some(m) ==> (m.terminal matches Some(line) ==> line@ == "[semquery] "@ + s),
{
}

/// The end of a step tells its name and its whole milliseconds.
pub proof fn law_steps_tell_their_time(name: Seq<char>, elapsed_ms: nat)
    ensures
        step_text(name, elapsed_ms) == name + ": "@ + text::decimal(elapsed_ms) + " ms"@,
{
}

} // verus!
