//! The life of the server process: its file with the process number, its priority, its signals.

use crate::text;
use vstd::prelude::*;

verus! {

broadcast use vstd::string::group_string_axioms;

/// The priority that says that the priority is to stay.
pub const KEEP_NICE: i32 = -999;

/// The priority to set; none where it is to stay.
pub fn nice_to_set(nice_value: i32) -> (r: Option<i32>)
    ensures
        r == (if nice_value == -999 {
            None
        } else {
            Some(nice_value)
        }),
{
    if nice_value == KEEP_NICE {
        None
    } else {
        Some(nice_value)
    }
}

/// The number that a text writes: an optional sign and then digits, in the range of 32 bits.
pub open spec fn signed_value(s: Seq<char>) -> Option<int> {
    if s.len() > 0 && s[0] == '-' {
        let d = s.subrange(1, s.len() as int);
        if d.len() > 0 && d[0] == '+' {
            None
        } else {
            match text::unsigned_value(d, 10, 0x8000_0000) {
                Some(n) => Some(-(n as int)),
                None => None,
            }
        }
    } else {
        match text::unsigned_value(s, 10, 0x7fff_ffff) {
            Some(n) => Some(n as int),
            None => None,
        }
    }
}

/// The process number that the contents of the file give; none where they give none.
pub fn parse_pid(contents: &str) -> (r: Option<i32>)
    ensures
        r is Some <==> signed_value(text::trimmed(contents@)) is Some,
        r is Some ==> r->0 == signed_value(text::trimmed(contents@))->0,
{
    let c = text::chars_of(contents);
    let s: &[char] = text::trim(c.as_slice());
    if s.len() > 0 && s[0] == '-' {
        let d: &[char] = &s[1..s.len()];
        if d.len() > 0 && d[0] == '+' {
            return None;
        }
        match text::parse_unsigned(d, 10, 0x8000_0000) {
            Some(n) => Some((-(n as i64)) as i32),
            None => None,
        }
    } else {
        match text::parse_unsigned(s, 10, 0x7fff_ffff) {
            Some(n) => Some(n as i32),
            None => None,
        }
    }
}

/// Whether another server runs: the file names a process, and that process lives.
pub fn other_instance_runs(pid: Option<i32>, lives: bool) -> (r: bool)
    ensures
        r == (pid is Some && lives),
{
    match pid {
        Some(_) => lives,
        None => false,
    }
}

/// Whether the process may do what a capability stands for; this is not looked into, and always so.
pub fn has_capability(_cap: i32) -> (r: bool)
    ensures
        r,
{
    true
}

/// What a signal leads to.
#[derive(Debug, Clone, Copy, PartialEq, Eq, Structural)]
pub enum SignalAction {
    Shutdown,
    Reload,
    Ignore,
}

/// A process gets this when its terminal is gone, or its configuration is to be read anew.
pub const SIGHUP: i32 = 1;

/// A process gets this from the keyboard.
pub const SIGINT: i32 = 2;

/// A process gets this from the keyboard, too.
pub const SIGQUIT: i32 = 3;

/// A process gets this when it is to end.
pub const SIGTERM: i32 = 15;

/// What a signal leads to.
pub fn signal_action(signal: i32) -> (r: SignalAction)
    ensures
        r == SignalAction::Shutdown <==> signal == SIGTERM || signal == SIGINT || signal == SIGQUIT,
        r == SignalAction::Reload <==> signal == SIGHUP,
{
    if signal == SIGTERM || signal == SIGINT || signal == SIGQUIT {
        SignalAction::Shutdown
    } else if signal == SIGHUP {
        SignalAction::Reload
    } else {
        SignalAction::Ignore
    }
}

/// How much a line of the log matters.
#[derive(Debug, Clone, Copy, PartialEq, Eq, Structural)]
pub enum NimbusLogLevel {
    Debug,
    Info,
    Warn,
    Error,
    Critical,
}

impl NimbusLogLevel {
    /// The word for the level.
    pub open spec fn word(self) -> Seq<char> {
        match self {
            NimbusLogLevel::Debug => "DEBUG"@,
            NimbusLogLevel::Info => "INFO"@,
            NimbusLogLevel::Warn => "WARN"@,
            NimbusLogLevel::Error => "ERR"@,
            NimbusLogLevel::Critical => "CRIT"@,
        }
    }

    /// The word for the level.
    pub fn as_str(&self) -> (r: &'static str)
        ensures
            r@ == self.word(),
    {
        match self {
            NimbusLogLevel::Debug => "DEBUG",
            NimbusLogLevel::Info => "INFO",
            NimbusLogLevel::Warn => "WARN",
            NimbusLogLevel::Error => "ERR",
            NimbusLogLevel::Critical => "CRIT",
        }
    }
}

/// Signals 2, 3 and 15 end the server, signal 1 lets it read its configuration anew; no other does
/// anything.
pub proof fn law_signals_are_obeyed(signal: i32, r: SignalAction)
    requires
        signal_action.ensures((signal,), r),
    ensures
        signal == 2 || signal == 3 || signal == 15 ==> r == SignalAction::Shutdown,
        signal == 1 ==> r == SignalAction::Reload,
        signal != 1 && signal != 2 && signal != 3 && signal != 15 ==> r == SignalAction::Ignore,
{
}

/// A process number is written in decimal digits, with a minus sign in front where it is below zero.
pub proof fn law_process_numbers_are_signed(s: Seq<char>)
    requires
        s.len() > 0,
        s[0] != '-',
        s[0] != '+',
    ensures
        signed_value(s) == (match text::unsigned_value(s, 10, 0x7fff_ffff) {
            Some(n) => Some(n as int),
            None => None,
        }),
        signed_value(seq!['-'] + s) == (match text::unsigned_value(s, 10, 0x8000_0000) {
            Some(n) => Some(-(n as int)),
            None => None,
        }),
{
    assert((seq!['-'] + s).subrange(1, (s.len() + 1) as int) =~= s);
}

/// Another server runs exactly where the file names a process and that process lives; the priority is set
/// unless it is -999.
pub proof fn law_one_server_runs(pid: Option<i32>, lives: bool, r: bool, nice: i32, n: Option<i32>)
    requires
        other_instance_runs.ensures((pid, lives), r),
        nice_to_set.ensures((nice,), n),
    ensures
        r <==> pid is Some && lives,
        n is None <==> nice == -999,
        n is Some ==> n->0 == nice,
{
}

/// The words for the levels of the log.
pub proof fn law_levels_have_their_words(l: &NimbusLogLevel, r: &'static str)
    requires
        NimbusLogLevel::as_str.ensures((l,), r),
    ensures
        l is Debug ==> r@ == "DEBUG"@,
        l is Info ==> r@ == "INFO"@,
        l is Warn ==> r@ == "WARN"@,
        l is Error ==> r@ == "ERR"@,
        l is Critical ==> r@ == "CRIT"@,
{
}

/// The process number of a file is the number that stands in it, between white space.
pub proof fn law_process_number_is_read(
    contents: &str,
    r: Option<i32>,
    lead: Seq<char>,
    s: Seq<char>,
    trail: Seq<char>,
)
    requires
        parse_pid.ensures((contents,), r),
        contents@ == lead + (s + trail),
        text::all_white(lead),
        text::all_white(trail),
        s.len() > 0,
        !text::white_space(s[0]),
        !text::white_space(s[s.len() - 1]),
        s[0] != '-',
    ensures
        r is Some <==> text::unsigned_value(s, 10, 0x7fff_ffff) is Some,
        r is Some ==> r->0 == text::unsigned_value(s, 10, 0x7fff_ffff)->0,
{
    text::law_trimming_takes_white_space_off(lead, s, trail);
}

} // verus!
