//! Scheduled shell commands: the data a registered command carries and the
//! decisions the scheduler makes from it.  Spawning processes and waiting
//! on them is the caller's business.

use vstd::prelude::*;

verus! {

/// Which shell runs a command.
#[derive(Clone, Copy, PartialEq, Eq, Structural, Debug)]
pub enum CommandRunType {
    Shell,
    Bash,
}

/// A command registered to run on an interval inside one volume.
pub struct Command {
    pub name: String,
    pub commands: Vec<String>,
    pub description: String,
    pub time: u32,
    pub interval: String,
    pub mount_point: String,
    pub path: String,
    pub command_type: CommandRunType,
}

/// What one run of a command reported back.
pub struct CommandRunEvent {
    pub command: String,
    pub error: bool,
    pub stdout: Option<String>,
    pub stderr: Option<String>,
}

/// The milliseconds between two runs of a command, from its interval unit
/// and count; an unknown unit schedules nothing.
pub open spec fn spec_interval_ms(interval: Seq<char>, time: u32) -> Option<u64> {
    if interval == "Minutes"@ {
        Some((time * 60000) as u64)
    } else if interval == "Seconds"@ {
        Some((time * 1000) as u64)
    } else if interval == "Milliseconds"@ {
        Some(time as u64)
    } else {
        None
    }
}

/// Decides how long the scheduler sleeps between two runs of this command.
pub fn command_interval_ms(command: &Command) -> (r: Option<u64>)
    ensures
        r == spec_interval_ms(command.interval@, command.time),
{
    let s = command.interval.as_str();
    if crate::strutil::str_eq(s, "Minutes") {
        Some((command.time as u64) * 60000)
    } else if crate::strutil::str_eq(s, "Seconds") {
        Some((command.time as u64) * 1000)
    } else if crate::strutil::str_eq(s, "Milliseconds") {
        Some(command.time as u64)
    } else {
        None
    }
}

/// The program that runs a command of this type.
pub fn shell_program(t: CommandRunType) -> (r: &'static str)
    ensures
        t is Shell ==> r@ == "sh"@,
        t is Bash ==> r@ == "bash"@,
{
    match t {
        CommandRunType::Shell => "sh",
        CommandRunType::Bash => "bash",
    }
}

} // verus!
