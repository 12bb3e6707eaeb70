//! What a command left behind when it ended, and what the privilege probe says of the caller.

use crate::text::{parse_u32, parsed_u32, text_of, to_chars, trim, trimmed};
use vstd::prelude::*;
use vstd::utf8::{decode_utf8, valid_utf8};

verus! {

/// The output of one command and the status it ended with.
#[derive(Clone, Debug, PartialEq, Eq)]
pub struct CommandResult {
    pub stdout: String,
    pub stderr: String,
    pub status: i32,
}

/// A [`CommandResult`] as plain text and a number.
pub struct Output {
    pub stdout: Seq<char>,
    pub stderr: Seq<char>,
    pub status: int,
}

impl View for CommandResult {
    type V = Output;

    open spec fn view(&self) -> Output {
        Output { stdout: self.stdout@, stderr: self.stderr@, status: self.status as int }
    }
}

/// The views of a sequence of command results.
pub open spec fn outputs(v: Seq<CommandResult>) -> Seq<Output> {
    Seq::new(v.len(), |i: int| v[i]@)
}

/// The text that `String::from_utf8_lossy` reads from `bytes`: the text they encode in UTF-8,
/// with each ill-formed run of bytes read as U+FFFD.
pub uninterp spec fn utf8_lossy(bytes: Seq<u8>) -> Seq<char>;

/// `String::from_utf8_lossy`, as an owned string. The result depends on the bytes alone,
/// and bytes that are well-formed UTF-8 give the text that they encode.
#[verifier::external_body]
fn decode_lossy(bytes: &[u8]) -> (s: String)
    ensures
        s@ == utf8_lossy(bytes@),
        valid_utf8(bytes@) ==> s@ == decode_utf8(bytes@),
{
    String::from_utf8_lossy(bytes).into_owned()
}

/// The status that stands for a command that ended without one, as one does that a signal
/// ended.
pub const NO_STATUS: i32 = -1;

/// The status to report for an exit code that may be missing.
pub open spec fn status_of(code: Option<i32>) -> int {
    match code {
        Some(c) => c as int,
        None => NO_STATUS as int,
    }
}

impl CommandResult {
    /// The result of a command that wrote `stdout` and `stderr` and ended with `code`. Bytes
    /// that are not UTF-8 are replaced, never refused; a missing code becomes [`NO_STATUS`].
    pub fn from_output(stdout: &[u8], stderr: &[u8], code: Option<i32>) -> (r: CommandResult)
        ensures
            r@ == (Output {
                stdout: utf8_lossy(stdout@),
                stderr: utf8_lossy(stderr@),
                status: status_of(code),
            }),
            valid_utf8(stdout@) ==> r@.stdout == decode_utf8(stdout@),
            valid_utf8(stderr@) ==> r@.stderr == decode_utf8(stderr@),
    {
        let status = match code {
            Some(c) => c,
            None => NO_STATUS,
        };
        CommandResult { stdout: decode_lossy(stdout), stderr: decode_lossy(stderr), status }
    }

    /// A result with no output and status 0: what stands for a command that was never run.
    pub fn empty() -> (r: CommandResult)
        ensures
            r@ == (Output { stdout: Seq::empty(), stderr: Seq::empty(), status: 0 }),
    {
        CommandResult { stdout: String::new(), stderr: String::new(), status: 0 }
    }

    /// What is to be reported of this result, if anything.
    pub fn complaint(&self) -> (r: Option<String>)
        ensures
            text_of(r) == complaint_of(self@),
    {
        if self.stderr.as_str().is_empty() {
            None
        } else {
            let mut r = String::from_str("Error: ");
            r.append(self.stderr.as_str());
            Some(r)
        }
    }

}

/// What is to be reported of a command that wrote to its error stream: `Error: ` and what
/// it wrote. Nothing is reported of a command that wrote nothing there, whatever its status.
pub open spec fn complaint_of(reply: Output) -> Option<Seq<char>> {
    if reply.stderr.len() > 0 {
        Some("Error: "@ + reply.stderr)
    } else {
        None
    }
}

/// The effective user id that the probe reports: the number on its output, white space
/// around it aside, if the probe ended with status 0 and printed a number.
pub open spec fn euid_of(probe: Output) -> Option<u32> {
    if probe.status == 0 {
        parsed_u32(trimmed(probe.stdout))
    } else {
        None
    }
}

/// Whether the probe shows that the caller is the superuser. A probe that failed, or that
/// printed no number, shows nothing and counts as insufficient.
pub open spec fn permitted(probe: Output) -> bool {
    euid_of(probe) == Some(0u32)
}

/// The effective user id that the privilege probe reports.
pub fn get_euid(probe: &CommandResult) -> (r: Option<u32>)
    ensures
        r == euid_of(probe@),
{
    if probe.status == 0 {
        let text = to_chars(probe.stdout.as_str());
        let number = trim(&text);
        parse_u32(&number)
    } else {
        None
    }
}

/// Whether the privilege probe shows that the caller is the superuser.
pub fn get_permission_valid(probe: &CommandResult) -> (r: bool)
    ensures
        r == permitted(probe@),
{
    match get_euid(probe) {
        Some(euid) => euid == 0,
        None => false,
    }
}

/// A probe that ended with another status than 0, or whose output is no number, never
/// grants the privilege.
pub proof fn lemma_no_proof_no_privilege(probe: Output)
    requires
        probe.status != 0 || parsed_u32(trimmed(probe.stdout)) is None,
    ensures
        !permitted(probe),
{
}

} // verus!
