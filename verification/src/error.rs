//! What can go wrong while driving the SMB tools.
use vstd::prelude::*;
use vstd::string::*;
use crate::text;

verus! {

/// A length of time: whole seconds, and the nanoseconds of the second begun.
#[derive(Debug, Clone, Copy, PartialEq, Eq)]
pub struct TimeSpan {
    secs: u64,
    nanos: u32,
}

impl TimeSpan {
    /// The nanoseconds make up less than a second.
    #[verifier::type_invariant]
    spec fn below_a_second(self) -> bool {
        self.nanos < 1_000_000_000
    }

    /// The whole seconds.
    pub closed spec fn secs(&self) -> u64 {
        self.secs
    }

    /// The nanoseconds beyond the whole seconds.
    pub closed spec fn nanos(&self) -> u32 {
        self.nanos
    }

    /// The span of `secs` seconds and `nanos` nanoseconds, unless those make
    /// up a second.
    pub fn new(secs: u64, nanos: u32) -> (r: Option<TimeSpan>)
        ensures
            r is Some <==> nanos < 1_000_000_000,
            r matches Some(t) ==> t.secs() == secs && t.nanos() == nanos,
    {
        if nanos < 1_000_000_000 {
            Some(TimeSpan { secs, nanos })
        } else {
            None
        }
    }

    /// The whole seconds.
    pub fn as_secs(&self) -> (n: u64)
        ensures
            n == self.secs(),
    {
        self.secs
    }

    /// The nanoseconds beyond the whole seconds.
    pub fn subsec_nanos(&self) -> (n: u32)
        ensures
            n == self.nanos(),
            n < 1_000_000_000,
    {
        proof {
            use_type_invariant(self);
        }
        self.nanos
    }
}

/// How the standard library's `Debug` shows the duration of `secs` seconds and
/// `nanos` nanoseconds.
pub uninterp spec fn duration_debug(secs: u64, nanos: u32) -> Seq<char>;

/// `Debug` of the `std::time::Duration` made by `Duration::new`. The text is a
/// function of the duration alone; how it is laid out (`3s`, `1.5ms`) is not
/// stated.
#[verifier::external_body]
fn show_duration(secs: u64, nanos: u32) -> (s: String)
    requires
        nanos < 1_000_000_000,
    ensures
        s@ == duration_debug(secs, nanos),
{
    format!("{:?}", std::time::Duration::new(secs, nanos))
}

/// An error of a tool or of the transport.
#[derive(Debug, Clone, PartialEq, Eq)]
pub enum SmbError {
    /// A tool that is not on the `PATH`.
    MissingTool(&'static str),
    /// A tool that ran and failed.
    ToolFailed { tool: &'static str, code: Option<i32>, stderr: String },
    /// An I/O error, by its message.
    Io(String),
    /// An operation that took longer than it was given.
    Timeout(TimeSpan),
    /// The platform has no way to mount.
    Unsupported,
}

/// An exit code as it is shown: `Some(2)`, or `None` for a killed process.
pub open spec fn code_text(code: Option<i32>) -> Seq<char> {
    match code {
        Some(n) => "Some("@ + text::decimal(n as int) + ")"@,
        None => "None"@,
    }
}

impl SmbError {
    /// The message that describes the error.
    pub open spec fn message(&self) -> Seq<char> {
        match self {
            SmbError::MissingTool(tool) => "required tool not found on PATH: "@ + tool@,
            SmbError::ToolFailed { tool, code, stderr } => "smb tool failed: "@ + tool@
                + " (exit "@ + code_text(*code) + "): "@ + stderr@,
            SmbError::Io(m) => "io: "@ + m@,
            SmbError::Timeout(t) => "operation timed out after "@ + duration_debug(
                t.secs(),
                t.nanos(),
            ),
            SmbError::Unsupported => "unsupported on this platform"@,
        }
    }

    /// The message that describes the error.
    pub fn to_string(&self) -> (s: String)
        ensures
            s@ == self.message(),
    {
        match self {
            SmbError::MissingTool(tool) => "required tool not found on PATH: ".to_string().concat(
                tool,
            ),
            SmbError::ToolFailed { tool, code, stderr } => {
                let mut s = "smb tool failed: ".to_string();
                s.append(tool);
                s.append(" (exit ");
                match code {
                    Some(n) => {
                        let ghost before = s@;
                        s.append("Some(");
                        s.append(text::decimal_text(*n).as_str());
                        s.append(")");
                        assert(s@ =~= before + code_text(*code));
                    },
                    None => {
                        s.append("None");
                    },
                }
                s.append("): ");
                s.append(stderr.as_str());
                s
            },
            SmbError::Io(m) => "io: ".to_string().concat(m.as_str()),
            SmbError::Timeout(t) => timed_out(
                show_duration(t.as_secs(), t.subsec_nanos()).as_str(),
            ),
            SmbError::Unsupported => "unsupported on this platform".to_string(),
        }
    }
}

/// The message for an operation that timed out after the duration shown.
pub fn timed_out(duration: &str) -> (s: String)
    ensures
        s@ == "operation timed out after "@ + duration@,
{
    "operation timed out after ".to_string().concat(duration)
}

// ---------------------------------------------------------------------------
// Laws
// ---------------------------------------------------------------------------

/// Each error says what went wrong and holds what it was given: the tool and
/// what it wrote, with the exit code in decimal, the message, or the time.
pub proof fn law_error_messages(tool: &'static str, code: i32, said: String, t: TimeSpan)
    ensures
        SmbError::MissingTool(tool).message() == "required tool not found on PATH: "@ + tool@,
        (SmbError::ToolFailed { tool, code: Some(code), stderr: said }).message()
            == "smb tool failed: "@ + tool@ + " (exit Some("@ + text::decimal(code as int)
            + ")): "@ + said@,
        (SmbError::ToolFailed { tool, code: None, stderr: said }).message() == "smb tool failed: "@
            + tool@ + " (exit None): "@ + said@,
        SmbError::Io(said).message() == "io: "@ + said@,
        SmbError::Timeout(t).message() == "operation timed out after "@ + duration_debug(
            t.secs(),
            t.nanos(),
        ),
        SmbError::Unsupported.message() == "unsupported on this platform"@,
{
    reveal_strlit(" (exit ");
    reveal_strlit(" (exit Some(");
    reveal_strlit(" (exit None): ");
    reveal_strlit("Some(");
    reveal_strlit("None");
    reveal_strlit(")");
    reveal_strlit("): ");
    reveal_strlit(")): ");
    assert(" (exit Some("@ =~= " (exit "@ + "Some("@);
    assert(")): "@ =~= ")"@ + "): "@);
    assert(" (exit None): "@ =~= " (exit "@ + "None"@ + "): "@);
    let d = text::decimal(code as int);
    assert("smb tool failed: "@ + tool@ + " (exit "@ + ("Some("@ + d + ")"@) + "): "@ + said@
        =~= "smb tool failed: "@ + tool@ + " (exit Some("@ + d + ")): "@ + said@);
    assert("smb tool failed: "@ + tool@ + " (exit "@ + "None"@ + "): "@ + said@
        =~= "smb tool failed: "@ + tool@ + " (exit None): "@ + said@);
}

} // verus!
