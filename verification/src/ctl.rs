use vstd::prelude::*;
use vstd::utf8::{decode_utf8, valid_utf8};

use crate::listing::{
    active_mascots, parse_active, parse_prototypes, prototype_names, ActiveMascot,
};
use crate::text::{decimal, decimal_chars, law_decimal_reads_back, parse_u32};

verus! {

/// A request to `shimejictl`.
#[derive(Debug, Clone)]
pub enum CtlRequest {
    /// `shimejictl prototypes list`: every imported prototype name.
    ListPrototypes,
    /// `shimejictl list`: every active mascot.
    ListActive,
    /// `shimejictl summon <name>`: spawn one mascot of a prototype.
    Summon(String),
    /// `shimejictl mascot dismiss -i <id>`: dismiss one active mascot.
    Dismiss(u32),
    /// `shimejictl dismiss -a`: dismiss every active mascot.
    DismissAll,
}

/// The arguments that `shimejictl` is run with for `request`.
pub open spec fn request_args(request: CtlRequest) -> Seq<Seq<char>> {
    match request {
        CtlRequest::ListPrototypes => seq!["prototypes"@, "list"@],
        CtlRequest::ListActive => seq!["list"@],
        CtlRequest::Summon(name) => seq!["summon"@, name@],
        CtlRequest::Dismiss(id) => seq!["mascot"@, "dismiss"@, "-i"@, decimal_chars(id as nat)],
        CtlRequest::DismissAll => seq!["dismiss"@, "-a"@],
    }
}

/// The name of the control tool.
pub fn program() -> (p: &'static str)
    ensures
        p@ == "shimejictl"@,
{
    "shimejictl"
}

impl CtlRequest {
    /// The arguments that `shimejictl` is run with for this request.
    pub fn args(&self) -> (args: Vec<String>)
        ensures
            args.deep_view() == request_args(*self),
    {
        let mut args: Vec<String> = Vec::new();
        match self {
            CtlRequest::ListPrototypes => {
                args.push(String::from_str("prototypes"));
                args.push(String::from_str("list"));
            },
            CtlRequest::ListActive => {
                args.push(String::from_str("list"));
            },
            CtlRequest::Summon(name) => {
                args.push(String::from_str("summon"));
                args.push(name.clone());
            },
            CtlRequest::Dismiss(id) => {
                args.push(String::from_str("mascot"));
                args.push(String::from_str("dismiss"));
                args.push(String::from_str("-i"));
                args.push(decimal(*id as u64));
            },
            CtlRequest::DismissAll => {
                args.push(String::from_str("dismiss"));
                args.push(String::from_str("-a"));
            },
        }
        assert(args.deep_view() =~= request_args(*self));
        args
    }
}

/// What came of running `shimejictl` once.
#[derive(Debug, Clone)]
pub enum Run {
    /// The tool could not be started.
    NotStarted,
    /// The tool ran and exited, successfully or not, with what it wrote.
    Exited { success: bool, stdout: Vec<u8>, stderr: Vec<u8> },
}

/// Why a request to `shimejictl` failed.
#[derive(Debug, Clone)]
pub enum CtlError {
    /// `shimejictl` could not be started for the request.
    NotStarted(CtlRequest),
    /// `shimejictl prototypes list` failed; what it wrote to stderr.
    PrototypesFailed(String),
    /// `shimejictl list` failed; what it wrote to stderr.
    ListFailed(String),
    /// Summoning a mascot of the named prototype failed.
    SummonFailed(String),
    /// Dismissing the mascot with this ID failed.
    DismissFailed(u32),
    /// Dismissing all mascots failed.
    DismissAllFailed,
}

/// The message that tells the user of `error`.
pub open spec fn error_message(error: CtlError) -> Seq<char> {
    match error {
        CtlError::NotStarted(CtlRequest::ListPrototypes) =>
            "Failed to run shimejictl \u{2014} is wl_shimeji installed and running?"@,
        CtlError::NotStarted(_) => "Failed to run shimejictl"@,
        CtlError::PrototypesFailed(stderr) => "shimejictl prototypes list failed: "@ + stderr@,
        CtlError::ListFailed(stderr) => "shimejictl list failed: "@ + stderr@,
        CtlError::SummonFailed(name) => "Failed to summon mascot '"@ + name@ + "'"@,
        CtlError::DismissFailed(id) => "Failed to dismiss mascot #"@ + decimal_chars(id as nat),
        CtlError::DismissAllFailed => "Failed to dismiss all mascots"@,
    }
}

impl CtlError {
    /// The message that tells the user of this error.
    pub fn message(&self) -> (m: String)
        ensures
            m@ == error_message(*self),
    {
        match self {
            CtlError::NotStarted(CtlRequest::ListPrototypes) => String::from_str(
                "Failed to run shimejictl \u{2014} is wl_shimeji installed and running?",
            ),
            CtlError::NotStarted(_) => String::from_str("Failed to run shimejictl"),
            CtlError::PrototypesFailed(stderr) => {
                let mut m = String::from_str("shimejictl prototypes list failed: ");
                m.append(stderr.as_str());
                m
            },
            CtlError::ListFailed(stderr) => {
                let mut m = String::from_str("shimejictl list failed: ");
                m.append(stderr.as_str());
                m
            },
            CtlError::SummonFailed(name) => {
                let mut m = String::from_str("Failed to summon mascot '");
                m.append(name.as_str());
                m.append("'");
                m
            },
            CtlError::DismissFailed(id) => {
                let mut m = String::from_str("Failed to dismiss mascot #");
                let digits = decimal(*id as u64);
                m.append(digits.as_str());
                m
            },
            CtlError::DismissAllFailed => String::from_str("Failed to dismiss all mascots"),
        }
    }
}

/// The text that `String::from_utf8_lossy` makes of `bytes`: their UTF-8
/// decoding, each invalid sequence replaced by U+FFFD.
pub uninterp spec fn lossy_utf8(bytes: Seq<u8>) -> Seq<char>;

/// Calls `String::from_utf8_lossy`. Trusted: its result is named
/// `lossy_utf8`, a function of the bytes alone, and for valid UTF-8 it is the
/// decoding of the bytes, as the function's documentation says; what it makes
/// of invalid input is left to the name.
#[verifier::external_body]
fn decode_lossy(bytes: &[u8]) -> (s: String)
    ensures
        s@ == lossy_utf8(bytes@),
        valid_utf8(bytes@) ==> s@ == decode_utf8(bytes@),
{
    String::from_utf8_lossy(bytes).into_owned()
}

/// The result of `shimejictl prototypes list`, from how the run went: the
/// prototype names read from its output when it succeeded.
pub fn list_prototypes(run: &Run) -> (r: Result<Vec<String>, CtlError>)
    ensures
        match run {
            Run::NotStarted => r matches Err(CtlError::NotStarted(CtlRequest::ListPrototypes)),
            Run::Exited { success, stdout, stderr } => if *success {
                r matches Ok(names) && names.deep_view() == prototype_names(lossy_utf8(stdout@))
                    && (valid_utf8(stdout@) ==> names.deep_view() == prototype_names(
                    decode_utf8(stdout@),
                ))
            } else {
                r matches Err(CtlError::PrototypesFailed(s)) && s@ == lossy_utf8(stderr@) && (
                valid_utf8(stderr@) ==> s@ == decode_utf8(stderr@))
            },
        },
{
    match run {
        Run::NotStarted => Err(CtlError::NotStarted(CtlRequest::ListPrototypes)),
        Run::Exited { success, stdout, stderr } => {
            if *success {
                let text = decode_lossy(stdout.as_slice());
                Ok(parse_prototypes(text.as_str()))
            } else {
                Err(CtlError::PrototypesFailed(decode_lossy(stderr.as_slice())))
            }
        },
    }
}

/// The result of `shimejictl list`, from how the run went: the active
/// mascots read from its output when it succeeded.
pub fn list_active(run: &Run) -> (r: Result<Vec<ActiveMascot>, CtlError>)
    ensures
        match run {
            Run::NotStarted => r matches Err(CtlError::NotStarted(CtlRequest::ListActive)),
            Run::Exited { success, stdout, stderr } => if *success {
                r matches Ok(mascots) && mascots.deep_view() == active_mascots(
                    lossy_utf8(stdout@),
                ) && (valid_utf8(stdout@) ==> mascots.deep_view() == active_mascots(
                    decode_utf8(stdout@),
                ))
            } else {
                r matches Err(CtlError::ListFailed(s)) && s@ == lossy_utf8(stderr@) && (valid_utf8(
                    stderr@,
                ) ==> s@ == decode_utf8(stderr@))
            },
        },
{
    match run {
        Run::NotStarted => Err(CtlError::NotStarted(CtlRequest::ListActive)),
        Run::Exited { success, stdout, stderr } => {
            if *success {
                let text = decode_lossy(stdout.as_slice());
                Ok(parse_active(text.as_str()))
            } else {
                Err(CtlError::ListFailed(decode_lossy(stderr.as_slice())))
            }
        },
    }
}

/// The result of `shimejictl summon <name>`, from how the run went.
pub fn spawn_mascot(name: &str, run: &Run) -> (r: Result<(), CtlError>)
    ensures
        match run {
            Run::NotStarted => r matches Err(CtlError::NotStarted(CtlRequest::Summon(n)))
                && n@ == name@,
            Run::Exited { success, .. } => if *success {
                r is Ok
            } else {
                r matches Err(CtlError::SummonFailed(n)) && n@ == name@
            },
        },
{
    match run {
        Run::NotStarted => Err(CtlError::NotStarted(CtlRequest::Summon(String::from_str(name)))),
        Run::Exited { success, .. } => {
            if *success {
                Ok(())
            } else {
                Err(CtlError::SummonFailed(String::from_str(name)))
            }
        },
    }
}

/// The result of `shimejictl mascot dismiss -i <id>`, from how the run went.
pub fn dismiss_mascot(id: u32, run: &Run) -> (r: Result<(), CtlError>)
    ensures
        match run {
            Run::NotStarted => r == Err::<(), CtlError>(CtlError::NotStarted(CtlRequest::Dismiss(id))),
            Run::Exited { success, .. } => if *success {
                r is Ok
            } else {
                r == Err::<(), CtlError>(CtlError::DismissFailed(id))
            },
        },
{
    match run {
        Run::NotStarted => Err(CtlError::NotStarted(CtlRequest::Dismiss(id))),
        Run::Exited { success, .. } => {
            if *success {
                Ok(())
            } else {
                Err(CtlError::DismissFailed(id))
            }
        },
    }
}

/// The result of `shimejictl dismiss -a`, from how the run went.
pub fn dismiss_all(run: &Run) -> (r: Result<(), CtlError>)
    ensures
        match run {
            Run::NotStarted => r == Err::<(), CtlError>(CtlError::NotStarted(CtlRequest::DismissAll)),
            Run::Exited { success, .. } => if *success {
                r is Ok
            } else {
                r == Err::<(), CtlError>(CtlError::DismissAllFailed)
            },
        },
{
    match run {
        Run::NotStarted => Err(CtlError::NotStarted(CtlRequest::DismissAll)),
        Run::Exited { success, .. } => {
            if *success {
                Ok(())
            } else {
                Err(CtlError::DismissAllFailed)
            }
        },
    }
}


/// Summoning passes the prototype name to `shimejictl summon` as one
/// argument, unchanged, whatever characters it holds.
pub proof fn law_summon_passes_name_unchanged(name: String)
    ensures
        request_args(CtlRequest::Summon(name)).len() == 2,
        request_args(CtlRequest::Summon(name))[0] == "summon"@,
        request_args(CtlRequest::Summon(name))[1] == name@,
{
}

/// Dismissing asks `shimejictl mascot dismiss -i` for the very mascot meant:
/// the ID argument reads back, as a `u32` is read, as the ID requested.
pub proof fn law_dismiss_names_the_id(id: u32)
    ensures
        request_args(CtlRequest::Dismiss(id)).len() == 4,
        request_args(CtlRequest::Dismiss(id))[0] == "mascot"@,
        request_args(CtlRequest::Dismiss(id))[1] == "dismiss"@,
        request_args(CtlRequest::Dismiss(id))[2] == "-i"@,
        parse_u32(request_args(CtlRequest::Dismiss(id))[3]) == Some(id),
{
    law_decimal_reads_back(id);
}

} // verus!
