use vstd::prelude::*;

use crate::ctl::{error_message, request_args, CtlError, CtlRequest};
use crate::listing::ActiveMascot;
use crate::text::{
    all_digits, decimal, decimal_chars, digits_value, is_digit, join, joined, law_decimal_reads_back,
    lemma_decimal_digits, parse_u32,
};

verus! {

/// The line that the command log shows for `request`: the command as it is
/// run, after a `$ ` prompt.
pub open spec fn command_echo(request: CtlRequest) -> Seq<char> {
    "$ shimejictl "@ + joined(request_args(request), " "@)
}

/// The line that the command log shows for `request`.
pub fn command_line(request: &CtlRequest) -> (line: String)
    ensures
        line@ == command_echo(*request),
{
    let mut line = String::from_str("$ shimejictl ");
    let args = request.args();
    let rest = join(&args, " ");
    line.append(rest.as_str());
    line
}

/// What the command log holds after `msg` is logged: the message and a line
/// feed.
pub fn log_text(msg: &str) -> (entry: String)
    ensures
        entry@ == msg@ + "\n"@,
{
    let mut entry = String::from_str(msg);
    entry.append("\n");
    entry
}

/// The label that shows a mascot's ID: `#` and the ID in decimal.
pub fn id_label(id: u32) -> (label: String)
    ensures
        label@ == "#"@ + decimal_chars(id as nat),
{
    let mut label = String::from_str("#");
    let digits = decimal(id as u64);
    label.append(digits.as_str());
    label
}

/// `Error: ` and the error's message.
fn error_line(error: &CtlError) -> (line: String)
    ensures
        line@ == "Error: "@ + error_message(*error),
{
    let mut line = String::from_str("Error: ");
    let m = error.message();
    line.append(m.as_str());
    line
}

/// The status line of the library page after the prototypes were listed.
pub open spec fn prototypes_status_text(r: Result<Vec<String>, CtlError>) -> Seq<char> {
    match r {
        Err(e) => "Error: "@ + error_message(e),
        Ok(names) => if names@.len() == 0 {
            "No prototypes found. Import a .wlshm first."@
        } else {
            decimal_chars(names@.len()) + " prototype(s) available"@
        },
    }
}

/// The status line of the library page after the prototypes were listed.
pub fn prototypes_status(r: &Result<Vec<String>, CtlError>) -> (status: String)
    ensures
        status@ == prototypes_status_text(*r),
{
    match r {
        Err(e) => error_line(e),
        Ok(names) => {
            if names.len() == 0 {
                String::from_str("No prototypes found. Import a .wlshm first.")
            } else {
                let mut status = decimal(names.len() as u64);
                status.append(" prototype(s) available");
                status
            }
        },
    }
}

/// What the command log adds after the prototypes were listed: their number,
/// when some were found; nothing otherwise.
pub fn prototypes_log(r: &Result<Vec<String>, CtlError>) -> (line: Option<String>)
    ensures
        match *r {
            Ok(names) => if names@.len() > 0 {
                line matches Some(l) && l@ == "  \u{2192} "@ + decimal_chars(names@.len())
                    + " prototype(s)"@
            } else {
                line is None
            },
            Err(_) => line is None,
        },
{
    match r {
        Ok(names) => {
            if names.len() > 0 {
                let mut line = String::from_str("  \u{2192} ");
                let digits = decimal(names.len() as u64);
                line.append(digits.as_str());
                line.append(" prototype(s)");
                Some(line)
            } else {
                None
            }
        },
        Err(_) => None,
    }
}

/// The status line of the active page after the mascots were listed.
pub open spec fn active_status_text(r: Result<Vec<ActiveMascot>, CtlError>) -> Seq<char> {
    match r {
        Err(e) => "Error: "@ + error_message(e),
        Ok(mascots) => if mascots@.len() == 0 {
            "No mascots active."@
        } else {
            decimal_chars(mascots@.len()) + " mascot(s) active"@
        },
    }
}

/// The status line of the active page after the mascots were listed.
pub fn active_status(r: &Result<Vec<ActiveMascot>, CtlError>) -> (status: String)
    ensures
        status@ == active_status_text(*r),
{
    match r {
        Err(e) => error_line(e),
        Ok(mascots) => {
            if mascots.len() == 0 {
                String::from_str("No mascots active.")
            } else {
                let mut status = decimal(mascots.len() as u64);
                status.append(" mascot(s) active");
                status
            }
        },
    }
}

/// What the window does next once a request is done.
#[derive(Debug, Clone, Copy, PartialEq, Eq, Structural)]
pub enum FollowUp {
    /// Nothing more.
    Nothing,
    /// Switch to the page of active mascots.
    ShowActivePage,
    /// Take the row of the dismissed mascot off the list.
    RemoveRow,
    /// List the active mascots again.
    Refresh,
}

/// How the window answers the outcome of a request made from a button: the
/// line it adds to the command log, what it reports on stderr, and what it
/// does next.
pub struct Reaction {
    pub log: String,
    pub report: Option<String>,
    pub follow_up: FollowUp,
}

/// `  ✗ ` and the error's message: the log line of a failed request.
pub open spec fn failure_log(error: CtlError) -> Seq<char> {
    "  \u{2717} "@ + error_message(error)
}

fn failure_line(error: &CtlError) -> (line: String)
    ensures
        line@ == failure_log(*error),
{
    let mut line = String::from_str("  \u{2717} ");
    let m = error.message();
    line.append(m.as_str());
    line
}

/// The reaction to summoning a mascot of prototype `name`: on success the
/// log says so and the window shows the active mascots; on failure the log
/// and stderr show the error.
pub fn spawn_reaction(name: &str, r: &Result<(), CtlError>) -> (re: Reaction)
    ensures
        match *r {
            Ok(_) => re.log@ == "  \u{2192} spawned "@ + name@ && re.report is None
                && re.follow_up == FollowUp::ShowActivePage,
            Err(e) => re.log@ == failure_log(e) && (re.report matches Some(s) && s@
                == "spawn error: "@ + error_message(e)) && re.follow_up == FollowUp::Nothing,
        },
{
    match r {
        Ok(()) => {
            let mut log = String::from_str("  \u{2192} spawned ");
            log.append(name);
            Reaction { log, report: None, follow_up: FollowUp::ShowActivePage }
        },
        Err(e) => {
            let mut report = String::from_str("spawn error: ");
            let m = e.message();
            report.append(m.as_str());
            Reaction { log: failure_line(e), report: Some(report), follow_up: FollowUp::Nothing }
        },
    }
}

/// The reaction to dismissing the mascot `name` with ID `id`: on success the
/// log says so and its row goes; on failure the log and stderr show the
/// error.
pub fn dismiss_reaction(name: &str, id: u32, r: &Result<(), CtlError>) -> (re: Reaction)
    ensures
        match *r {
            Ok(_) => re.log@ == "  \u{2192} dismissed "@ + name@ + " #"@ + decimal_chars(id as nat)
                && re.report is None && re.follow_up == FollowUp::RemoveRow,
            Err(e) => re.log@ == failure_log(e) && (re.report matches Some(s) && s@
                == "dismiss error: "@ + error_message(e)) && re.follow_up == FollowUp::Nothing,
        },
{
    match r {
        Ok(()) => {
            let mut log = String::from_str("  \u{2192} dismissed ");
            log.append(name);
            log.append(" #");
            let digits = decimal(id as u64);
            log.append(digits.as_str());
            Reaction { log, report: None, follow_up: FollowUp::RemoveRow }
        },
        Err(e) => {
            let mut report = String::from_str("dismiss error: ");
            let m = e.message();
            report.append(m.as_str());
            Reaction { log: failure_line(e), report: Some(report), follow_up: FollowUp::Nothing }
        },
    }
}

/// The reaction to dismissing all mascots: on success the log says so and
/// the list is read again; on failure the log and stderr show the error.
pub fn dismiss_all_reaction(r: &Result<(), CtlError>) -> (re: Reaction)
    ensures
        match *r {
            Ok(_) => re.log@ == "  \u{2192} all dismissed"@ && re.report is None && re.follow_up
                == FollowUp::Refresh,
            Err(e) => re.log@ == failure_log(e) && (re.report matches Some(s) && s@ == error_message(
                e,
            )) && re.follow_up == FollowUp::Nothing,
        },
{
    match r {
        Ok(()) => Reaction {
            log: String::from_str("  \u{2192} all dismissed"),
            report: None,
            follow_up: FollowUp::Refresh,
        },
        Err(e) => Reaction { log: failure_line(e), report: Some(e.message()), follow_up: FollowUp::Nothing },
    }
}


/// A count written in decimal before `suffix`, read back.
proof fn lemma_count_then_suffix(n: nat, suffix: Seq<char>)
    ensures
        ({
            let status = decimal_chars(n) + suffix;
            &&& status.len() > suffix.len()
            &&& status.skip(status.len() - suffix.len()) == suffix
            &&& all_digits(status.take(status.len() - suffix.len()))
            &&& digits_value(status.take(status.len() - suffix.len())) == n
            &&& is_digit(status[0])
        }),
{
    lemma_decimal_digits(n);
    let d = decimal_chars(n);
    let status = d + suffix;
    assert(status.skip(status.len() - suffix.len()) =~= suffix);
    assert(status.take(status.len() - suffix.len()) =~= d);
    assert(status[0] == d[0]);
}

/// The library page says that no prototypes were found exactly when the
/// listing held none; otherwise its status line starts with the number of
/// prototypes in decimal and ends with ` prototype(s) available`.
pub proof fn law_prototypes_status_counts(names: Vec<String>)
    ensures
        (prototypes_status_text(Ok::<Vec<String>, CtlError>(names))
            == "No prototypes found. Import a .wlshm first."@) <==> names@.len() == 0,
        names@.len() > 0 ==> ({
            let status = prototypes_status_text(Ok::<Vec<String>, CtlError>(names));
            let suffix = " prototype(s) available"@;
            &&& status.len() > suffix.len()
            &&& status.skip(status.len() - suffix.len()) == suffix
            &&& all_digits(status.take(status.len() - suffix.len()))
            &&& digits_value(status.take(status.len() - suffix.len())) == names@.len()
        }),
{
    reveal_strlit("No prototypes found. Import a .wlshm first.");
    if names@.len() > 0 {
        lemma_count_then_suffix(names@.len(), " prototype(s) available"@);
        let status = prototypes_status_text(Ok::<Vec<String>, CtlError>(names));
        assert(status[0] != "No prototypes found. Import a .wlshm first."@[0]);
    }
}

/// The active page says that no mascots are active exactly when the listing
/// held none; otherwise its status line starts with the number of mascots in
/// decimal and ends with ` mascot(s) active`.
pub proof fn law_active_status_counts(mascots: Vec<ActiveMascot>)
    ensures
        (active_status_text(Ok::<Vec<ActiveMascot>, CtlError>(mascots)) == "No mascots active."@)
            <==> mascots@.len() == 0,
        mascots@.len() > 0 ==> ({
            let status = active_status_text(Ok::<Vec<ActiveMascot>, CtlError>(mascots));
            let suffix = " mascot(s) active"@;
            &&& status.len() > suffix.len()
            &&& status.skip(status.len() - suffix.len()) == suffix
            &&& all_digits(status.take(status.len() - suffix.len()))
            &&& digits_value(status.take(status.len() - suffix.len())) == mascots@.len()
        }),
{
    reveal_strlit("No mascots active.");
    if mascots@.len() > 0 {
        lemma_count_then_suffix(mascots@.len(), " mascot(s) active"@);
        let status = active_status_text(Ok::<Vec<ActiveMascot>, CtlError>(mascots));
        assert(status[0] != "No mascots active."@[0]);
    }
}

/// The command log echoes exactly the command that runs: `$ shimejictl `
/// and the request's arguments, joined by single spaces.
pub proof fn law_echo_is_the_command(request: CtlRequest)
    ensures
        command_echo(request) == "$ shimejictl "@ + joined(request_args(request), " "@),
{
}

/// The echo of a summons ends with the prototype name, unchanged.
pub proof fn law_summon_echo_names_the_prototype(name: String)
    ensures
        command_echo(CtlRequest::Summon(name)) == "$ shimejictl summon "@ + name@,
{
    reveal_strlit("$ shimejictl ");
    reveal_strlit("summon");
    reveal_strlit(" ");
    reveal_strlit("$ shimejictl summon ");
    let args = request_args(CtlRequest::Summon(name));
    assert(args.drop_first() =~= seq![name@]);
    assert(joined(args.drop_first(), " "@) == name@);
    assert(joined(args, " "@) == "summon"@ + " "@ + name@);
    assert(command_echo(CtlRequest::Summon(name)) =~= "$ shimejictl summon "@ + name@);
}

/// The echo of a dismissal names the mascot dismissed: after
/// `$ shimejictl mascot dismiss -i ` comes text that reads back, as a `u32`
/// is read, as the ID dismissed.
pub proof fn law_dismiss_echo_reads_back(id: u32)
    ensures
        ({
            let echo = command_echo(CtlRequest::Dismiss(id));
            let head = "$ shimejictl mascot dismiss -i "@;
            &&& echo.len() >= head.len()
            &&& echo.take(head.len() as int) == head
            &&& parse_u32(echo.skip(head.len() as int)) == Some(id)
        }),
{
    reveal_strlit("$ shimejictl ");
    reveal_strlit("mascot");
    reveal_strlit("dismiss");
    reveal_strlit("-i");
    reveal_strlit(" ");
    reveal_strlit("$ shimejictl mascot dismiss -i ");
    law_decimal_reads_back(id);
    let d = decimal_chars(id as nat);
    let args = request_args(CtlRequest::Dismiss(id));
    let a1 = args.drop_first();
    let a2 = a1.drop_first();
    let a3 = a2.drop_first();
    assert(a3 =~= seq![d]);
    assert(joined(a3, " "@) == d);
    assert(a2 =~= seq!["-i"@, d]);
    assert(joined(a2, " "@) == "-i"@ + " "@ + d);
    assert(a1 =~= seq!["dismiss"@, "-i"@, d]);
    assert(joined(a1, " "@) == "dismiss"@ + " "@ + ("-i"@ + " "@ + d));
    assert(joined(args, " "@) == "mascot"@ + " "@ + ("dismiss"@ + " "@ + ("-i"@ + " "@ + d)));
    let echo = command_echo(CtlRequest::Dismiss(id));
    let head = "$ shimejictl mascot dismiss -i "@;
    assert(echo =~= head + d);
    assert(echo.take(head.len() as int) =~= head);
    assert(echo.skip(head.len() as int) =~= d);
}

} // verus!
