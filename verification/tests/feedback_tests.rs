use shimeji_gui::{
    active_status, command_line, dismiss_all_reaction, dismiss_reaction, id_label, log_text,
    parse_active, prototypes_log, prototypes_status, spawn_reaction, CtlError, CtlRequest,
    FollowUp,
};

#[test]
fn command_lines_echo_what_runs() {
    assert_eq!(command_line(&CtlRequest::ListPrototypes), "$ shimejictl prototypes list");
    assert_eq!(command_line(&CtlRequest::ListActive), "$ shimejictl list");
    assert_eq!(command_line(&CtlRequest::Summon("Neuroling".into())), "$ shimejictl summon Neuroling");
    assert_eq!(command_line(&CtlRequest::Dismiss(3)), "$ shimejictl mascot dismiss -i 3");
    assert_eq!(command_line(&CtlRequest::DismissAll), "$ shimejictl dismiss -a");
}

#[test]
fn log_entries_end_with_a_line_feed() {
    assert_eq!(log_text("Shimeji Manager ready."), "Shimeji Manager ready.\n");
    assert_eq!(log_text(""), "\n");
}

#[test]
fn id_labels() {
    assert_eq!(id_label(0), "#0");
    assert_eq!(id_label(123), "#123");
}

#[test]
fn library_status_lines() {
    let err: Result<Vec<String>, CtlError> = Err(CtlError::PrototypesFailed("x".into()));
    assert_eq!(prototypes_status(&err), "Error: shimejictl prototypes list failed: x");
    assert!(prototypes_log(&err).is_none());

    let none: Result<Vec<String>, CtlError> = Ok(vec![]);
    assert_eq!(prototypes_status(&none), "No prototypes found. Import a .wlshm first.");
    assert!(prototypes_log(&none).is_none());

    let two: Result<Vec<String>, CtlError> = Ok(vec!["a".into(), "b".into()]);
    assert_eq!(prototypes_status(&two), "2 prototype(s) available");
    assert_eq!(prototypes_log(&two).unwrap(), "  \u{2192} 2 prototype(s)");
}

#[test]
fn active_status_lines() {
    let err = Err(CtlError::NotStarted(CtlRequest::ListActive));
    assert_eq!(active_status(&err), "Error: Failed to run shimejictl");
    assert_eq!(active_status(&Ok(vec![])), "No mascots active.");
    assert_eq!(active_status(&Ok(parse_active("#1 a\n#2 b\n#3 c"))), "3 mascot(s) active");
}

#[test]
fn spawn_reactions() {
    let ok = spawn_reaction("Neuroling", &Ok(()));
    assert_eq!(ok.log, "  \u{2192} spawned Neuroling");
    assert!(ok.report.is_none());
    assert_eq!(ok.follow_up, FollowUp::ShowActivePage);

    let bad = spawn_reaction("Neuroling", &Err(CtlError::SummonFailed("Neuroling".into())));
    assert_eq!(bad.log, "  \u{2717} Failed to summon mascot 'Neuroling'");
    assert_eq!(bad.report.unwrap(), "spawn error: Failed to summon mascot 'Neuroling'");
    assert_eq!(bad.follow_up, FollowUp::Nothing);
}

#[test]
fn dismiss_reactions() {
    let ok = dismiss_reaction("Eviling", 2, &Ok(()));
    assert_eq!(ok.log, "  \u{2192} dismissed Eviling #2");
    assert!(ok.report.is_none());
    assert_eq!(ok.follow_up, FollowUp::RemoveRow);

    let bad = dismiss_reaction("Eviling", 2, &Err(CtlError::DismissFailed(2)));
    assert_eq!(bad.log, "  \u{2717} Failed to dismiss mascot #2");
    assert_eq!(bad.report.unwrap(), "dismiss error: Failed to dismiss mascot #2");
    assert_eq!(bad.follow_up, FollowUp::Nothing);
}

#[test]
fn dismiss_all_reactions() {
    let ok = dismiss_all_reaction(&Ok(()));
    assert_eq!(ok.log, "  \u{2192} all dismissed");
    assert!(ok.report.is_none());
    assert_eq!(ok.follow_up, FollowUp::Refresh);

    let bad = dismiss_all_reaction(&Err(CtlError::DismissAllFailed));
    assert_eq!(bad.log, "  \u{2717} Failed to dismiss all mascots");
    assert_eq!(bad.report.unwrap(), "Failed to dismiss all mascots");
    assert_eq!(bad.follow_up, FollowUp::Nothing);
}
