use shimeji_gui::{
    dismiss_all, dismiss_mascot, list_active, list_prototypes, program, spawn_mascot, CtlError,
    CtlRequest, Run,
};

fn exited(success: bool, stdout: &[u8], stderr: &[u8]) -> Run {
    Run::Exited { success, stdout: stdout.to_vec(), stderr: stderr.to_vec() }
}

#[test]
fn request_arguments() {
    assert_eq!(program(), "shimejictl");
    assert_eq!(CtlRequest::ListPrototypes.args(), vec!["prototypes", "list"]);
    assert_eq!(CtlRequest::ListActive.args(), vec!["list"]);
    assert_eq!(CtlRequest::Summon("Neuroling".to_string()).args(), vec!["summon", "Neuroling"]);
    assert_eq!(CtlRequest::Dismiss(42).args(), vec!["mascot", "dismiss", "-i", "42"]);
    assert_eq!(CtlRequest::DismissAll.args(), vec!["dismiss", "-a"]);
}

#[test]
fn list_prototypes_outcomes() {
    let e = list_prototypes(&Run::NotStarted).unwrap_err();
    assert!(matches!(e, CtlError::NotStarted(CtlRequest::ListPrototypes)));
    assert_eq!(e.message(), "Failed to run shimejictl \u{2014} is wl_shimeji installed and running?");

    let e = list_prototypes(&exited(false, b"ignored", b"no daemon")).unwrap_err();
    assert_eq!(e.message(), "shimejictl prototypes list failed: no daemon");

    let names = list_prototypes(&exited(true, b"Neuroling\nEviling\n", b"")).unwrap();
    assert_eq!(names, vec!["Neuroling", "Eviling"]);
}

#[test]
fn invalid_utf8_is_replaced() {
    let names = list_prototypes(&exited(true, b"A\xffB\n\xe3\x81\x82\n", b"")).unwrap();
    assert_eq!(names, vec!["A\u{fffd}B", "\u{3042}"]);
    let e = list_active(&exited(false, b"", b"bad \xc3")).unwrap_err();
    assert_eq!(e.message(), "shimejictl list failed: bad \u{fffd}");
}

#[test]
fn list_active_outcomes() {
    let e = list_active(&Run::NotStarted).unwrap_err();
    assert!(matches!(e, CtlError::NotStarted(CtlRequest::ListActive)));
    assert_eq!(e.message(), "Failed to run shimejictl");

    let e = list_active(&exited(false, b"", b"oops\n")).unwrap_err();
    assert!(matches!(&e, CtlError::ListFailed(s) if s == "oops\n"));
    assert_eq!(e.message(), "shimejictl list failed: oops\n");

    let ms = list_active(&exited(true, b"#1 Neuroling\n#2 Eviling\n", b"")).unwrap();
    assert_eq!(ms.len(), 2);
    assert_eq!((ms[1].id, ms[1].name.as_str()), (2, "Eviling"));
}

#[test]
fn spawn_outcomes() {
    assert!(spawn_mascot("Neuroling", &exited(true, b"", b"")).is_ok());
    let e = spawn_mascot("Neuroling", &exited(false, b"", b"")).unwrap_err();
    assert_eq!(e.message(), "Failed to summon mascot 'Neuroling'");
    let e = spawn_mascot("Neuroling", &Run::NotStarted).unwrap_err();
    assert!(matches!(&e, CtlError::NotStarted(CtlRequest::Summon(n)) if n == "Neuroling"));
    assert_eq!(e.message(), "Failed to run shimejictl");
}

#[test]
fn dismiss_outcomes() {
    assert!(dismiss_mascot(7, &exited(true, b"", b"")).is_ok());
    let e = dismiss_mascot(7, &exited(false, b"", b"")).unwrap_err();
    assert_eq!(e.message(), "Failed to dismiss mascot #7");
    let e = dismiss_mascot(7, &Run::NotStarted).unwrap_err();
    assert!(matches!(e, CtlError::NotStarted(CtlRequest::Dismiss(7))));
    assert_eq!(e.message(), "Failed to run shimejictl");
}

#[test]
fn dismiss_all_outcomes() {
    assert!(dismiss_all(&exited(true, b"", b"")).is_ok());
    let e = dismiss_all(&exited(false, b"", b"")).unwrap_err();
    assert_eq!(e.message(), "Failed to dismiss all mascots");
    let e = dismiss_all(&Run::NotStarted).unwrap_err();
    assert!(matches!(e, CtlError::NotStarted(CtlRequest::DismissAll)));
}
