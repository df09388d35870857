use duenger::web_handler::{
    accepted_reply, check_change_fields, save_reply, settings_reply, ChangeRejection,
    STATUS_BAD_REQUEST, STATUS_INTERNAL_SERVER_ERROR, STATUS_OK,
};

#[test]
fn missing_name_is_refused_first() {
    let r = check_change_fields(None, None);
    assert_eq!(r.unwrap_err(), ChangeRejection::MissingName);
    let r = check_change_fields(None, Some("4.1".to_string()));
    assert_eq!(r.unwrap_err(), ChangeRejection::MissingName);
}

#[test]
fn missing_kg_is_refused() {
    let r = check_change_fields(Some("Kali".to_string()), None);
    assert_eq!(r.unwrap_err(), ChangeRejection::MissingKg);
}

#[test]
fn both_fields_are_handed_back() {
    let r = check_change_fields(Some("Kali".to_string()), Some("4.1".to_string()));
    assert_eq!(r.ok(), Some(("Kali".to_string(), "4.1".to_string())));
}

#[test]
fn rejection_replies() {
    let rep = ChangeRejection::MissingName.reply();
    assert_eq!(rep.status, 400);
    assert_eq!(rep.body, "field missing: name");
    let rep = ChangeRejection::MissingKg.reply();
    assert_eq!(rep.status, STATUS_BAD_REQUEST);
    assert_eq!(rep.body, "field missing: kg");
    assert_eq!(ChangeRejection::UnparsableKg.message(), "cannot parse kg to float");
    assert_eq!(ChangeRejection::UnparsableKg.status(), 400);
}

#[test]
fn accepted_change_reply() {
    let rep = accepted_reply();
    assert_eq!(rep.status, 200);
    assert_eq!(rep.body, "ok");
}

#[test]
fn settings_read_reply() {
    let rep = settings_reply(Some("[{\"name\":\"Kali\",\"kg\":4.1}]".to_string()));
    assert_eq!(rep.status, STATUS_OK);
    assert_eq!(rep.content_type.as_deref(), Some("application/json; charset=utf-8"));
    assert_eq!(rep.body, "[{\"name\":\"Kali\",\"kg\":4.1}]");
    let rep = settings_reply(None);
    assert_eq!(rep.status, 500);
    assert_eq!(rep.content_type, None);
    assert_eq!(rep.body, "duenger.json not found");
}

#[test]
fn settings_write_reply() {
    let rep = save_reply(Ok(()));
    assert_eq!(rep.status, 200);
    assert_eq!(rep.body, "ok");
    let rep = save_reply(Err("No such file or directory (os error 2)".to_string()));
    assert_eq!(rep.status, STATUS_INTERNAL_SERVER_ERROR);
    assert_eq!(rep.body, "No such file or directory (os error 2)");
}
