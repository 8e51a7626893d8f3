use yubikey_nostr::bunker::{
    approval_for, denial_message, should_approve, step, uses_key, Action, Approval, Input,
    RequestKind, Stage,
};

const ALL: [RequestKind; 8] = [
    RequestKind::Connect,
    RequestKind::GetPublicKey,
    RequestKind::SignEvent,
    RequestKind::Nip04Encrypt,
    RequestKind::Nip04Decrypt,
    RequestKind::Nip44Encrypt,
    RequestKind::Nip44Decrypt,
    RequestKind::Ping,
];

#[test]
fn approval_policy_per_method() {
    assert_eq!(approval_for(RequestKind::Connect), Approval::Ask { default_yes: false });
    assert_eq!(approval_for(RequestKind::GetPublicKey), Approval::Automatic);
    assert_eq!(approval_for(RequestKind::Ping), Approval::Automatic);
    for kind in [
        RequestKind::SignEvent,
        RequestKind::Nip04Encrypt,
        RequestKind::Nip04Decrypt,
        RequestKind::Nip44Encrypt,
        RequestKind::Nip44Decrypt,
    ] {
        assert_eq!(approval_for(kind), Approval::Ask { default_yes: true });
        assert!(uses_key(kind));
    }
    assert!(!uses_key(RequestKind::Connect));
    assert!(!uses_key(RequestKind::GetPublicKey));
    assert!(!uses_key(RequestKind::Ping));
}

#[test]
fn approval_needs_an_explicit_yes() {
    assert!(should_approve(RequestKind::Ping, None));
    assert!(should_approve(RequestKind::GetPublicKey, Some(false)));
    assert!(should_approve(RequestKind::SignEvent, Some(true)));
    assert!(!should_approve(RequestKind::SignEvent, Some(false)));
    assert!(!should_approve(RequestKind::SignEvent, None));
    assert!(!should_approve(RequestKind::Connect, None));
}

#[test]
fn approved_sign_event_runs_with_the_key() {
    let (s, a) = step(Stage::Received, Input::Opened);
    assert_eq!((s, a), (Stage::Decrypted, Action::Parse));
    let (s, a) = step(s, Input::Request(RequestKind::SignEvent));
    assert_eq!(s, Stage::Dispatched(RequestKind::SignEvent));
    assert_eq!(a, Action::Ask { default_yes: true });
    let (s, a) = step(s, Input::Decision(Some(true)));
    assert_eq!(s, Stage::Approved(RequestKind::SignEvent));
    assert_eq!(a, Action::Execute { kind: RequestKind::SignEvent, uses_key: true });
    let (s, a) = step(s, Input::Finished);
    assert_eq!((s, a), (Stage::Executed, Action::Respond));
    let (s, a) = step(s, Input::Published);
    assert_eq!((s, a), (Stage::Responded, Action::Idle));
}

#[test]
fn denied_connect_gets_the_denial_and_no_key() {
    let (s, a) = step(Stage::Decrypted, Input::Request(RequestKind::Connect));
    assert_eq!(a, Action::Ask { default_yes: false });
    let (s, a) = step(s, Input::Decision(Some(false)));
    assert_eq!((s, a), (Stage::Denied, Action::RespondDenied));
    assert_eq!(denial_message(), "Request denied by user");
    let (s, a) = step(s, Input::Published);
    assert_eq!((s, a), (Stage::Responded, Action::Idle));
}

#[test]
fn auto_approved_methods_run_at_once() {
    let (s, a) = step(Stage::Decrypted, Input::Request(RequestKind::GetPublicKey));
    assert_eq!(s, Stage::Approved(RequestKind::GetPublicKey));
    assert_eq!(a, Action::Execute { kind: RequestKind::GetPublicKey, uses_key: false });
    let (_, a) = step(Stage::Decrypted, Input::Request(RequestKind::Ping));
    assert_eq!(a, Action::Execute { kind: RequestKind::Ping, uses_key: false });
}

#[test]
fn unreadable_and_non_request_events_are_dropped() {
    assert_eq!(step(Stage::Received, Input::Unreadable), (Stage::Dropped, Action::Drop));
    assert_eq!(step(Stage::Decrypted, Input::NotRequest), (Stage::Dropped, Action::Drop));
}

#[test]
fn inputs_out_of_place_change_nothing() {
    assert_eq!(step(Stage::Received, Input::Finished), (Stage::Received, Action::Idle));
    assert_eq!(step(Stage::Responded, Input::Opened), (Stage::Responded, Action::Idle));
}

#[test]
fn no_method_loads_the_key_without_consent() {
    for kind in ALL {
        let (s, a) = step(Stage::Decrypted, Input::Request(kind));
        if let Action::Execute { uses_key, .. } = a {
            assert!(!uses_key);
        }
        if let Stage::Dispatched(_) = s {
            let (_, refused) = step(s, Input::Decision(None));
            assert_eq!(refused, Action::RespondDenied);
        }
    }
}
