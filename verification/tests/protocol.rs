use notify_broker::notification::{NotificationHints, NotificationItem, Urgency};
use notify_broker::server::{
    CloseReason, ClosedSignal, ErrorReply, NotifyParams, Payload, Reply, Server, ServerError,
};

fn empty_hints() -> NotificationHints {
    NotificationHints::from_lookups(None, None, None, None, None, None, None)
}

fn notify_payload(
    app: &str,
    replaces_id: u32,
    icon: &str,
    summary: &str,
    body: &str,
    expire_timeout: i32,
) -> Payload {
    Payload::Notify(NotifyParams {
        app_name: app.to_string(),
        replaces_id,
        app_icon: icon.to_string(),
        summary: summary.to_string(),
        body: body.to_string(),
        actions: Vec::new(),
        hints: empty_hints(),
        expire_timeout,
    })
}

#[test]
fn notify_then_replace_keeps_single_entry() {
    let mut sv = Server::new();
    let (r1, s1) = sv.handle_method_call(
        "Notify",
        notify_payload("Mail", 0, "icon", "New message", "You have mail", -1),
        None,
    );
    assert_eq!(r1, Reply::Id(1));
    assert!(s1.is_none());
    let (r2, s2) = sv.handle_method_call(
        "Notify",
        notify_payload("Mail", 1, "icon", "Updated", "You have mail", -1),
        None,
    );
    assert_eq!(r2, Reply::Id(1));
    assert!(s2.is_none());
    let store = sv.get_store();
    assert_eq!(store.len(), 1);
    let item = store.nth_item(0).expect("one entry");
    assert_eq!(item.summary, "Updated");
    assert_eq!(item.id, 1);
}

#[test]
fn close_notification_emits_signal() {
    let mut sv = Server::new();
    sv.name_acquired();
    let (r1, _) = sv.handle_method_call(
        "Notify",
        notify_payload("Mail", 0, "icon", "New message", "You have mail", -1),
        None,
    );
    assert_eq!(r1, Reply::Id(1));
    let (r2, sig) = sv.handle_method_call("CloseNotification", Payload::Id(1), None);
    assert_eq!(r2, Reply::Empty);
    assert_eq!(sig, Some(ClosedSignal { id: 1, reason: 3 }));
    assert_eq!(sv.get_store().len(), 0);
}

#[test]
fn close_missing_is_failed_error_without_signal() {
    let mut sv = Server::new();
    sv.name_acquired();
    let (r, sig) = sv.handle_method_call("CloseNotification", Payload::Id(99), None);
    assert_eq!(r, Reply::Error(ErrorReply::Failed(99)));
    assert!(sig.is_none());
    assert_eq!(sv.get_store().len(), 0);
}

#[test]
fn ids_increase_and_freed_key_reused() {
    let mut sv = Server::new();
    let mut ids = Vec::new();
    for n in 0..3 {
        let summary = format!("msg {n}");
        let (r, _) = sv.handle_method_call(
            "Notify",
            notify_payload("App", 0, "", &summary, "", -1),
            None,
        );
        match r {
            Reply::Id(id) => ids.push(id),
            other => panic!("expected an id, got {other:?}"),
        }
    }
    assert_eq!(ids, vec![1, 2, 3]);
    let (r, _) = sv.handle_method_call("CloseNotification", Payload::Id(2), None);
    assert_eq!(r, Reply::Empty);
    let (r4, _) = sv.handle_method_call("Notify", notify_payload("App", 0, "", "again", "", -1), None);
    assert_eq!(r4, Reply::Id(2), "the freed key comes back, not a new maximum");
}

#[test]
fn notify_missing_replace_target_inserts_as_new() {
    let mut sv = Server::new();
    let (r, _) = sv.handle_method_call(
        "Notify",
        notify_payload("App", 7, "", "hello", "", -1),
        None,
    );
    assert_eq!(r, Reply::Id(1), "a missing replace target falls back to a fresh entry");
    assert_eq!(sv.get_store().len(), 1);
}

#[test]
fn get_capabilities_lists_fixed_set() {
    let mut sv = Server::new();
    let (r, sig) = sv.handle_method_call("GetCapabilities", Payload::NoArgs, None);
    assert!(sig.is_none());
    match r {
        Reply::Capabilities(caps) => {
            assert_eq!(
                caps,
                vec!["action-icons", "actions", "body", "body-hyperlinks", "persistent"]
            );
        }
        other => panic!("expected capabilities, got {other:?}"),
    }
}

#[test]
fn get_server_information_identity() {
    let mut sv = Server::new();
    let (r, sig) = sv.handle_method_call("GetServerInformation", Payload::NoArgs, None);
    assert!(sig.is_none());
    assert_eq!(
        r,
        Reply::ServerInformation(
            "ShellNotificationServer".to_string(),
            "Shell".to_string(),
            "1.0".to_string(),
            "1.2".to_string(),
        )
    );
}

#[test]
fn unknown_method_is_error_naming_it() {
    let mut sv = Server::new();
    let (r, sig) = sv.handle_method_call("Frobnicate", Payload::NoArgs, None);
    assert!(sig.is_none());
    assert_eq!(r, Reply::Error(ErrorReply::UnknownMethod("Frobnicate".to_string())));
}

#[test]
fn malformed_payloads_are_invalid_args() {
    let mut sv = Server::new();
    let (r1, s1) = sv.handle_method_call("Notify", Payload::Malformed, None);
    assert_eq!(r1, Reply::Error(ErrorReply::InvalidArgs));
    assert!(s1.is_none());
    let (r2, s2) = sv.handle_method_call("CloseNotification", Payload::Malformed, None);
    assert_eq!(r2, Reply::Error(ErrorReply::InvalidArgs));
    assert!(s2.is_none());
    assert_eq!(sv.get_store().len(), 0);
}

#[test]
fn send_closed_requires_ownership() {
    let mut sv = Server::new();
    let r = sv.send_closed(4, CloseReason::Dismissed);
    assert!(matches!(r, Err(ServerError::ConnectionUninitialised)));
    sv.name_acquired();
    assert_eq!(
        sv.send_closed(4, CloseReason::Expired),
        Ok(ClosedSignal { id: 4, reason: 1 })
    );
    assert_eq!(
        sv.send_closed(4, CloseReason::Dismissed),
        Ok(ClosedSignal { id: 4, reason: 2 })
    );
    assert_eq!(
        sv.send_closed(4, CloseReason::Call),
        Ok(ClosedSignal { id: 4, reason: 3 })
    );
    assert_eq!(
        sv.send_closed(4, CloseReason::Undefined),
        Ok(ClosedSignal { id: 4, reason: 4 })
    );
}

#[test]
fn name_lost_silences_close_signal() {
    let mut sv = Server::new();
    sv.name_acquired();
    let (r, _) = sv.handle_method_call("Notify", notify_payload("App", 0, "", "x", "", -1), None);
    assert_eq!(r, Reply::Id(1));
    sv.name_lost();
    let (r2, sig) = sv.handle_method_call("CloseNotification", Payload::Id(1), None);
    assert_eq!(r2, Reply::Empty, "the close itself still succeeds");
    assert!(sig.is_none(), "no signal can be emitted while the name is lost");
}

#[test]
fn urgency_levels_decode() {
    assert_eq!(Urgency::from_level(Some(0)), Urgency::Low);
    assert_eq!(Urgency::from_level(Some(1)), Urgency::Normal);
    assert_eq!(Urgency::from_level(Some(2)), Urgency::Critical);
    assert_eq!(Urgency::from_level(Some(9)), Urgency::Normal);
    assert_eq!(Urgency::from_level(None), Urgency::Normal);
}

#[test]
fn hints_from_lookups_carries_fields() {
    let h = NotificationHints::from_lookups(
        Some(2),
        Some("mail-client".to_string()),
        Some("email".to_string()),
        Some(true),
        None,
        Some("/tmp/a.png".to_string()),
        Some((2, 1, 8, true, 8, 4, vec![1, 2, 3, 4])),
    );
    assert_eq!(h.urgency, Urgency::Critical);
    assert_eq!(h.desktop_entry.as_deref(), Some("mail-client"));
    assert_eq!(h.category.as_deref(), Some("email"));
    assert_eq!(h.action_icons, Some(true));
    assert!(h.image_data.is_none());
    assert_eq!(h.image_path.as_deref(), Some("/tmp/a.png"));
    assert_eq!(h.icon_data, Some((2, 1, 8, true, 8, 4, vec![1, 2, 3, 4])));
}

#[test]
fn record_new_defaults_id_to_replaces_id() {
    let n = NotificationItem::new(
        None,
        "App".to_string(),
        7,
        "".to_string(),
        "s".to_string(),
        "b".to_string(),
        Vec::new(),
        empty_hints(),
        0,
        Some(1000),
    );
    assert_eq!(n.id, 7);
    let m = NotificationItem::new(
        Some(3),
        "App".to_string(),
        7,
        "".to_string(),
        "s".to_string(),
        "b".to_string(),
        Vec::new(),
        empty_hints(),
        0,
        None,
    );
    assert_eq!(m.id, 3);
}

#[test]
fn overwrite_keeps_timestamp_when_absent() {
    let mut n = NotificationItem::new(
        None,
        "App".to_string(),
        1,
        "".to_string(),
        "old".to_string(),
        "".to_string(),
        Vec::new(),
        empty_hints(),
        -1,
        Some(500),
    );
    let newer = NotificationItem::new(
        None,
        "App".to_string(),
        1,
        "".to_string(),
        "new".to_string(),
        "".to_string(),
        Vec::new(),
        empty_hints(),
        -1,
        None,
    );
    n.overwrite(newer);
    assert_eq!(n.summary, "new");
    assert_eq!(n.timestamp, Some(500), "an absent timestamp keeps the old one");
    let stamped = NotificationItem::new(
        None,
        "App".to_string(),
        1,
        "".to_string(),
        "third".to_string(),
        "".to_string(),
        Vec::new(),
        empty_hints(),
        -1,
        Some(900),
    );
    n.overwrite(stamped);
    assert_eq!(n.timestamp, Some(900));
}

#[test]
fn notify_records_timestamp_and_hints() {
    let mut sv = Server::new();
    let payload = Payload::Notify(NotifyParams {
        app_name: "Mail".to_string(),
        replaces_id: 0,
        app_icon: "icon".to_string(),
        summary: "s".to_string(),
        body: "b".to_string(),
        actions: vec!["default".to_string(), "Open".to_string()],
        hints: NotificationHints::from_lookups(Some(0), None, None, None, None, None, None),
        expire_timeout: 5000,
    });
    let (r, _) = sv.handle_method_call("Notify", payload, Some(1234));
    assert_eq!(r, Reply::Id(1));
    let store = sv.get_store();
    let item = store.nth_item(0).expect("stored");
    assert_eq!(item.timestamp, Some(1234));
    assert_eq!(item.get_hints().urgency, Urgency::Low);
    assert_eq!(item.actions, vec!["default".to_string(), "Open".to_string()]);
    assert_eq!(item.expire_timeout, 5000);
}
