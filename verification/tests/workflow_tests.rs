use offtopic_bot::api::{
    API, CallbackRef, ChatKind, Event, ForwardInfo, InlineButton, MessageRef, Outbound,
    WorkflowError,
};
use offtopic_bot::cache::Cache;
use offtopic_bot::callback::Callback;
use offtopic_bot::Config;

const MAIN: i64 = 100;
const ADMIN: i64 = 5;
const USER: i64 = 7;

fn cfg() -> Config {
    Config {
        token: "SECRET-REDACTED".to_string(),
        db: "unused".to_string(),
        admin_group: 1,
        main_group: MAIN,
        offtopic_group: "https://example.org/ot".to_string(),
        meta_group: "https://example.org/meta".to_string(),
    }
}

fn controller() -> API {
    API::new(cfg(), vec![ADMIN], Cache::new_bounded(16), 64)
}

fn main_message(sender: i64, id: i64, date: i64) -> MessageRef {
    MessageRef {
        chat: MAIN,
        chat_kind: ChatKind::Group,
        sender,
        id,
        date,
        forward: None,
        reply_to: None,
    }
}

fn forward_to_bot(sender: i64, origin: i64, origin_date: i64) -> MessageRef {
    MessageRef {
        chat: 42,
        chat_kind: ChatKind::Private,
        sender,
        id: 900,
        date: 5000,
        forward: Some(ForwardInfo::User { sender: origin, date: origin_date }),
        reply_to: None,
    }
}

fn prompt_payload(actions: &[Outbound]) -> String {
    assert_eq!(actions.len(), 1, "exactly one confirmation prompt");
    match &actions[0] {
        Outbound::Send(om) => {
            assert_eq!(om.chat, 42);
            assert_eq!(om.reply_to, Some(900));
            assert!(om.markdown);
            assert_eq!(om.buttons.len(), 1, "exactly one control");
            match &om.buttons[0] {
                InlineButton::Callback { payload, .. } => payload.clone(),
                _ => panic!("the prompt's control must carry a payload"),
            }
        },
        _ => panic!("the prompt must be a message send"),
    }
}

#[test]
fn main_channel_message_is_cached_silently() {
    let mut api = controller();
    let r = api.handle(&Event::Message(main_message(USER, 555, 1234))).unwrap();
    assert!(r.is_empty());
}

#[test]
fn cached_then_forwarded_yields_one_prompt() {
    let mut api = controller();
    api.handle(&Event::Message(main_message(USER, 555, 1234))).unwrap();
    let acts = api
        .handle(&Event::Message(forward_to_bot(ADMIN, USER, 1234)))
        .unwrap();
    let payload = prompt_payload(&acts);
    assert_eq!(
        Callback::from_string(&payload).unwrap(),
        Callback::Offtopic { id: 555 }
    );
}

#[test]
fn latest_message_wins_in_prompt() {
    let mut api = controller();
    api.handle(&Event::Message(main_message(USER, 555, 1234))).unwrap();
    api.handle(&Event::Message(main_message(USER, 556, 1234))).unwrap();
    let acts = api
        .handle(&Event::Message(forward_to_bot(ADMIN, USER, 1234)))
        .unwrap();
    let payload = prompt_payload(&acts);
    assert_eq!(
        Callback::from_string(&payload).unwrap(),
        Callback::Offtopic { id: 556 }
    );
}

#[test]
fn unauthorized_sender_gets_nothing() {
    let mut api = controller();
    api.handle(&Event::Message(main_message(USER, 555, 1234))).unwrap();
    // The cache holds the fingerprint, yet a non-admin forwarder gets
    // no prompt and no error surfaced to them.
    let r = api
        .handle(&Event::Message(forward_to_bot(USER, USER, 1234)))
        .unwrap();
    assert!(r.is_empty());
}

#[test]
fn unknown_fingerprint_is_lookup_miss() {
    let mut api = controller();
    api.handle(&Event::Message(main_message(USER, 555, 1234))).unwrap();
    let r = api.handle(&Event::Message(forward_to_bot(ADMIN, 8, 999)));
    assert_eq!(r.unwrap_err(), WorkflowError::LookupMiss);
}

#[test]
fn forward_from_channel_is_lookup_miss() {
    let mut api = controller();
    let mut m = forward_to_bot(ADMIN, USER, 1234);
    m.forward = Some(ForwardInfo::Other);
    let r = api.handle(&Event::Message(m));
    assert_eq!(r.unwrap_err(), WorkflowError::LookupMiss);
}

#[test]
fn private_message_without_forward_is_ignored() {
    let mut api = controller();
    let mut m = forward_to_bot(ADMIN, USER, 1234);
    m.forward = None;
    let r = api.handle(&Event::Message(m)).unwrap();
    assert!(r.is_empty());
}

#[test]
fn other_group_message_is_not_cached() {
    let mut api = controller();
    let mut m = main_message(USER, 555, 1234);
    m.chat = 101;
    let r = api.handle(&Event::Message(m)).unwrap();
    assert!(r.is_empty());
    let miss = api.handle(&Event::Message(forward_to_bot(ADMIN, USER, 1234)));
    assert_eq!(miss.unwrap_err(), WorkflowError::LookupMiss);
}

#[test]
fn activation_emits_one_notice_and_one_ack() {
    let mut api = controller();
    api.handle(&Event::Message(main_message(USER, 555, 1234))).unwrap();
    let acts = api
        .handle(&Event::Message(forward_to_bot(ADMIN, USER, 1234)))
        .unwrap();
    let payload = prompt_payload(&acts);
    let out = api
        .handle(&Event::CallbackQuery(CallbackRef {
            id: "cb1".to_string(),
            data: Some(payload),
        }))
        .unwrap();
    assert_eq!(out.len(), 2);
    match &out[0] {
        Outbound::Send(om) => {
            assert_eq!(om.chat, MAIN);
            assert_eq!(om.reply_to, Some(555));
            assert!(om.markdown);
            assert_eq!(om.buttons.len(), 2, "exactly two link controls");
            match &om.buttons[0] {
                InlineButton::Url { url, .. } => assert_eq!(url, "https://example.org/ot"),
                _ => panic!("first control must be a link"),
            }
            match &om.buttons[1] {
                InlineButton::Url { url, .. } => assert_eq!(url, "https://example.org/meta"),
                _ => panic!("second control must be a link"),
            }
        },
        _ => panic!("first action must be the public notice"),
    }
    match &out[1] {
        Outbound::Acknowledge { callback } => assert_eq!(callback, "cb1"),
        _ => panic!("second action must be the acknowledgement"),
    }
}

#[test]
fn second_activation_emits_no_second_notice() {
    let mut api = controller();
    api.handle(&Event::Message(main_message(USER, 555, 1234))).unwrap();
    let acts = api
        .handle(&Event::Message(forward_to_bot(ADMIN, USER, 1234)))
        .unwrap();
    let payload = prompt_payload(&acts);
    let first = api
        .handle(&Event::CallbackQuery(CallbackRef {
            id: "cb1".to_string(),
            data: Some(payload.clone()),
        }))
        .unwrap();
    assert_eq!(first.len(), 2);
    let second = api
        .handle(&Event::CallbackQuery(CallbackRef {
            id: "cb2".to_string(),
            data: Some(payload),
        }))
        .unwrap();
    assert_eq!(second.len(), 1, "acknowledged, but no duplicate notice");
    match &second[0] {
        Outbound::Acknowledge { callback } => assert_eq!(callback, "cb2"),
        _ => panic!("re-activation must only acknowledge"),
    }
}

#[test]
fn activation_without_payload_is_ignored() {
    let mut api = controller();
    let r = api
        .handle(&Event::CallbackQuery(CallbackRef { id: "cb1".to_string(), data: None }))
        .unwrap();
    assert!(r.is_empty());
}

#[test]
fn malformed_payload_is_decode_error() {
    let mut api = controller();
    let r = api.handle(&Event::CallbackQuery(CallbackRef {
        id: "cb1".to_string(),
        data: Some("not a payload".to_string()),
    }));
    assert_eq!(r.unwrap_err(), WorkflowError::Decode);
}

#[test]
fn oversize_payload_is_rejected_not_truncated() {
    let mut api = API::new(cfg(), vec![ADMIN], Cache::new_bounded(16), 5);
    api.handle(&Event::Message(main_message(USER, 555, 1234))).unwrap();
    let r = api.handle(&Event::Message(forward_to_bot(ADMIN, USER, 1234)));
    assert_eq!(r.unwrap_err(), WorkflowError::PayloadTooLong);
}

#[test]
fn other_events_are_ignored() {
    let mut api = controller();
    let r = api.handle(&Event::Other).unwrap();
    assert!(r.is_empty());
}

#[test]
fn empty_admin_list_authorizes_no_one() {
    // Fail-closed: a failed administrator fetch yields an empty list.
    let mut api = API::new(cfg(), vec![], Cache::new_bounded(16), 64);
    api.handle(&Event::Message(main_message(USER, 555, 1234))).unwrap();
    let r = api
        .handle(&Event::Message(forward_to_bot(ADMIN, USER, 1234)))
        .unwrap();
    assert!(r.is_empty());
}
