use std::sync::mpsc;

use w3drs::assistant::apply::{apply_file_replace_in_str, apply_one_to_utf8, strip_cr, EditApplyError};
use w3drs::assistant::config::{check_assistant_config, ConfigIssue};
use w3drs::assistant::ollama::{
    chat_model, chat_url, check_chat_request, http_status_failure, stream_line_step, validate_base_url,
};
use w3drs::assistant::json::{clone_json, merge_json_rfc7396_in_place, JsonValue};
use w3drs::assistant::edit_proposal::{
    EditOpV2, EditProposalEnvelopeV2, EditProposalValidationError, ReplaceRangeV2,
};
use w3drs::assistant::service::{
    collect_tokens_simple, gather_step, read_workspace_assistant_path_hint, try_recv_for, AssistantError,
    AssistantEvent, ChatMessage, EventReceiver, NoopBackend,
};

fn envelope(ops: Vec<EditOpV2>) -> EditProposalEnvelopeV2 {
    EditProposalEnvelopeV2 { version: 2, id: "id-1".to_string(), summary: "s".to_string(), ops }
}

fn replace_op(path: &str) -> EditOpV2 {
    EditOpV2::StringReplace { path: path.to_string(), search: "a".to_string(), replace: "b".to_string() }
}

#[test]
fn reject_parent_in_path() {
    let p = EditProposalEnvelopeV2 {
        version: 2,
        id: "1".to_string(),
        summary: "x".to_string(),
        ops: vec![EditOpV2::StringReplace {
            path: "../evil".to_string(),
            search: "a".to_string(),
            replace: "b".to_string(),
        }],
    };
    assert_eq!(p.validate().unwrap_err(), EditProposalValidationError::BadPath);
}

#[test]
fn valid_replace_line() {
    let p = EditProposalEnvelopeV2 {
        version: 2,
        id: "id-1".to_string(),
        summary: "s".to_string(),
        ops: vec![EditOpV2::FileReplace {
            path: "shaders/pbr.wgsl".to_string(),
            range: ReplaceRangeV2::Lines { start_line: 10, end_line: 10 },
            new_text: "fn f() {}".to_string(),
        }],
    };
    p.validate().expect("ok");
}

#[test]
fn envelope_errors_in_order() {
    let mut p = envelope(vec![replace_op("a.txt")]);
    p.version = 1;
    assert_eq!(p.validate(), Err(EditProposalValidationError::Corrupt("version doit être 2")));
    let mut p = envelope(vec![replace_op("a.txt")]);
    p.id = String::new();
    assert_eq!(
        p.validate(),
        Err(EditProposalValidationError::ExceedsSizeLimit { field: "id", max: 64, got: 0 })
    );
    let mut p = envelope(vec![replace_op("a.txt")]);
    p.id = "x".repeat(65);
    assert_eq!(
        p.validate(),
        Err(EditProposalValidationError::ExceedsSizeLimit { field: "id", max: 64, got: 65 })
    );
    let mut p = envelope(vec![replace_op("a.txt")]);
    p.summary = "é".repeat(4097);
    assert_eq!(
        p.validate(),
        Err(EditProposalValidationError::ExceedsSizeLimit { field: "summary", max: 8192, got: 8194 })
    );
    let p = envelope(vec![]);
    assert_eq!(p.validate(), Err(EditProposalValidationError::Corrupt("ops ne peut pas être vide")));
    let p = envelope((0..1001).map(|_| replace_op("a.txt")).collect());
    assert_eq!(
        p.validate(),
        Err(EditProposalValidationError::ExceedsSizeLimit { field: "ops.len", max: 1000, got: 1001 })
    );
    // the first failing operation is reported
    let p = envelope(vec![replace_op("ok.txt"), replace_op("/abs"), replace_op("../up")]);
    assert_eq!(p.validate(), Err(EditProposalValidationError::BadPath));
}

#[test]
fn paths_are_relative_without_parent_components() {
    assert!(EditOpV2::path_ok("shaders/pbr.wgsl"));
    assert!(EditOpV2::path_ok("a/..b/c"));
    assert!(EditOpV2::path_ok("a/.../c"));
    assert!(EditOpV2::path_ok("./a"));
    assert!(!EditOpV2::path_ok(""));
    assert!(!EditOpV2::path_ok("/etc/passwd"));
    assert!(!EditOpV2::path_ok("\\server\\share"));
    assert!(!EditOpV2::path_ok(".."));
    assert!(!EditOpV2::path_ok("a/../b"));
    assert!(!EditOpV2::path_ok("a/b/.."));
    assert!(!EditOpV2::path_ok(&"p".repeat(1025)));
    assert!(EditOpV2::path_ok(&"p".repeat(1024)));
}

#[test]
fn operation_limits() {
    let big = "x".repeat(1_000_001);
    let op = EditOpV2::StringReplace { path: "f".to_string(), search: big.clone(), replace: String::new() };
    assert_eq!(
        op.validate(),
        Err(EditProposalValidationError::ExceedsSizeLimit { field: "search", max: 1_000_000, got: 1_000_001 })
    );
    let op = EditOpV2::StringReplace { path: "f".to_string(), search: "a".to_string(), replace: big.clone() };
    assert_eq!(
        op.validate(),
        Err(EditProposalValidationError::ExceedsSizeLimit { field: "replace", max: 1_000_000, got: 1_000_001 })
    );
    let op = EditOpV2::FileReplace {
        path: "f".to_string(),
        range: ReplaceRangeV2::Utf8Bytes { start_byte: 0, end_byte: 0 },
        new_text: big,
    };
    assert_eq!(
        op.validate(),
        Err(EditProposalValidationError::ExceedsSizeLimit { field: "newText", max: 1_000_000, got: 1_000_001 })
    );
    let lines = |a: u32, b: u32| EditOpV2::FileReplace {
        path: "f".to_string(),
        range: ReplaceRangeV2::Lines { start_line: a, end_line: b },
        new_text: String::new(),
    };
    assert_eq!(lines(0, 1).validate(), Err(EditProposalValidationError::Corrupt("lignes invalides")));
    assert_eq!(lines(3, 2).validate(), Err(EditProposalValidationError::Corrupt("lignes invalides")));
    assert_eq!(lines(1, 1_000_002).validate(), Err(EditProposalValidationError::Corrupt("lignes invalides")));
    assert_eq!(lines(1, 1_000_001).validate(), Ok(()));
    let bytes = EditOpV2::FileReplace {
        path: "f".to_string(),
        range: ReplaceRangeV2::Utf8Bytes { start_byte: 4, end_byte: 3 },
        new_text: String::new(),
    };
    assert_eq!(bytes.validate(), Err(EditProposalValidationError::Corrupt("octets invalides")));
}

#[test]
fn string_replace_all() {
    let op = EditOpV2::StringReplace {
        path: "x.wgsl".to_string(),
        search: "a".to_string(),
        replace: "b".to_string(),
    };
    let s = apply_one_to_utf8(&op, "x.wgsl", Some("a a".to_string())).expect("x");
    assert_eq!(s, "b b");
}

#[test]
fn file_replace_line_block() {
    let op = EditOpV2::FileReplace {
        path: "f".to_string(),
        range: ReplaceRangeV2::Lines { start_line: 2, end_line: 2 },
        new_text: "Z".to_string(),
    };
    let s = apply_one_to_utf8(&op, "f", Some("A\nB\nC".to_string())).expect("ok");
    assert_eq!(s, "A\nZ\nC");
}

#[test]
fn string_replace_strips_cr_and_replaces_left_to_right() {
    let op = EditOpV2::StringReplace { path: "f".to_string(), search: "aa".to_string(), replace: "b".to_string() };
    assert_eq!(apply_one_to_utf8(&op, "f", Some("aaa\r\naa".to_string())), Ok("ba\nb".to_string()));
    let op = EditOpV2::StringReplace { path: "f".to_string(), search: "zz".to_string(), replace: "b".to_string() };
    assert_eq!(
        apply_one_to_utf8(&op, "f", Some("abc".to_string())),
        Err(EditApplyError::StringReplaceNoMatch("f".to_string(), "zz".to_string()))
    );
    let op = EditOpV2::StringReplace { path: "f".to_string(), search: String::new(), replace: "b".to_string() };
    assert_eq!(
        apply_one_to_utf8(&op, "f", Some("abc".to_string())),
        Err(EditApplyError::StringReplaceEmptySearch("f".to_string()))
    );
    let op = replace_op("f");
    assert_eq!(apply_one_to_utf8(&op, "f", None), Err(EditApplyError::MissingFile("f".to_string())));
    assert_eq!(
        apply_one_to_utf8(&op, "g", Some("a".to_string())),
        Err(EditApplyError::UnsupportedInPureContext("path ne correspond pas à l’op"))
    );
    assert_eq!(strip_cr("a\r\nb\r"), "a\nb");
}

#[test]
fn file_replace_lines_at_the_edges() {
    let s = "A\nB\nC";
    let lines = |a: u32, b: u32| ReplaceRangeV2::Lines { start_line: a, end_line: b };
    assert_eq!(apply_file_replace_in_str(s, "f", &lines(1, 1), "Z"), Ok("Z\nB\nC".to_string()));
    assert_eq!(apply_file_replace_in_str(s, "f", &lines(3, 3), "Z"), Ok("A\nB\nZ".to_string()));
    assert_eq!(apply_file_replace_in_str(s, "f", &lines(1, 3), "Z"), Ok("Z".to_string()));
    assert_eq!(apply_file_replace_in_str(s, "f", &lines(2, 3), ""), Ok("A\n".to_string()));
    assert_eq!(
        apply_file_replace_in_str(s, "f", &lines(2, 4), "Z"),
        Err(EditApplyError::FileReplaceLinesOob("f".to_string(), 3, 2, 4))
    );
    assert_eq!(
        apply_file_replace_in_str(s, "f", &lines(0, 1), "Z"),
        Err(EditApplyError::FileReplaceLinesOob("f".to_string(), 3, 0, 1))
    );
    // empty lines outside the range are kept
    assert_eq!(apply_file_replace_in_str("\nB", "f", &lines(2, 2), "Z"), Ok("\nZ".to_string()));
    assert_eq!(apply_file_replace_in_str("A\nB\n", "f", &lines(2, 2), "Z"), Ok("A\nZ\n".to_string()));
    assert_eq!(apply_file_replace_in_str("A\n\nC", "f", &lines(3, 3), "Z"), Ok("A\n\nZ".to_string()));
}

#[test]
fn file_replace_bytes() {
    let bytes = |a: usize, b: usize| ReplaceRangeV2::Utf8Bytes { start_byte: a, end_byte: b };
    assert_eq!(apply_file_replace_in_str("héllo", "f", &bytes(1, 3), "e"), Ok("hello".to_string()));
    assert_eq!(apply_file_replace_in_str("abc", "f", &bytes(3, 3), "d"), Ok("abcd".to_string()));
    assert_eq!(
        apply_file_replace_in_str("abc", "f", &bytes(2, 4), "d"),
        Err(EditApplyError::FileReplaceBytesOob("f".to_string(), 3, 2, 4))
    );
    let op = EditOpV2::FileReplace { path: "f".to_string(), range: bytes(0, 1), new_text: "X".to_string() };
    assert_eq!(apply_one_to_utf8(&op, "f", Some("\rab".to_string())), Ok("Xb".to_string()));
}

#[test]
fn try_recv_for_may_timeout() {
    let (tx, rx) = mpsc::channel();
    let _ = tx.send(AssistantEvent::Token("a".into()));
    let got = try_recv_for(&rx, std::time::Duration::from_secs(1));
    assert_eq!(got, Some(AssistantEvent::Token("a".into())));
}

#[test]
fn try_recv_for_times_out_on_silence() {
    let (_tx, rx) = mpsc::channel::<AssistantEvent>();
    assert_eq!(try_recv_for(&rx, std::time::Duration::from_millis(10)), None);
}

#[test]
fn collect_tokens_joins_until_done_or_error() {
    let (tx, rx) = mpsc::channel();
    let mut rx = EventReceiver::new(rx);
    tx.send(AssistantEvent::Token("Hel".into())).unwrap();
    tx.send(AssistantEvent::Token("lo".into())).unwrap();
    tx.send(AssistantEvent::Done).unwrap();
    assert_eq!(collect_tokens_simple(&mut rx, std::time::Duration::from_secs(2)), Ok("Hello".to_string()));
    tx.send(AssistantEvent::Token("x".into())).unwrap();
    tx.send(AssistantEvent::Error(AssistantError::Aborted)).unwrap();
    assert_eq!(collect_tokens_simple(&mut rx, std::time::Duration::from_secs(2)), Err(AssistantError::Aborted));
    drop(tx);
    assert_eq!(
        collect_tokens_simple(&mut rx, std::time::Duration::from_secs(2)),
        Err(AssistantError::Transport("aucun événement avant timeout".to_string()))
    );
}

#[test]
fn collect_tokens_leaves_later_events_and_times_out_on_tokens_alone() {
    let (tx, rx) = mpsc::channel();
    let mut rx = EventReceiver::new(rx);
    tx.send(AssistantEvent::Done).unwrap();
    tx.send(AssistantEvent::Token("later".into())).unwrap();
    assert_eq!(collect_tokens_simple(&mut rx, std::time::Duration::from_secs(2)), Ok(String::new()));
    assert_eq!(rx.recv_for(std::time::Duration::from_millis(10)), Some(AssistantEvent::Token("later".into())));
    tx.send(AssistantEvent::Token("a".into())).unwrap();
    assert_eq!(
        collect_tokens_simple(&mut rx, std::time::Duration::ZERO),
        Err(AssistantError::Transport("délai d’essai collect_tokens_simple".to_string()))
    );
}

#[test]
fn gather_step_grows_or_finishes() {
    assert_eq!(gather_step("a".to_string(), Some(AssistantEvent::Token("b".into()))), Ok("ab".to_string()));
    assert_eq!(gather_step("a".to_string(), Some(AssistantEvent::Done)), Err(Ok("a".to_string())));
    assert_eq!(
        gather_step("a".to_string(), Some(AssistantEvent::Error(AssistantError::Disabled))),
        Err(Err(AssistantError::Disabled))
    );
    assert_eq!(
        gather_step("a".to_string(), None),
        Err(Err(AssistantError::Transport("aucun événement avant timeout".to_string())))
    );
}

#[test]
fn noop_backend_checks_message_size() {
    let b = NoopBackend;
    let ok = vec![ChatMessage { role: "user".to_string(), content: "x".repeat(1_000_000) }];
    assert_eq!(b.check_messages(&ok), Ok(()));
    let huge = vec![ChatMessage { role: "user".to_string(), content: "x".repeat(1_200_000) }];
    assert!(matches!(b.check_messages(&huge), Err(AssistantError::BadRequest(_))));
    assert_eq!(b.worker_event(false), AssistantEvent::Done);
    assert_eq!(b.worker_event(true), AssistantEvent::Error(AssistantError::Aborted));
}

#[test]
fn noop_produces_done() {
    let b = NoopBackend;
    assert_eq!(b.check_messages(&vec![]), Ok(()));
    let (tx, rx) = mpsc::channel();
    tx.send(b.worker_event(false)).unwrap();
    match rx.recv() {
        Ok(AssistantEvent::Done) => {}
        e => panic!("unexpected {e:?}"),
    }
}

#[test]
fn noop_rejects_huge_message() {
    let b = NoopBackend;
    let huge = "x".repeat(1_200_000);
    let e = b.check_messages(&vec![ChatMessage { role: "user".to_string(), content: huge }]).err().expect("err");
    assert!(matches!(e, AssistantError::BadRequest(_)));
}

#[test]
fn collect_tokens_simple_on_noop() {
    let b = NoopBackend;
    let (tx, rx) = mpsc::channel();
    tx.send(b.worker_event(false)).unwrap();
    let mut rx = EventReceiver::new(rx);
    let t = std::time::Duration::from_secs(2);
    assert_eq!(collect_tokens_simple(&mut rx, t), Ok(String::new()));
}

#[test]
fn cancel_before_recv_may_abort_or_done() {
    let b = NoopBackend;
    let (tx, rx) = mpsc::channel();
    tx.send(b.worker_event(true)).unwrap();
    let mut rx = EventReceiver::new(rx);
    let r = collect_tokens_simple(&mut rx, std::time::Duration::from_secs(2));
    assert!(r == Ok(String::new()) || r == Err(AssistantError::Aborted));
}

#[test]
fn read_workspace_hint() {
    let p = read_workspace_assistant_path_hint(std::path::Path::new("/w"));
    assert_eq!(p.file_name().and_then(|f| f.to_str()), Some("assistant.json"));
    let parent = p.parent().expect("parent");
    assert_eq!(parent.file_name().and_then(|f| f.to_str()), Some("editor"));
}

fn num(n: &str) -> JsonValue {
    JsonValue::Number(n.to_string())
}

fn obj(members: Vec<(&str, JsonValue)>) -> JsonValue {
    JsonValue::Object(members.into_iter().map(|(k, v)| (k.to_string(), v)).collect())
}

#[test]
fn merge_merges_nested() {
    let mut t = obj(vec![("a", num("1")), ("b", obj(vec![("c", num("2"))]))]);
    let p = obj(vec![("b", obj(vec![("c", num("3")), ("d", num("4"))]))]);
    merge_json_rfc7396_in_place(&mut t, &p);
    assert_eq!(t, obj(vec![("a", num("1")), ("b", obj(vec![("c", num("3")), ("d", num("4"))]))]));
}

#[test]
fn merge_null_removes_and_scalars_replace() {
    let mut t = obj(vec![("label", JsonValue::String("L".into())), ("keep", JsonValue::Bool(true))]);
    let p = obj(vec![("label", JsonValue::String("L2".into())), ("keep", JsonValue::Null), ("gone", JsonValue::Null)]);
    merge_json_rfc7396_in_place(&mut t, &p);
    assert_eq!(t, obj(vec![("label", JsonValue::String("L2".into()))]));
    // an object member replaced by a scalar, and a new member appended
    let mut t = obj(vec![("x", obj(vec![("y", num("1"))]))]);
    merge_json_rfc7396_in_place(&mut t, &obj(vec![("x", num("5")), ("z", JsonValue::Array(vec![num("1")]))]));
    assert_eq!(t, obj(vec![("x", num("5")), ("z", JsonValue::Array(vec![num("1")]))]));
}

#[test]
fn merge_with_non_objects_takes_the_patch() {
    let mut t = obj(vec![("a", num("1"))]);
    merge_json_rfc7396_in_place(&mut t, &JsonValue::Array(vec![JsonValue::Null]));
    assert_eq!(t, JsonValue::Array(vec![JsonValue::Null]));
    // a target that is not an object is merged as an empty object: the patch's nulls leave nothing
    let mut t = num("3");
    let p = obj(vec![("a", JsonValue::Null), ("b", num("2"))]);
    merge_json_rfc7396_in_place(&mut t, &p);
    assert_eq!(t, obj(vec![("b", num("2"))]));
    assert_eq!(clone_json(&p), p);
}

const FIXTURE_BASE_URL: &str = "http://127.0.0.1:11434";
const FIXTURE_MODEL: &str = "llama3.2";

fn temperature_in_range(t: f32) -> bool {
    t.is_finite() && t >= 0.0 && t <= 2.0
}

#[test]
fn parse_fixture_shape() {
    let t: f32 = 0.7;
    assert_eq!(check_assistant_config(1, FIXTURE_BASE_URL, FIXTURE_MODEL, temperature_in_range(t), 120), Ok(()));
}

#[test]
fn err_bad_version() {
    assert_eq!(
        check_assistant_config(2, FIXTURE_BASE_URL, FIXTURE_MODEL, temperature_in_range(0.7), 120),
        Err(ConfigIssue::Version(2))
    );
}

#[test]
fn err_temperature() {
    assert_eq!(
        check_assistant_config(1, FIXTURE_BASE_URL, FIXTURE_MODEL, temperature_in_range(-0.1), 120),
        Err(ConfigIssue::Temperature)
    );
}

#[test]
fn err_timeout_zero() {
    assert_eq!(
        check_assistant_config(1, FIXTURE_BASE_URL, FIXTURE_MODEL, temperature_in_range(0.7), 0),
        Err(ConfigIssue::RequestTimeout(0))
    );
}

#[test]
fn config_rules_in_order() {
    assert_eq!(check_assistant_config(1, " \t", FIXTURE_MODEL, true, 120), Err(ConfigIssue::EmptyBaseUrl));
    assert_eq!(check_assistant_config(1, FIXTURE_BASE_URL, "\u{3000}", true, 120), Err(ConfigIssue::EmptyModel));
    assert_eq!(check_assistant_config(1, FIXTURE_BASE_URL, FIXTURE_MODEL, true, 3600), Ok(()));
    assert_eq!(
        check_assistant_config(1, FIXTURE_BASE_URL, FIXTURE_MODEL, true, 3601),
        Err(ConfigIssue::RequestTimeout(3601))
    );
    assert_eq!(check_assistant_config(3, "", "", false, 0), Err(ConfigIssue::Version(3)));
    assert_eq!(check_assistant_config(1, " x ", " m", false, 0), Err(ConfigIssue::Temperature));
}

#[test]
fn ollama_base_url_needs_an_http_scheme() {
    assert_eq!(validate_base_url("http://127.0.0.1:11434"), Ok(()));
    assert_eq!(validate_base_url("HTTPS://example.org"), Ok(()));
    assert_eq!(validate_base_url("Http://x"), Ok(()));
    let msg = "baseUrl doit commencer par http:// ou https://".to_string();
    assert_eq!(validate_base_url("ftp://x"), Err(msg.clone()));
    assert_eq!(validate_base_url("http:/x"), Err(msg.clone()));
    assert_eq!(validate_base_url(" http://x"), Err(msg.clone()));
    assert_eq!(validate_base_url(""), Err(msg));
}

fn user(content: &str) -> ChatMessage {
    ChatMessage { role: "user".to_string(), content: content.to_string() }
}

#[test]
fn ollama_request_checks_in_order() {
    assert_eq!(check_chat_request(&vec![user("hi")]), Ok(()));
    assert_eq!(
        check_chat_request(&vec![]),
        Err(AssistantError::BadRequest("au moins un message requis"))
    );
    assert_eq!(
        check_chat_request(&vec![user("a"), user(""), user(&"x".repeat(2_000_001))]),
        Err(AssistantError::BadRequest("un message a un contenu vide"))
    );
    assert_eq!(
        check_chat_request(&vec![user(&"x".repeat(2_000_001)), user("")]),
        Err(AssistantError::BadRequest("contenu d’un message trop long"))
    );
    assert_eq!(check_chat_request(&vec![user(&"x".repeat(2_000_000))]), Ok(()));
}

#[test]
fn ollama_url_model_and_status() {
    assert_eq!(chat_url("http://h:1//"), "http://h:1/api/chat");
    assert_eq!(chat_url("http://h:1"), "http://h:1/api/chat");
    assert_eq!(chat_model(&Some("m2".to_string()), "m1"), "m2");
    assert_eq!(chat_model(&Some(String::new()), "m1"), "m1");
    assert_eq!(chat_model(&None, "m1"), "m1");
    assert_eq!(http_status_failure(200, "x"), None);
    assert_eq!(http_status_failure(299, ""), None);
    assert_eq!(
        http_status_failure(404, "not found"),
        Some(AssistantError::Transport("status HTTP 404: not found".to_string()))
    );
    let long = "é".repeat(250);
    assert_eq!(
        http_status_failure(500, &long),
        Some(AssistantError::Transport(format!("status HTTP 500: {}", "é".repeat(200))))
    );
}

#[test]
fn ollama_stream_lines_give_tokens_then_done() {
    assert_eq!(stream_line_step(Some("h".to_string()), false), (Some(AssistantEvent::Token("h".to_string())), false));
    assert_eq!(stream_line_step(None, true), (None, true));
    assert_eq!(stream_line_step(Some(String::new()), true), (None, true));
    assert_eq!(stream_line_step(Some("end".to_string()), true), (Some(AssistantEvent::Token("end".to_string())), true));
}

#[test]
fn merge_applied_twice_equals_once() {
    let target = obj(vec![("a", num("1")), ("b", obj(vec![("c", num("2")), ("d", num("3"))])), ("e", JsonValue::Bool(true))]);
    let patch = obj(vec![
        ("b", obj(vec![("c", JsonValue::Null), ("f", num("4"))])),
        ("e", JsonValue::Null),
        ("g", obj(vec![("h", JsonValue::String("x".into()))])),
    ]);
    let mut once = clone_json(&target);
    merge_json_rfc7396_in_place(&mut once, &patch);
    let mut twice = clone_json(&once);
    merge_json_rfc7396_in_place(&mut twice, &patch);
    assert_eq!(twice, once);
    assert_eq!(
        once,
        obj(vec![
            ("a", num("1")),
            ("b", obj(vec![("d", num("3")), ("f", num("4"))])),
            ("g", obj(vec![("h", JsonValue::String("x".into()))])),
        ])
    );
}

#[test]
fn merge_drops_nulls_inside_new_members() {
    let patch = obj(vec![("a", obj(vec![("b", JsonValue::Null), ("c", num("1"))]))]);
    let mut once = obj(vec![]);
    merge_json_rfc7396_in_place(&mut once, &patch);
    assert_eq!(once, obj(vec![("a", obj(vec![("c", num("1"))]))]));
    let mut twice = clone_json(&once);
    merge_json_rfc7396_in_place(&mut twice, &patch);
    assert_eq!(twice, once);
    // an existing member that is not an object is merged as an empty object too
    let mut t = obj(vec![("a", num("7"))]);
    merge_json_rfc7396_in_place(&mut t, &patch);
    assert_eq!(t, obj(vec![("a", obj(vec![("c", num("1"))]))]));
}
