use gx::lsp::{
    classify_header_line, frame_body_length, frame_header, lookup, route_incoming, route_message,
    word_at_position, HeaderLine, LspAction, MAX_FRAME_BYTES,
};

#[test]
fn lookup_finds_documented_builtins_only() {
    assert_eq!(
        lookup("log"),
        Some("```gx\nlog(v)\n```\nPrint value to stdout with newline.")
    );
    assert!(lookup("retry").unwrap().starts_with("```gx\nretry(fn, max?, opts?)"));
    assert!(lookup("task_progress").is_some());
    assert_eq!(lookup("not_a_builtin"), None);
    assert_eq!(lookup(""), None);
}

#[test]
fn word_at_position_finds_the_identifier_under_or_before_the_cursor() {
    let src = "x = retry(fn() { return 1 }, 3)\nsecond_line\r\n";
    assert_eq!(word_at_position(src, 0, 5), Some("retry".to_string()));
    assert_eq!(word_at_position(src, 0, 9), Some("retry".to_string()));
    assert_eq!(word_at_position(src, 0, 1), Some("x".to_string()));
    assert_eq!(word_at_position(src, 0, 2), None);
    assert_eq!(word_at_position(src, 1, 100), Some("second_line".to_string()));
    assert_eq!(word_at_position(src, 2, 0), None);
}

#[test]
fn frame_headers_read_back_as_their_length() {
    let h = frame_header(1234);
    assert_eq!(h, "Content-Length: 1234\r\n\r\n");
    let mut lines = h.split_inclusive('\n');
    assert_eq!(classify_header_line(lines.next().unwrap()), HeaderLine::ContentLength(Some(1234)));
    assert_eq!(classify_header_line(lines.next().unwrap()), HeaderLine::End);
    assert_eq!(frame_body_length(Some(1234)), Some(1234));
}

#[test]
fn header_lines_are_classified() {
    assert_eq!(classify_header_line("\r\n"), HeaderLine::End);
    assert_eq!(classify_header_line("\n"), HeaderLine::End);
    assert_eq!(classify_header_line("Content-Length:  +7 \r\n"), HeaderLine::ContentLength(Some(7)));
    assert_eq!(classify_header_line("Content-Length: x\r\n"), HeaderLine::ContentLength(None));
    assert_eq!(classify_header_line("Content-Type: application/json\r\n"), HeaderLine::Other);
    assert_eq!(classify_header_line("content-length: 3\r\n"), HeaderLine::Other);
    assert_eq!(frame_body_length(Some(MAX_FRAME_BYTES + 1)), None);
    assert_eq!(frame_body_length(None), None);
}

#[test]
fn messages_are_routed_by_method_and_kind() {
    assert_eq!(route_message("initialize", true), LspAction::Initialize);
    assert_eq!(route_message("initialized", false), LspAction::NoReply);
    assert_eq!(route_message("$/cancelRequest", false), LspAction::NoReply);
    assert_eq!(route_message("textDocument/didOpen", false), LspAction::OpenDocument);
    assert_eq!(route_message("textDocument/didChange", false), LspAction::ChangeDocument);
    assert_eq!(route_message("textDocument/didClose", false), LspAction::CloseDocument);
    assert_eq!(route_message("textDocument/hover", true), LspAction::Hover);
    assert_eq!(route_message("textDocument/hover", false), LspAction::NoReply);
    assert_eq!(route_message("textDocument/definition", true), LspAction::Definition);
    assert_eq!(route_message("shutdown", true), LspAction::Shutdown);
    assert_eq!(route_message("exit", false), LspAction::Exit);
    assert_eq!(route_message("exit", true), LspAction::Exit);
}

#[test]
fn unknown_requests_get_method_not_found_and_notifications_are_ignored() {
    assert_eq!(route_message("workspace/symbol", true), LspAction::MethodNotFound);
    assert_eq!(route_message("workspace/symbol", false), LspAction::NoReply);
    assert_eq!(route_message("Exit", true), LspAction::MethodNotFound);
    assert_eq!(route_message("", false), LspAction::NoReply);
}

#[test]
fn initialize_responds_with_server_capabilities() {
    assert_eq!(route_message("initialize", true), LspAction::Initialize);
}

#[test]
fn did_close_removes_the_document() {
    assert_eq!(route_message("textDocument/didClose", false), LspAction::CloseDocument);
}

#[test]
fn hover_on_a_known_builtin_returns_its_signature() {
    let word = word_at_position("x = retry(fn() { return 1 }, 3)\n", 0, 6).unwrap();
    assert_eq!(word, "retry");
    assert!(lookup(&word).unwrap().contains("retry(fn"));
}

#[test]
fn hover_on_whitespace_returns_null() {
    let doc = word_at_position("x = 1\n", 0, 1).and_then(|w| lookup(&w));
    assert_eq!(doc, None);
}

#[test]
fn shutdown_responds_and_exit_stops_the_loop() {
    assert_eq!(route_message("shutdown", true), LspAction::Shutdown);
    assert_eq!(route_message("exit", false), LspAction::Exit);
}

#[test]
fn an_unknown_request_gets_a_method_not_found_error_not_silence() {
    assert_eq!(route_message("textDocument/totallyMadeUp", true), LspAction::MethodNotFound);
}

#[test]
fn an_unknown_notification_is_silently_ignored() {
    assert_eq!(route_message("some/futureNotification", false), LspAction::NoReply);
}

#[test]
fn a_message_without_a_method_is_ignored_not_fatal() {
    assert_eq!(route_incoming(None, true), LspAction::NoReply);
    assert_eq!(route_incoming(None, false), LspAction::NoReply);
    assert_eq!(route_incoming(Some("exit"), false), LspAction::Exit);
}
