//! The LSP reframing handles: complete messages only, buffering across
//! arbitrary chunk boundaries, and URI scheme rewriting in each direction.

use distant::lsp::{RemoteLspStderr, RemoteLspStdin, RemoteLspStdout};

fn msg(body: &str) -> Vec<u8> {
    format!("Content-Length: {}\r\n\r\n{}", body.len(), body).into_bytes()
}

fn msg_with_header(extra: &str, body: &str) -> Vec<u8> {
    format!("Content-Length: {}\r\n{}\r\n\r\n{}", body.len(), extra, body).into_bytes()
}

#[test]
fn stdin_write_should_only_send_out_complete_lsp_messages() {
    let mut stdin = RemoteLspStdin::new();

    // A header alone is not a complete message: nothing goes out.
    let out = stdin.write(b"Content-Length: 17\r\n\r\n");
    assert_eq!(out.len(), 0);

    // The body completes it: exactly one message goes out.
    let out = stdin.write(b"{\"jsonrpc\":\"2.0\"}");
    assert_eq!(out.len(), 1);
    assert_eq!(out[0], msg("{\"jsonrpc\":\"2.0\"}"));
}

#[test]
fn stdin_write_should_support_buffering_output_until_a_complete_lsp_message_is_composed() {
    let mut stdin = RemoteLspStdin::new();
    let full = msg("{\"key\":\"value\"}");
    let (first, second) = full.split_at(9);

    let out = stdin.write(first);
    assert_eq!(out.len(), 0);

    let out = stdin.write(second);
    assert_eq!(out.len(), 1);
    assert_eq!(out[0], full);
}

#[test]
fn stdin_write_should_only_consume_a_complete_lsp_message_even_if_more_is_written() {
    let mut stdin = RemoteLspStdin::new();
    let mut input = msg("{\"first\":1}");
    input.extend_from_slice(b"Content-Length: 12\r\n\r\n{\"seco");

    let out = stdin.write(&input);
    assert_eq!(out.len(), 1);
    assert_eq!(out[0], msg("{\"first\":1}"));

    // The partial second message stayed buffered and completes later.
    let out = stdin.write(b"nd\":2}");
    assert_eq!(out.len(), 1);
    assert_eq!(out[0], msg("{\"second\":2}"));
}

#[test]
fn stdin_write_should_support_sending_out_multiple_lsp_messages_if_all_received_at_once() {
    let mut stdin = RemoteLspStdin::new();
    let mut input = msg("{\"first\":1}");
    input.extend_from_slice(&msg("{\"second\":2}"));

    let out = stdin.write(&input);
    assert_eq!(out.len(), 2);
    assert_eq!(out[0], msg("{\"first\":1}"));
    assert_eq!(out[1], msg("{\"second\":2}"));
}

#[test]
fn stdin_write_should_convert_content_with_distant_scheme_to_file_scheme() {
    let mut stdin = RemoteLspStdin::new();
    let input = msg("{\"uri\":\"distant://some/path\"}");

    let out = stdin.write(&input);
    assert_eq!(out.len(), 1);
    // The scheme is rewritten and the content length matches the new body.
    assert_eq!(out[0], msg("{\"uri\":\"file://some/path\"}"));
}

#[test]
fn stdout_read_should_yield_lsp_messages_as_strings() {
    let mut stdout = RemoteLspStdout::new();
    let out = stdout.read(&msg("{\"hello\":\"world\"}"));
    assert_eq!(out, msg("{\"hello\":\"world\"}"));
}

#[test]
fn stdout_read_should_only_yield_complete_lsp_messages() {
    let mut stdout = RemoteLspStdout::new();
    let full = msg("{\"key\":\"value\"}");
    let (first, second) = full.split_at(12);

    let out = stdout.read(first);
    assert_eq!(out.len(), 0);

    let out = stdout.read(second);
    assert_eq!(out, full);
}

#[test]
fn stdout_read_should_only_consume_a_complete_lsp_message_even_if_more_output_is_available() {
    let mut stdout = RemoteLspStdout::new();
    let mut input = msg("{\"first\":1}");
    input.extend_from_slice(b"Content-Length: 12\r\n\r\n{\"seco");

    let out = stdout.read(&input);
    assert_eq!(out, msg("{\"first\":1}"));

    let out = stdout.read(b"nd\":2}");
    assert_eq!(out, msg("{\"second\":2}"));
}

#[test]
fn stdout_read_should_support_yielding_multiple_lsp_messages_if_all_received_at_once() {
    let mut stdout = RemoteLspStdout::new();
    let mut input = msg("{\"first\":1}");
    input.extend_from_slice(&msg("{\"second\":2}"));

    let out = stdout.read(&input);
    let mut expected = msg("{\"first\":1}");
    expected.extend_from_slice(&msg("{\"second\":2}"));
    assert_eq!(out, expected);
}

#[test]
fn stdout_read_should_convert_content_with_file_scheme_to_distant_scheme() {
    let mut stdout = RemoteLspStdout::new();
    let out = stdout.read(&msg("{\"uri\":\"file://some/path\"}"));
    assert_eq!(out, msg("{\"uri\":\"distant://some/path\"}"));
}

#[test]
fn stderr_read_should_yield_lsp_messages_as_strings() {
    let mut stderr = RemoteLspStderr::new();
    let out = stderr.read(&msg("{\"hello\":\"world\"}"));
    assert_eq!(out, msg("{\"hello\":\"world\"}"));
}

#[test]
fn stderr_read_should_only_yield_complete_lsp_messages() {
    let mut stderr = RemoteLspStderr::new();
    let full = msg("{\"key\":\"value\"}");
    let (first, second) = full.split_at(12);

    let out = stderr.read(first);
    assert_eq!(out.len(), 0);

    let out = stderr.read(second);
    assert_eq!(out, full);
}

#[test]
fn stderr_read_should_only_consume_a_complete_lsp_message_even_if_more_output_is_available() {
    let mut stderr = RemoteLspStderr::new();
    let mut input = msg("{\"first\":1}");
    input.extend_from_slice(b"Content-Length: 12\r\n\r\n{\"seco");

    let out = stderr.read(&input);
    assert_eq!(out, msg("{\"first\":1}"));

    let out = stderr.read(b"nd\":2}");
    assert_eq!(out, msg("{\"second\":2}"));
}

#[test]
fn stderr_read_should_support_yielding_multiple_lsp_messages_if_all_received_at_once() {
    let mut stderr = RemoteLspStderr::new();
    let mut input = msg("{\"first\":1}");
    input.extend_from_slice(&msg("{\"second\":2}"));

    let out = stderr.read(&input);
    let mut expected = msg("{\"first\":1}");
    expected.extend_from_slice(&msg("{\"second\":2}"));
    assert_eq!(out, expected);
}

#[test]
fn stderr_read_should_convert_content_with_file_scheme_to_distant_scheme() {
    let mut stderr = RemoteLspStderr::new();
    let out = stderr.read(&msg("{\"uri\":\"file://some/path\"}"));
    assert_eq!(out, msg("{\"uri\":\"distant://some/path\"}"));
}

#[test]
fn lsp_messages_preserve_other_headers_and_fix_content_length_on_rewrite() {
    let mut stdin = RemoteLspStdin::new();
    let input = msg_with_header(
        "Content-Type: application/vscode-jsonrpc; charset=utf-8",
        "{\"uri\":\"distant://host/path\"}",
    );

    let out = stdin.write(&input);
    assert_eq!(out.len(), 1);
    assert_eq!(
        out[0],
        msg_with_header(
            "Content-Type: application/vscode-jsonrpc; charset=utf-8",
            "{\"uri\":\"file://host/path\"}",
        )
    );
}

#[test]
fn lsp_scheme_rewrite_round_trips() {
    // Outbound then inbound restores a body that held no file scheme.
    let body = "{\"uri\":\"distant://host/a\",\"other\":\"distant://host/b\"}";
    let mut stdin = RemoteLspStdin::new();
    let out = stdin.write(&msg(body));
    assert_eq!(out.len(), 1);

    let mut stdout = RemoteLspStdout::new();
    let back = stdout.read(&out[0]);
    assert_eq!(back, msg(body));
}

#[test]
fn lsp_split_message_arrives_after_second_half() {
    // One message split in two halves: nothing until the last byte.
    let full = msg("{\"jsonrpc\":\"2.0\"}");
    let (a, b) = full.split_at(full.len() - 1);
    let mut stdin = RemoteLspStdin::new();
    assert_eq!(stdin.write(a).len(), 0);
    let out = stdin.write(b);
    assert_eq!(out.len(), 1);
    assert_eq!(out[0], full);
}

#[test]
fn header_block_without_content_length_yields_nothing() {
    let mut stdin = RemoteLspStdin::new();
    // A complete header block that carries no content length cannot be
    // framed; nothing is forwarded and nothing is invented.
    let out = stdin.write(b"Content-Type: application/json\r\n\r\n{}");
    assert_eq!(out.len(), 0);
}

#[test]
fn oversized_content_length_yields_nothing() {
    let mut stdin = RemoteLspStdin::new();
    let out = stdin.write(b"Content-Length: 99999999999999999999999999\r\n\r\nx");
    assert_eq!(out.len(), 0);
}

#[test]
fn content_length_value_may_carry_leading_spaces() {
    let mut stdin = RemoteLspStdin::new();
    let out = stdin.write(b"Content-Length:   2\r\n\r\nhi");
    assert_eq!(out.len(), 1);
    assert_eq!(out[0], msg("hi"));
}
