// Headers, addresses, the log's marks, the page and the words of errors.

use opencode_share::error::ShareError;
use opencode_share::page::generate_share_page;
use opencode_share::request::{get_client_ip, leading_piece, log_mark, share_url, trim, LogLevel};

#[test]
fn the_first_forwarded_address_is_the_client() {
    assert_eq!(
        get_client_ip(Some("203.0.113.7, 10.0.0.1, 10.0.0.2"), Some("1.1.1.1"), None, None),
        "203.0.113.7"
    );
    assert_eq!(
        get_client_ip(Some("  203.0.113.7\t,10.0.0.1"), None, None, None),
        "203.0.113.7"
    );
    assert_eq!(get_client_ip(Some("::1"), None, None, None), "::1");
}

#[test]
fn an_empty_forwarded_entry_is_passed_over() {
    assert_eq!(
        get_client_ip(Some(" , 10.0.0.1"), Some("198.51.100.2"), None, None),
        "198.51.100.2"
    );
    assert_eq!(get_client_ip(Some(""), None, None, Some("9.9.9.9")), "9.9.9.9");
    assert_eq!(get_client_ip(Some("   "), None, None, None), "Unknown");
}

#[test]
fn the_other_headers_are_asked_in_their_order() {
    assert_eq!(
        get_client_ip(None, Some("1.1.1.1"), Some("2.2.2.2"), Some("3.3.3.3")),
        "1.1.1.1"
    );
    assert_eq!(get_client_ip(None, None, Some("2.2.2.2"), Some("3.3.3.3")), "2.2.2.2");
    assert_eq!(get_client_ip(None, None, None, Some("3.3.3.3")), "3.3.3.3");
    assert_eq!(get_client_ip(None, None, None, None), "Unknown");
    // Only the forwarded entry is trimmed.
    assert_eq!(get_client_ip(None, Some(" 1.1.1.1 "), None, None), " 1.1.1.1 ");
    assert_eq!(get_client_ip(None, Some(""), Some("2.2.2.2"), None), "");
}

#[test]
fn the_first_piece_ends_at_the_first_comma() {
    assert_eq!(leading_piece("a,b,c"), "a");
    assert_eq!(leading_piece("abc"), "abc");
    assert_eq!(leading_piece(",abc"), "");
    assert_eq!(leading_piece(""), "");
    assert_eq!(leading_piece("é ü,x"), "é ü");
}

#[test]
fn trim_agrees_with_the_standard_library() {
    for text in [
        "",
        " ",
        "a",
        "  a b  ",
        "\t\r\n a \u{0B}\u{0C}",
        "\u{85}\u{A0}x\u{1680}\u{2000}\u{200A}",
        "\u{2028}\u{2029}\u{202F}\u{205F}\u{3000}y\u{3000}",
        "\u{200B}z\u{200B}",
        "\u{1F}w\u{1F}",
        " é ",
    ] {
        assert_eq!(trim(text), text.trim());
    }
    assert_eq!(trim("  a b  "), "a b");
}

#[test]
fn the_share_address_is_built_from_protocol_host_and_id() {
    assert_eq!(
        share_url(None, Some("localhost:3006"), "test-session-api-create"),
        "https://localhost:3006/share/test-session-api-create"
    );
    assert_eq!(
        share_url(Some("http"), Some("example.com:8080"), "abc"),
        "http://example.com:8080/share/abc"
    );
    assert_eq!(share_url(None, None, "abc"), "https://localhost:3000/share/abc");
    assert_eq!(share_url(Some("http"), None, ""), "http://localhost:3000/share/");
}

#[test]
fn answers_are_marked_by_their_status() {
    assert_eq!(log_mark(200), ("✅", LogLevel::Info));
    assert_eq!(log_mark(299), ("✅", LogLevel::Info));
    assert_eq!(log_mark(300), ("🔄", LogLevel::Info));
    assert_eq!(log_mark(399), ("🔄", LogLevel::Info));
    assert_eq!(log_mark(400), ("⚠️", LogLevel::Warn));
    assert_eq!(log_mark(404), ("⚠️", LogLevel::Warn));
    assert_eq!(log_mark(499), ("⚠️", LogLevel::Warn));
    assert_eq!(log_mark(500), ("❌", LogLevel::Error));
    assert_eq!(log_mark(599), ("❌", LogLevel::Error));
    assert_eq!(log_mark(600), ("❓", LogLevel::Info));
    assert_eq!(log_mark(199), ("❓", LogLevel::Info));
    assert_eq!(log_mark(0), ("❓", LogLevel::Info));
}

#[test]
fn share_page_names_the_share_twice() {
    let html = generate_share_page("abc123");
    assert!(html.contains("<title>Opencode Share - abc123</title>"));
    assert!(html.contains("window.SHARE_ID = \"abc123\";"));
    assert!(html.starts_with("\n<!DOCTYPE html>\n<html lang=\"en\">"));
    assert!(html.ends_with("</body>\n</html>\n    "));
    assert_eq!(html.matches("abc123").count(), 2);
    assert_eq!(
        generate_share_page("").len() + 2 * "abc123".len(),
        html.len()
    );
    assert!(html.contains("<p>The share you're looking for doesn't exist or has been removed.</p>"));
}

#[test]
fn errors_are_described_in_words() {
    assert_eq!(ShareError::AlreadyExists.message(), "Share already exists");
    assert_eq!(ShareError::NotFound.message(), "Share not found");
    assert_eq!(ShareError::InvalidSecret.message(), "Share secret invalid");
    assert_eq!(ShareError::StorageError.message(), "Share storage failed");
    assert_eq!(ShareError::MalformedPayload.message(), "Share payload malformed");
}

#[test]
fn white_space_is_what_the_standard_library_calls_white_space() {
    for code in 0..=0x10FFFFu32 {
        if let Some(c) = char::from_u32(code) {
            let text = c.to_string();
            assert_eq!(trim(&text).is_empty(), c.is_whitespace(), "U+{:04X}", code);
        }
    }
}
