use file_host::bytes::{bytes_eq, clone_bytes, sent_prefix};
use file_host::errors::{BindErrorKind, ConfigError, RequestError};
use file_host::request::handle_request;
use file_host::request::request_path;
use file_host::response::{build_success_response, success_status_line};
use file_host::routes::{build_route_table, join_path, RouteTable};

fn tokens(parts: &[&str]) -> Vec<Vec<u8>> {
    parts.iter().map(|p| p.as_bytes().to_vec()).collect()
}

fn table(parts: &[&str], cwd: &str) -> RouteTable {
    build_route_table(&tokens(parts), &cwd.as_bytes().to_vec()).unwrap()
}

#[test]
fn builds_table_and_resolves() {
    let t = table(&["a.txt", "/a.txt", "b.txt", "/b.txt"], "/tmp");
    assert_eq!(
        t.lookup(&b"/a.txt".to_vec()),
        Some(&b"/tmp/a.txt".to_vec())
    );
    assert_eq!(
        t.lookup(&b"/b.txt".to_vec()),
        Some(&b"/tmp/b.txt".to_vec())
    );
    assert_eq!(t.lookup(&b"/c.txt".to_vec()), None);
}

#[test]
fn one_entry_per_path_last_wins() {
    let t = table(&["x.txt", "/p", "y.txt", "/p"], "/tmp");
    assert_eq!(t.entries.len(), 1);
    assert_eq!(t.lookup(&b"/p".to_vec()), Some(&b"/tmp/y.txt".to_vec()));
}

#[test]
fn every_virtual_path_starts_with_slash() {
    let t = table(&["a.txt", "/a.txt", "b.txt", "/b.txt"], "/srv");
    for route in t.entries.iter() {
        assert_eq!(route.virtual_path[0], b'/');
    }
}

#[test]
fn odd_token_count_rejected() {
    let r = build_route_table(
        &tokens(&["a.txt", "/a.txt", "dangling"]),
        &b"/tmp".to_vec(),
    );
    assert_eq!(r.unwrap_err(), ConfigError::OddTokenCount);
}

#[test]
fn missing_leading_slash_rejected() {
    let r = build_route_table(&tokens(&["a.txt", "a.txt"]), &b"/tmp".to_vec());
    assert_eq!(r.unwrap_err(), ConfigError::MissingLeadingSlash);
}

#[test]
fn slash_error_reported_before_odd_count() {
    let r = build_route_table(
        &tokens(&["a.txt", "bad", "dangling"]),
        &b"/tmp".to_vec(),
    );
    assert_eq!(r.unwrap_err(), ConfigError::MissingLeadingSlash);
}

#[test]
fn absolute_fragment_stands_alone() {
    let t = table(&["/var/data/a.txt", "/a.txt"], "/tmp");
    assert_eq!(
        t.lookup(&b"/a.txt".to_vec()),
        Some(&b"/var/data/a.txt".to_vec())
    );
}

#[test]
fn join_path_resolves() {
    assert_eq!(
        join_path(&b"/srv".to_vec(), &b"file.txt".to_vec()),
        b"/srv/file.txt".to_vec()
    );
    assert_eq!(
        join_path(&b"/srv".to_vec(), &b"/abs.txt".to_vec()),
        b"/abs.txt".to_vec()
    );
}

#[test]
fn serves_registered_file() {
    let t = table(&["/tmp/a.txt", "/a.txt"], "/tmp");
    let r = handle_request(&t, &b"GET /a.txt HTTP/1.1\r\n".to_vec());
    assert_eq!(r, Ok(b"/tmp/a.txt".to_vec()));
    let response = build_success_response(&b"file contents".to_vec());
    assert_eq!(response, b"HTTP/1.1 200 OK\r\n\r\nfile contents".to_vec());
}

#[test]
fn unregistered_path_not_found() {
    let t = table(&["/tmp/a.txt", "/a.txt"], "/tmp");
    let r = handle_request(&t, &b"GET /missing.txt HTTP/1.1\r\n".to_vec());
    assert_eq!(r, Err(RequestError::NotFound));
}

#[test]
fn single_token_malformed() {
    let t = table(&["/tmp/a.txt", "/a.txt"], "/tmp");
    let r = handle_request(&t, &b"GET".to_vec());
    assert_eq!(r, Err(RequestError::MalformedRequest));
}

#[test]
fn empty_request_malformed() {
    let t = table(&["/tmp/a.txt", "/a.txt"], "/tmp");
    let r = handle_request(&t, &b"".to_vec());
    assert_eq!(r, Err(RequestError::MalformedRequest));
}

#[test]
fn one_space_only_malformed() {
    let t = table(&["/tmp/a.txt", "/a.txt"], "/tmp");
    let r = handle_request(&t, &b"GET /a.txt".to_vec());
    assert_eq!(r, Err(RequestError::MalformedRequest));
}

#[test]
fn request_line_without_newline_parses() {
    let r = request_path(&b"GET /a.txt HTTP/1.1".to_vec());
    assert_eq!(r, Ok(b"/a.txt".to_vec()));
}

#[test]
fn only_first_line_is_read() {
    let r = request_path(&b"GET /a.txt HTTP/1.1\r\nHost: example\r\n\r\n".to_vec());
    assert_eq!(r, Ok(b"/a.txt".to_vec()));
}

#[test]
fn path_matched_verbatim() {
    let t = table(&["/tmp/a.txt", "/a.txt"], "/tmp");
    let r = handle_request(&t, &b"GET a.txt HTTP/1.1\r\n".to_vec());
    assert_eq!(r, Err(RequestError::NotFound));
}

#[test]
fn two_connections_get_their_own_files() {
    let t = table(&["/tmp/a.txt", "/a.txt", "/tmp/b.txt", "/b.txt"], "/tmp");
    let ra = handle_request(&t, &b"GET /a.txt HTTP/1.1\r\n".to_vec());
    let rb = handle_request(&t, &b"GET /b.txt HTTP/1.1\r\n".to_vec());
    assert_eq!(ra, Ok(b"/tmp/a.txt".to_vec()));
    assert_eq!(rb, Ok(b"/tmp/b.txt".to_vec()));
    let response_a = build_success_response(&b"contents of a".to_vec());
    let response_b = build_success_response(&b"contents of b".to_vec());
    assert_eq!(response_a, b"HTTP/1.1 200 OK\r\n\r\ncontents of a".to_vec());
    assert_eq!(response_b, b"HTTP/1.1 200 OK\r\n\r\ncontents of b".to_vec());
}

#[test]
fn status_line_exact_bytes() {
    assert_eq!(success_status_line(), b"HTTP/1.1 200 OK\r\n\r\n".to_vec());
}

#[test]
fn empty_file_response_is_status_line_alone() {
    let response = build_success_response(&Vec::new());
    assert_eq!(response, b"HTTP/1.1 200 OK\r\n\r\n".to_vec());
}

#[test]
fn sent_prefix_takes_first_bytes() {
    let buf = b"abcdef".to_vec();
    assert_eq!(sent_prefix(&buf, 3), b"abc".to_vec());
    assert_eq!(sent_prefix(&buf, 0), b"".to_vec());
    assert_eq!(sent_prefix(&buf, 6), b"abcdef".to_vec());
}

#[test]
fn byte_helpers_behave() {
    let a = b"same".to_vec();
    let b = b"same".to_vec();
    let c = b"other".to_vec();
    assert!(bytes_eq(&a, &b));
    assert!(!bytes_eq(&a, &c));
    assert_eq!(clone_bytes(&c), c);
}

#[test]
fn config_error_messages_exact() {
    assert_eq!(
        ConfigError::OddTokenCount.message(),
        "Files must be paired with a \"display name\", which will be used as the user will access the files with.\n i.e. ... -f /home/user/Downloads/thisfile.txt /thisfile.txt ..."
    );
    assert_eq!(
        ConfigError::MissingLeadingSlash.message(),
        "File display names must start with a \"/\" i.e. /file.txt, not just file.txt"
    );
}

#[test]
fn request_error_messages_exact() {
    assert_eq!(
        RequestError::MalformedRequest.message(),
        "HTTP Request line was malformed"
    );
    assert_eq!(
        RequestError::NotFound.message(),
        "HTTP Request line was malformed"
    );
}

#[test]
fn bind_diagnostics_exact() {
    let addr = "127.0.0.1:8080";
    assert_eq!(
        BindErrorKind::PermissionDenied.diagnostic(addr, ""),
        "Failed to bind to address 127.0.0.1:8080 due to insufficient permission. Try running as sudo/administrator."
    );
    assert_eq!(
        BindErrorKind::AddressInUse.diagnostic(addr, ""),
        "Failed to bind to address 127.0.0.1:8080 since it is already in use. Try stopping the process already using this address."
    );
    assert_eq!(
        BindErrorKind::AddressUnavailable.diagnostic(addr, ""),
        "Failed to bind to address 127.0.0.1:8080 since it doesn't exist. Try setting the address to a real interface that is owned by this device."
    );
    assert_eq!(
        BindErrorKind::Other.diagnostic(addr, "interrupted"),
        "Failed to bind to address 127.0.0.1:8080: interrupted"
    );
}

#[test]
fn empty_configuration_serves_nothing() {
    let t = table(&[], "/tmp");
    assert_eq!(t.entries.len(), 0);
    let r = handle_request(&t, &b"GET / HTTP/1.1\r\n".to_vec());
    assert_eq!(r, Err(RequestError::NotFound));
}
