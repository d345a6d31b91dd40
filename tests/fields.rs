use robby::fields::{extract_host, extract_uri};

#[test]
fn extract_host_good_header() {
    let header = "GET / HTTP/1.1\r
Host: www.rust-lang.org\r
User-Agent: Mozilla/5.0 (X11; Linux x86_64; rv:67.0) Gecko/20100101 Firefox/67.0\r
Accept: text/html,application/xhtml+xml,application/xml;q=0.9,*/*;q=0.8\r
Accept-Language: en-US,en;q=0.5\r
Accept-Encoding: gzip, deflate, br\r
Connection: keep-alive\r
Upgrade-Insecure-Requests: 1\r
Cache-Control: max-age=0\r
\r
";

    let result = extract_host(header);
    assert!(result.is_ok());
    assert_eq!(result.unwrap(), "www.rust-lang.org");
}

#[test]
fn extract_host_no_host() {
    let header = "GET / HTTP/1.1\r
User-Agent: Mozilla/5.0 (X11; Linux x86_64; rv:67.0) Gecko/20100101 Firefox/67.0\r
Accept: text/html,application/xhtml+xml,application/xml;q=0.9,*/*;q=0.8\r
Accept-Language: en-US,en;q=0.5\r
Accept-Encoding: gzip, deflate, br\r
Connection: keep-alive\r
Upgrade-Insecure-Requests: 1\r
Cache-Control: max-age=0\r
\r
";

    let result = extract_host(header);
    assert!(result.is_err());
}

#[test]
fn extract_host_bad_header() {
    let header = "";

    let result = extract_host(header);
    assert!(result.is_err());
}

#[test]
fn extract_uri_good_header() {
    let header = "GET /foo/bar HTTP/1.1\r
Host: www.rust-lang.org\r
User-Agent: Mozilla/5.0 (X11; Linux x86_64; rv:67.0) Gecko/20100101 Firefox/67.0\r
Accept: text/html,application/xhtml+xml,application/xml;q=0.9,*/*;q=0.8\r
Accept-Language: en-US,en;q=0.5\r
Accept-Encoding: gzip, deflate, br\r
Connection: keep-alive\r
Upgrade-Insecure-Requests: 1\r
Cache-Control: max-age=0\r
\r
";
    let result = extract_uri(header);
    assert!(result.is_ok());
    assert_eq!(result.unwrap(), "/foo/bar");
}

#[test]
fn extract_uri_bad_header() {
    let header = "somegarbage./foo/bar.HTTP/1.1\r
Host: www.rust-lang.org\r
User-Agent: Mozilla/5.0 (X11; Linux x86_64; rv:67.0) Gecko/20100101 Firefox/67.0\r
Accept: text/html,application/xhtml+xml,application/xml;q=0.9,*/*;q=0.8\r
Accept-Language: en-US,en;q=0.5\r
Accept-Encoding: gzip, deflate, br\r
Connection: keep-alive\r
Upgrade-Insecure-Requests: 1\r
Cache-Control: max-age=0\r
\r
";
    let result = extract_uri(header);
    assert!(result.is_err());
}

#[test]
fn extract_uri_bad_header2() {
    let header = "";
    let result = extract_uri(header);
    assert!(result.is_err());
}

#[test]
fn host_field_name_is_case_insensitive() {
    let header = "GET / HTTP/1.1\r\nhOsT: Example.COM\r\n\r\n";
    assert_eq!(extract_host(header).unwrap(), "Example.COM");
    let header = "GET / HTTP/1.1\r\nHOST: a.b\r\n\r\n";
    assert_eq!(extract_host(header).unwrap(), "a.b");
}

#[test]
fn host_value_is_kept_verbatim() {
    let header = "GET / HTTP/1.1\r\nHost:  spaced value \r\n\r\n";
    assert_eq!(extract_host(header).unwrap(), " spaced value ");
}

#[test]
fn host_value_without_cr_ends_at_line_feed() {
    let header = "GET / HTTP/1.1\nHost: plain.example\nAccept: */*\n\n";
    assert_eq!(extract_host(header).unwrap(), "plain.example");
}

#[test]
fn host_value_at_end_of_text() {
    assert_eq!(extract_host("Host: last.example").unwrap(), "last.example");
    assert_eq!(extract_host("Host: ").unwrap(), "");
}

#[test]
fn host_field_must_start_a_line() {
    let header = "GET / HTTP/1.1\r\nX-Forwarded-Host: other\r\nHost: right\r\n\r\n";
    assert_eq!(extract_host(header).unwrap(), "right");
    let header = "GET / HTTP/1.1\r\nX-Host: other\r\n\r\n";
    assert!(extract_host(header).is_err());
}

#[test]
fn host_field_needs_a_space() {
    assert!(extract_host("GET / HTTP/1.1\r\nHost:nospace\r\n\r\n").is_err());
}

#[test]
fn first_host_field_wins() {
    let header = "GET / HTTP/1.1\r\nHost: one\r\nHost: two\r\n\r\n";
    assert_eq!(extract_host(header).unwrap(), "one");
}

#[test]
fn uri_of_other_methods() {
    assert_eq!(extract_uri("POST /submit?x=1 HTTP/1.0\r\n\r\n").unwrap(), "/submit?x=1");
    assert_eq!(extract_uri("GET  HTTP/1.1\r\n").unwrap(), "");
}

#[test]
fn uri_needs_upper_case_method_and_cr() {
    assert!(extract_uri("get /x HTTP/1.1\r\n").is_err());
    assert!(extract_uri(" /x HTTP/1.1\r\n").is_err());
    assert!(extract_uri("GET /x HTTP/1.1\n").is_err());
    assert!(extract_uri("GET /x\r\n").is_err());
}
