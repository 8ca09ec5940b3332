use digidl::buffered_response::BufferedResponse;
use digidl::error::ScraperError;

fn resp_with_body(body: &[u8]) -> BufferedResponse {
    BufferedResponse::new(
        b"https://a.digi4school.at/ebook/1".to_vec(),
        200,
        vec![(b"Content-Type".to_vec(), b"text/html".to_vec())],
        body.to_vec(),
    )
}

#[test]
fn repeated_text_and_bytes_reads_are_identical() {
    let mut r = resp_with_body(b"hello world");
    let t1 = r.text().unwrap();
    let t2 = r.text().unwrap();
    assert_eq!(t1, t2);
    assert_eq!(t1, "hello world");
    let b1 = r.bytes().clone();
    let b2 = r.bytes().clone();
    assert_eq!(b1, b2);
    assert_eq!(b1, b"hello world".to_vec());
}

#[test]
fn text_is_fatal_on_invalid_encoding_but_bytes_stay_available() {
    let mut r = resp_with_body(&[0xff, 0xfe, 0x41]);
    assert!(matches!(r.text(), Err(ScraperError::NotUtf8)));
    assert_eq!(r.bytes().as_slice(), &[0xff, 0xfe, 0x41]);
    // A later read fails the same way: validation is repeatable, not sticky.
    assert!(matches!(r.text(), Err(ScraperError::NotUtf8)));
}

#[test]
fn metadata_reads_through() {
    let r = resp_with_body(b"x");
    assert_eq!(r.url().as_slice(), b"https://a.digi4school.at/ebook/1");
    assert_eq!(r.status(), 200);
}

#[test]
fn a_duplicate_carries_the_whole_capture() {
    let r = resp_with_body(b"hello");
    let mut d = r.duplicate();
    assert_eq!(d.url(), r.url());
    assert_eq!(d.status(), r.status());
    assert_eq!(d.bytes(), r.bytes());
    assert_eq!(d.header(b"content-type"), r.header(b"content-type"));
    assert_eq!(d.text().unwrap(), "hello");
}

#[test]
fn header_lookup_is_case_insensitive() {
    let r = resp_with_body(b"x");
    assert_eq!(r.header(b"content-type").unwrap(), b"text/html".to_vec());
    assert_eq!(r.header(b"CONTENT-TYPE").unwrap(), b"text/html".to_vec());
    assert!(r.header(b"X-Missing").is_none());
}
