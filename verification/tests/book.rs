use digidl::book::{Book, Volume};
use digidl::buffered_response::BufferedResponse;
use digidl::error::ScraperError;

fn book() -> Book {
    Book::new(4728, 2029, b"https://digi4school.at/thumb.png".to_vec(), b"Algebra 1".to_vec())
}

fn resp(url: &str, body: &str) -> BufferedResponse {
    BufferedResponse::new(url.as_bytes().to_vec(), 200, vec![], body.as_bytes().to_vec())
}

#[test]
fn the_redemption_year_is_six_years_before_expiry() {
    assert_eq!(book().year(), 2023);
}

#[test]
fn a_prologue_body_is_a_single_volume() {
    let b = book();
    let landing = resp(
        "https://a.digi4school.at/ebook/4728/index.html",
        "<!DOCTYPE html><html><body>viewer</body></html>",
    );
    let vols = b.get_volumes(landing).unwrap();
    assert_eq!(vols.len(), 1);
    assert_eq!(vols[0].name().as_slice(), b"Algebra 1");
    assert_eq!(
        vols[0].thumbnail().as_slice(),
        b"https://digi4school.at/thumb.png"
    );
    assert_eq!(
        vols[0].url().as_slice(),
        b"https://a.digi4school.at/ebook/4728/index.html"
    );
    // The landing page already in hand is memoized on the volume.
    assert!(vols[0].landing().is_some());
}

#[test]
fn a_listing_body_yields_the_volume_list() {
    let b = book();
    let body = "<html><body><a href=\"1/index.html\" target=\"_blank\">\n<img src=\"1/thumb.png\" />\n<div class=\"tx\"><h1>Part One</h1></div></a><a class=\"\" href=\"2/index.html\" target=\"_blank\">\n<img src=\"2/thumb.png\" />\n<div class=\"tx\"><h1>Part Two</h1></div></a></body></html>";
    let vols = b.get_volumes(resp("https://a.digi4school.at/ebook/4728", body)).unwrap();
    assert_eq!(vols.len(), 2);
    assert_eq!(
        vols[0].url().as_slice(),
        b"https://a.digi4school.at/ebook/4728/1/index.html"
    );
    assert_eq!(vols[0].name().as_slice(), b"Part One");
    assert_eq!(
        vols[0].thumbnail().as_slice(),
        b"https://a.digi4school.at/ebook/4728/1/thumb.png"
    );
    assert_eq!(vols[1].name().as_slice(), b"Part Two");
    assert!(vols[0].landing().is_none());
}

#[test]
fn a_listing_without_entries_is_fatal() {
    let b = book();
    let landing = resp("https://a.digi4school.at/ebook/4728", "<html><body>nothing</body></html>");
    assert!(matches!(
        b.get_volumes(landing),
        Err(ScraperError::EmptyVolumeList)
    ));
}

#[test]
fn the_landing_memo_is_written_at_most_once() {
    let mut vol = Volume::new(
        b"https://a.digi4school.at/ebook/4728/1".to_vec(),
        b"Part One".to_vec(),
        b"thumb".to_vec(),
    );
    assert!(vol.landing().is_none());
    let first = resp("https://a.digi4school.at/l1", "first");
    assert!(vol.set_landing(first).is_none());
    assert_eq!(vol.landing().unwrap().bytes().as_slice(), b"first");
    // A later arrival is handed back and the memo keeps its first value.
    let second = resp("https://a.digi4school.at/l2", "second");
    let rejected = vol.set_landing(second).unwrap();
    assert_eq!(rejected.bytes().as_slice(), b"second");
    assert_eq!(vol.landing().unwrap().bytes().as_slice(), b"first");
}
