use digidl::buffered_response::BufferedResponse;
use digidl::error::ScraperError;
use digidl::scraper::{get_scraper_constructor, scraper_for, Digi4SchoolScraper, ScraperKind};

fn landing(url: &str, body: &str) -> BufferedResponse {
    BufferedResponse::new(url.as_bytes().to_vec(), 200, vec![], body.as_bytes().to_vec())
}

const LANDING_BODY: &str =
    "<html><script>IDRViewer.makeNavBar(23,'.jpg','.svg');</script></html>";

#[test]
fn page_count_is_read_from_the_init_script() {
    let r = landing("https://a.digi4school.at/ebook/4728/index.html", LANDING_BODY);
    let s = Digi4SchoolScraper::new_scraper(&r).unwrap();
    assert_eq!(s.fetch_page_count(), 23);
}

#[test]
fn base_path_drops_the_index_page_suffix() {
    let r = landing("https://a.digi4school.at/ebook/4728/index.html", LANDING_BODY);
    let s = Digi4SchoolScraper::new_scraper(&r).unwrap();
    assert_eq!(
        s.page_svg_url(1).unwrap(),
        b"https://a.digi4school.at/ebook/4728/1.svg".to_vec()
    );
}

#[test]
fn missing_page_count_marker_is_fatal_with_context() {
    let r = landing("https://a.digi4school.at/ebook/1", "<html>no marker</html>");
    match Digi4SchoolScraper::new_scraper(&r) {
        Err(ScraperError::MissingPageCountMarker { url, body }) => {
            assert_eq!(url, b"https://a.digi4school.at/ebook/1".to_vec());
            assert_eq!(body, b"<html>no marker</html>".to_vec());
        }
        _ => panic!("expected a missing-marker error"),
    }
}

#[test]
fn marker_without_the_fixed_suffix_is_fatal() {
    let r = landing(
        "https://a.digi4school.at/ebook/1",
        "<script>IDRViewer.makeNavBar(23,'.png')</script>",
    );
    assert!(matches!(
        Digi4SchoolScraper::new_scraper(&r),
        Err(ScraperError::MissingPageCountMarker { .. })
    ));
}

#[test]
fn page_zero_is_a_bounds_error() {
    let r = landing("https://a.digi4school.at/ebook/1/index.html", LANDING_BODY);
    let s = Digi4SchoolScraper::new_scraper(&r).unwrap();
    match s.page_svg_url(0) {
        Err(ScraperError::PageOutOfRange { page, page_count }) => {
            assert_eq!(page, 0);
            assert_eq!(page_count, 23);
        }
        _ => panic!("expected a bounds error"),
    }
}

#[test]
fn page_past_the_count_is_a_bounds_error() {
    let r = landing("https://a.digi4school.at/ebook/1/index.html", LANDING_BODY);
    let s = Digi4SchoolScraper::new_scraper(&r).unwrap();
    assert!(s.page_svg_url(23).is_ok());
    match s.page_svg_url(24) {
        Err(ScraperError::PageOutOfRange { page, page_count }) => {
            assert_eq!(page, 24);
            assert_eq!(page_count, 23);
        }
        _ => panic!("expected a bounds error"),
    }
}

#[test]
fn image_urls_resolve_under_the_base_path() {
    let r = landing("https://a.digi4school.at/ebook/1/index.html", LANDING_BODY);
    let s = Digi4SchoolScraper::new_scraper(&r).unwrap();
    assert_eq!(
        s.image_url(b"7/img4.png"),
        b"https://a.digi4school.at/ebook/1/7/img4.png".to_vec()
    );
}

#[test]
fn known_domains_dispatch_to_the_backend() {
    assert_eq!(
        get_scraper_constructor(b"https://a.digi4school.at/ebook/1").unwrap(),
        ScraperKind::Digi4School
    );
    assert_eq!(
        get_scraper_constructor(b"https://a.hpthek.at/ebook/9?x=1").unwrap(),
        ScraperKind::Digi4School
    );
}

#[test]
fn a_landing_page_selects_and_binds_its_scraper() {
    let s = scraper_for(&landing(
        "https://a.digi4school.at/ebook/4728/index.html",
        LANDING_BODY,
    ))
    .unwrap();
    assert_eq!(s.fetch_page_count(), 23);
    assert!(matches!(
        scraper_for(&landing("https://books.example.com/shelf", LANDING_BODY)),
        Err(ScraperError::UnsupportedSource { .. })
    ));
    assert!(matches!(
        scraper_for(&landing("https://a.digi4school.at/ebook/1", "<html>no marker</html>")),
        Err(ScraperError::MissingPageCountMarker { .. })
    ));
}

#[test]
fn unknown_origins_are_a_deliberate_fatal_signal() {
    match get_scraper_constructor(b"https://books.example.com/shelf") {
        Err(ScraperError::UnsupportedSource { url }) => {
            assert_eq!(url, b"https://books.example.com/shelf".to_vec());
        }
        _ => panic!("expected an unsupported-source error"),
    }
    // The scheme is part of the dispatch key.
    assert!(matches!(
        get_scraper_constructor(b"http://a.digi4school.at/ebook/1"),
        Err(ScraperError::UnsupportedSource { .. })
    ));
}
