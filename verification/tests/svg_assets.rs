use digidl::buffered_response::BufferedResponse;
use digidl::error::ScraperError;
use digidl::svg_scraper::{find_asset_refs, inline_assets, render_svg_artifact, PageAsset};

fn asset(reference: &[u8], content_type: Option<&[u8]>, body: &[u8]) -> PageAsset {
    let headers = match content_type {
        Some(ct) => vec![(b"Content-Type".to_vec(), ct.to_vec())],
        None => vec![],
    };
    PageAsset {
        reference: reference.to_vec(),
        response: BufferedResponse::new(b"https://a.digi4school.at/a".to_vec(), 200, headers, body.to_vec()),
    }
}

#[test]
fn duplicate_references_collapse_to_one_fetch_each() {
    // Four references, one a duplicate: three distinct fetches.
    let svg = "<svg><image xlink:href=\"3/img1.png\"/><image xlink:href=\"3/img2.png\"/><image xlink:href=\"3/img1.png\"/><image xlink:href=\"3/shade/img3.png\"/></svg>";
    let refs = find_asset_refs(svg.as_bytes(), 3);
    assert_eq!(
        refs,
        vec![
            b"3/img1.png".to_vec(),
            b"3/img2.png".to_vec(),
            b"3/shade/img3.png".to_vec(),
        ]
    );
}

#[test]
fn references_of_other_pages_are_not_in_scope() {
    let svg = "<svg><image xlink:href=\"4/img1.png\"/><image xlink:href=\"3/img2.png\"/></svg>";
    let refs = find_asset_refs(svg.as_bytes(), 3);
    assert_eq!(refs, vec![b"3/img2.png".to_vec()]);
}

#[test]
fn a_page_without_references_needs_no_fetch() {
    let refs = find_asset_refs(b"<svg><rect width=\"10\"/></svg>", 1);
    assert!(refs.is_empty());
}

#[test]
fn inlining_replaces_every_occurrence_with_a_data_uri() {
    let svg = "<svg><image xlink:href=\"3/img1.png\"/><image xlink:href=\"3/img1.png\"/></svg>";
    let assets = vec![asset(b"3/img1.png", Some(b"image/png"), b"abc")];
    let out = inline_assets(svg.as_bytes(), &assets).unwrap();
    // base64 of "abc" is "YWJj"; both occurrences are replaced.
    let expected = "<svg><image xlink:href=\"data:image/png;base64,YWJj\"/><image xlink:href=\"data:image/png;base64,YWJj\"/></svg>";
    assert_eq!(out, expected.as_bytes().to_vec());
}

#[test]
fn an_asset_without_content_type_is_fatal_and_named() {
    let svg = "<svg><image xlink:href=\"3/img1.png\"/></svg>";
    let assets = vec![asset(b"3/img1.png", None, b"abc")];
    match inline_assets(svg.as_bytes(), &assets) {
        Err(ScraperError::MissingContentType { reference }) => {
            assert_eq!(reference, b"3/img1.png".to_vec());
        }
        _ => panic!("expected a missing-content-type error"),
    }
}

#[test]
fn well_formed_markup_renders_to_an_artifact() {
    let svg = "<svg xmlns=\"http://www.w3.org/2000/svg\" width=\"100\" height=\"100\" viewBox=\"0 0 100 100\"><rect x=\"10\" y=\"10\" width=\"50\" height=\"40\" fill=\"#ff0000\"/></svg>";
    let artifact = render_svg_artifact(svg.as_bytes()).unwrap();
    assert!(artifact.starts_with(b"%PDF"));
}

#[test]
fn malformed_markup_is_fatal() {
    assert!(matches!(
        render_svg_artifact(b"<svg><unterminated"),
        Err(ScraperError::MalformedMarkup)
    ));
}
