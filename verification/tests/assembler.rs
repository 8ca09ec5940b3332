use digidl::assembler::{assemble_document, DocumentAssembler};
use digidl::error::ScraperError;
use lopdf::{Dictionary, Object, Stream};

/// A minimal one-page document whose media-box width marks its identity.
fn one_page_pdf(width: i64) -> Vec<u8> {
    let mut doc = lopdf::Document::new();
    let pages_id = doc.new_object_id();
    let content_id = doc.add_object(Object::Stream(Stream::new(Dictionary::new(), Vec::new())));
    let mut page = Dictionary::new();
    page.set("Type", Object::Name(b"Page".to_vec()));
    page.set("Parent", Object::Reference(pages_id));
    page.set(
        "MediaBox",
        Object::Array(vec![
            Object::Integer(0),
            Object::Integer(0),
            Object::Integer(width),
            Object::Integer(100),
        ]),
    );
    page.set("Contents", Object::Reference(content_id));
    let page_id = doc.add_object(Object::Dictionary(page));
    let mut pages = Dictionary::new();
    pages.set("Type", Object::Name(b"Pages".to_vec()));
    pages.set("Kids", Object::Array(vec![Object::Reference(page_id)]));
    pages.set("Count", Object::Integer(1));
    doc.objects.insert(pages_id, Object::Dictionary(pages));
    let mut catalog = Dictionary::new();
    catalog.set("Type", Object::Name(b"Catalog".to_vec()));
    catalog.set("Pages", Object::Reference(pages_id));
    let catalog_id = doc.add_object(Object::Dictionary(catalog));
    doc.trailer.set("Root", Object::Reference(catalog_id));
    let mut buf = Vec::new();
    doc.save_to(&mut buf).unwrap();
    buf
}

fn media_box_width(doc: &lopdf::Document, page_id: (u32, u16)) -> i64 {
    let page = doc.get_dictionary(page_id).unwrap();
    let media_box = page.get(b"MediaBox").unwrap().as_array().unwrap();
    media_box[2].as_i64().unwrap()
}

#[test]
fn three_pages_merge_in_fetch_order() {
    let artifacts = vec![one_page_pdf(100), one_page_pdf(200), one_page_pdf(300)];
    let mut merged = assemble_document(&artifacts).unwrap();
    assert_eq!(merged.artifact_count(), 3);
    assert_eq!(merged.page_id_count(), 3);
    assert_eq!(merged.presented_page_count(), 3);

    // Reload the serialized output and check the page order is [1, 2, 3].
    let bytes = merged.save().unwrap();
    let reloaded = lopdf::Document::load_mem(&bytes).unwrap();
    let pages: Vec<(u32, (u32, u16))> = reloaded.get_pages().into_iter().collect();
    assert_eq!(pages.len(), 3);
    assert_eq!(pages[0].0, 1);
    assert_eq!(pages[1].0, 2);
    assert_eq!(pages[2].0, 3);
    assert_eq!(media_box_width(&reloaded, pages[0].1), 100);
    assert_eq!(media_box_width(&reloaded, pages[1].1), 200);
    assert_eq!(media_box_width(&reloaded, pages[2].1), 300);
}

#[test]
fn an_empty_run_is_a_no_pages_error() {
    let artifacts: Vec<Vec<u8>> = Vec::new();
    assert!(matches!(
        assemble_document(&artifacts),
        Err(ScraperError::NoPages)
    ));
}

#[test]
fn an_unparsable_artifact_is_fatal() {
    let artifacts = vec![one_page_pdf(100), b"not a document".to_vec()];
    assert!(matches!(
        assemble_document(&artifacts),
        Err(ScraperError::PdfError(_))
    ));
}

#[test]
fn a_single_artifact_loads_as_a_document() {
    let doc = digidl::pdf::fetch_page_pdf(&one_page_pdf(100)).unwrap();
    assert_eq!(doc.get_pages().len(), 1);
    assert!(matches!(
        digidl::pdf::fetch_page_pdf(b"garbage"),
        Err(ScraperError::PdfError(_))
    ));
}

#[test]
fn an_assembler_without_artifacts_cannot_finish() {
    let builder = DocumentAssembler::new();
    assert!(matches!(builder.finish(), Err(ScraperError::NoPages)));
}

#[test]
fn incremental_appends_accumulate_pages() {
    let mut builder = DocumentAssembler::new();
    builder.append_page(&one_page_pdf(100)).unwrap();
    builder.append_page(&one_page_pdf(200)).unwrap();
    let merged = builder.finish().unwrap();
    assert_eq!(merged.artifact_count(), 2);
    assert_eq!(merged.presented_page_count(), 2);
}
