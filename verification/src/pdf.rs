//! The trusted boundary around the document library (lopdf).  Each wrapper
//! holds one call (one composite installs the page tree, since only the
//! whole installation determines what the document presents); the assembly
//! logic that drives them is verified and lives in `assembler`.
//!
//! The names model a document as a collection: `doc_pages` is the ordered
//! run of page object ids its page tree presents, `doc_ids` the set of
//! object ids it holds, `doc_is_page` whether an id is directly bound to a
//! page-typed dictionary, `doc_object_count` how many objects it holds,
//! `doc_max` its id high-water mark, and `doc_flat_tree` whether it carries
//! the flat page tree the assembler installs.  Renumbering and loading are
//! deterministic, so what a document presents after relabeling
//! (`renumbered_pages`, `renumbered_ok`, `renumbered_max`) is named both of
//! the document value and, through `doc_load`, of the parsed bytes
//! (`pdf_renumbered_pages`, `pdf_renumbered_ok`, `pdf_renumbered_max`).

use crate::error::ScraperError;
use lopdf::{Dictionary, Object};
use vstd::prelude::*;

verus! {

/// Declares lopdf's document type, carried opaquely through the assembler.
#[verifier::external_type_specification]
#[verifier::external_body]
pub struct ExDocument(lopdf::Document);

/// Declares lopdf's dictionary type.
#[verifier::external_type_specification]
#[verifier::external_body]
pub struct ExDictionary(lopdf::Dictionary);

/// Declares lopdf's object type.
#[verifier::external_type_specification]
#[verifier::external_body]
pub struct ExObject(lopdf::Object);

/// Relies on lopdf's parser being a function of the bytes alone: whether
/// they parse as a document.
pub uninterp spec fn pdf_parses(b: Seq<u8>) -> bool;

/// The ordered page object ids of the document parsed from the bytes; a
/// function of the bytes alone.
pub uninterp spec fn pdf_page_ids(b: Seq<u8>) -> Seq<(u32, u16)>;

/// How many objects the document parsed from the bytes holds; a function
/// of the bytes alone.
pub uninterp spec fn pdf_object_count(b: Seq<u8>) -> nat;

/// The ordered page object ids a document presents: what `get_pages`
/// yields by walking the page tree from the trailer's root.
pub uninterp spec fn doc_pages(d: lopdf::Document) -> Seq<(u32, u16)>;

/// The set of object ids the document holds.
pub uninterp spec fn doc_ids(d: lopdf::Document) -> Set<(u32, u16)>;

/// True when the id is bound in the document's object map directly — not
/// through an indirect reference — to a dictionary whose type entry reads
/// as a page.  The walk behind `doc_pages` can also reach a page through a
/// reference-typed binding, so this is deliberately the narrower reading;
/// `doc_id_is_page` observes it, and the assembler admits only pages that
/// satisfy it.
pub uninterp spec fn doc_is_page(d: lopdf::Document, id: (u32, u16)) -> bool;

/// How many objects the document holds.
pub uninterp spec fn doc_object_count(d: lopdf::Document) -> nat;

/// The id high-water mark (`max_id`): where the document hands out the
/// next fresh object id.
pub uninterp spec fn doc_max(d: lopdf::Document) -> u32;

/// The bytes the document serializes to; writing is a function of the
/// document value alone.
pub uninterp spec fn doc_serialized(d: lopdf::Document) -> Seq<u8>;

/// True when serializing the document succeeds; a function of the document
/// value alone.
pub uninterp spec fn doc_save_ok(d: lopdf::Document) -> bool;

/// The page run the document presents after its objects are renumbered
/// from `start`; renumbering is deterministic, so this is a function of
/// the document value and the start id.
pub uninterp spec fn renumbered_pages(d: lopdf::Document, start: u32) -> Seq<(u32, u16)>;

/// True when, after renumbering from `start`, every presented page id is
/// directly bound to a page-typed dictionary; a function of the document
/// value and the start id.
pub uninterp spec fn renumbered_ok(d: lopdf::Document, start: u32) -> bool;

/// The id mark after the document's objects are renumbered from `start`;
/// deterministic like `renumbered_pages`.
pub uninterp spec fn renumbered_max(d: lopdf::Document, start: u32) -> u32;

/// `renumbered_pages` of the document parsed from the bytes; a function of
/// the bytes and the start id.
pub uninterp spec fn pdf_renumbered_pages(b: Seq<u8>, start: u32) -> Seq<(u32, u16)>;

/// `renumbered_max` of the document parsed from the bytes; a function of
/// the bytes and the start id.
pub uninterp spec fn pdf_renumbered_max(b: Seq<u8>, start: u32) -> u32;

/// `renumbered_ok` of the document parsed from the bytes; a function of
/// the bytes and the start id.
pub uninterp spec fn pdf_renumbered_ok(b: Seq<u8>, start: u32) -> bool;

/// True when the document's page tree is exactly the flat shape the
/// assembler installs: the trailer root reaches a catalog whose single
/// pages node lists as kids precisely the presented run — distinct ids,
/// each directly bound to a page-typed dictionary.  On such a document the
/// page walk touches one kid entry per presented page, which is what the
/// pruning contract's budget argument needs.
pub uninterp spec fn doc_flat_tree(d: lopdf::Document) -> bool;

/// Relies on `Document::load_mem`: the bytes parse to a document exactly
/// when lopdf's parser accepts them, with the pages and object count the
/// bytes encode.  Parsing is deterministic, so what renumbering the loaded
/// document would present is a function of the bytes and the start id.
#[verifier::external_body]
pub(crate) fn doc_load(bytes: &[u8]) -> (r: Result<lopdf::Document, lopdf::Error>)
    ensures
        r is Ok <==> pdf_parses(bytes@),
        r matches Ok(d) ==> doc_pages(d) == pdf_page_ids(bytes@) && doc_object_count(d)
            == pdf_object_count(bytes@),
        r matches Ok(d) ==> forall|s: u32|
            #[trigger] renumbered_pages(d, s) == pdf_renumbered_pages(bytes@, s),
        r matches Ok(d) ==> forall|s: u32|
            #[trigger] renumbered_ok(d, s) == pdf_renumbered_ok(bytes@, s),
        r matches Ok(d) ==> forall|s: u32|
            #[trigger] renumbered_max(d, s) == pdf_renumbered_max(bytes@, s),
{
    lopdf::Document::load_mem(bytes)
}

/// Relies on `Document::new`: a fresh document holds no objects and
/// presents no pages; its id mark is zero.
#[verifier::external_body]
pub(crate) fn doc_new() -> (r: lopdf::Document)
    ensures
        doc_pages(r).len() == 0,
        doc_ids(r) == Set::<(u32, u16)>::empty(),
        doc_object_count(r) == 0,
        doc_max(r) == 0,
{
    lopdf::Document::new()
}

/// Relies on `Document::renumber_objects_with`: object ids are relabeled
/// consecutively from `start` (generations kept) and references are
/// rewritten, so afterwards every id's number lies between `start` and the
/// final mark, the mark stays below `start` plus the old object count, and
/// the object count never grows.  The relabeling is deterministic, so what
/// the document then presents is the named `renumbered_pages` of the old
/// value — the run is not assumed to match the old one: on a degenerate
/// document (a dangling trailer root) relabeling can change what the tree
/// presents, so callers re-read the pages afterwards.  The range bound in
/// `requires` keeps the internal id counter from overflowing.
#[verifier::external_body]
pub(crate) fn doc_renumber_from(d: &mut lopdf::Document, start: u32)
    requires
        start >= 1,
        start + doc_object_count(*old(d)) <= u32::MAX,
    ensures
        forall|id: (u32, u16)|
            doc_ids(*final(d)).contains(id) ==> start <= id.0 <= doc_max(*final(d)),
        doc_max(*final(d)) < start + doc_object_count(*old(d)),
        doc_object_count(*final(d)) <= doc_object_count(*old(d)),
        doc_pages(*final(d)) == renumbered_pages(*old(d), start),
        doc_max(*final(d)) == renumbered_max(*old(d), start),
        (forall|k: int|
            0 <= k < doc_pages(*final(d)).len() ==> doc_is_page(
                *final(d),
                #[trigger] doc_pages(*final(d))[k],
            )) <==> renumbered_ok(*old(d), start),
{
    d.renumber_objects_with(start)
}

/// Relies on `Document::get_pages`: the page object ids in page order
/// (ascending page number).  Each yielded id is looked up in the object
/// map, so it is a held id — though possibly bound through an indirect
/// reference, which is why nothing is claimed of `doc_is_page` here.
#[verifier::external_body]
pub(crate) fn doc_page_ids(d: &lopdf::Document) -> (r: Vec<(u32, u16)>)
    ensures
        r@ == doc_pages(*d),
        forall|i: int| 0 <= i < r@.len() ==> doc_ids(*d).contains(#[trigger] r@[i]),
{
    d.get_pages().values().map(|id| (id.0, id.1)).collect()
}

/// Relies on the `objects` map and `Dictionary::get_type`: observes whether
/// the id is directly bound to a page-typed dictionary — exactly the
/// reading `doc_is_page` names.
#[verifier::external_body]
pub(crate) fn doc_id_is_page(d: &lopdf::Document, id: (u32, u16)) -> (r: bool)
    ensures
        r == doc_is_page(*d, id),
{
    match d.objects.get(&id) {
        Some(Object::Dictionary(dict)) => dict.get_type().map(|t| t == b"Page").unwrap_or(false),
        _ => false,
    }
}

/// Relies on `Document::get_pages`: how many pages the document presents.
#[verifier::external_body]
pub(crate) fn doc_page_count(d: &lopdf::Document) -> (r: usize)
    ensures
        r == doc_pages(*d).len(),
{
    d.get_pages().len()
}

/// Relies on the `objects` map's length: how many objects the document
/// holds.
#[verifier::external_body]
pub(crate) fn doc_objects_len(d: &lopdf::Document) -> (r: usize)
    ensures
        r == doc_object_count(*d),
{
    d.objects.len()
}

/// Relies on the `max_id` field: the id high-water mark.
#[verifier::external_body]
pub(crate) fn doc_max_id(d: &lopdf::Document) -> (r: u32)
    ensures
        r == doc_max(*d),
{
    d.max_id
}

/// Relies on the `max_id` field: tells the document which ids are taken, so
/// later insertions allocate past them.  Only the mark changes.
#[verifier::external_body]
pub(crate) fn doc_set_max_id(d: &mut lopdf::Document, v: u32)
    ensures
        doc_max(*final(d)) == v,
        doc_pages(*final(d)) == doc_pages(*old(d)),
        doc_ids(*final(d)) == doc_ids(*old(d)),
        forall|id: (u32, u16)|
            doc_is_page(*final(d), id) == doc_is_page(*old(d), id),
{
    d.max_id = v;
}

/// Relies on `BTreeMap::extend` over the documents' object maps: every
/// object of `src` moves into `dst`; on a key collision `src`'s object
/// replaces `dst`'s.  So an id bound in `src` to a page dictionary keeps
/// that direct binding, an id `src` does not hold keeps `dst`'s binding,
/// the object count is at most the sum, and the id mark is untouched.
#[verifier::external_body]
pub(crate) fn doc_absorb_objects(dst: &mut lopdf::Document, src: lopdf::Document)
    ensures
        forall|id: (u32, u16)|
            doc_is_page(src, id) ==> doc_is_page(*final(dst), id),
        forall|id: (u32, u16)|
            !doc_ids(src).contains(id) ==> doc_is_page(*final(dst), id) == doc_is_page(
                *old(dst),
                id,
            ),
        doc_object_count(*final(dst)) <= doc_object_count(*old(dst)) + doc_object_count(src),
        doc_max(*final(dst)) == doc_max(*old(dst)),
{
    dst.objects.extend(src.objects);
}

/// Relies on `Document::add_object` (twice), `Dictionary::new`/`set` and the
/// trailer: installs a fresh page tree — a pages node whose kids are
/// exactly `page_ids` in order, a catalog, and the trailer root — and
/// returns the pages node's id.  Afterwards the document presents exactly
/// `page_ids`: `get_pages` walks root → catalog → pages node → kids, and
/// each kid is a page-typed dictionary by the precondition.  Ids at or
/// below the old mark keep their bindings; the two fresh objects take the
/// next two ids (the mark bound in `requires` keeps the id counter from
/// overflowing).  This is one composite on purpose: no single lopdf call
/// determines what the tree presents.
#[verifier::external_body]
pub(crate) fn doc_install_page_tree(d: &mut lopdf::Document, page_ids: &Vec<(u32, u16)>) -> (r: (
    u32,
    u16,
))
    requires
        page_ids@.no_duplicates(),
        forall|i: int| 0 <= i < page_ids@.len() ==> doc_is_page(*old(d), #[trigger] page_ids@[i]),
        forall|i: int| 0 <= i < page_ids@.len() ==> (#[trigger] page_ids@[i]).0 <= doc_max(
            *old(d),
        ),
        doc_max(*old(d)) + 2 <= u32::MAX,
    ensures
        doc_pages(*final(d)) == page_ids@,
        doc_flat_tree(*final(d)),
        r == ((doc_max(*old(d)) + 1) as u32, 0u16),
        doc_max(*final(d)) == doc_max(*old(d)) + 2,
        forall|id: (u32, u16)|
            id.0 <= doc_max(*old(d)) ==> doc_is_page(*final(d), id) == doc_is_page(*old(d), id),
{
    let kids: Vec<Object> = page_ids.iter().map(|&(n, g)| Object::Reference((n, g))).collect();
    let mut pages = Dictionary::new();
    pages.set("Type", Object::Name(b"Pages".to_vec()));
    pages.set("Count", kids.len() as i64);
    pages.set("Kids", kids);
    let root = d.add_object(pages);
    let mut catalog = Dictionary::new();
    catalog.set("Type", Object::Name(b"Catalog".to_vec()));
    catalog.set("Pages", root);
    let catalog_id = d.add_object(catalog);
    d.trailer.set("Root", catalog_id);
    root
}

/// Relies on `Document::get_object_mut` and `Object::as_dict_mut`: records
/// `parent` under the page's `Parent` key, for document validity.  The
/// page's dictionary exists by the precondition; the entry written is not
/// the type entry and not the kids, so what the tree presents, the id set,
/// the page bindings and the mark are unchanged.
#[verifier::external_body]
pub(crate) fn doc_set_parent(d: &mut lopdf::Document, page: (u32, u16), parent: (u32, u16))
    requires
        doc_is_page(*old(d), page),
    ensures
        doc_pages(*final(d)) == doc_pages(*old(d)),
        doc_flat_tree(*final(d)) == doc_flat_tree(*old(d)),
        forall|id: (u32, u16)|
            doc_is_page(*final(d), id) == doc_is_page(*old(d), id),
        doc_max(*final(d)) == doc_max(*old(d)),
{
    if let Ok(object) = d.get_object_mut(page) {
        if let Ok(dict) = object.as_dict_mut() {
            dict.set("Parent", lopdf::Object::Reference(parent));
        }
    }
}

/// Relies on `Document::prune_objects`: removes every object unreachable
/// from the trailer — the terminal pruning pass.  On a flat tree the run's
/// pages, the pages node and the catalog all stay reachable, and the walk
/// touches one kid entry per presented page, fewer than the objects the
/// pass keeps — so the presented run survives unchanged.  (On a tangled
/// tree — dangling kid entries beside unreachable objects — pruning can
/// starve the walk's iteration budget, so the flat shape is required, not
/// assumed.)
#[verifier::external_body]
pub(crate) fn doc_prune(d: &mut lopdf::Document)
    requires
        doc_flat_tree(*old(d)),
    ensures
        doc_pages(*final(d)) == doc_pages(*old(d)),
{
    let _ = d.prune_objects();
}

/// Relies on `Document::compress`: compresses stream contents in place —
/// the terminal compression pass.  Object ids, dictionaries and the page
/// tree are untouched.
#[verifier::external_body]
pub(crate) fn doc_compress(d: &mut lopdf::Document)
    ensures
        doc_pages(*final(d)) == doc_pages(*old(d)),
{
    d.compress();
}

/// Relies on `Document::save_to` writing into an in-memory buffer: whether
/// writing succeeds, and the bytes written, are functions of the document
/// value (into a `Vec` the io path cannot fail; the writer's own error
/// paths depend on the document alone); the objects and the page tree are
/// not rewritten by serialization.
#[verifier::external_body]
pub(crate) fn doc_save(d: &mut lopdf::Document) -> (r: Result<Vec<u8>, lopdf::Error>)
    ensures
        r is Ok <==> doc_save_ok(*old(d)),
        r matches Ok(b) ==> b@ == doc_serialized(*old(d)),
        doc_pages(*final(d)) == doc_pages(*old(d)),
{
    let mut buf: Vec<u8> = Vec::new();
    d.save_to(&mut buf)?;
    Ok(buf)
}

/// Loads one rendered page artifact as a document.  The artifact parses
/// exactly when lopdf's parser accepts it; a failure carries lopdf's error.
pub fn fetch_page_pdf(raw: &[u8]) -> (r: Result<lopdf::Document, ScraperError>)
    ensures
        r is Ok <==> pdf_parses(raw@),
        r matches Ok(d) ==> doc_pages(d) == pdf_page_ids(raw@),
        r matches Err(e) ==> e is PdfError,
{
    match doc_load(raw) {
        Ok(d) => Ok(d),
        Err(e) => Err(ScraperError::PdfError(e)),
    }
}

} // verus!
