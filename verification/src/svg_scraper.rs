//! Page-scoped asset handling for vector markup: scanning a page's markup
//! for asset references, collapsing duplicates so each distinct reference is
//! fetched once, and inlining fetched assets as base64 data URIs.  A
//! reference is recognized only when its path is scoped to the current page
//! index (`"<page>/..."` inside an `xlink:href` attribute).

use crate::buffered_response::BufferedResponse;
use crate::error::ScraperError;
use crate::lti_form::{lit, opt_or};
use crate::scan::{
    bytes_eq, copy_range, dec_digits, find_from, match_at, push_all, spec_find, spec_replace,
    replace_all, u32_to_dec,
};
use vstd::prelude::*;
use vstd::string::StringSliceAdditionalSpecFns;

verus! {

/// Relies on base64's standard-alphabet engine: the encoding of the bytes,
/// a function of the input alone.
pub uninterp spec fn base64_of(b: Seq<u8>) -> Seq<u8>;

/// Relies on base64: `Engine::encode` with the standard alphabet returns
/// `base64_of` of the input.
#[verifier::external_body]
fn base64_encode(b: &[u8]) -> (r: Vec<u8>)
    ensures
        r@ == base64_of(b@),
{
    base64::Engine::encode(&base64::prelude::BASE64_STANDARD, b).into_bytes()
}

/// The fixed prefix of a page-scoped asset reference: the href marker, the
/// page number, and the path separator.
pub open spec fn asset_prefix(page: u16) -> Seq<u8> {
    lit("xlink:href=\"") + dec_digits(page as int) + lit("/")
}

/// Position just past an asset reference opening at `i`: the closing
/// `"/>` marker, or the end of the markup when there is none.
pub open spec fn asset_close(h: Seq<u8>, pre: Seq<u8>, i: int) -> nat {
    opt_or(spec_find(h, lit("\"/>"), (i + pre.len()) as nat), h.len())
}

/// True when a page-scoped asset reference opens at position `i`: the page's
/// prefix, at least one further path byte, and the closing `"/>` marker.
pub open spec fn asset_at(h: Seq<u8>, pre: Seq<u8>, i: int) -> bool {
    &&& match_at(h, pre, i)
    &&& (spec_find(h, lit("\"/>"), (i + pre.len()) as nat) matches Some(q) && q > i + pre.len())
}

/// The reference captured at position `i`: page number, separator and path,
/// up to the closing quote.
pub open spec fn asset_ref(h: Seq<u8>, page: u16, i: int) -> Seq<u8> {
    h.subrange(
        i + lit("xlink:href=\"").len() as int,
        asset_close(h, asset_prefix(page), i) as int,
    )
}

/// Every asset reference of the page in `h` at or after `from`, in document
/// order, duplicates included; scanning resumes past each match.
pub open spec fn spec_assets(h: Seq<u8>, page: u16, from: nat) -> Seq<Seq<u8>>
    decreases h.len() + 1 - from,
{
    let pre = asset_prefix(page);
    if from > h.len() {
        Seq::empty()
    } else if asset_at(h, pre, from as int) {
        let jump = asset_close(h, pre, from as int) + lit("\"/>").len();
        let next0 = if jump <= from {
            from + 1
        } else {
            jump as nat
        };
        let next = if next0 > h.len() + 1 {
            (h.len() + 1) as nat
        } else {
            next0
        };
        seq![asset_ref(h, page, from as int)] + spec_assets(h, page, next)
    } else if from == h.len() {
        Seq::empty()
    } else {
        spec_assets(h, page, from + 1)
    }
}

/// A stretch without asset references contributes nothing to the scan.
proof fn lemma_assets_skip(h: Seq<u8>, page: u16, a: nat, b: nat)
    requires
        a <= b <= h.len(),
        forall|j: int| a <= j < b ==> !asset_at(h, asset_prefix(page), j),
    ensures
        spec_assets(h, page, a) == spec_assets(h, page, b),
    decreases b - a,
{
    if a < b {
        lemma_assets_skip(h, page, a + 1, b);
    }
}

/// The scan finds nothing when no reference stands at or after `a`.
proof fn lemma_assets_none(h: Seq<u8>, page: u16, a: nat)
    requires
        a <= h.len(),
        forall|j: int| a <= j ==> !asset_at(h, asset_prefix(page), j),
    ensures
        spec_assets(h, page, a) == Seq::<Seq<u8>>::empty(),
    decreases h.len() + 1 - a,
{
    if a < h.len() {
        lemma_assets_none(h, page, a + 1);
    }
}

/// The references with every duplicate removed: each reference keeps its
/// first occurrence's position.
pub open spec fn dedup(s: Seq<Seq<u8>>) -> Seq<Seq<u8>>
    decreases s.len(),
{
    if s.len() == 0 {
        Seq::empty()
    } else {
        let rest = dedup(s.drop_last());
        if s.drop_last().contains(s.last()) {
            rest
        } else {
            rest.push(s.last())
        }
    }
}

/// Collapsing duplicates yields each distinct reference exactly once: the
/// result has no duplicates, covers the same set of references, and its
/// length is the number of distinct references.
pub proof fn lemma_dedup_distinct(s: Seq<Seq<u8>>)
    ensures
        dedup(s).no_duplicates(),
        dedup(s).to_set() == s.to_set(),
        dedup(s).len() == s.to_set().len(),
    decreases s.len(),
{
    broadcast use vstd::set::group_set_axioms;

    if s.len() == 0 {
        assert(dedup(s).to_set() =~= s.to_set());
        dedup(s).unique_seq_to_set();
    } else {
        let pre = s.drop_last();
        lemma_dedup_distinct(pre);
        assert(pre.to_set().insert(s.last()) =~= s.to_set()) by {
            assert forall|x: Seq<u8>| s.to_set().contains(x) implies pre.to_set().insert(
                s.last(),
            ).contains(x) by {
                let i = choose|i: int| 0 <= i < s.len() && s[i] == x;
                if i < s.len() - 1 {
                    assert(pre[i] == x);
                }
            }
            assert forall|x: Seq<u8>| pre.to_set().insert(s.last()).contains(x) implies
                s.to_set().contains(x) by {
                if pre.to_set().contains(x) {
                    let i = choose|i: int| 0 <= i < pre.len() && pre[i] == x;
                    assert(s[i] == x);
                } else {
                    assert(s[s.len() - 1] == x);
                }
            }
        }
        if pre.contains(s.last()) {
            assert(pre.to_set().contains(s.last()));
            assert(pre.to_set().insert(s.last()) =~= pre.to_set());
        } else {
            assert(!dedup(pre).contains(s.last())) by {
                if dedup(pre).contains(s.last()) {
                    let i = choose|i: int|
                        0 <= i < dedup(pre).len() && dedup(pre)[i] == s.last();
                    assert(dedup(pre).to_set().contains(s.last()));
                    let j = choose|j: int| 0 <= j < pre.len() && pre[j] == s.last();
                }
            }
            assert(dedup(s) == dedup(pre).push(s.last()));
            assert(dedup(s).no_duplicates()) by {
                assert forall|i: int, j: int|
                    0 <= i < dedup(s).len() && 0 <= j < dedup(s).len() && i != j implies dedup(
                    s,
                )[i] != dedup(s)[j] by {
                    if i < dedup(s).len() - 1 && j < dedup(s).len() - 1 {
                        assert(dedup(pre)[i] == dedup(s)[i]);
                        assert(dedup(pre)[j] == dedup(s)[j]);
                    } else if i == dedup(s).len() - 1 {
                        assert(dedup(pre)[j] == dedup(s)[j]);
                        if dedup(s)[i] == dedup(s)[j] {
                            assert(dedup(pre).contains(s.last()));
                        }
                    } else {
                        assert(dedup(pre)[i] == dedup(s)[i]);
                        if dedup(s)[i] == dedup(s)[j] {
                            assert(dedup(pre).contains(s.last()));
                        }
                    }
                }
            }
            assert(dedup(s).to_set() =~= dedup(pre).to_set().insert(s.last())) by {
                assert forall|x: Seq<u8>| dedup(s).to_set().contains(x) implies dedup(
                    pre,
                ).to_set().insert(s.last()).contains(x) by {
                    let i = choose|i: int| 0 <= i < dedup(s).len() && dedup(s)[i] == x;
                    if i < dedup(s).len() - 1 {
                        assert(dedup(pre)[i] == x);
                    }
                }
                assert forall|x: Seq<u8>| dedup(pre).to_set().insert(s.last()).contains(x)
                    implies dedup(s).to_set().contains(x) by {
                    if dedup(pre).to_set().contains(x) {
                        let i = choose|i: int| 0 <= i < dedup(pre).len() && dedup(pre)[i] == x;
                        assert(dedup(s)[i] == x);
                    } else {
                        assert(dedup(s)[dedup(s).len() - 1] == x);
                    }
                }
            }
            dedup(s).unique_seq_to_set();
        }
    }
}

/// The view of a reference list.
pub open spec fn view_refs(v: Seq<Vec<u8>>) -> Seq<Seq<u8>> {
    v.map_values(|r: Vec<u8>| r@)
}

/// True when `x` already stands among the collected references.
fn contains_ref(out: &Vec<Vec<u8>>, x: &[u8]) -> (r: bool)
    ensures
        r == view_refs(out@).contains(x@),
{
    let n = out.len();
    let mut k: usize = 0;
    while k < n
        invariant
            n == out@.len(),
            k <= n,
            forall|j: int| 0 <= j < k ==> view_refs(out@)[j] != x@,
        decreases n - k,
    {
        if bytes_eq(out[k].as_slice(), x) {
            assert(view_refs(out@)[k as int] == x@);
            return true;
        }
        k += 1;
    }
    false
}

/// The distinct asset references of `page` in the markup, in first-occurrence
/// order: exactly the scan's references with duplicates collapsed, so the
/// caller fetches each distinct reference once.
pub fn find_asset_refs(svg: &[u8], page: u16) -> (r: Vec<Vec<u8>>)
    ensures
        view_refs(r@) == dedup(spec_assets(svg@, page, 0)),
        view_refs(r@).no_duplicates(),
        view_refs(r@).to_set() == spec_assets(svg@, page, 0).to_set(),
        view_refs(r@).len() == spec_assets(svg@, page, 0).to_set().len(),
{
    let h_len = svg.len();
    let marker = "xlink:href=\"".as_bytes();
    let marker_len = marker.len();
    let close_pat = "\"/>".as_bytes();
    let mut pre: Vec<u8> = Vec::new();
    push_all(&mut pre, marker);
    let digits = u32_to_dec(page as u32);
    push_all(&mut pre, digits.as_slice());
    push_all(&mut pre, "/".as_bytes());
    proof {
        assert(pre@ =~= asset_prefix(page));
        assert(dec_digits(page as int).len() >= 1);
        lemma_close_len();
    }
    let pre_len = pre.len();
    let mut out: Vec<Vec<u8>> = Vec::new();
    let ghost mut seen: Seq<Seq<u8>> = Seq::empty();
    let mut i: usize = 0;
    proof {
        assert(seen + spec_assets(svg@, page, 0) =~= spec_assets(svg@, page, 0));
        assert(view_refs(out@) =~= dedup(seen));
    }
    while i < h_len
        invariant
            h_len == svg@.len(),
            pre@ == asset_prefix(page),
            pre_len == pre@.len(),
            marker_len == lit("xlink:href=\"").len(),
            marker_len + 2 <= pre_len,
            close_pat@ == lit("\"/>"),
            lit("\"/>").len() == 3,
            i <= h_len,
            spec_assets(svg@, page, 0) == seen + spec_assets(svg@, page, i as nat),
            view_refs(out@) == dedup(seen),
        decreases h_len - i,
    {
        let p = match find_from(svg, pre.as_slice(), i) {
            None => {
                proof {
                    crate::scan::lemma_find_first(svg@, pre@, i as nat);
                    assert forall|j: int| i <= j implies !asset_at(svg@, pre@, j) by {}
                    lemma_assets_none(svg@, page, i as nat);
                    assert(seen + spec_assets(svg@, page, i as nat) =~= seen);
                }
                i = h_len;
                continue;
            },
            Some(p) => p,
        };
        proof {
            crate::scan::lemma_find_first(svg@, pre@, i as nat);
            assert forall|j: int| i <= j < p implies !asset_at(svg@, pre@, j) by {}
            lemma_assets_skip(svg@, page, i as nat, p as nat);
        }
        let q = match find_from(svg, close_pat, p + pre_len) {
            None => {
                proof {
                    assert(!asset_at(svg@, pre@, p as int));
                    assert(spec_assets(svg@, page, p as nat) == spec_assets(
                        svg@,
                        page,
                        (p + 1) as nat,
                    ));
                }
                i = p + 1;
                continue;
            },
            Some(q) => q,
        };
        proof {
            crate::scan::lemma_find_first(svg@, lit("\"/>"), (p + pre_len) as nat);
        }
        if q == p + pre_len {
            proof {
                assert(!asset_at(svg@, pre@, p as int));
                assert(spec_assets(svg@, page, p as nat) == spec_assets(
                    svg@,
                    page,
                    (p + 1) as nat,
                ));
            }
            i = p + 1;
            continue;
        }
        proof {
            assert(asset_at(svg@, pre@, p as int));
            assert(asset_close(svg@, pre@, p as int) == q as nat);
        }
        let reference = copy_range(svg, p + marker_len, q);
        let ghost r_spec = asset_ref(svg@, page, p as int);
        proof {
            assert(reference@ == r_spec);
        }
        let next = q + 3;
        proof {
            assert(spec_assets(svg@, page, p as nat) == seq![r_spec] + spec_assets(
                svg@,
                page,
                next as nat,
            ));
            assert(seen + (seq![r_spec] + spec_assets(svg@, page, next as nat)) =~= seen.push(
                r_spec,
            ) + spec_assets(svg@, page, next as nat));
        }
        if !contains_ref(&out, reference.as_slice()) {
            proof {
                lemma_dedup_distinct(seen);
                broadcast use vstd::set::group_set_axioms;

                if seen.contains(r_spec) {
                    assert(seen.to_set().contains(r_spec));
                    assert(dedup(seen).to_set().contains(r_spec));
                    let j = choose|j: int|
                        0 <= j < dedup(seen).len() && dedup(seen)[j] == r_spec;
                    assert(view_refs(out@).contains(r_spec));
                    assert(false);
                }
                assert(seen.push(r_spec).drop_last() =~= seen);
                assert(dedup(seen.push(r_spec)) == dedup(seen).push(r_spec));
            }
            let ghost out_before = out@;
            out.push(reference);
            proof {
                assert(view_refs(out@) =~= view_refs(out_before).push(r_spec));
            }
        } else {
            proof {
                lemma_dedup_distinct(seen);
                broadcast use vstd::set::group_set_axioms;

                let j = choose|j: int|
                    0 <= j < view_refs(out@).len() && view_refs(out@)[j] == r_spec;
                assert(dedup(seen).to_set().contains(r_spec));
                assert(seen.to_set().contains(r_spec));
                let m = choose|m: int| 0 <= m < seen.len() && seen[m] == r_spec;
                assert(seen.contains(r_spec));
                assert(seen.push(r_spec).drop_last() =~= seen);
                assert(dedup(seen.push(r_spec)) == dedup(seen));
            }
        }
        proof {
            seen = seen.push(r_spec);
        }
        i = next;
    }
    proof {
        assert(spec_assets(svg@, page, i as nat) =~= Seq::<Seq<u8>>::empty());
        assert(seen + Seq::<Seq<u8>>::empty() =~= seen);
        lemma_dedup_distinct(spec_assets(svg@, page, 0));
    }
    out
}

/// One fetched page asset: the reference it answers and the captured
/// response, fetched once per distinct reference.
pub struct PageAsset {
    /// The reference as it stands in the markup.
    pub reference: Vec<u8>,
    /// The captured response for the reference.
    pub response: BufferedResponse,
}

/// The asset's content type: the value of its response's `Content-Type`
/// header, whose absence is fatal.
pub open spec fn asset_ct(a: PageAsset) -> Option<Vec<u8>> {
    crate::buffered_response::spec_header_lookup(a.response.spec_headers(), lit("Content-Type"))
}

/// The value of the asset's content type, or empty when absent.
pub open spec fn asset_ct_view(a: PageAsset) -> Seq<u8> {
    match asset_ct(a) {
        Some(v) => v@,
        None => Seq::empty(),
    }
}

/// The inline form of a fetched asset: a data URI of its content type and
/// base64-encoded bytes.
pub open spec fn data_uri(content_type: Seq<u8>, body: Seq<u8>) -> Seq<u8> {
    lit("data:") + content_type + lit(";base64,") + base64_of(body)
}

/// The markup after inlining the assets in order: each asset's reference is
/// replaced, everywhere it occurs, by its data URI.
pub open spec fn spec_inline(svg: Seq<u8>, assets: Seq<PageAsset>) -> Seq<u8>
    decreases assets.len(),
{
    if assets.len() == 0 {
        svg
    } else {
        let a = assets[0];
        let uri = data_uri(asset_ct_view(a), a.response.body());
        spec_inline(spec_replace(svg, a.reference@, uri), assets.skip(1))
    }
}

/// True when every asset's response carries a content-type header.
pub open spec fn all_cts_present(assets: Seq<PageAsset>) -> bool {
    forall|j: int| 0 <= j < assets.len() ==> asset_ct(#[trigger] assets[j]) is Some
}

/// Builds the data URI of a fetched asset.
fn build_data_uri(content_type: &[u8], body: &Vec<u8>) -> (r: Vec<u8>)
    ensures
        r@ == data_uri(content_type@, body@),
{
    let mut uri: Vec<u8> = Vec::new();
    push_all(&mut uri, "data:".as_bytes());
    push_all(&mut uri, content_type);
    push_all(&mut uri, ";base64,".as_bytes());
    let b64 = base64_encode(body.as_slice());
    push_all(&mut uri, b64.as_slice());
    proof {
        assert(uri@ =~= data_uri(content_type@, body@));
    }
    uri
}

/// Replaces every occurrence of each asset's reference in the markup by an
/// inline data URI of its content type, so the markup becomes
/// self-contained.  An asset without a content-type header is fatal and
/// names the offending reference.
pub fn inline_assets(svg: &[u8], assets: &Vec<PageAsset>) -> (r: Result<Vec<u8>, ScraperError>)
    ensures
        match r {
            Ok(out) => all_cts_present(assets@) && out@ == spec_inline(svg@, assets@),
            Err(e) => e matches ScraperError::MissingContentType { reference } && (exists|j: int|
                0 <= j < assets@.len() && asset_ct(#[trigger] assets@[j]) is None && reference@
                    == assets@[j].reference@ && (forall|m: int|
                    0 <= m < j ==> asset_ct(#[trigger] assets@[m]) is Some)),
        },
{
    let n = assets.len();
    let mut cur = copy_range(svg, 0, svg.len());
    proof {
        assert(cur@ =~= svg@);
        assert(assets@.skip(0) =~= assets@);
    }
    let mut k: usize = 0;
    while k < n
        invariant
            n == assets@.len(),
            k <= n,
            spec_inline(svg@, assets@) == spec_inline(cur@, assets@.skip(k as int)),
            forall|m: int| 0 <= m < k ==> asset_ct(#[trigger] assets@[m]) is Some,
        decreases n - k,
    {
        let ghost tail = assets@.skip(k as int);
        proof {
            assert(tail[0] == assets@[k as int]);
            assert(tail.skip(1) =~= assets@.skip(k + 1));
        }
        let ct = match assets[k].response.header("Content-Type".as_bytes()) {
            None => {
                return Err(
                    ScraperError::MissingContentType {
                        reference: copy_range(
                            assets[k].reference.as_slice(),
                            0,
                            assets[k].reference.len(),
                        ),
                    },
                );
            },
            Some(ct) => ct,
        };
        let uri = build_data_uri(ct.as_slice(), assets[k].response.bytes());
        if assets[k].reference.len() == 0 {
            proof {
                assert(spec_replace(cur@, assets@[k as int].reference@, uri@) == cur@);
            }
        } else {
            let replaced = replace_all(cur.as_slice(), assets[k].reference.as_slice(), uri.as_slice());
            cur = replaced;
        }
        k += 1;
    }
    proof {
        assert(assets@.skip(n as int) =~= Seq::<PageAsset>::empty());
    }
    Ok(cur)
}

/// Declares usvg's scene-tree type, carried opaquely between parsing and
/// conversion.
#[verifier::external_type_specification]
#[verifier::external_body]
pub struct ExTree(svg2pdf::usvg::Tree);

/// Relies on usvg's `Tree::from_data` with default options: whether the
/// markup parses to a scene — a function of the bytes alone (a failed
/// image resolution is skipped, not an error).
pub uninterp spec fn svg_scene_ok(b: Seq<u8>) -> bool;

/// Relies on usvg's `Tree::from_data` with default options: the markup
/// parses to a scene exactly when usvg accepts it; a failure is reported
/// as malformed markup.  Nothing is named of the scene itself: usvg's
/// default resolver may read image references from the filesystem while
/// parsing, so the scene — unlike the parse verdict — is not a function of
/// the markup.
#[verifier::external_body]
fn parse_svg_tree(svg: &[u8]) -> (r: Result<svg2pdf::usvg::Tree, ScraperError>)
    ensures
        r is Ok <==> svg_scene_ok(svg@),
        r matches Err(e) ==> e is MalformedMarkup,
{
    svg2pdf::usvg::Tree::from_data(svg, &svg2pdf::usvg::Options::default()).map_err(
        |_| ScraperError::MalformedMarkup,
    )
}

/// Relies on svg2pdf's `to_pdf` with default options: whatever scene came
/// back, a successful conversion yields a document byte stream that lopdf
/// parses, holding exactly one page; a failure is reported as malformed
/// markup.  Success and the bytes themselves depend on the scene, which
/// can depend on what is on disk, so neither is named.
#[verifier::external_body]
fn tree_to_pdf(tree: &svg2pdf::usvg::Tree) -> (r: Result<Vec<u8>, ScraperError>)
    ensures
        r matches Ok(a) ==> crate::pdf::pdf_parses(a@) && crate::pdf::pdf_page_ids(a@).len()
            == 1,
        r matches Err(e) ==> e is MalformedMarkup,
{
    svg2pdf::to_pdf(tree, svg2pdf::ConversionOptions::default(), svg2pdf::PageOptions::default())
        .map_err(|_| ScraperError::MalformedMarkup)
}

/// Parses self-contained vector markup as a scene and converts it to a
/// one-page document artifact, which parses as a document with one page.
/// Markup that does not parse is fatal, exactly; a successful parse still
/// leaves the conversion's verdict to svg2pdf (and, for markup with
/// non-inlined image references, to the filesystem), so success beyond
/// parsing is not promised.  Malformed markup after inlining signals an
/// upstream format change, not a usage error.
pub fn render_svg_artifact(svg: &[u8]) -> (r: Result<Vec<u8>, ScraperError>)
    ensures
        r is Ok ==> svg_scene_ok(svg@),
        !svg_scene_ok(svg@) ==> r is Err,
        r matches Ok(a) ==> crate::pdf::pdf_parses(a@) && crate::pdf::pdf_page_ids(a@).len()
            == 1,
        r matches Err(e) ==> e is MalformedMarkup,
{
    let tree = match parse_svg_tree(svg) {
        Ok(t) => t,
        Err(e) => {
            return Err(e);
        },
    };
    tree_to_pdf(&tree)
}

/// Length of the closing marker.
proof fn lemma_close_len()
    ensures
        lit("\"/>").len() == 3,
        lit("xlink:href=\"").len() == 12,
        lit("/").len() == 1,
{
    broadcast use vstd::string::is_ascii_spec_bytes;

    reveal_strlit("\"/>");
    assert(("\"/>").is_ascii());
    reveal_strlit("xlink:href=\"");
    assert(("xlink:href=\"").is_ascii());
    reveal_strlit("/");
    assert(("/").is_ascii());
}

} // verus!
