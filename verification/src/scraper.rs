//! The per-origin scraper backend and its registry.  A landing page's
//! origin (scheme and domain) selects a backend; an unrecognized domain is a
//! deliberate fatal signal to add a new backend, never a silent fallback.
//! The backend binds to one landing page at construction: it resolves the
//! base path and extracts the total page count from the fixed
//! initialization-script pattern in the landing markup.

use crate::buffered_response::BufferedResponse;
use crate::error::ScraperError;
use crate::lti_form::lit;
use crate::scan::{
    copy_range, dec_digits, digit_run_end, digits_value, eq_at, find_from, is_digit, match_at,
    parse_u32_run, push_all, spec_find, u32_to_dec,
};
use vstd::prelude::*;
use vstd::string::StringSliceAdditionalSpecFns;

verus! {

/// The page count embedded in landing markup: the first occurrence of the
/// fixed initialization-script call must be followed by the numeric group
/// and the fixed suffix, and the number must fit the page-count type.
pub open spec fn spec_page_count(h: Seq<u8>) -> Option<u16> {
    match spec_find(h, lit("IDRViewer.makeNavBar("), 0) {
        None => None,
        Some(p) => {
            let ds = p + lit("IDRViewer.makeNavBar(").len();
            let de = digit_run_end(h, ds as nat);
            if ds < h.len() && is_digit(h[ds as int]) && digits_value(
                h.subrange(ds as int, de as int),
            ) <= u16::MAX && match_at(h, lit(",'.jpg'"), de as int) {
                Some(digits_value(h.subrange(ds as int, de as int)) as u16)
            } else {
                None
            }
        },
    }
}

/// Reads the page count out of landing markup, as `spec_page_count`
/// describes it.
fn extract_page_count(h: &[u8]) -> (r: Option<u16>)
    ensures
        r == spec_page_count(h@),
{
    let h_len = h.len();
    let marker = "IDRViewer.makeNavBar(".as_bytes();
    let suffix = ",'.jpg'".as_bytes();
    let p = match find_from(h, marker, 0) {
        None => {
            return None;
        },
        Some(p) => p,
    };
    proof {
        crate::scan::lemma_find_first(h@, marker@, 0);
    }
    let ds = p + marker.len();
    let parsed = match parse_u32_run(h, ds) {
        None => {
            proof {
                if ds < h@.len() && is_digit(h@[ds as int]) {
                    assert(digits_value(
                        h@.subrange(ds as int, digit_run_end(h@, ds as nat) as int),
                    ) > u32::MAX);
                }
            }
            return None;
        },
        Some(pr) => pr,
    };
    let v = parsed.0;
    let de = parsed.1;
    if v > 0xffff {
        return None;
    }
    if suffix.len() > h_len - de {
        proof {
            assert(!match_at(h@, suffix@, de as int));
        }
        return None;
    }
    if !eq_at(h, suffix, de) {
        return None;
    }
    Some(v as u16)
}

/// The URL with every copy of the index-page suffix removed from its end.
pub open spec fn trim_index(u: Seq<u8>) -> Seq<u8>
    decreases u.len(),
{
    let suf = lit("/index.html");
    if suf.len() > 0 && u.len() >= suf.len() && u.subrange(u.len() - suf.len(), u.len() as int)
        == suf {
        trim_index(u.subrange(0, u.len() - suf.len()))
    } else {
        u
    }
}

/// Lengths of this module's literal markers.
proof fn lemma_scraper_lits()
    ensures
        lit("/index.html").len() == 11,
        lit("https://").len() == 8,
        lit("/").len() == 1,
{
    broadcast use vstd::string::is_ascii_spec_bytes;

    reveal_strlit("/index.html");
    assert(("/index.html").is_ascii());
    reveal_strlit("https://");
    assert(("https://").is_ascii());
    reveal_strlit("/");
    assert(("/").is_ascii());
}

/// Removes every copy of the index-page suffix from the URL's end.
fn trim_index_suffix(u: &[u8]) -> (r: Vec<u8>)
    ensures
        r@ == trim_index(u@),
{
    let suf = "/index.html".as_bytes();
    proof {
        lemma_scraper_lits();
    }
    let mut cur = copy_range(u, 0, u.len());
    proof {
        assert(cur@ =~= u@);
    }
    loop
        invariant
            suf@ == lit("/index.html"),
            suf@.len() == 11,
            trim_index(u@) == trim_index(cur@),
        decreases cur@.len(),
    {
        let cur_len = cur.len();
        if cur_len >= 11 && eq_at(cur.as_slice(), suf, cur_len - 11) {
            let ghost before = cur@;
            proof {
                assert(before.subrange(before.len() - 11, before.len() as int) == suf@);
                assert(trim_index(before) == trim_index(before.subrange(0, before.len() - 11)));
            }
            cur.truncate(cur_len - 11);
            proof {
                assert(cur@ == before.subrange(0, before.len() - 11));
            }
        } else {
            proof {
                if cur@.len() >= 11 {
                    assert(cur@.subrange(cur@.len() - 11, cur@.len() as int) != suf@);
                }
                assert(trim_index(cur@) == cur@);
            }
            return cur;
        }
    }
}

/// The scraper backends known to the registry.
#[derive(Clone, Copy, Debug, PartialEq, Eq, Structural)]
pub enum ScraperKind {
    /// The backend for the book origin and its sibling domain.
    Digi4School,
}

/// True for the bytes that end a URL's domain.
pub open spec fn stop_byte(b: u8) -> bool {
    b == 0x2f || b == 0x3a || b == 0x3f || b == 0x23
}

/// The first position at or after `from` that ends the domain.
pub open spec fn host_end(u: Seq<u8>, from: nat) -> nat
    decreases u.len() + 1 - from,
{
    if from < u.len() && !stop_byte(u[from as int]) {
        host_end(u, from + 1)
    } else {
        from
    }
}

/// `host_end` stays within the URL, runs over non-stop bytes, and stops at
/// the end or at a stop byte.
proof fn lemma_host_end(u: Seq<u8>, from: nat)
    requires
        from <= u.len(),
    ensures
        from <= host_end(u, from) <= u.len(),
        forall|m: int| from <= m < host_end(u, from) ==> !stop_byte(#[trigger] u[m]),
        host_end(u, from) == u.len() || stop_byte(u[host_end(u, from) as int]),
    decreases u.len() + 1 - from,
{
    if from < u.len() && !stop_byte(u[from as int]) {
        lemma_host_end(u, from + 1);
    }
}

/// The dispatch key of a landing URL: its domain, defined for the https
/// scheme the origins use.
pub open spec fn spec_origin_domain(u: Seq<u8>) -> Option<Seq<u8>> {
    if match_at(u, lit("https://"), 0) {
        Some(
            u.subrange(
                lit("https://").len() as int,
                host_end(u, lit("https://").len() as nat) as int,
            ),
        )
    } else {
        None
    }
}

/// True when a registered backend serves the domain.
pub open spec fn known_domain(d: Seq<u8>) -> bool {
    d == lit("a.digi4school.at") || d == lit("a.hpthek.at")
}

/// Selects the scraper backend for a landing URL.  The dispatch key is the
/// URL's scheme and domain; an unrecognized origin is a fatal error naming
/// the URL — a deliberate signal to register a new backend.
pub fn get_scraper_constructor(url: &[u8]) -> (r: Result<ScraperKind, ScraperError>)
    ensures
        match r {
            Ok(k) => (spec_origin_domain(url@) matches Some(d) && known_domain(d)) && k
                == ScraperKind::Digi4School,
            Err(e) => !(spec_origin_domain(url@) matches Some(d) && known_domain(d)) && (
            e matches ScraperError::UnsupportedSource { url: u } && u@ == url@),
        },
{
    let url_len = url.len();
    let scheme = "https://".as_bytes();
    proof {
        lemma_scraper_lits();
    }
    if url_len < 8 || !eq_at(url, scheme, 0) {
        return Err(ScraperError::UnsupportedSource { url: copy_range(url, 0, url_len) });
    }
    let mut k: usize = 8;
    proof {
        lemma_host_end(url@, 8);
    }
    while k < url_len && url[k] != 0x2f && url[k] != 0x3a && url[k] != 0x3f && url[k] != 0x23
        invariant
            url_len == url@.len(),
            8 <= k <= url_len,
            host_end(url@, 8) == host_end(url@, k as nat),
        decreases url_len - k,
    {
        k += 1;
    }
    proof {
        assert(host_end(url@, k as nat) == k as nat);
    }
    let domain = copy_range(url, 8, k);
    if crate::scan::bytes_eq(domain.as_slice(), "a.digi4school.at".as_bytes()) || crate::scan::bytes_eq(
        domain.as_slice(),
        "a.hpthek.at".as_bytes(),
    ) {
        Ok(ScraperKind::Digi4School)
    } else {
        Err(ScraperError::UnsupportedSource { url: copy_range(url, 0, url_len) })
    }
}

/// The scraper backend for the book origin: bound at construction to one
/// landing page, immutable afterwards.
#[derive(Debug)]
pub struct Digi4SchoolScraper {
    base_url: Vec<u8>,
    page_count: u16,
}

impl Digi4SchoolScraper {
    /// The resolved base path for the bound content unit.
    pub closed spec fn spec_base_url(&self) -> Seq<u8> {
        self.base_url@
    }

    /// The total page count for the bound content unit.
    pub closed spec fn spec_page_count(&self) -> u16 {
        self.page_count
    }

    /// Binds a scraper to a landing page: the base path is the landing URL
    /// without its index-page suffix, and the page count is read from the
    /// fixed initialization-script pattern.  The pattern's absence is fatal,
    /// with the landing URL and full body included for diagnosis.
    pub fn new_scraper(resp: &BufferedResponse) -> (r: Result<Digi4SchoolScraper, ScraperError>)
        ensures
            match r {
                Ok(s) => spec_page_count(resp.body()) matches Some(c) && s.spec_page_count() == c
                    && s.spec_base_url() == trim_index(resp.spec_url()),
                Err(e) => spec_page_count(resp.body()) is None && (
                e matches ScraperError::MissingPageCountMarker { url, body } && url@
                    == resp.spec_url() && body@ == resp.body()),
            },
    {
        let count = match extract_page_count(resp.bytes().as_slice()) {
            None => {
                let url = resp.url();
                let body = resp.bytes();
                return Err(
                    ScraperError::MissingPageCountMarker {
                        url: copy_range(url.as_slice(), 0, url.len()),
                        body: copy_range(body.as_slice(), 0, body.len()),
                    },
                );
            },
            Some(c) => c,
        };
        let base_url = trim_index_suffix(resp.url().as_slice());
        Ok(Digi4SchoolScraper { base_url, page_count: count })
    }

    /// The bound total page count, fixed at construction.
    pub fn fetch_page_count(&self) -> (r: u16)
        ensures
            r == self.spec_page_count(),
    {
        self.page_count
    }

    /// The URL of a page's vector markup under the bound base path.  The
    /// page index must satisfy `1 <= page <= page_count`; anything else is a
    /// fatal bounds violation.
    pub fn page_svg_url(&self, page: u16) -> (r: Result<Vec<u8>, ScraperError>)
        ensures
            r is Ok <==> 1 <= page <= self.spec_page_count(),
            r matches Ok(u) ==> u@ == self.spec_base_url() + lit("/") + dec_digits(page as int)
                + lit(".svg"),
            r matches Err(e) ==> e matches ScraperError::PageOutOfRange { page: p, page_count: c }
                && p == page && c == self.spec_page_count(),
    {
        if page < 1 || page > self.page_count {
            return Err(
                ScraperError::PageOutOfRange { page, page_count: self.page_count },
            );
        }
        let mut u: Vec<u8> = Vec::new();
        push_all(&mut u, self.base_url.as_slice());
        push_all(&mut u, "/".as_bytes());
        let digits = u32_to_dec(page as u32);
        push_all(&mut u, digits.as_slice());
        push_all(&mut u, ".svg".as_bytes());
        proof {
            assert(u@ =~= self.spec_base_url() + lit("/") + dec_digits(page as int) + lit(".svg"));
        }
        Ok(u)
    }

    /// The URL of a page-scoped asset under the bound base path.
    pub fn image_url(&self, relative_url: &[u8]) -> (r: Vec<u8>)
        ensures
            r@ == self.spec_base_url() + lit("/") + relative_url@,
    {
        let mut u: Vec<u8> = Vec::new();
        push_all(&mut u, self.base_url.as_slice());
        push_all(&mut u, "/".as_bytes());
        push_all(&mut u, relative_url);
        proof {
            assert(u@ =~= self.spec_base_url() + lit("/") + relative_url@);
        }
        u
    }
}

/// Selects and constructs the scraper for a resolved landing page: the
/// registry picks the backend for the landing URL's origin, and the
/// chosen constructor binds to the landing page.  Fails exactly when the
/// origin is unknown or the page-count marker is absent.
pub fn scraper_for(landing: &BufferedResponse) -> (r: Result<Digi4SchoolScraper, ScraperError>)
    ensures
        match r {
            Ok(s) => {
                &&& (spec_origin_domain(landing.spec_url()) matches Some(d) && known_domain(d))
                &&& spec_page_count(landing.body()) matches Some(c) && s.spec_page_count() == c
                &&& s.spec_base_url() == trim_index(landing.spec_url())
            },
            Err(e) => {
                &&& (e is UnsupportedSource ==> !(spec_origin_domain(landing.spec_url())
                    matches Some(d) && known_domain(d)))
                &&& (e is MissingPageCountMarker ==> spec_page_count(landing.body()) is None)
                &&& (e is UnsupportedSource || e is MissingPageCountMarker)
            },
        },
{
    match get_scraper_constructor(landing.url().as_slice()) {
        Ok(ScraperKind::Digi4School) => Digi4SchoolScraper::new_scraper(landing),
        Err(e) => Err(e),
    }
}

} // verus!
