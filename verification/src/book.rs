//! Content entries and their volumes.  A content entry ("book") may hold
//! one volume or several: its landing page is a single-unit page exactly
//! when the body begins with the literal document-type prologue; otherwise
//! it is a multi-volume listing whose entries are extracted by a fixed
//! markup pattern.  A volume memoizes its landing page: the page is set at
//! most once and kept forever.

use crate::buffered_response::BufferedResponse;
use crate::error::ScraperError;
use crate::lti_form::lit;
use crate::scan::{copy_range, dec_digits, eq_at, find_from, match_at, push_all, spec_find, u32_to_dec};
use vstd::prelude::*;
use vstd::string::StringSliceAdditionalSpecFns;

verus! {

/// The literal document-type prologue that marks a single-unit landing
/// page.
pub open spec fn doctype_prologue() -> Seq<u8> {
    lit("<!DOCTYPE html>")
}

/// A content entry: id, title, thumbnail reference, and the year it was
/// obtained; supplied externally and never mutated here.
#[derive(Debug)]
pub struct Book {
    id: u16,
    year: u16,
    title: Vec<u8>,
    thumbnail: Vec<u8>,
}

/// Books expire six years after redemption, so the redemption year is the
/// expiry year less six.
pub open spec fn spec_redemption_year(expiration_year: u16) -> int {
    expiration_year - 6
}

impl Book {
    /// The entry's identifier.
    pub closed spec fn spec_id(&self) -> u16 {
        self.id
    }

    /// The year the entry was obtained.
    pub closed spec fn spec_year(&self) -> u16 {
        self.year
    }

    /// The entry's title.
    pub closed spec fn spec_title(&self) -> Seq<u8> {
        self.title@
    }

    /// The entry's thumbnail reference.
    pub closed spec fn spec_thumbnail(&self) -> Seq<u8> {
        self.thumbnail@
    }

    /// Wraps an externally supplied entry.  The stored year is the
    /// redemption year derived from the expiry year.
    pub fn new(id: u16, expiration_year: u16, thumbnail: Vec<u8>, name: Vec<u8>) -> (r: Book)
        requires
            expiration_year >= 6,
        ensures
            r.spec_id() == id,
            r.spec_year() == spec_redemption_year(expiration_year),
            r.spec_title() == name@,
            r.spec_thumbnail() == thumbnail@,
    {
        Book { id, year: expiration_year - 6, title: name, thumbnail }
    }

    /// The year the entry was obtained.
    pub fn year(&self) -> (r: u16)
        ensures
            r == self.spec_year(),
    {
        self.year
    }

    /// The entry's title.
    pub fn title(&self) -> (r: &Vec<u8>)
        ensures
            r@ == self.spec_title(),
    {
        &self.title
    }

    /// The entry's thumbnail reference.
    pub fn thumbnail(&self) -> (r: &Vec<u8>)
        ensures
            r@ == self.spec_thumbnail(),
    {
        &self.thumbnail
    }

    /// The entry's own page under the content origin.
    pub closed spec fn spec_base_url(&self) -> Seq<u8> {
        lit("https://a.digi4school.at/ebook/") + dec_digits(self.id as int)
    }

    /// The entry's own page under the content origin.
    pub fn base_url(&self) -> (r: Vec<u8>)
        ensures
            r@ == self.spec_base_url(),
    {
        let mut u: Vec<u8> = Vec::new();
        push_all(&mut u, "https://a.digi4school.at/ebook/".as_bytes());
        let digits = u32_to_dec(self.id as u32);
        push_all(&mut u, digits.as_slice());
        proof {
            assert(u@ =~= self.spec_base_url());
        }
        u
    }

    /// A listing path resolved against the entry's own page.
    pub fn relative_url(&self, path: &[u8]) -> (r: Vec<u8>)
        ensures
            r@ == self.spec_base_url() + lit("/") + path@,
    {
        let mut u = self.base_url();
        push_all(&mut u, "/".as_bytes());
        push_all(&mut u, path);
        proof {
            assert(u@ =~= self.spec_base_url() + lit("/") + path@);
        }
        u
    }
}

/// One listing entry of a multi-volume page: its path, thumbnail path and
/// name, as captured by the fixed markup pattern.
pub open spec fn entry_pre1() -> Seq<u8> {
    lit("<a href=\"")
}

/// The listing anchor with an empty class attribute.
pub open spec fn entry_pre2() -> Seq<u8> {
    lit("<a class=\"\" href=\"")
}

/// True when a listing anchor opens at position `i`.
pub open spec fn entry_at(h: Seq<u8>, i: int) -> bool {
    match_at(h, entry_pre1(), i) || match_at(h, entry_pre2(), i)
}

/// Position of an anchor's captured path.
pub open spec fn entry_url_start(h: Seq<u8>, i: int) -> int {
    if match_at(h, entry_pre1(), i) {
        i + entry_pre1().len()
    } else {
        i + entry_pre2().len()
    }
}

/// The three captures of one listing entry beginning at `i` — path,
/// thumbnail path, name — and the position where scanning resumes, or
/// `None` when the pattern does not complete from `i`.
pub open spec fn entry_parse(h: Seq<u8>, i: int) -> Option<((Seq<u8>, Seq<u8>, Seq<u8>), nat)> {
    let us = entry_url_start(h, i);
    match spec_find(h, lit("\" target=\"_blank\">"), us as nat) {
        None => None,
        Some(q1) => if q1 <= us {
            None
        } else {
            match spec_find(h, lit("<img src=\""), q1) {
                None => None,
                Some(p2) => {
                    let ts = p2 + lit("<img src=\"").len();
                    match spec_find(h, lit("\" />"), ts as nat) {
                        None => None,
                        Some(q2) => if q2 <= ts {
                            None
                        } else {
                            match spec_find(h, lit("<div class=\"tx\"><h1>"), q2) {
                                None => None,
                                Some(p3) => {
                                    let ns = p3 + lit("<div class=\"tx\"><h1>").len();
                                    match spec_find(h, lit("</h1></div>"), ns as nat) {
                                        None => None,
                                        Some(q3) => if q3 <= ns {
                                            None
                                        } else {
                                            Some(
                                                (
                                                    (
                                                        h.subrange(us, q1 as int),
                                                        h.subrange(ts as int, q2 as int),
                                                        h.subrange(ns as int, q3 as int),
                                                    ),
                                                    (q3 + lit("</h1></div>").len()) as nat,
                                                ),
                                            )
                                        },
                                    }
                                },
                            }
                        },
                    }
                },
            }
        },
    }
}

/// Every listing entry at or after `from`, in document order; scanning
/// resumes past each complete entry.
pub open spec fn spec_entries(h: Seq<u8>, from: nat) -> Seq<(Seq<u8>, Seq<u8>, Seq<u8>)>
    decreases h.len() + 1 - from,
{
    if from > h.len() {
        Seq::empty()
    } else if entry_at(h, from as int) && entry_parse(h, from as int) is Some {
        let parsed = entry_parse(h, from as int);
        let triple = parsed->Some_0.0;
        let jump = parsed->Some_0.1;
        let next0 = if jump <= from {
            from + 1
        } else {
            jump as nat
        };
        let next = if next0 > h.len() + 1 {
            (h.len() + 1) as nat
        } else {
            next0
        };
        seq![triple] + spec_entries(h, next)
    } else if from == h.len() {
        Seq::empty()
    } else {
        spec_entries(h, from + 1)
    }
}

/// A stretch without anchors contributes no entries.
proof fn lemma_entries_skip(h: Seq<u8>, a: nat, b: nat)
    requires
        a <= b <= h.len(),
        forall|j: int| a <= j < b ==> !(entry_at(h, j) && entry_parse(h, j) is Some),
    ensures
        spec_entries(h, a) == spec_entries(h, b),
    decreases b - a,
{
    if a < b {
        lemma_entries_skip(h, a + 1, b);
    }
}

/// The scan finds nothing when no entry completes at or after `a`.
proof fn lemma_entries_none(h: Seq<u8>, a: nat)
    requires
        a <= h.len(),
        forall|j: int| a <= j ==> !(entry_at(h, j) && entry_parse(h, j) is Some),
    ensures
        spec_entries(h, a) == Seq::<(Seq<u8>, Seq<u8>, Seq<u8>)>::empty(),
    decreases h.len() + 1 - a,
{
    if a < h.len() {
        lemma_entries_none(h, a + 1);
    }
}

/// Concrete shapes of the listing grammar's literals.
proof fn lemma_entry_lits()
    ensures
        lit("<a").len() == 2,
        lit("<a href=\"").len() == 9,
        lit("<a class=\"\" href=\"").len() == 18,
        lit("<a href=\"").subrange(0, 2) == lit("<a"),
        lit("<a class=\"\" href=\"").subrange(0, 2) == lit("<a"),
        lit("\" target=\"_blank\">").len() == 18,
        lit("<img src=\"").len() == 10,
        lit("\" />").len() == 4,
        lit("<div class=\"tx\"><h1>").len() == 20,
        lit("</h1></div>").len() == 11,
{
    broadcast use vstd::string::is_ascii_spec_bytes;

    reveal_strlit("<a");
    assert(("<a").is_ascii());
    reveal_strlit("<a href=\"");
    assert(("<a href=\"").is_ascii());
    reveal_strlit("<a class=\"\" href=\"");
    assert(("<a class=\"\" href=\"").is_ascii());
    reveal_strlit("\" target=\"_blank\">");
    assert(("\" target=\"_blank\">").is_ascii());
    reveal_strlit("<img src=\"");
    assert(("<img src=\"").is_ascii());
    reveal_strlit("\" />");
    assert(("\" />").is_ascii());
    reveal_strlit("<div class=\"tx\"><h1>");
    assert(("<div class=\"tx\"><h1>").is_ascii());
    reveal_strlit("</h1></div>");
    assert(("</h1></div>").is_ascii());
    assert(lit("<a href=\"").subrange(0, 2) =~= lit("<a"));
    assert(lit("<a class=\"\" href=\"").subrange(0, 2) =~= lit("<a"));
}

/// An anchor match begins with the anchor opener.
proof fn lemma_entry_needs_anchor(h: Seq<u8>, j: int)
    requires
        !match_at(h, lit("<a"), j),
        lit("<a href=\"").len() == 9,
        lit("<a class=\"\" href=\"").len() == 18,
        lit("<a href=\"").subrange(0, 2) == lit("<a"),
        lit("<a class=\"\" href=\"").subrange(0, 2) == lit("<a"),
        lit("<a").len() == 2,
    ensures
        !entry_at(h, j),
{
    if match_at(h, entry_pre1(), j) {
        assert(h.subrange(j, j + 2) =~= h.subrange(j, j + 9).subrange(0, 2));
    }
    if match_at(h, entry_pre2(), j) {
        assert(h.subrange(j, j + 2) =~= h.subrange(j, j + 18).subrange(0, 2));
    }
}

/// Collects the listing entries of a multi-volume page, as `spec_entries`
/// describes them.
pub fn scan_volume_entries(h: &[u8]) -> (r: Vec<(Vec<u8>, Vec<u8>, Vec<u8>)>)
    ensures
        r@.len() == spec_entries(h@, 0).len(),
        forall|j: int|
            0 <= j < r@.len() ==> ((#[trigger] r@[j]).0@, r@[j].1@, r@[j].2@) == spec_entries(
                h@,
                0,
            )[j],
{
    let h_len = h.len();
    let anchor = "<a".as_bytes();
    proof {
        lemma_entry_lits();
    }
    let mut out: Vec<(Vec<u8>, Vec<u8>, Vec<u8>)> = Vec::new();
    let ghost goal = spec_entries(h@, 0);
    let mut i: usize = 0;
    proof {
        assert(out@.map_values(|t: (Vec<u8>, Vec<u8>, Vec<u8>)| (t.0@, t.1@, t.2@)) + goal =~= goal);
    }
    while i < h_len
        invariant
            h_len == h@.len(),
            anchor@ == lit("<a"),
            lit("<a").len() == 2,
            lit("<a href=\"").len() == 9,
            lit("<a class=\"\" href=\"").len() == 18,
            lit("<a href=\"").subrange(0, 2) == lit("<a"),
            lit("<a class=\"\" href=\"").subrange(0, 2) == lit("<a"),
            lit("\" target=\"_blank\">").len() == 18,
            lit("<img src=\"").len() == 10,
            lit("\" />").len() == 4,
            lit("<div class=\"tx\"><h1>").len() == 20,
            lit("</h1></div>").len() == 11,
            i <= h_len,
            goal == spec_entries(h@, 0),
            goal == out@.map_values(|t: (Vec<u8>, Vec<u8>, Vec<u8>)| (t.0@, t.1@, t.2@))
                + spec_entries(h@, i as nat),
        decreases h_len - i,
    {
        let p = match find_from(h, anchor, i) {
            None => {
                proof {
                    crate::scan::lemma_find_first(h@, lit("<a"), i as nat);
                    assert forall|j: int| i <= j implies !(entry_at(h@, j) && entry_parse(h@, j)
                        is Some) by {
                        if i <= j {
                            lemma_entry_needs_anchor(h@, j);
                        }
                    }
                    lemma_entries_none(h@, i as nat);
                }
                i = h_len;
                continue;
            },
            Some(p) => p,
        };
        proof {
            crate::scan::lemma_find_first(h@, lit("<a"), i as nat);
            assert forall|j: int| i <= j < p implies !(entry_at(h@, j) && entry_parse(h@, j)
                is Some) by {
                if i <= j < p {
                    lemma_entry_needs_anchor(h@, j);
                }
            }
            lemma_entries_skip(h@, i as nat, p as nat);
        }
        // Decide which anchor form opens at p, if any.
        let pre1 = "<a href=\"".as_bytes();
        let pre2 = "<a class=\"\" href=\"".as_bytes();
        let mut us: usize = 0;
        let mut anchored = false;
        if 9 <= h_len - p && eq_at(h, pre1, p) {
            us = p + 9;
            anchored = true;
        } else if 18 <= h_len - p && eq_at(h, pre2, p) {
            us = p + 18;
            anchored = true;
        }
        if !anchored {
            proof {
                assert(!entry_at(h@, p as int));
                assert(spec_entries(h@, p as nat) == spec_entries(h@, (p + 1) as nat));
            }
            i = p + 1;
            continue;
        }
        proof {
            assert(entry_at(h@, p as int));
            assert(us as int == entry_url_start(h@, p as int));
        }
        // Follow the fixed pattern; any break means no entry opens at p.
        let mut complete = false;
        let mut url: Vec<u8> = Vec::new();
        let mut thumb: Vec<u8> = Vec::new();
        let mut name: Vec<u8> = Vec::new();
        let mut jump: usize = 0;
        match find_from(h, "\" target=\"_blank\">".as_bytes(), us) {
            None => {},
            Some(q1) => {
                proof {
                    crate::scan::lemma_find_first(h@, lit("\" target=\"_blank\">"), us as nat);
                }
                if q1 > us {
                    match find_from(h, "<img src=\"".as_bytes(), q1) {
                        None => {},
                        Some(p2) => {
                            proof {
                                crate::scan::lemma_find_first(h@, lit("<img src=\""), q1 as nat);
                            }
                            let ts = p2 + 10;
                            match find_from(h, "\" />".as_bytes(), ts) {
                                None => {},
                                Some(q2) => {
                                    proof {
                                        crate::scan::lemma_find_first(h@, lit("\" />"), ts as nat);
                                    }
                                    if q2 > ts {
                                        match find_from(
                                            h,
                                            "<div class=\"tx\"><h1>".as_bytes(),
                                            q2,
                                        ) {
                                            None => {},
                                            Some(p3) => {
                                                proof {
                                                    crate::scan::lemma_find_first(
                                                        h@,
                                                        lit("<div class=\"tx\"><h1>"),
                                                        q2 as nat,
                                                    );
                                                }
                                                let ns = p3 + 20;
                                                match find_from(
                                                    h,
                                                    "</h1></div>".as_bytes(),
                                                    ns,
                                                ) {
                                                    None => {},
                                                    Some(q3) => {
                                                        proof {
                                                            crate::scan::lemma_find_first(
                                                                h@,
                                                                lit("</h1></div>"),
                                                                ns as nat,
                                                            );
                                                        }
                                                        if q3 > ns {
                                                            url = copy_range(h, us, q1);
                                                            thumb = copy_range(h, ts, q2);
                                                            name = copy_range(h, ns, q3);
                                                            jump = q3 + 11;
                                                            complete = true;
                                                        }
                                                    },
                                                }
                                            },
                                        }
                                    }
                                },
                            }
                        },
                    }
                }
            },
        }
        if !complete {
            proof {
                assert(entry_parse(h@, p as int) is None);
                assert(spec_entries(h@, p as nat) == spec_entries(h@, (p + 1) as nat));
            }
            i = p + 1;
            continue;
        }
        proof {
            assert(entry_parse(h@, p as int) matches Some(pr) && pr.0 == (url@, thumb@, name@)
                && pr.1 == jump as nat);
            assert(spec_entries(h@, p as nat) == seq![(url@, thumb@, name@)] + spec_entries(
                h@,
                jump as nat,
            ));
        }
        let ghost out_before = out@;
        out.push((url, thumb, name));
        proof {
            let view = |t: (Vec<u8>, Vec<u8>, Vec<u8>)| (t.0@, t.1@, t.2@);
            assert(out@.map_values(view) =~= out_before.map_values(view).push(
                (out@[out_before.len() as int].0@, out@[out_before.len() as int].1@, out@[
                    out_before.len() as int].2@),
            ));
            assert(out_before.map_values(view) + (seq![(out@[out_before.len() as int].0@, out@[
                out_before.len() as int].1@, out@[out_before.len() as int].2@)] + spec_entries(
                h@,
                jump as nat,
            )) =~= out@.map_values(view) + spec_entries(h@, jump as nat));
        }
        i = jump;
    }
    proof {
        assert(spec_entries(h@, i as nat) =~= Seq::<(Seq<u8>, Seq<u8>, Seq<u8>)>::empty());
        let view = |t: (Vec<u8>, Vec<u8>, Vec<u8>)| (t.0@, t.1@, t.2@);
        assert(out@.map_values(view) + Seq::<(Seq<u8>, Seq<u8>, Seq<u8>)>::empty() =~= out@
            .map_values(view));
    }
    out
}

/// A renderable sub-unit of a content entry.  Holds the source URL and a
/// memoized landing-page response: the landing page is computed at most
/// once, on first access, and kept forever.
pub struct Volume {
    url: Vec<u8>,
    resp: Option<BufferedResponse>,
    name: Vec<u8>,
    thumbnail: Vec<u8>,
}

impl Volume {
    /// The volume's source URL.
    pub closed spec fn spec_url(&self) -> Seq<u8> {
        self.url@
    }

    /// The volume's name.
    pub closed spec fn spec_name(&self) -> Seq<u8> {
        self.name@
    }

    /// The volume's thumbnail reference.
    pub closed spec fn spec_thumbnail(&self) -> Seq<u8> {
        self.thumbnail@
    }

    /// The memoized landing page.
    pub closed spec fn spec_landing(&self) -> Option<BufferedResponse> {
        self.resp
    }

    /// A volume of a multi-volume listing; its landing page is not yet
    /// resolved.
    pub fn new(url: Vec<u8>, name: Vec<u8>, thumbnail: Vec<u8>) -> (r: Volume)
        ensures
            r.spec_url() == url@,
            r.spec_name() == name@,
            r.spec_thumbnail() == thumbnail@,
            r.spec_landing() is None,
    {
        Volume { url, resp: None, name, thumbnail }
    }

    /// The single volume of a single-unit entry: it inherits the entry's
    /// title and thumbnail, and its landing page is the response already in
    /// hand.
    pub fn from_single_volume_book(book: &Book, resp: BufferedResponse) -> (r: Volume)
        ensures
            r.spec_url() == resp.spec_url(),
            r.spec_name() == book.spec_title(),
            r.spec_thumbnail() == book.spec_thumbnail(),
            r.spec_landing() matches Some(b) && b == resp,
    {
        let url = copy_range(resp.url().as_slice(), 0, resp.url().len());
        let name = copy_range(book.title().as_slice(), 0, book.title().len());
        let thumbnail = copy_range(book.thumbnail().as_slice(), 0, book.thumbnail().len());
        Volume { url, resp: Some(resp), name, thumbnail }
    }

    /// The volume's name.
    pub fn name(&self) -> (r: &Vec<u8>)
        ensures
            r@ == self.spec_name(),
    {
        &self.name
    }

    /// The volume's thumbnail reference.
    pub fn thumbnail(&self) -> (r: &Vec<u8>)
        ensures
            r@ == self.spec_thumbnail(),
    {
        &self.thumbnail
    }

    /// The volume's source URL.
    pub fn url(&self) -> (r: &Vec<u8>)
        ensures
            r@ == self.spec_url(),
    {
        &self.url
    }

    /// The memoized landing page, when already computed.
    pub fn landing(&self) -> (r: Option<&BufferedResponse>)
        ensures
            match r {
                Some(b) => self.spec_landing() matches Some(s) && *b == s,
                None => self.spec_landing() is None,
            },
    {
        match &self.resp {
            Some(b) => Some(b),
            None => None,
        }
    }

    /// Stores the landing page computed by the caller.  The memo is written
    /// at most once: a landing page already present is kept, and the late
    /// arrival is reported back untouched, so no second computation can
    /// replace the first.
    pub fn set_landing(&mut self, resp: BufferedResponse) -> (r: Option<BufferedResponse>)
        ensures
            old(self).spec_landing() is None ==> (final(self).spec_landing() matches Some(b) && b
                == resp && r is None),
            old(self).spec_landing() is Some ==> final(self).spec_landing()
                == old(self).spec_landing() && (r matches Some(b) && b == resp),
            final(self).spec_url() == old(self).spec_url(),
            final(self).spec_name() == old(self).spec_name(),
            final(self).spec_thumbnail() == old(self).spec_thumbnail(),
    {
        if self.resp.is_some() {
            return Some(resp);
        }
        self.resp = Some(resp);
        None
    }
}

impl Book {
    /// The dispatcher's reading of a resolved landing page for a content entry.
    /// A body that begins with the literal document-type prologue is the single
    /// volume itself; any other body is read as a multi-volume listing, whose
    /// entries become volumes with their paths resolved against the entry's own
    /// page.  A listing without entries is fatal.
    pub fn get_volumes(&self, resp: BufferedResponse) -> (r: Result<Vec<Volume>, ScraperError>)
        ensures
            match r {
                Ok(vols) => {
                    if match_at(resp.body(), doctype_prologue(), 0) {
                        &&& vols@.len() == 1
                        &&& vols@[0].spec_url() == resp.spec_url()
                        &&& vols@[0].spec_name() == self.spec_title()
                        &&& vols@[0].spec_thumbnail() == self.spec_thumbnail()
                        &&& vols@[0].spec_landing() matches Some(b) && b == resp
                    } else {
                        let entries = spec_entries(resp.body(), 0);
                        &&& entries.len() > 0
                        &&& vols@.len() == entries.len()
                        &&& forall|j: int|
                            0 <= j < vols@.len() ==> {
                                &&& (#[trigger] vols@[j]).spec_url() == self.spec_base_url() + lit("/")
                                    + entries[j].0
                                &&& vols@[j].spec_name() == entries[j].2
                                &&& vols@[j].spec_thumbnail() == self.spec_base_url() + lit("/")
                                    + entries[j].1
                                &&& vols@[j].spec_landing() is None
                            }
                    }
                },
                Err(e) => {
                    &&& e is EmptyVolumeList
                    &&& !match_at(resp.body(), doctype_prologue(), 0)
                    &&& spec_entries(resp.body(), 0).len() == 0
                },
            },
    {
        let body = resp.bytes();
        if crate::scan::starts_with(body.as_slice(), "<!DOCTYPE html>".as_bytes()) {
            let vol = Volume::from_single_volume_book(self, resp);
            let mut vols: Vec<Volume> = Vec::new();
            vols.push(vol);
            return Ok(vols);
        }
        let entries = scan_volume_entries(body.as_slice());
        if entries.len() == 0 {
            return Err(ScraperError::EmptyVolumeList);
        }
        let n = entries.len();
        let mut vols: Vec<Volume> = Vec::new();
        let mut k: usize = 0;
        while k < n
            invariant
                n == entries@.len(),
                k <= n,
                vols@.len() == k,
                entries@.len() == spec_entries(resp.body(), 0).len(),
                forall|j: int|
                    0 <= j < n ==> ((#[trigger] entries@[j]).0@, entries@[j].1@, entries@[j].2@)
                        == spec_entries(resp.body(), 0)[j],
                forall|j: int|
                    0 <= j < k ==> {
                        &&& (#[trigger] vols@[j]).spec_url() == self.spec_base_url() + lit("/")
                            + spec_entries(resp.body(), 0)[j].0
                        &&& vols@[j].spec_name() == spec_entries(resp.body(), 0)[j].2
                        &&& vols@[j].spec_thumbnail() == self.spec_base_url() + lit("/") + spec_entries(
                            resp.body(),
                            0,
                        )[j].1
                        &&& vols@[j].spec_landing() is None
                    },
            decreases n - k,
        {
            let url = self.relative_url(entries[k].0.as_slice());
            let thumb = self.relative_url(entries[k].1.as_slice());
            let name = copy_range(entries[k].2.as_slice(), 0, entries[k].2.len());
            vols.push(Volume::new(url, name, thumb));
            k += 1;
        }
        Ok(vols)
    }
}

} // verus!
