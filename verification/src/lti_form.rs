//! The redirect-resolution protocol.  The origin redirects through hidden,
//! auto-submitting forms; a page is terminal exactly when no element matches
//! the redirect-form marker (a `form` element whose `id` attribute is `lti`).
//! One match is validated and followed; more than one is a protocol error.
//!
//! The grammar is stated over the raw bytes of the page: a tag starts at a
//! literal `<form` (or `<input` for fields) followed by a boundary byte, its
//! attribute region runs to the next `>`, and an attribute is a
//! space-preceded `name="value"` stretch inside that region.  Only this
//! double-quoted, single-space form is recognized — the origin emits its
//! forms that way; single-quoted or otherwise-spaced attributes are not
//! part of the grammar.

use crate::buffered_response::BufferedResponse;
use crate::error::ScraperError;
use crate::scan::{
    bytes_eq, copy_range, eq_at, find_from, match_at, push_all, spec_find, to_upper, upper_seq,
};
use vstd::prelude::*;
use vstd::string::StringSliceAdditionalSpecFns;

verus! {

/// The byte string of an ASCII literal.
pub open spec fn lit(s: &str) -> Seq<u8> {
    s.spec_bytes()
}

/// The given option's value, or `d` when it is `None`.
pub open spec fn opt_or(o: Option<nat>, d: nat) -> nat {
    match o {
        Some(v) => v,
        None => d,
    }
}

/// True for the bytes that may close a tag name: whitespace, `>` or `/`.
pub open spec fn is_boundary(b: u8) -> bool {
    b == 0x20 || b == 0x09 || b == 0x0a || b == 0x0d || b == 0x3e || b == 0x2f
}

/// The attribute pattern ` name="`.
pub open spec fn attr_pat(name: Seq<u8>) -> Seq<u8> {
    seq![0x20u8] + name + lit("=\"")
}

/// The value of attribute `name` inside a tag's attribute region: the bytes
/// between the `"` that follows ` name="` and the next `"`.
pub open spec fn spec_attr(region: Seq<u8>, name: Seq<u8>) -> Option<Seq<u8>> {
    match spec_find(region, attr_pat(name), 0) {
        None => None,
        Some(p) => {
            let vstart = p + attr_pat(name).len();
            match spec_find(region, lit("\""), vstart as nat) {
                None => None,
                Some(q) => Some(region.subrange(vstart as int, q as int)),
            }
        },
    }
}

/// Position just past the attribute region of a tag whose name ends at
/// `after` (the first `>` at or after `after`), or the end of the document
/// when the tag never closes.
pub open spec fn tag_close(h: Seq<u8>, after: nat) -> nat {
    opt_or(spec_find(h, lit(">"), after), h.len())
}

/// True when a redirect form opens at position `i`: the literal `<form`
/// followed by a boundary byte, a closed attribute region, and an `id`
/// attribute equal to `lti`.
pub open spec fn lti_form_at(h: Seq<u8>, i: int) -> bool {
    &&& match_at(h, lit("<form"), i)
    &&& i + 5 < h.len()
    &&& is_boundary(h[i + 5])
    &&& spec_find(h, lit(">"), (i + 5) as nat) is Some
    &&& spec_attr(h.subrange(i + 5, tag_close(h, (i + 5) as nat) as int), lit("id")) == Some(
        lit("lti"),
    )
}

/// Position of the first redirect form at or after `from`.
pub open spec fn spec_find_lti(h: Seq<u8>, from: nat) -> Option<nat>
    decreases h.len() + 1 - from,
{
    if from > h.len() {
        None
    } else if lti_form_at(h, from as int) {
        Some(from)
    } else if from == h.len() {
        None
    } else {
        spec_find_lti(h, from + 1)
    }
}

/// A stretch without redirect forms does not move the next-form position.
proof fn lemma_lti_skip(h: Seq<u8>, a: nat, b: nat)
    requires
        a <= b <= h.len(),
        forall|j: int| a <= j < b ==> !lti_form_at(h, j),
    ensures
        spec_find_lti(h, a) == spec_find_lti(h, b),
    decreases b - a,
{
    if a < b {
        lemma_lti_skip(h, a + 1, b);
    }
}

/// When no redirect form stands at or after `a`, the scan finds none.
proof fn lemma_lti_none(h: Seq<u8>, a: nat)
    requires
        a <= h.len(),
        forall|j: int| a <= j ==> !lti_form_at(h, j),
    ensures
        spec_find_lti(h, a) is None,
    decreases h.len() + 1 - a,
{
    if a < h.len() {
        lemma_lti_none(h, a + 1);
    }
}

/// The given option's byte string, or empty when it is `None`.
pub open spec fn opt_bytes(o: Option<Seq<u8>>) -> Seq<u8> {
    match o {
        Some(v) => v,
        None => Seq::empty(),
    }
}

/// True when a form field opens at position `i`: the literal `<input`
/// followed by a boundary byte and a closed attribute region.
pub open spec fn input_tag_at(h: Seq<u8>, i: int) -> bool {
    &&& match_at(h, lit("<input"), i)
    &&& i + 6 < h.len()
    &&& is_boundary(h[i + 6])
    &&& spec_find(h, lit(">"), (i + 6) as nat) is Some
}

/// Spec-level outcome of collecting the form's fields.
pub enum FieldScan {
    /// Every field supplied a name and a value; the pairs in document order.
    Done(Seq<(Seq<u8>, Seq<u8>)>),
    /// A field without a `name` attribute, with its markup.
    MissingName(Seq<u8>),
    /// A field without a `value` attribute, with its markup.
    MissingValue(Seq<u8>),
}

/// Prepends a collected field to a scan outcome.
pub open spec fn cons_field(p: (Seq<u8>, Seq<u8>), r: FieldScan) -> FieldScan {
    match r {
        FieldScan::Done(s) => FieldScan::Done(seq![p] + s),
        _ => r,
    }
}

/// Prepends a run of collected fields to a scan outcome.
pub open spec fn prepend_fields(prefix: Seq<(Seq<u8>, Seq<u8>)>, r: FieldScan) -> FieldScan {
    match r {
        FieldScan::Done(s) => FieldScan::Done(prefix + s),
        _ => r,
    }
}

/// The name and value of every field element in `[from, end)`, in document
/// order, or the first field that omits one of them.
pub open spec fn spec_fields(h: Seq<u8>, from: nat, end: nat) -> FieldScan
    decreases end - from,
{
    if from >= end {
        FieldScan::Done(Seq::empty())
    } else if input_tag_at(h, from as int) {
        let c = tag_close(h, (from + 6) as nat);
        let region = h.subrange(from + 6 as int, c as int);
        let markup = h.subrange(from as int, c + 1 as int);
        if spec_attr(region, lit("name")) is None {
            FieldScan::MissingName(markup)
        } else if spec_attr(region, lit("value")) is None {
            FieldScan::MissingValue(markup)
        } else {
            let advanced = if from + 1 > c + 1 {
                from + 1
            } else {
                c + 1
            };
            let next = if advanced > end {
                end
            } else {
                advanced as nat
            };
            cons_field(
                (opt_bytes(spec_attr(region, lit("name"))), opt_bytes(
                    spec_attr(region, lit("value")),
                )),
                spec_fields(h, next, end),
            )
        }
    } else {
        spec_fields(h, from + 1, end)
    }
}

/// A stretch without field elements does not change the collected fields.
proof fn lemma_fields_skip(h: Seq<u8>, a: nat, b: nat, end: nat)
    requires
        a <= b <= end,
        forall|j: int| a <= j < b ==> !input_tag_at(h, j),
    ensures
        spec_fields(h, a, end) == spec_fields(h, b, end),
    decreases b - a,
{
    if a < b {
        lemma_fields_skip(h, a + 1, b, end);
    }
}

/// The view of a collected field list.
pub open spec fn view_fields(v: Seq<(Vec<u8>, Vec<u8>)>) -> Seq<(Seq<u8>, Seq<u8>)> {
    v.map_values(|p: (Vec<u8>, Vec<u8>)| (p.0@, p.1@))
}

/// Spec-level outcome of scanning a body for the redirect form.
pub enum LtiScan {
    /// No element matches the redirect-form marker: the page is terminal.
    Terminal,
    /// More than one element matches the redirect-form marker.
    Ambiguous,
    /// A required attribute of the form or of one of its fields is absent.
    MissingAttr { attribute: Seq<char>, markup: Seq<u8> },
    /// A required form attribute holds an unexpected value.
    BadAttr { attribute: Seq<char>, found: Seq<u8>, markup: Seq<u8> },
    /// The single, validated redirect form.
    Form { url: Seq<u8>, method: Seq<u8>, fields: Seq<(Seq<u8>, Seq<u8>)> },
}

/// The complete outcome of scanning a body for the redirect form: detection,
/// validation of the required attributes against their fixed expected
/// values, and field extraction.
pub open spec fn spec_parse_lti(h: Seq<u8>) -> LtiScan {
    match spec_find_lti(h, 0) {
        None => LtiScan::Terminal,
        Some(i) => if spec_find_lti(h, i + 1) is Some {
            LtiScan::Ambiguous
        } else {
            let c = tag_close(h, (i + 5) as nat);
            let region = h.subrange(i + 5 as int, c as int);
            let markup = h.subrange(i as int, c + 1 as int);
            if spec_attr(region, lit("enctype")) is None {
                LtiScan::MissingAttr { attribute: "enctype"@, markup }
            } else if opt_bytes(spec_attr(region, lit("enctype"))) != lit(
                "application/x-www-form-urlencoded",
            ) {
                LtiScan::BadAttr {
                    attribute: "enctype"@,
                    found: opt_bytes(spec_attr(region, lit("enctype"))),
                    markup,
                }
            } else if spec_attr(region, lit("name")) is None {
                LtiScan::MissingAttr { attribute: "name"@, markup }
            } else if opt_bytes(spec_attr(region, lit("name"))) != lit("ltiLaunchForm") {
                LtiScan::BadAttr {
                    attribute: "name"@,
                    found: opt_bytes(spec_attr(region, lit("name"))),
                    markup,
                }
            } else if spec_attr(region, lit("action")) is None {
                LtiScan::MissingAttr { attribute: "action"@, markup }
            } else if spec_attr(region, lit("method")) is None {
                LtiScan::MissingAttr { attribute: "method"@, markup }
            } else {
                let fend = opt_or(spec_find(h, lit("</form"), (c + 1) as nat), h.len());
                match spec_fields(h, (c + 1) as nat, fend) {
                    FieldScan::Done(fs) => LtiScan::Form {
                        url: opt_bytes(spec_attr(region, lit("action"))),
                        method: upper_seq(opt_bytes(spec_attr(region, lit("method")))),
                        fields: fs,
                    },
                    FieldScan::MissingName(m) => LtiScan::MissingAttr {
                        attribute: "name"@,
                        markup: m,
                    },
                    FieldScan::MissingValue(m) => LtiScan::MissingAttr {
                        attribute: "value"@,
                        markup: m,
                    },
                }
            }
        },
    }
}

/// Lengths of the grammar's literal markers.
proof fn lemma_lit_lens()
    ensures
        lit("<form").len() == 5,
        lit("<input").len() == 6,
        lit("</form").len() == 6,
        lit(">").len() == 1,
        lit("\"").len() == 1,
        lit("=\"").len() == 2,
{
    broadcast use vstd::string::is_ascii_spec_bytes;

    reveal_strlit("<form");
    assert(("<form").is_ascii());
    reveal_strlit("<input");
    assert(("<input").is_ascii());
    reveal_strlit("</form");
    assert(("</form").is_ascii());
    reveal_strlit(">");
    assert((">").is_ascii());
    reveal_strlit("\"");
    assert(("\"").is_ascii());
    reveal_strlit("=\"");
    assert(("=\"").is_ascii());
}

/// Looks up attribute `name` in a materialized attribute region.
fn attr_of(region: &[u8], name: &[u8]) -> (r: Option<Vec<u8>>)
    ensures
        match r {
            Some(v) => spec_attr(region@, name@) matches Some(w) && v@ == w,
            None => spec_attr(region@, name@) is None,
        },
{
    let rlen = region.len();
    let mut pat: Vec<u8> = Vec::new();
    pat.push(0x20);
    push_all(&mut pat, name);
    push_all(&mut pat, "=\"".as_bytes());
    proof {
        assert(pat@ =~= attr_pat(name@));
    }
    match find_from(region, pat.as_slice(), 0) {
        None => None,
        Some(p) => {
            proof {
                crate::scan::lemma_find_first(region@, pat@, 0);
                assert(p + pat@.len() <= rlen);
            }
            let vstart = p + pat.len();
            match find_from(region, "\"".as_bytes(), vstart) {
                None => None,
                Some(q) => {
                    proof {
                        crate::scan::lemma_find_first(region@, lit("\""), vstart as nat);
                    }
                    Some(copy_range(region, vstart, q))
                },
            }
        },
    }
}

/// Decides whether a redirect form opens at position `i`.
fn lti_check(h: &[u8], i: usize) -> (r: bool)
    requires
        i <= h@.len(),
    ensures
        r == lti_form_at(h@, i as int),
{
    let h_len = h.len();
    let open_pat = "<form".as_bytes();
    proof {
        lemma_lit_lens();
    }
    if h_len - i < 6 || !eq_at(h, open_pat, i) {
        return false;
    }
    let b = h[i + 5];
    if !(b == 0x20 || b == 0x09 || b == 0x0a || b == 0x0d || b == 0x3e || b == 0x2f) {
        return false;
    }
    match find_from(h, ">".as_bytes(), i + 5) {
        None => false,
        Some(c) => {
            proof {
                crate::scan::lemma_find_first(h@, lit(">"), (i + 5) as nat);
                assert(tag_close(h@, (i + 5) as nat) == c as nat);
            }
            let region = copy_range(h, i + 5, c);
            match attr_of(region.as_slice(), "id".as_bytes()) {
                None => false,
                Some(v) => bytes_eq(v.as_slice(), "lti".as_bytes()),
            }
        },
    }
}

/// Position of the first redirect form at or after `from`, as
/// `spec_find_lti` describes it.
fn find_lti(h: &[u8], from: usize) -> (r: Option<usize>)
    requires
        from <= h@.len(),
    ensures
        match r {
            Some(i) => spec_find_lti(h@, from as nat) == Some(i as nat) && from <= i && i < h@.len()
                && lti_form_at(h@, i as int),
            None => spec_find_lti(h@, from as nat) is None,
        },
{
    let h_len = h.len();
    let open_pat = "<form".as_bytes();
    proof {
        lemma_lit_lens();
    }
    let mut i = from;
    while i < h_len
        invariant
            h_len == h@.len(),
            from <= i <= h_len,
            open_pat@ == lit("<form"),
            lit("<form").len() == 5,
            spec_find_lti(h@, from as nat) == spec_find_lti(h@, i as nat),
        decreases h_len - i,
    {
        match find_from(h, open_pat, i) {
            None => {
                proof {
                    crate::scan::lemma_find_first(h@, lit("<form"), i as nat);
                    assert forall|j: int| i <= j implies !lti_form_at(h@, j) by {}
                    lemma_lti_none(h@, i as nat);
                }
                return None;
            },
            Some(p) => {
                proof {
                    crate::scan::lemma_find_first(h@, lit("<form"), i as nat);
                    assert forall|j: int| i <= j < p implies !lti_form_at(h@, j) by {}
                    lemma_lti_skip(h@, i as nat, p as nat);
                }
                if lti_check(h, p) {
                    return Some(p);
                }
                proof {
                    assert(spec_find_lti(h@, p as nat) == spec_find_lti(h@, (p + 1) as nat));
                }
                i = p + 1;
            },
        }
    }
    proof {
        assert(spec_find_lti(h@, i as nat) is None);
    }
    None
}

/// Collects the fields of the form between `start` and `end`, as
/// `spec_fields` describes them.
fn scan_fields(h: &[u8], start: usize, end: usize) -> (r: Result<
    Vec<(Vec<u8>, Vec<u8>)>,
    ScraperError,
>)
    requires
        start <= h@.len(),
        end <= h@.len(),
    ensures
        match r {
            Ok(fs) => spec_fields(h@, start as nat, end as nat) matches FieldScan::Done(s)
                && view_fields(fs@) == s,
            Err(e) => e matches ScraperError::MissingFormAttribute { attribute, markup } && (
            (spec_fields(h@, start as nat, end as nat) matches FieldScan::MissingName(m)
                && attribute@ == "name"@ && markup@ == m) || (spec_fields(
                h@,
                start as nat,
                end as nat,
            ) matches FieldScan::MissingValue(m) && attribute@ == "value"@ && markup@ == m)),
        },
{
    let h_len = h.len();
    let input_pat = "<input".as_bytes();
    proof {
        lemma_lit_lens();
    }
    if start >= end {
        let fs: Vec<(Vec<u8>, Vec<u8>)> = Vec::new();
        proof {
            assert(view_fields(fs@) =~= Seq::<(Seq<u8>, Seq<u8>)>::empty());
        }
        return Ok(fs);
    }
    let mut out: Vec<(Vec<u8>, Vec<u8>)> = Vec::new();
    let mut i = start;
    let ghost goal = spec_fields(h@, start as nat, end as nat);
    proof {
        assert(view_fields(out@) =~= Seq::<(Seq<u8>, Seq<u8>)>::empty());
        assert(prepend_fields(view_fields(out@), goal) == goal) by {
            if let FieldScan::Done(s) = goal {
                assert(view_fields(out@) + s =~= s);
            }
        }
    }
    while i < end
        invariant
            h_len == h@.len(),
            end <= h_len,
            input_pat@ == lit("<input"),
            lit("<input").len() == 6,
            lit(">").len() == 1,
            start <= i <= end,
            goal == spec_fields(h@, start as nat, end as nat),
            prepend_fields(view_fields(out@), spec_fields(h@, i as nat, end as nat)) == goal,
        decreases end - i,
    {
        let p: usize;
        match find_from(h, input_pat, i) {
            None => {
                proof {
                    crate::scan::lemma_find_first(h@, lit("<input"), i as nat);
                    lemma_fields_skip(h@, i as nat, end as nat, end as nat);
                }
                i = end;
                continue;
            },
            Some(q) => {
                p = q;
            },
        }
        proof {
            crate::scan::lemma_find_first(h@, lit("<input"), i as nat);
        }
        if p >= end {
            proof {
                assert forall|j: int| i <= j < end implies !input_tag_at(h@, j) by {}
                lemma_fields_skip(h@, i as nat, end as nat, end as nat);
            }
            i = end;
            continue;
        }
        proof {
            assert forall|j: int| i <= j < p implies !input_tag_at(h@, j) by {}
            lemma_fields_skip(h@, i as nat, p as nat, end as nat);
        }
        // A candidate `<input` at p: decide whether it is a field element.
        let mut is_field = false;
        let mut close: usize = 0;
        if p + 6 < h_len {
            let b = h[p + 6];
            if b == 0x20 || b == 0x09 || b == 0x0a || b == 0x0d || b == 0x3e || b == 0x2f {
                match find_from(h, ">".as_bytes(), p + 6) {
                    Some(c) => {
                        proof {
                            crate::scan::lemma_find_first(h@, lit(">"), (p + 6) as nat);
                        }
                        is_field = true;
                        close = c;
                    },
                    None => {
                    },
                }
            }
        }
        if !is_field {
            proof {
                assert(!input_tag_at(h@, p as int));
                assert(spec_fields(h@, p as nat, end as nat) == spec_fields(
                    h@,
                    (p + 1) as nat,
                    end as nat,
                ));
            }
            i = p + 1;
            continue;
        }
        proof {
            assert(input_tag_at(h@, p as int));
            assert(tag_close(h@, (p + 6) as nat) == close as nat);
        }
        let region = copy_range(h, p + 6, close);
        let name_attr = attr_of(region.as_slice(), "name".as_bytes());
        let value_attr = attr_of(region.as_slice(), "value".as_bytes());
        match name_attr {
            None => {
                proof {
                    assert(spec_fields(h@, p as nat, end as nat) == FieldScan::MissingName(
                        h@.subrange(p as int, close + 1),
                    ));
                }
                return Err(
                    ScraperError::MissingFormAttribute {
                        attribute: "name".to_owned(),
                        markup: copy_range(h, p, close + 1),
                    },
                );
            },
            Some(name) => {
                match value_attr {
                    None => {
                        proof {
                            assert(spec_fields(h@, p as nat, end as nat)
                                == FieldScan::MissingValue(h@.subrange(p as int, close + 1)));
                        }
                        return Err(
                            ScraperError::MissingFormAttribute {
                                attribute: "value".to_owned(),
                                markup: copy_range(h, p, close + 1),
                            },
                        );
                    },
                    Some(value) => {
                        let next = if close + 1 > end {
                            end
                        } else {
                            close + 1
                        };
                        let ghost pair = (name@, value@);
                        proof {
                            assert(spec_fields(h@, p as nat, end as nat) == cons_field(
                                pair,
                                spec_fields(h@, next as nat, end as nat),
                            ));
                        }
                        let ghost prev = out@;
                        out.push((name, value));
                        proof {
                            assert(out@ =~= prev.push((name, value)));
                            assert(view_fields(out@) =~= view_fields(prev) + seq![pair]);
                            lemma_prepend_cons(
                                view_fields(prev),
                                pair,
                                spec_fields(h@, next as nat, end as nat),
                            );
                        }
                        i = next;
                    },
                }
            },
        }
    }
    proof {
        assert(spec_fields(h@, i as nat, end as nat) == FieldScan::Done(
            Seq::<(Seq<u8>, Seq<u8>)>::empty(),
        ));
        if let FieldScan::Done(s) = goal {
            assert(view_fields(out@) + Seq::<(Seq<u8>, Seq<u8>)>::empty() =~= view_fields(out@));
        }
    }
    Ok(out)
}

/// Prefixing then consing equals prefixing the extended run.
proof fn lemma_prepend_cons(prefix: Seq<(Seq<u8>, Seq<u8>)>, p: (Seq<u8>, Seq<u8>), r: FieldScan)
    ensures
        prepend_fields(prefix, cons_field(p, r)) == prepend_fields(prefix + seq![p], r),
{
    match r {
        FieldScan::Done(s) => {
            assert(prefix + (seq![p] + s) =~= (prefix + seq![p]) + s);
        },
        _ => {},
    }
}

/// When the scan finds no form at or after `a`, no form stands there.
proof fn lemma_lti_none_conv(h: Seq<u8>, a: nat)
    requires
        a <= h.len(),
        spec_find_lti(h, a) is None,
    ensures
        forall|j: int| a <= j ==> !lti_form_at(h, j),
    decreases h.len() + 1 - a,
{
    if a < h.len() {
        lemma_lti_none_conv(h, a + 1);
    }
}

/// A found position holds a form and no earlier one does.
proof fn lemma_lti_found(h: Seq<u8>, a: nat)
    requires
        a <= h.len(),
        spec_find_lti(h, a) is Some,
    ensures
        spec_find_lti(h, a) matches Some(i) && a <= i && lti_form_at(h, i as int) && (forall|j: int|
            a <= j < i ==> !lti_form_at(h, j)),
    decreases h.len() + 1 - a,
{
    if !lti_form_at(h, a as int) && a < h.len() {
        lemma_lti_found(h, a + 1);
    }
}

/// Detection counts the elements matching the redirect-form marker: the
/// page is terminal exactly when no element matches, and the ambiguity
/// error arises exactly when two distinct elements match.
pub proof fn lemma_detection_counts(h: Seq<u8>)
    ensures
        (spec_parse_lti(h) is Terminal) <==> (forall|j: int| !lti_form_at(h, j)),
        (spec_parse_lti(h) is Ambiguous) <==> (exists|i: int, j: int|
            i < j && #[trigger] lti_form_at(h, i) && #[trigger] lti_form_at(h, j)),
{
    match spec_find_lti(h, 0) {
        None => {
            lemma_lti_none_conv(h, 0);
            assert(forall|j: int| !lti_form_at(h, j));
        },
        Some(i) => {
            lemma_lti_found(h, 0);
            assert(lti_form_at(h, i as int));
            assert(i + 5 < h.len());
            match spec_find_lti(h, i + 1) {
                None => {
                    lemma_lti_none_conv(h, i + 1);
                    assert forall|a: int, b: int|
                        a < b && #[trigger] lti_form_at(h, a) implies !#[trigger] lti_form_at(
                        h,
                        b,
                    ) by {
                        if lti_form_at(h, a) && lti_form_at(h, b) && a < b {
                            assert(a >= i);
                            assert(b >= i + 1);
                        }
                    }
                },
                Some(i2) => {
                    lemma_lti_found(h, (i + 1) as nat);
                    assert(i < i2 && lti_form_at(h, i as int) && lti_form_at(h, i2 as int));
                },
            }
        },
    }
}

/// True when the error is the one that `spec_parse_lti` assigns to the body:
/// the form marker was ambiguous, a required attribute was absent, or an
/// attribute held the wrong value.
pub open spec fn error_matches_scan(e: ScraperError, sc: LtiScan) -> bool {
    match e {
        ScraperError::AmbiguousRedirectForm => sc is Ambiguous,
        ScraperError::MissingFormAttribute { attribute, markup } => sc matches LtiScan::MissingAttr {
            attribute: a,
            markup: m,
        } && attribute@ == a && markup@ == m,
        ScraperError::BadFormAttribute { attribute, found, markup } => sc matches LtiScan::BadAttr {
            attribute: a,
            found: fo,
            markup: m,
        } && attribute@ == a && found@ == fo && markup@ == m,
        _ => false,
    }
}

/// A redirect form: the target URL, the submission method (upper-cased), and
/// the ordered field mapping.  Ephemeral — one per resolution step.
pub struct LTIForm {
    /// The target URL, from the form's `action` attribute.
    pub url: Vec<u8>,
    /// The submission method, upper-cased.
    pub method: Vec<u8>,
    /// The field name/value pairs, in document order.
    pub form_data: Vec<(Vec<u8>, Vec<u8>)>,
}

impl LTIForm {
    /// Scans a captured response for the redirect form, as `spec_parse_lti`
    /// describes it: `Ok(None)` on a terminal page, `Ok(Some(form))` for the
    /// single validated form, and an error when the marker is ambiguous, a
    /// required attribute is absent or holds the wrong value, or a field
    /// omits its name or value.
    pub fn new(raw_form: &BufferedResponse) -> (r: Result<Option<LTIForm>, ScraperError>)
        ensures
            match r {
                Ok(opt) => match opt {
                    None => spec_parse_lti(raw_form.body()) is Terminal,
                    Some(f) => spec_parse_lti(raw_form.body()) matches LtiScan::Form {
                        url,
                        method,
                        fields,
                    } && f.url@ == url && f.method@ == method && view_fields(f.form_data@)
                        == fields,
                },
                Err(e) => error_matches_scan(e, spec_parse_lti(raw_form.body())),
            },
    {
        let body = raw_form.bytes();
        let h = body.as_slice();
        let h_len = h.len();
        proof {
            lemma_lit_lens();
        }
        let i = match find_lti(h, 0) {
            None => {
                return Ok(None);
            },
            Some(i) => i,
        };
        if find_lti(h, i + 1).is_some() {
            return Err(ScraperError::AmbiguousRedirectForm);
        }
        let c = match find_from(h, ">".as_bytes(), i + 5) {
            Some(c) => c,
            None => {
                // A located form always has a closed attribute region.
                proof {
                    assert(false);
                }
                return Err(ScraperError::MalformedMarkup);
            },
        };
        proof {
            crate::scan::lemma_find_first(h@, lit(">"), (i + 5) as nat);
            assert(tag_close(h@, (i + 5) as nat) == c as nat);
        }
        let region = copy_range(h, i + 5, c);
        let enc = match attr_of(region.as_slice(), "enctype".as_bytes()) {
            None => {
                return Err(
                    ScraperError::MissingFormAttribute {
                        attribute: "enctype".to_owned(),
                        markup: copy_range(h, i, c + 1),
                    },
                );
            },
            Some(v) => v,
        };
        if !bytes_eq(enc.as_slice(), "application/x-www-form-urlencoded".as_bytes()) {
            return Err(
                ScraperError::BadFormAttribute {
                    attribute: "enctype".to_owned(),
                    found: enc,
                    markup: copy_range(h, i, c + 1),
                },
            );
        }
        let form_name = match attr_of(region.as_slice(), "name".as_bytes()) {
            None => {
                return Err(
                    ScraperError::MissingFormAttribute {
                        attribute: "name".to_owned(),
                        markup: copy_range(h, i, c + 1),
                    },
                );
            },
            Some(v) => v,
        };
        if !bytes_eq(form_name.as_slice(), "ltiLaunchForm".as_bytes()) {
            return Err(
                ScraperError::BadFormAttribute {
                    attribute: "name".to_owned(),
                    found: form_name,
                    markup: copy_range(h, i, c + 1),
                },
            );
        }
        let action = match attr_of(region.as_slice(), "action".as_bytes()) {
            None => {
                return Err(
                    ScraperError::MissingFormAttribute {
                        attribute: "action".to_owned(),
                        markup: copy_range(h, i, c + 1),
                    },
                );
            },
            Some(v) => v,
        };
        let method = match attr_of(region.as_slice(), "method".as_bytes()) {
            None => {
                return Err(
                    ScraperError::MissingFormAttribute {
                        attribute: "method".to_owned(),
                        markup: copy_range(h, i, c + 1),
                    },
                );
            },
            Some(v) => v,
        };
        let fend = match find_from(h, "</form".as_bytes(), c + 1) {
            Some(e) => {
                proof {
                    crate::scan::lemma_find_first(h@, lit("</form"), (c + 1) as nat);
                }
                e
            },
            None => h_len,
        };
        let fields = match scan_fields(h, c + 1, fend) {
            Ok(fs) => fs,
            Err(e) => {
                return Err(e);
            },
        };
        Ok(Some(LTIForm { url: action, method: to_upper(method.as_slice()), form_data: fields }))
    }

    /// The form's submission body: its fields in the
    /// `application/x-www-form-urlencoded` encoding.
    pub fn encoded_body(&self) -> (r: Vec<u8>)
        ensures
            r@ == crate::encoding::enc_pairs(view_fields(self.form_data@)),
    {
        crate::encoding::urlencode_pairs(&self.form_data)
    }
}

/// The bodies of a run of captured responses.
pub open spec fn bodies_of(v: Seq<BufferedResponse>) -> Seq<Seq<u8>> {
    v.map_values(|b: BufferedResponse| b.body())
}

/// The number of leading bodies that parse as redirect forms: the scan
/// submits one form per such body before it stops.
pub open spec fn resolve_steps(bodies: Seq<Seq<u8>>) -> nat
    decreases bodies.len(),
{
    if bodies.len() == 0 {
        0
    } else if spec_parse_lti(bodies[0]) is Form {
        1 + resolve_steps(bodies.skip(1))
    } else {
        0
    }
}

/// A chain of `k` redirect forms followed by a terminal page is resolved
/// after exactly `k` submissions, that is `k + 1` responses read in all.
pub proof fn lemma_redirect_chain_fetches(bodies: Seq<Seq<u8>>, k: nat)
    requires
        k < bodies.len(),
        forall|j: int| 0 <= j < k ==> spec_parse_lti(#[trigger] bodies[j]) is Form,
        spec_parse_lti(bodies[k as int]) is Terminal,
    ensures
        resolve_steps(bodies) == k,
    decreases k,
{
    if k == 0 {
    } else {
        let rest = bodies.skip(1);
        assert forall|j: int| 0 <= j < k - 1 implies spec_parse_lti(#[trigger] rest[j]) is Form by {
            assert(rest[j] == bodies[j + 1]);
        }
        assert(rest[k - 1] == bodies[k as int]);
        lemma_redirect_chain_fetches(rest, (k - 1) as nat);
    }
}

/// When the first `u` bodies parse as forms, the scan steps past them.
proof fn lemma_steps_unroll(bodies: Seq<Seq<u8>>, u: nat)
    requires
        u <= bodies.len(),
        forall|j: int| 0 <= j < u ==> spec_parse_lti(#[trigger] bodies[j]) is Form,
    ensures
        resolve_steps(bodies) == u + resolve_steps(bodies.skip(u as int)),
    decreases u,
{
    if u == 0 {
        assert(bodies.skip(0) =~= bodies);
    } else {
        let rest = bodies.skip(1);
        assert forall|j: int| 0 <= j < u - 1 implies spec_parse_lti(#[trigger] rest[j]) is Form by {
            assert(rest[j] == bodies[j + 1]);
        }
        lemma_steps_unroll(rest, (u - 1) as nat);
        assert(rest.skip(u - 1) =~= bodies.skip(u as int));
    }
}


/// The outcome of resolving a redirect chain over a captured transcript.
pub enum Resolved {
    /// The terminal landing page, with the total number of responses read.
    Terminal(BufferedResponse, usize),
    /// The transcript ended while a redirect form was still pending.
    Exhausted,
}

impl LTIForm {
    /// Follows the redirect chain over a pre-captured transcript: `first` is
    /// the response already in hand, `followups[j]` is the response to the
    /// `j`-th form submission.  Detection repeats on each response until a
    /// terminal page is reached, which is handed back as the very buffer it
    /// arrived in; the fetch count returned with it equals one more than
    /// the number of forms followed.
    #[verifier::rlimit(50)]
    pub fn follow(first: BufferedResponse, followups: Vec<BufferedResponse>) -> (r: Result<
        Resolved,
        ScraperError,
    >)
        requires
            first.wf(),
            forall|j: int| 0 <= j < followups@.len() ==> (#[trigger] followups@[j]).wf(),
            followups@.len() < usize::MAX,
        ensures
            ({
                let bodies = seq![first.body()] + bodies_of(followups@);
                let n = resolve_steps(bodies);
                match r {
                    Ok(res) => match res {
                        Resolved::Terminal(buf, count) => {
                            &&& n < bodies.len()
                            &&& spec_parse_lti(bodies[n as int]) is Terminal
                            &&& buf == (seq![first] + followups@)[n as int]
                            &&& buf.body() == bodies[n as int]
                            &&& buf.wf()
                            &&& count == n + 1
                        },
                        Resolved::Exhausted => n == bodies.len(),
                    },
                    Err(e) => n < bodies.len() && error_matches_scan(
                        e,
                        spec_parse_lti(bodies[n as int]),
                    ),
                }
            }),
    {
        let ghost bodies = seq![first.body()] + bodies_of(followups@);
        let mut cur = first;
        let mut rest = followups;
        let mut used: usize = 0;
        proof {
            assert(bodies.len() == 1 + followups@.len());
            assert(rest@.skip(0) =~= rest@);
        }
        loop
            invariant
                bodies == seq![first.body()] + bodies_of(followups@),
                followups@.len() < usize::MAX,
                used <= followups@.len(),
                bodies.len() == 1 + followups@.len(),
                rest@ == followups@.skip(used as int),
                cur == (seq![first] + followups@)[used as int],
                cur.wf(),
                forall|j: int| 0 <= j < rest@.len() ==> (#[trigger] rest@[j]).wf(),
                cur.body() == bodies[used as int],
                forall|j: int| 0 <= j < used ==> spec_parse_lti(#[trigger] bodies[j]) is Form,
            decreases followups@.len() - used,
        {
            let parsed = match LTIForm::new(&cur) {
                Ok(p) => p,
                Err(e) => {
                    proof {
                        lemma_steps_unroll(bodies, used as nat);
                        assert(bodies.skip(used as int)[0] == bodies[used as int]);
                    }
                    return Err(e);
                },
            };
            match parsed {
                None => {
                    proof {
                        lemma_steps_unroll(bodies, used as nat);
                        assert(bodies.skip(used as int)[0] == bodies[used as int]);
                    }
                    return Ok(Resolved::Terminal(cur, used + 1));
                },
                Some(_) => {
                    proof {
                        lemma_steps_unroll(bodies, used as nat);
                        assert(bodies.skip(used as int)[0] == bodies[used as int]);
                    }
                    if rest.len() == 0 {
                        proof {
                            assert(spec_parse_lti(cur.body()) is Form);
                            assert(bodies.skip(used as int).len() == 1);
                            assert(bodies.skip(used as int).skip(1) =~= Seq::<Seq<u8>>::empty());
                            assert(resolve_steps(Seq::<Seq<u8>>::empty()) == 0);
                            assert(bodies.skip(used as int)[0] == bodies[used as int]);
                            assert(resolve_steps(bodies.skip(used as int)) == 1);
                            assert(resolve_steps(bodies) == used + 1);
                        }
                        return Ok(Resolved::Exhausted);
                    }
                    let next = rest.remove(0);
                    proof {
                        assert(followups@.skip(used as int)[0] == followups@[used as int]);
                        assert(followups@.skip(used as int).skip(1) =~= followups@.skip(used + 1));
                        assert(bodies_of(followups@)[used as int] == followups@[used as int].body());
                        assert(bodies[used + 1] == bodies_of(followups@)[used as int]);
                    }
                    cur = next;
                    used = used + 1;
                },
            }
        }
    }
}

} // verus!
