//! A captured HTTP response: the identity of the exchange (final URL, status,
//! headers) together with the body, drained once by the caller at capture
//! time.  The body can be inspected repeatedly, as text or as bytes, without
//! any further network read — the type holds no transport handle at all.

use crate::error::ScraperError;
use vstd::prelude::*;
use vstd::utf8::{decode_utf8, valid_utf8};

verus! {

/// A response captured in full.  The byte buffer is populated exactly once,
/// at construction; `text()` validates it as UTF-8 on first use and caches
/// the validated string.
pub struct BufferedResponse {
    url: Vec<u8>,
    status: u16,
    headers: Vec<(Vec<u8>, Vec<u8>)>,
    buf: Vec<u8>,
    text_cache: Option<String>,
}

/// The value of the first header whose name equals `name` up to ASCII case.
pub open spec fn spec_header_lookup(
    headers: Seq<(Vec<u8>, Vec<u8>)>,
    name: Seq<u8>,
) -> Option<Vec<u8>>
    decreases headers.len(),
{
    if headers.len() == 0 {
        None
    } else if crate::scan::lower_seq(headers[0].0@) == crate::scan::lower_seq(name) {
        Some(headers[0].1)
    } else {
        spec_header_lookup(headers.skip(1), name)
    }
}

/// Repeated reads of a captured response are byte-identical: `text()`
/// promises a result equal to the decoding of the captured body and leaves
/// the body unchanged, and `bytes()` returns the body itself — so any two
/// successful text reads agree, as do any two byte reads, and no read can
/// depend on anything but the one capture.
pub proof fn lemma_repeated_reads(body: Seq<u8>, t1: Seq<char>, t2: Seq<char>, b1: Seq<u8>, b2: Seq<u8>)
    requires
        t1 == decode_utf8(body),
        t2 == decode_utf8(body),
        b1 == body,
        b2 == body,
    ensures
        t1 == t2,
        b1 == b2,
{
}

/// Relies on `String::from_utf8`: it returns the decoded characters exactly
/// when the bytes are valid UTF-8.
#[verifier::external_body]
fn decode_body(buf: &Vec<u8>) -> (r: Option<String>)
    ensures
        r is Some <==> valid_utf8(buf@),
        r matches Some(s) ==> s@ == decode_utf8(buf@),
{
    String::from_utf8(buf.clone()).ok()
}

impl BufferedResponse {
    /// The cached text, if present, is the validated UTF-8 decoding of the
    /// captured body.
    pub closed spec fn wf(&self) -> bool {
        self.text_cache matches Some(s) ==> valid_utf8(self.buf@) && s@ == decode_utf8(self.buf@)
    }

    /// The captured body.
    pub closed spec fn body(&self) -> Seq<u8> {
        self.buf@
    }

    /// The final URL of the exchange.
    pub closed spec fn spec_url(&self) -> Seq<u8> {
        self.url@
    }

    /// The response status code.
    pub closed spec fn spec_status(&self) -> u16 {
        self.status
    }

    /// The response headers, in wire order.
    pub closed spec fn spec_headers(&self) -> Seq<(Vec<u8>, Vec<u8>)> {
        self.headers@
    }

    /// Wraps a response whose body the caller has already drained to
    /// completion.  No further read touches the buffer afterwards.
    pub fn new(url: Vec<u8>, status: u16, headers: Vec<(Vec<u8>, Vec<u8>)>, body: Vec<u8>) -> (r:
        Self)
        ensures
            r.wf(),
            r.spec_url() == url@,
            r.spec_status() == status,
            r.spec_headers() == headers@,
            r.body() == body@,
    {
        BufferedResponse { url, status, headers, buf: body, text_cache: None }
    }

    /// The body as text.  On first call the buffer is validated as UTF-8 and
    /// the result cached; later calls return the cached value.  Every
    /// successful call returns the same decoding of the same captured body,
    /// and no call changes the response.
    pub fn text(&mut self) -> (r: Result<String, ScraperError>)
        requires
            old(self).wf(),
        ensures
            final(self).wf(),
            final(self).body() == old(self).body(),
            final(self).spec_url() == old(self).spec_url(),
            final(self).spec_status() == old(self).spec_status(),
            final(self).spec_headers() == old(self).spec_headers(),
            match r {
                Ok(s) => valid_utf8(old(self).body()) && s@ == decode_utf8(old(self).body()),
                Err(e) => !valid_utf8(old(self).body()) && e is NotUtf8,
            },
    {
        match &self.text_cache {
            Some(s) => Ok(s.clone()),
            None => {
                match decode_body(&self.buf) {
                    Some(s) => {
                        self.text_cache = Some(s.clone());
                        Ok(s)
                    },
                    None => Err(ScraperError::NotUtf8),
                }
            },
        }
    }

    /// A fresh capture of the same exchange: the same URL, status, headers
    /// and body, with the text validation left to run again.
    pub fn duplicate(&self) -> (r: BufferedResponse)
        ensures
            r.wf(),
            r.spec_url() == self.spec_url(),
            r.spec_status() == self.spec_status(),
            r.body() == self.body(),
            r.spec_headers().len() == self.spec_headers().len(),
            forall|i: int|
                0 <= i < self.spec_headers().len() ==> (#[trigger] r.spec_headers()[i]).0@
                    == self.spec_headers()[i].0@ && r.spec_headers()[i].1@
                    == self.spec_headers()[i].1@,
    {
        let n = self.headers.len();
        let mut headers: Vec<(Vec<u8>, Vec<u8>)> = Vec::new();
        let mut k: usize = 0;
        while k < n
            invariant
                n == self.headers@.len(),
                k <= n,
                headers@.len() == k,
                forall|i: int|
                    0 <= i < k ==> (#[trigger] headers@[i]).0@ == self.headers@[i].0@
                        && headers@[i].1@ == self.headers@[i].1@,
            decreases n - k,
        {
            let name = crate::scan::copy_range(self.headers[k].0.as_slice(), 0, self.headers[k].0.len());
            let value = crate::scan::copy_range(
                self.headers[k].1.as_slice(),
                0,
                self.headers[k].1.len(),
            );
            proof {
                assert(name@ =~= self.headers@[k as int].0@);
                assert(value@ =~= self.headers@[k as int].1@);
            }
            headers.push((name, value));
            k += 1;
        }
        let url = crate::scan::copy_range(self.url.as_slice(), 0, self.url.len());
        let body = crate::scan::copy_range(self.buf.as_slice(), 0, self.buf.len());
        proof {
            assert(url@ =~= self.url@);
            assert(body@ =~= self.buf@);
        }
        BufferedResponse { url, status: self.status, headers, buf: body, text_cache: None }
    }

    /// The body as bytes, always available, independent of text validity.
    pub fn bytes(&self) -> (r: &Vec<u8>)
        ensures
            r@ == self.body(),
    {
        &self.buf
    }

    /// The final URL of the exchange, as bytes.
    pub fn url(&self) -> (r: &Vec<u8>)
        ensures
            r@ == self.spec_url(),
    {
        &self.url
    }

    /// The response status code.
    pub fn status(&self) -> (r: u16)
        ensures
            r == self.spec_status(),
    {
        self.status
    }

    /// The value of the first header with the given name, compared up to
    /// ASCII case as header names are case-insensitive on the wire.
    pub fn header(&self, name: &[u8]) -> (r: Option<Vec<u8>>)
        ensures
            match r {
                Some(v) => spec_header_lookup(self.spec_headers(), name@) matches Some(w) && v@
                    == w@,
                None => spec_header_lookup(self.spec_headers(), name@) is None,
            },
    {
        let n = self.headers.len();
        let mut k: usize = 0;
        proof {
            assert(self.headers@.skip(0) =~= self.headers@);
        }
        while k < n
            invariant
                n == self.headers@.len(),
                k <= n,
                spec_header_lookup(self.spec_headers(), name@) == spec_header_lookup(
                    self.headers@.skip(k as int),
                    name@,
                ),
            decreases n - k,
        {
            let ghost tail = self.headers@.skip(k as int);
            proof {
                assert(tail[0] == self.headers@[k as int]);
                assert(tail.skip(1) =~= self.headers@.skip(k + 1));
            }
            if crate::scan::bytes_eq_nocase(self.headers[k].0.as_slice(), name) {
                return Some(self.headers[k].1.clone());
            }
            k += 1;
        }
        proof {
            assert(self.headers@.skip(k as int) =~= Seq::<(Vec<u8>, Vec<u8>)>::empty());
        }
        None
    }
}

} // verus!
