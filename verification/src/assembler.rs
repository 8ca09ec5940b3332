//! Sequential merge of rendered page artifacts into one cumulative
//! document.  Pages are appended strictly in the order the artifacts
//! arrive — merge is not commutative, and output page order must equal
//! append order.  After the last artifact, one pruning pass removes
//! structurally unreachable objects and one compression pass reduces size;
//! both are terminal, whole-document operations, and the merged document
//! presents exactly the collected run of pages afterwards.

use crate::error::ScraperError;
use crate::pdf::{
    doc_absorb_objects, doc_compress, doc_flat_tree, doc_ids, doc_install_page_tree, doc_is_page,
    doc_load, doc_max_id, doc_new, doc_objects_len, doc_page_count, doc_page_ids, doc_pages,
    doc_prune, doc_renumber_from, doc_save, doc_save_ok, doc_serialized, doc_set_max_id,
    doc_set_parent, pdf_object_count, pdf_page_ids, pdf_parses,
};
use vstd::prelude::*;

verus! {

/// The page count carried by a run of artifact byte streams.
pub open spec fn sum_pages(bs: Seq<Seq<u8>>) -> nat
    decreases bs.len(),
{
    if bs.len() == 0 {
        0
    } else {
        pdf_page_ids(bs[0]).len() + sum_pages(bs.skip(1))
    }
}

/// The views of a run of artifacts.
pub open spec fn views_of(v: Seq<Vec<u8>>) -> Seq<Seq<u8>> {
    v.map_values(|a: Vec<u8>| a@)
}

/// The object count carried by a run of artifact byte streams.
pub open spec fn sum_objects(bs: Seq<Seq<u8>>) -> nat
    decreases bs.len(),
{
    if bs.len() == 0 {
        0
    } else {
        pdf_object_count(bs[0]) + sum_objects(bs.skip(1))
    }
}

/// True when a run of artifacts stays within every counter the assembler
/// allocates from: the artifact tally, the object-id space (ids start at
/// one and two stay reserved for the page tree), and the page-run length.
pub open spec fn run_fits(bs: Seq<Seq<u8>>) -> bool {
    &&& bs.len() < usize::MAX
    &&& 1 + sum_objects(bs) <= 0xffff_fffd
    &&& sum_pages(bs) <= u32::MAX
}

/// True when an artifact's page tree is stable under object renumbering
/// from `start`: the renumbered run keeps its length, stays free of
/// duplicates, and every presented page is directly bound as a page.  The
/// assembler admits exactly such artifacts; anything else is a degenerate
/// document.
pub open spec fn page_run_stable(b: Seq<u8>, start: u32) -> bool {
    &&& crate::pdf::pdf_renumbered_pages(b, start).len() == pdf_page_ids(b).len()
    &&& crate::pdf::pdf_renumbered_pages(b, start).no_duplicates()
    &&& crate::pdf::pdf_renumbered_ok(b, start)
}

/// The next free object id after one artifact is appended from `start`.
pub open spec fn next_after(b: Seq<u8>, start: u32) -> int {
    if crate::pdf::pdf_renumbered_max(b, start) >= start {
        crate::pdf::pdf_renumbered_max(b, start) + 1
    } else {
        start as int
    }
}

/// True when every artifact of the run parses and keeps a stable page
/// tree at the start id the merge hands it, beginning at `start`: the
/// condition under which a merge within budget is owed success.
pub open spec fn run_merges_cleanly(bs: Seq<Seq<u8>>, start: u32) -> bool
    decreases bs.len(),
{
    if bs.len() == 0 {
        true
    } else {
        &&& pdf_parses(bs[0])
        &&& page_run_stable(bs[0], start)
        &&& next_after(bs[0], start) <= u32::MAX
        &&& run_merges_cleanly(bs.skip(1), next_after(bs[0], start) as u32)
    }
}

/// True when the collected ids have no duplicate.
fn has_dup_ids(v: &Vec<(u32, u16)>) -> (r: bool)
    ensures
        r == !v@.no_duplicates(),
{
    let n = v.len();
    let mut i: usize = 0;
    while i < n
        invariant
            n == v@.len(),
            i <= n,
            forall|a: int, b: int|
                0 <= a < i && 0 <= b < i && a != b ==> #[trigger] v@[a] != #[trigger] v@[b],
        decreases n - i,
    {
        let mut j: usize = 0;
        while j < i
            invariant
                n == v@.len(),
                j <= i < n,
                forall|a: int, b: int|
                    0 <= a < i && 0 <= b < i && a != b ==> #[trigger] v@[a] != #[trigger] v@[b],
                forall|b: int| 0 <= b < j ==> #[trigger] v@[b] != v@[i as int],
            decreases i - j,
        {
            if v[j].0 == v[i].0 && v[j].1 == v[i].1 {
                assert(v@[j as int] == v@[i as int]);
                assert(!v@.no_duplicates());
                return true;
            }
            j += 1;
        }
        i += 1;
    }
    assert(v@.no_duplicates());
    false
}

/// Builds a cumulative document out of page artifacts, one at a time and in
/// order.  The artifacts' objects are renumbered into disjoint id ranges
/// and absorbed; the page tree that presents the collected pages, in append
/// order, is installed once at the end.
pub struct DocumentAssembler {
    doc: lopdf::Document,
    page_ids: Vec<(u32, u16)>,
    next_id: u32,
    appended: usize,
}

/// The assembled output: the merged document, the run of page ids it
/// presents in append order, and how many artifacts went in.
pub struct MergedDocument {
    doc: lopdf::Document,
    page_ids: Vec<(u32, u16)>,
    artifacts: usize,
}

impl MergedDocument {
    /// How many artifacts were merged.
    pub closed spec fn spec_artifact_count(&self) -> usize {
        self.artifacts
    }

    /// The run of page ids the document presents, in append order.
    pub closed spec fn spec_page_id_run(&self) -> Seq<(u32, u16)> {
        self.page_ids@
    }

    /// The merged document.
    pub closed spec fn spec_doc(&self) -> lopdf::Document {
        self.doc
    }

    /// The output presents exactly the collected run.
    pub closed spec fn wf(&self) -> bool {
        doc_pages(self.doc) == self.page_ids@
    }

    /// How many artifacts were merged.
    pub fn artifact_count(&self) -> (r: usize)
        ensures
            r == self.spec_artifact_count(),
    {
        self.artifacts
    }

    /// How many pages the installed run holds.
    pub fn page_id_count(&self) -> (r: usize)
        ensures
            r == self.spec_page_id_run().len(),
    {
        self.page_ids.len()
    }

    /// How many pages the merged document presents: exactly the run's
    /// length.
    pub fn presented_page_count(&self) -> (r: usize)
        requires
            self.wf(),
        ensures
            r == doc_pages(self.spec_doc()).len(),
            r == self.spec_page_id_run().len(),
    {
        doc_page_count(&self.doc)
    }

    /// The merged document, serialized; the document itself — and what it
    /// presents — is left as it was.
    pub fn save(&mut self) -> (r: Result<Vec<u8>, ScraperError>)
        requires
            old(self).wf(),
        ensures
            final(self).wf(),
            final(self).spec_page_id_run() == old(self).spec_page_id_run(),
            final(self).spec_artifact_count() == old(self).spec_artifact_count(),
            r is Ok <==> doc_save_ok(old(self).spec_doc()),
            r matches Ok(b) ==> b@ == doc_serialized(old(self).spec_doc()),
            r matches Err(e) ==> e is PdfError,
    {
        match doc_save(&mut self.doc) {
            Ok(b) => Ok(b),
            Err(e) => Err(ScraperError::PdfError(e)),
        }
    }

    /// The merged document itself, for callers that keep working on it.
    pub fn into_document(self) -> (r: lopdf::Document)
        ensures
            r == self.spec_doc(),
    {
        self.doc
    }
}

impl DocumentAssembler {
    /// Ids are handed out from one upwards, below the two the finishing
    /// step needs; the collected pages are distinct, directly bound as
    /// pages, and numbered below the next free id.
    pub closed spec fn wf(&self) -> bool {
        &&& 1 <= self.next_id <= 0xffff_fffe
        &&& self.page_ids@.len() <= u32::MAX
        &&& self.page_ids@.no_duplicates()
        &&& (forall|i: int|
            0 <= i < self.page_ids@.len() ==> (#[trigger] self.page_ids@[i]).0 < self.next_id)
        &&& (forall|i: int|
            0 <= i < self.page_ids@.len() ==> doc_is_page(self.doc, #[trigger] self.page_ids@[i]))
    }

    /// How many artifacts have been appended.
    pub closed spec fn spec_appended(&self) -> usize {
        self.appended
    }

    /// How many pages the appended artifacts carried.
    pub closed spec fn spec_page_total(&self) -> nat {
        self.page_ids@.len()
    }

    /// The collected run of page ids, in append order.
    pub closed spec fn spec_page_run(&self) -> Seq<(u32, u16)> {
        self.page_ids@
    }

    /// The next free object id.
    pub closed spec fn spec_next_id(&self) -> u32 {
        self.next_id
    }

    /// True when appending an artifact with these bytes would exhaust a
    /// counter: the artifact tally, the object-id space (two ids stay
    /// reserved for the finishing step's page tree), or the page-run
    /// length.
    pub closed spec fn spec_id_space_exhausted(&self, b: Seq<u8>) -> bool {
        ||| self.appended == usize::MAX
        ||| self.next_id + pdf_object_count(b) > 0xffff_fffd
        ||| self.page_ids@.len() + pdf_page_ids(b).len() > u32::MAX
    }

    /// An empty assembler: no artifacts, no pages.
    pub fn new() -> (r: DocumentAssembler)
        ensures
            r.wf(),
            r.spec_appended() == 0,
            r.spec_page_total() == 0,
            r.spec_next_id() == 1,
    {
        broadcast use vstd::set::group_set_axioms;

        DocumentAssembler { doc: doc_new(), page_ids: Vec::new(), next_id: 1, appended: 0 }
    }

    /// Appends one rendered page artifact: the artifact is parsed, its
    /// objects renumbered past every id already taken and absorbed, and
    /// exactly its renumbered page run — `pdf_renumbered_pages` of the
    /// artifact at the old next id — joined to the collected run in order.
    /// Each outcome is exact: a parse failure, a counter that would be
    /// exhausted, a page tree unstable under renumbering, or success on
    /// everything else.  A failure leaves the assembler unchanged.
    pub fn append_page(&mut self, artifact: &[u8]) -> (r: Result<(), ScraperError>)
        requires
            old(self).wf(),
        ensures
            final(self).wf(),
            !pdf_parses(artifact@) <==> (r matches Err(e) && e is PdfError),
            (r matches Err(e) && e is TooManyObjects) <==> pdf_parses(artifact@) && old(
                self,
            ).spec_id_space_exhausted(artifact@),
            (r matches Err(e) && e is InconsistentPageTree) <==> pdf_parses(artifact@) && !old(
                self,
            ).spec_id_space_exhausted(artifact@) && !page_run_stable(
                artifact@,
                old(self).spec_next_id(),
            ),
            r is Ok <==> pdf_parses(artifact@) && !old(self).spec_id_space_exhausted(artifact@)
                && page_run_stable(artifact@, old(self).spec_next_id()),
            match r {
                Ok(()) => {
                    &&& final(self).spec_appended() == old(self).spec_appended() + 1
                    &&& final(self).spec_next_id() as int == next_after(
                        artifact@,
                        old(self).spec_next_id(),
                    )
                    &&& final(self).spec_next_id() <= old(self).spec_next_id()
                        + pdf_object_count(artifact@)
                    &&& final(self).spec_page_total() == old(self).spec_page_total()
                        + pdf_page_ids(artifact@).len()
                    &&& final(self).spec_page_run() == old(self).spec_page_run()
                        + crate::pdf::pdf_renumbered_pages(artifact@, old(self).spec_next_id())
                },
                Err(e) => {
                    &&& (e is PdfError || e is TooManyObjects || e is InconsistentPageTree)
                    &&& final(self).spec_appended() == old(self).spec_appended()
                    &&& final(self).spec_page_total() == old(self).spec_page_total()
                    &&& final(self).spec_page_run() == old(self).spec_page_run()
                },
            },
    {
        broadcast use vstd::set::group_set_axioms;

        let mut doc = match doc_load(artifact) {
            Ok(d) => d,
            Err(e) => {
                return Err(ScraperError::PdfError(e));
            },
        };
        let ids_before = doc_page_ids(&doc);
        let object_count = doc_objects_len(&doc);
        if self.appended == usize::MAX || self.next_id > 0xffff_fffd || object_count > (0xffff_fffd
            - self.next_id) as usize || ids_before.len() > 0xffff_ffff - self.page_ids.len() {
            return Err(ScraperError::TooManyObjects);
        }
        let ghost run = crate::pdf::pdf_renumbered_pages(artifact@, self.next_id);
        let ghost loaded = doc;
        doc_renumber_from(&mut doc, self.next_id);
        let ids = doc_page_ids(&doc);
        proof {
            assert(crate::pdf::renumbered_pages(loaded, self.next_id) == run);
            assert(crate::pdf::renumbered_ok(loaded, self.next_id) == crate::pdf::pdf_renumbered_ok(
                artifact@,
                self.next_id,
            ));
            assert(ids@ == run);
        }
        if ids.len() != ids_before.len() {
            proof {
                assert(!page_run_stable(artifact@, self.next_id));
            }
            return Err(ScraperError::InconsistentPageTree);
        }
        if has_dup_ids(&ids) {
            proof {
                assert(!page_run_stable(artifact@, self.next_id));
            }
            return Err(ScraperError::InconsistentPageTree);
        }
        let page_checks = ids.len();
        let mut c: usize = 0;
        while c < page_checks
            invariant
                *self == *old(self),
                old(self).wf(),
                page_checks == ids@.len(),
                c <= page_checks,
                ids@ == doc_pages(doc),
                pdf_parses(artifact@),
                !old(self).spec_id_space_exhausted(artifact@),
                ids@ == crate::pdf::pdf_renumbered_pages(artifact@, self.next_id),
                ((forall|k: int|
                    0 <= k < doc_pages(doc).len() ==> doc_is_page(
                        doc,
                        #[trigger] doc_pages(doc)[k],
                    )) <==> crate::pdf::pdf_renumbered_ok(artifact@, self.next_id)),
                forall|m: int| 0 <= m < c ==> doc_is_page(doc, #[trigger] ids@[m]),
            decreases page_checks - c,
        {
            if !crate::pdf::doc_id_is_page(&doc, ids[c]) {
                proof {
                    assert(!doc_is_page(doc, doc_pages(doc)[c as int]));
                    assert(!crate::pdf::pdf_renumbered_ok(artifact@, self.next_id));
                    assert(!page_run_stable(artifact@, self.next_id));
                }
                return Err(ScraperError::InconsistentPageTree);
            }
            c += 1;
        }
        proof {
            assert forall|k: int| 0 <= k < doc_pages(doc).len() implies doc_is_page(
                doc,
                #[trigger] doc_pages(doc)[k],
            ) by {
                assert(doc_pages(doc)[k] == ids@[k]);
            }
            assert(crate::pdf::pdf_renumbered_ok(artifact@, self.next_id));
            assert(page_run_stable(artifact@, self.next_id));
        }
        let new_max = doc_max_id(&doc);
        proof {
            assert(crate::pdf::renumbered_max(loaded, self.next_id) == crate::pdf::pdf_renumbered_max(
                artifact@,
                self.next_id,
            ));
            assert(new_max == crate::pdf::pdf_renumbered_max(artifact@, self.next_id));
        }
        let next = if new_max >= self.next_id {
            new_max + 1
        } else {
            self.next_id
        };
        let ghost start = self.next_id;
        let ghost src_doc = doc;
        proof {
            assert(next <= 0xffff_fffe);
            assert forall|i: int|
                0 <= i < ids@.len() implies start <= (#[trigger] ids@[i]).0 < next by {
                assert(doc_ids(src_doc).contains(ids@[i]));
            }
        }
        doc_absorb_objects(&mut self.doc, doc);
        let ghost merged_doc = self.doc;
        let ghost before_pages = self.page_ids@;
        let n = ids.len();
        let mut k: usize = 0;
        while k < n
            invariant
                n == ids@.len(),
                k <= n,
                self.doc == merged_doc,
                self.next_id == old(self).next_id,
                self.appended == old(self).appended,
                old(self).appended < usize::MAX,
                before_pages == old(self).page_ids@,
                self.page_ids@ == before_pages + ids@.subrange(0, k as int),
                before_pages.len() + n <= u32::MAX,
            decreases n - k,
        {
            self.page_ids.push(ids[k]);
            proof {
                assert(before_pages + ids@.subrange(0, k + 1) =~= (before_pages + ids@.subrange(
                    0,
                    k as int,
                )).push(ids@[k as int]));
            }
            k += 1;
        }
        proof {
            assert(ids@.subrange(0, ids@.len() as int) =~= ids@);
        }
        self.next_id = next;
        self.appended = self.appended + 1;
        proof {
            lemma_disjoint_runs_no_dup(before_pages, ids@, start as nat);
            assert(ids@.len() == pdf_page_ids(artifact@).len() && self.spec_page_run() == old(
                self,
            ).spec_page_run() + ids@);
            assert forall|i: int|
                0 <= i < self.page_ids@.len() implies doc_is_page(
                self.doc,
                #[trigger] self.page_ids@[i],
            ) by {
                if i < before_pages.len() {
                    assert(self.page_ids@[i] == before_pages[i]);
                    assert(before_pages[i].0 < start);
                    if doc_ids(src_doc).contains(before_pages[i]) {
                        assert(before_pages[i].0 >= start);
                    }
                    assert(doc_is_page(merged_doc, before_pages[i]) == doc_is_page(
                        old(self).doc,
                        before_pages[i],
                    ));
                } else {
                    assert(self.page_ids@[i] == ids@[i - before_pages.len()]);
                    assert(doc_is_page(src_doc, ids@[i - before_pages.len()]));
                }
            }
        }
        Ok(())
    }

    /// Installs the page tree over the collected run — the pages in append
    /// order, each given its parent link — then runs the one terminal
    /// pruning pass and the one terminal compression pass, which leave the
    /// presented run unchanged.  With at least one artifact appended the
    /// step always succeeds, and the output presents exactly the run; an
    /// assembler without artifacts is fatal — nothing to download.
    pub fn finish(self) -> (r: Result<MergedDocument, ScraperError>)
        requires
            self.wf(),
        ensures
            self.spec_appended() > 0 <==> r is Ok,
            match r {
                Ok(m) => {
                    &&& m.wf()
                    &&& m.spec_artifact_count() == self.spec_appended()
                    &&& m.spec_page_id_run() == self.spec_page_run()
                    &&& doc_pages(m.spec_doc()) == self.spec_page_run()
                    &&& m.spec_page_id_run().len() == self.spec_page_total()
                },
                Err(e) => e is NoPages,
            },
    {
        let DocumentAssembler { mut doc, page_ids, next_id, appended } = self;
        if appended == 0 {
            return Err(ScraperError::NoPages);
        }
        doc_set_max_id(&mut doc, next_id - 1);
        let pages_root = doc_install_page_tree(&mut doc, &page_ids);
        let n = page_ids.len();
        let mut m: usize = 0;
        while m < n
            invariant
                n == page_ids@.len(),
                m <= n,
                doc_pages(doc) == page_ids@,
                doc_flat_tree(doc),
                forall|i: int|
                    0 <= i < page_ids@.len() ==> doc_is_page(doc, #[trigger] page_ids@[i]),
            decreases n - m,
        {
            doc_set_parent(&mut doc, page_ids[m], pages_root);
            m += 1;
        }
        doc_prune(&mut doc);
        doc_compress(&mut doc);
        Ok(MergedDocument { doc, page_ids, artifacts: appended })
    }
}

/// Two id runs from disjoint ranges concatenate without duplicates.
proof fn lemma_disjoint_runs_no_dup(a: Seq<(u32, u16)>, b: Seq<(u32, u16)>, bound: nat)
    requires
        a.no_duplicates(),
        b.no_duplicates(),
        forall|i: int| 0 <= i < a.len() ==> (#[trigger] a[i]).0 < bound,
        forall|i: int| 0 <= i < b.len() ==> (#[trigger] b[i]).0 >= bound,
    ensures
        (a + b).no_duplicates(),
{
    let c = a + b;
    assert forall|i: int, j: int| 0 <= i < c.len() && 0 <= j < c.len() && i != j implies c[i]
        != c[j] by {
        if i < a.len() && j < a.len() {
            assert(c[i] == a[i] && c[j] == a[j]);
        } else if i >= a.len() && j >= a.len() {
            assert(c[i] == b[i - a.len()] && c[j] == b[j - a.len()]);
        } else if i < a.len() {
            assert(c[i] == a[i] && c[j] == b[j - a.len()]);
            assert(c[i].0 < bound && c[j].0 >= bound);
        } else {
            assert(c[j] == a[j] && c[i] == b[i - a.len()]);
            assert(c[j].0 < bound && c[i].0 >= bound);
        }
    }
}

/// Merges a run of rendered page artifacts into one cumulative document,
/// strictly in ascending order: the first artifact seeds the document and
/// each later one is appended, never reordered or interleaved, and the
/// output presents the collected pages in exactly that order.  An empty
/// run is fatal — nothing to download.  The merged run carries as many
/// pages as the artifacts did together.  On a non-empty run whose
/// artifacts all parse and fit the counters, the merge succeeds — unless
/// an artifact's page tree is unstable under renumbering, the one
/// outside-decided failure.
pub fn assemble_document(artifacts: &Vec<Vec<u8>>) -> (r: Result<MergedDocument, ScraperError>)
    ensures
        artifacts@.len() > 0 && run_fits(views_of(artifacts@)) && (forall|j: int|
            0 <= j < artifacts@.len() ==> pdf_parses((#[trigger] artifacts@[j])@)) ==> (r is Ok
            || (r matches Err(e) && e is InconsistentPageTree)),
        artifacts@.len() > 0 && run_fits(views_of(artifacts@)) && run_merges_cleanly(
            views_of(artifacts@),
            1,
        ) ==> r is Ok,
        match r {
            Ok(m) => {
                &&& artifacts@.len() > 0
                &&& (forall|j: int|
                    0 <= j < artifacts@.len() ==> pdf_parses((#[trigger] artifacts@[j])@))
                &&& m.wf()
                &&& m.spec_artifact_count() == artifacts@.len()
                &&& doc_pages(m.spec_doc()) == m.spec_page_id_run()
                &&& m.spec_page_id_run().len() == sum_pages(views_of(artifacts@))
            },
            Err(e) => {
                &&& (e is NoPages <==> artifacts@.len() == 0)
                &&& (e is PdfError ==> exists|j: int|
                    0 <= j < artifacts@.len() && !pdf_parses((#[trigger] artifacts@[j])@))
                &&& (e is NoPages || e is PdfError || e is TooManyObjects
                    || e is InconsistentPageTree)
            },
        },
{
    let n = artifacts.len();
    let mut builder = DocumentAssembler::new();
    let mut k: usize = 0;
    proof {
        assert(views_of(artifacts@).skip(0) =~= views_of(artifacts@));
    }
    while k < n
        invariant
            n == artifacts@.len(),
            k <= n,
            builder.wf(),
            builder.spec_appended() == k,
            sum_pages(views_of(artifacts@)) == builder.spec_page_total() + sum_pages(
                views_of(artifacts@).skip(k as int),
            ),
            builder.spec_next_id() + sum_objects(views_of(artifacts@).skip(k as int)) <= 1
                + sum_objects(views_of(artifacts@)),
            run_merges_cleanly(views_of(artifacts@), 1) ==> run_merges_cleanly(
                views_of(artifacts@).skip(k as int),
                builder.spec_next_id(),
            ),
            forall|j: int| 0 <= j < k ==> pdf_parses((#[trigger] artifacts@[j])@),
        decreases n - k,
    {
        let ghost tail = views_of(artifacts@).skip(k as int);
        proof {
            assert(tail[0] == artifacts@[k as int]@);
            assert(tail.skip(1) =~= views_of(artifacts@).skip(k + 1));
            if run_fits(views_of(artifacts@)) && pdf_parses(artifacts@[k as int]@) {
                assert(builder.spec_page_total() + pdf_page_ids(tail[0]).len() <= sum_pages(
                    views_of(artifacts@),
                ));
                assert(builder.spec_next_id() + pdf_object_count(tail[0]) <= 1 + sum_objects(
                    views_of(artifacts@),
                ));
                assert(!builder.spec_id_space_exhausted(artifacts@[k as int]@));
            }
        }
        let ghost next_before = builder.spec_next_id();
        match builder.append_page(artifacts[k].as_slice()) {
            Ok(()) => {
                proof {
                    if run_merges_cleanly(views_of(artifacts@), 1) {
                        assert(run_merges_cleanly(tail, next_before));
                        assert(builder.spec_next_id() as int == next_after(tail[0], next_before));
                        assert(run_merges_cleanly(tail.skip(1), next_after(tail[0], next_before) as u32));
                    }
                }
            },
            Err(e) => {
                proof {
                    if run_fits(views_of(artifacts@)) && (forall|j: int|
                        0 <= j < artifacts@.len() ==> pdf_parses((#[trigger] artifacts@[j])@)) {
                        assert(pdf_parses(artifacts@[k as int]@));
                        assert(e is InconsistentPageTree);
                    }
                    if run_fits(views_of(artifacts@)) && run_merges_cleanly(
                        views_of(artifacts@),
                        1,
                    ) {
                        assert(pdf_parses(tail[0]));
                        assert(page_run_stable(tail[0], builder.spec_next_id()));
                        assert(false);
                    }
                }
                return Err(e);
            },
        }
        k += 1;
    }
    proof {
        assert(views_of(artifacts@).skip(n as int) =~= Seq::<Seq<u8>>::empty());
    }
    builder.finish()
}

} // verus!
