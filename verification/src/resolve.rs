use vstd::prelude::*;

use crate::archive::EntryOutcome;
use crate::errs::{
    lossy_string, OfdError, DESCRIPTOR_NOT_FOUND_ERR, DOC_UNRESOLVABLE_ERR,
    PAGE_COUNT_OVERFLOW_ERR, READ_XML_ERR,
};
use crate::xml::{
    collect_leaf_texts, count_named, count_named_elements, xml_events, lemma_count_named_bound,
    leaf_texts, read_all_events, xml_well_formed, xml_wf,
};

verus! {

// ---------------------------------------------------------------------------
// Structural resolution.
//
// The root descriptor (a fixed well-known file of the extracted tree) lists
// the container's documents as the texts of its `DocRoot` elements. Each
// document descriptor names its page list as the text of its `PageList`
// element; the page list enumerates one `Page` element per page. Page counts
// are summed over the documents in declaration order.
// ---------------------------------------------------------------------------

/// "OFD.xml", the canonical root descriptor path.
pub open spec fn root_descriptor_path() -> Seq<u8> {
    seq![79u8, 70u8, 68u8, 46u8, 120u8, 109u8, 108u8]
}

/// "DocRoot", the element whose text references a document descriptor.
pub open spec fn doc_root_tag() -> Seq<u8> {
    seq![68u8, 111u8, 99u8, 82u8, 111u8, 111u8, 116u8]
}

/// "PageList", the element whose text references a document's page list.
pub open spec fn page_list_tag() -> Seq<u8> {
    seq![80u8, 97u8, 103u8, 101u8, 76u8, 105u8, 115u8, 116u8]
}

/// "Page", the element counted once per page.
pub open spec fn page_tag() -> Seq<u8> {
    seq![80u8, 97u8, 103u8, 101u8]
}

fn root_descriptor_path_v() -> (v: Vec<u8>)
    ensures
        v@ == root_descriptor_path(),
{
    let v = vec![79u8, 70u8, 68u8, 46u8, 120u8, 109u8, 108u8];
    proof {
        assert(v@ =~= root_descriptor_path());
    }
    v
}

fn doc_root_tag_v() -> (v: Vec<u8>)
    ensures
        v@ == doc_root_tag(),
{
    let v = vec![68u8, 111u8, 99u8, 82u8, 111u8, 111u8, 116u8];
    proof {
        assert(v@ =~= doc_root_tag());
    }
    v
}

fn page_list_tag_v() -> (v: Vec<u8>)
    ensures
        v@ == page_list_tag(),
{
    let v = vec![80u8, 97u8, 103u8, 101u8, 76u8, 105u8, 115u8, 116u8];
    proof {
        assert(v@ =~= page_list_tag());
    }
    v
}

fn page_tag_v() -> (v: Vec<u8>)
    ensures
        v@ == page_tag(),
{
    let v = vec![80u8, 97u8, 103u8, 101u8];
    proof {
        assert(v@ =~= page_tag());
    }
    v
}

// ---------------------------------------------------------------------------
// Looking a file up among the extraction outcomes.
// ---------------------------------------------------------------------------

/// The content of the first extracted file whose confined path is `path`.
pub open spec fn lookup_from(entries: Seq<EntryOutcome>, i: int, path: Seq<u8>) -> Option<Seq<u8>>
    decreases entries.len() - i,
{
    if i < 0 || i >= entries.len() {
        None
    } else {
        match entries[i] {
            EntryOutcome::File { path: p, data: d } => if p@ == path {
                Some(d@)
            } else {
                lookup_from(entries, i + 1, path)
            },
            _ => lookup_from(entries, i + 1, path),
        }
    }
}

pub open spec fn lookup_file(entries: Seq<EntryOutcome>, path: Seq<u8>) -> Option<Seq<u8>> {
    lookup_from(entries, 0, path)
}

/// Finds the first extracted file stored under `path`.
fn find_file<'a>(entries: &'a Vec<EntryOutcome>, path: &[u8]) -> (r: Option<&'a Vec<u8>>)
    ensures
        match r {
            Some(d) => lookup_file(entries@, path@) == Some(d@),
            None => lookup_file(entries@, path@) is None,
        },
{
    let mut i: usize = 0;
    while i < entries.len()
        invariant
            0 <= i <= entries@.len(),
            lookup_file(entries@, path@) == lookup_from(entries@, i as int, path@),
        decreases entries@.len() - i,
    {
        match &entries[i] {
            EntryOutcome::File { path: p, data: d } => {
                if crate::xml::bytes_eq(p.as_slice(), path) {
                    return Some(d);
                }
            },
            _ => {},
        }
        i = i + 1;
    }
    None
}

// ---------------------------------------------------------------------------
// Per-document page counts, and their sum.
// ---------------------------------------------------------------------------

/// The page count of one referenced document: its descriptor must exist and
/// be well formed, name a page list that exists and is well formed; the count
/// is the number of `Page` elements of that list. Anything else leaves the
/// document unresolvable.
pub open spec fn doc_page_count(entries: Seq<EntryOutcome>, doc_ref: Seq<u8>) -> Option<int> {
    match lookup_file(entries, doc_ref) {
        None => None,
        Some(db) => {
            let dp = xml_events(db);
            if !xml_wf(dp) {
                None
            } else {
                let pls = leaf_texts(dp, page_list_tag());
                if pls.len() == 0 {
                    None
                } else {
                    match lookup_file(entries, pls[0]) {
                        None => None,
                        Some(plb) => {
                            let pp = xml_events(plb);
                            if !xml_wf(pp) {
                                None
                            } else {
                                Some(count_named(pp, page_tag()))
                            }
                        },
                    }
                }
            }
        },
    }
}

pub open spec fn page_count_or_zero(entries: Seq<EntryOutcome>, doc_ref: Seq<u8>) -> int {
    match doc_page_count(entries, doc_ref) {
        Some(c) => c,
        None => 0,
    }
}

pub open spec fn sum_pages(entries: Seq<EntryOutcome>, refs: Seq<Seq<u8>>) -> int
    decreases refs.len(),
{
    if refs.len() == 0 {
        0
    } else {
        sum_pages(entries, refs.drop_last()) + page_count_or_zero(entries, refs.last())
    }
}

/// Some referenced document cannot be resolved.
pub open spec fn any_unresolvable(entries: Seq<EntryOutcome>, refs: Seq<Seq<u8>>) -> bool {
    exists|j: int| 0 <= j < refs.len() && doc_page_count(entries, #[trigger] refs[j]) is None
}

/// The first reference at or after `i` whose document cannot be resolved
/// (empty if every one resolves).
pub open spec fn first_bad_from(entries: Seq<EntryOutcome>, refs: Seq<Seq<u8>>, i: int) -> Seq<u8>
    decreases refs.len() - i,
{
    if i < 0 || i >= refs.len() {
        Seq::<u8>::empty()
    } else if doc_page_count(entries, refs[i]) is None {
        refs[i]
    } else {
        first_bad_from(entries, refs, i + 1)
    }
}

pub proof fn lemma_first_bad_at(entries: Seq<EntryOutcome>, refs: Seq<Seq<u8>>, i: int, k: int)
    requires
        0 <= i <= k < refs.len(),
        forall|j: int| i <= j < k ==> doc_page_count(entries, #[trigger] refs[j]) is Some,
        doc_page_count(entries, refs[k]) is None,
    ensures
        first_bad_from(entries, refs, i) == refs[k],
    decreases k - i,
{
    if i < k {
        lemma_first_bad_at(entries, refs, i + 1, k);
    }
}

pub proof fn lemma_page_count_nonneg(entries: Seq<EntryOutcome>, doc_ref: Seq<u8>)
    ensures
        page_count_or_zero(entries, doc_ref) >= 0,
{
    if doc_page_count(entries, doc_ref) is Some {
        let db = lookup_file(entries, doc_ref)->0;
        let pls = leaf_texts(xml_events(db), page_list_tag());
        let plb = lookup_file(entries, pls[0])->0;
        lemma_count_named_bound(xml_events(plb), 0, page_tag());
    }
}

pub proof fn lemma_sum_pages_nonneg(entries: Seq<EntryOutcome>, refs: Seq<Seq<u8>>)
    ensures
        sum_pages(entries, refs) >= 0,
    decreases refs.len(),
{
    if refs.len() > 0 {
        lemma_sum_pages_nonneg(entries, refs.drop_last());
        lemma_page_count_nonneg(entries, refs.last());
    }
}

// ---------------------------------------------------------------------------
// The resolution result.
// ---------------------------------------------------------------------------

pub enum ResolveError {
    RootMissing,
    RootMalformed,
    DocumentUnresolvable,
    CountOverflow,
}

/// The message that each resolution failure carries.
pub open spec fn resolve_err_message(e: ResolveError) -> Seq<char> {
    match e {
        ResolveError::RootMissing => DESCRIPTOR_NOT_FOUND_ERR@,
        ResolveError::RootMalformed => READ_XML_ERR@,
        ResolveError::DocumentUnresolvable => DOC_UNRESOLVABLE_ERR@,
        ResolveError::CountOverflow => PAGE_COUNT_OVERFLOW_ERR@,
    }
}

/// The document references the root descriptor declares (meaningful once the
/// root descriptor is present and well formed).
pub open spec fn root_doc_refs(entries: Seq<EntryOutcome>) -> Seq<Seq<u8>> {
    leaf_texts(xml_events(lookup_file(entries, root_descriptor_path())->0), doc_root_tag())
}

/// The contextual detail each resolution failure carries: for an
/// unresolvable document, the first failing declared reference; otherwise
/// the root descriptor's path.
pub open spec fn resolve_err_extra(entries: Seq<EntryOutcome>, e: ResolveError) -> Seq<char> {
    match e {
        ResolveError::DocumentUnresolvable => crate::errs::lossy_utf8(
            first_bad_from(entries, root_doc_refs(entries), 0),
        ),
        _ => crate::errs::lossy_utf8(root_descriptor_path()),
    }
}

/// What resolving the page count of an extracted container yields: the sum
/// of the page counts of the documents the root descriptor declares, in
/// declaration order; no documents means zero pages; one unresolvable
/// document fails the whole request, as does a sum beyond the supported
/// 32-bit range.
pub open spec fn resolve_spec(entries: Seq<EntryOutcome>) -> Result<int, ResolveError> {
    match lookup_file(entries, root_descriptor_path()) {
        None => Result::Err(ResolveError::RootMissing),
        Some(rb) => {
            let rp = xml_events(rb);
            if !xml_wf(rp) {
                Result::Err(ResolveError::RootMalformed)
            } else {
                let refs = leaf_texts(rp, doc_root_tag());
                if any_unresolvable(entries, refs) {
                    Result::Err(ResolveError::DocumentUnresolvable)
                } else if sum_pages(entries, refs) > 0x7fff_ffff {
                    Result::Err(ResolveError::CountOverflow)
                } else {
                    Result::Ok(sum_pages(entries, refs))
                }
            }
        },
    }
}

/// Resolves one referenced document to its page count.
fn doc_pages(entries: &Vec<EntryOutcome>, doc_ref: &Vec<u8>) -> (r: Option<usize>)
    ensures
        r is None <==> doc_page_count(entries@, doc_ref@) is None,
        r matches Some(c) ==> doc_page_count(entries@, doc_ref@) == Some(c as int),
{
    let db = match find_file(entries, doc_ref.as_slice()) {
        Some(d) => d,
        None => {
            return None;
        },
    };
    let evs = read_all_events(db.as_slice());
    if !xml_well_formed(&evs) {
        return None;
    }
    let pltag = page_list_tag_v();
    let pls = collect_leaf_texts(&evs, pltag.as_slice());
    if pls.len() == 0 {
        return None;
    }
    let pl = &pls[0];
    proof {
        assert(pls.deep_view()[0] =~= pl@);
    }
    let plb = match find_file(entries, pl.as_slice()) {
        Some(d) => d,
        None => {
            return None;
        },
    };
    let pevs = read_all_events(plb.as_slice());
    if !xml_well_formed(&pevs) {
        return None;
    }
    let ptag = page_tag_v();
    Some(count_named_elements(&pevs, ptag.as_slice()))
}

/// Resolves the page count of an extracted container, per `resolve_spec`.
pub fn resolve_page_count(entries: &Vec<EntryOutcome>) -> (r: Result<i32, OfdError>)
    ensures
        resolve_spec(entries@) matches Ok(n) ==> r matches Ok(c) && c == n,
        resolve_spec(entries@) matches Err(e) ==> r matches Err(err) && err.message_view()
            == resolve_err_message(e) && err.extra_view() == resolve_err_extra(entries@, e),
{
    let root_name = root_descriptor_path_v();
    let rb = match find_file(entries, root_name.as_slice()) {
        Some(d) => d,
        None => {
            return Err(OfdError::from(DESCRIPTOR_NOT_FOUND_ERR, lossy_string(root_name.as_slice())));
        },
    };
    let evs = read_all_events(rb.as_slice());
    if !xml_well_formed(&evs) {
        return Err(OfdError::from(READ_XML_ERR, lossy_string(root_name.as_slice())));
    }
    let tag = doc_root_tag_v();
    let refs = collect_leaf_texts(&evs, tag.as_slice());
    let ghost rs = refs.deep_view();
    proof {
        assert(rs.take(0) =~~= Seq::<Seq<u8>>::empty());
    }
    let mut any_bad = false;
    let mut bad_ref: Vec<u8> = Vec::new();
    let mut overflow = false;
    let mut acc: u64 = 0;
    let mut k: usize = 0;
    while k < refs.len()
        invariant
            0 <= k <= refs@.len(),
            rs == refs.deep_view(),
            rs.len() == refs@.len(),
            any_bad == exists|j: int|
                0 <= j < k && doc_page_count(entries@, #[trigger] rs[j]) is None,
            any_bad ==> bad_ref@ == first_bad_from(entries@, rs, 0),
            !overflow ==> acc as int == sum_pages(entries@, rs.take(k as int)) && acc
                <= 0x7fff_ffff,
            overflow ==> sum_pages(entries@, rs.take(k as int)) > 0x7fff_ffff,
        decreases refs@.len() - k,
    {
        let dref = &refs[k];
        proof {
            assert(rs[k as int] =~= dref@);
        }
        let c_opt = doc_pages(entries, dref);
        let ghost pre_sum = sum_pages(entries@, rs.take(k as int));
        proof {
            assert(rs.take(k + 1).drop_last() =~~= rs.take(k as int));
            assert(rs.take(k + 1).last() == rs[k as int]);
            assert(sum_pages(entries@, rs.take(k + 1)) == pre_sum + page_count_or_zero(
                entries@,
                rs[k as int],
            ));
        }
        match c_opt {
            None => {
                if !any_bad {
                    proof {
                        lemma_first_bad_at(entries@, rs, 0, k as int);
                    }
                    bad_ref = crate::xml::copy_bytes(dref);
                    any_bad = true;
                }
                proof {
                    assert(doc_page_count(entries@, rs[k as int]) is None);
                }
            },
            Some(c) => {
                proof {
                    assert(page_count_or_zero(entries@, rs[k as int]) == c as int);
                }
                if !overflow {
                    if c > 0x7fff_ffff {
                        proof {
                            lemma_sum_pages_nonneg(entries@, rs.take(k as int));
                        }
                        overflow = true;
                    } else {
                        acc = acc + (c as u64);
                        if acc > 0x7fff_ffff {
                            overflow = true;
                        }
                    }
                }
            },
        }
        k = k + 1;
    }
    proof {
        assert(rs.take(refs@.len() as int) =~~= rs);
    }
    if any_bad {
        return Err(OfdError::from(DOC_UNRESOLVABLE_ERR, lossy_string(bad_ref.as_slice())));
    }
    if overflow {
        return Err(OfdError::from(PAGE_COUNT_OVERFLOW_ERR, lossy_string(root_name.as_slice())));
    }
    let total = acc as i32;
    Ok(total)
}

// ---------------------------------------------------------------------------
// Laws of resolution.
// ---------------------------------------------------------------------------

/// A container whose root descriptor is present and well formed but declares
/// zero documents resolves to a page count of zero, not an error.
pub proof fn lemma_zero_documents(entries: Seq<EntryOutcome>)
    ensures
        (match lookup_file(entries, root_descriptor_path()) {
            Some(rb) => xml_wf(xml_events(rb)) && leaf_texts(xml_events(rb), doc_root_tag()).len()
                == 0 ==> resolve_spec(entries) == Result::<int, ResolveError>::Ok(0),
            None => true,
        }),
{
}

/// One unresolvable referenced document fails the whole resolution with the
/// dedicated error, whatever the sibling references resolve to.
pub proof fn lemma_unresolvable_document_fails(entries: Seq<EntryOutcome>, j: int)
    ensures
        (match lookup_file(entries, root_descriptor_path()) {
            Some(rb) => (xml_wf(xml_events(rb)) && 0 <= j < leaf_texts(
                xml_events(rb),
                doc_root_tag(),
            ).len() && doc_page_count(entries, leaf_texts(xml_events(rb), doc_root_tag())[j])
                is None) ==> resolve_spec(entries) == Result::<int, ResolveError>::Err(
                ResolveError::DocumentUnresolvable,
            ),
            None => true,
        }),
{
}

/// A successfully resolved page count is never negative.
pub proof fn lemma_resolve_ok_nonneg(entries: Seq<EntryOutcome>)
    ensures
        resolve_spec(entries) matches Ok(n) ==> n >= 0,
{
    let l = lookup_file(entries, root_descriptor_path());
    if l is Some {
        let rb = l->0;
        if xml_wf(xml_events(rb)) {
            lemma_sum_pages_nonneg(entries, leaf_texts(xml_events(rb), doc_root_tag()));
        }
    }
}

} // verus!
