//! Errata records: from the published `errata.json` entries to stored errata.
use crate::model::{copy_opt, opt_view, Erratum};
use crate::outside::{lowercase, unicode_lowercase};
use crate::text::{
    chars_of, contains_chars, contains_seq, parse_u32, parse_u32_chars, parse_u32_spec,
};
use vstd::prelude::*;

verus! {

/// One entry of `errata.json`, as published.
#[derive(Debug)]
pub struct RawErratum {
    /// Global erratum id, as a decimal string.
    pub errata_id: Option<String>,
    /// Document id of the RFC (`RFC9000`).
    pub doc_id: String,
    /// Status (`Verified`, `Reported`, ...).
    pub errata_status_code: Option<String>,
    /// Type (`Technical`, `Editorial`).
    pub errata_type_code: Option<String>,
    /// Section addressed.
    pub section: Option<String>,
    /// Original text.
    pub orig_text: Option<String>,
    /// Corrected text.
    pub correct_text: Option<String>,
    /// Notes.
    pub notes: Option<String>,
    /// Submission date.
    pub submit_date: Option<String>,
    /// Last update.
    pub update_date: Option<String>,
    /// Submitter.
    pub submitter_name: Option<String>,
    /// Verifier.
    pub verifier_name: Option<String>,
}

/// The RFC number of a doc-id `RFC<number>`.
pub open spec fn rfc_doc_number(s: Seq<char>) -> Option<u32> {
    if s.len() >= 3 && s.subrange(0, 3) == "RFC"@ {
        parse_u32_spec(s.subrange(3, s.len() as int))
    } else {
        None
    }
}

/// `"RFC9000"` → `Some(9000)`; anything else that is not `RFC` followed by a
/// `u32` → `None`.
pub fn parse_rfc_doc_id(s: &str) -> (r: Option<u32>)
    ensures
        r == rfc_doc_number(s@),
{
    proof {
        reveal_strlit("RFC");
    }
    let v = chars_of(s);
    if v.len() < 3 || v[0] != 'R' || v[1] != 'F' || v[2] != 'C' {
        proof {
            if v@.len() >= 3 && v@.subrange(0, 3) == "RFC"@ {
                assert(v@.subrange(0, 3)[0] == 'R');
                assert(v@.subrange(0, 3)[1] == 'F');
                assert(v@.subrange(0, 3)[2] == 'C');
            }
        }
        return None;
    }
    assert(v@.subrange(0, 3) =~= "RFC"@);
    parse_u32_chars(&v, 3, v.len())
}

/// The erratum id published as `id`.
pub open spec fn erratum_id(id: Option<Seq<char>>) -> Option<u32> {
    match id {
        Some(s) => parse_u32_spec(s),
        None => None,
    }
}

/// An entry is stored when its id is a number and its doc-id names an RFC.
pub open spec fn is_storable(r: RawErratum) -> bool {
    erratum_id(opt_view(r.errata_id)) is Some && rfc_doc_number(r.doc_id@) is Some
}

/// A missing status or type is stored as the empty string.
pub open spec fn or_empty(o: Option<Seq<char>>) -> Seq<char> {
    match o {
        Some(s) => s,
        None => seq![],
    }
}

/// `e` is what the storable entry `r` is stored as.
pub open spec fn stored_as(r: RawErratum, e: Erratum) -> bool {
    &&& Some(e.eid) == erratum_id(opt_view(r.errata_id))
    &&& Some(e.rfc) == rfc_doc_number(r.doc_id@)
    &&& e.status@ == or_empty(opt_view(r.errata_status_code))
    &&& e.kind@ == or_empty(opt_view(r.errata_type_code))
    &&& opt_view(e.section) == opt_view(r.section)
    &&& opt_view(e.orig_text) == opt_view(r.orig_text)
    &&& opt_view(e.correct_text) == opt_view(r.correct_text)
    &&& opt_view(e.notes) == opt_view(r.notes)
    &&& opt_view(e.submitted) == opt_view(r.submit_date)
    &&& opt_view(e.updated) == opt_view(r.update_date)
    &&& opt_view(e.submitter) == opt_view(r.submitter_name)
    &&& opt_view(e.verifier) == opt_view(r.verifier_name)
}

/// A stored erratum keeps the published original text as its original text
/// and the published corrected text as its corrected text.
pub proof fn law_errata_texts_stay_in_place(r: RawErratum, e: Erratum)
    requires
        stored_as(r, e),
    ensures
        opt_view(e.orig_text) == opt_view(r.orig_text),
        opt_view(e.correct_text) == opt_view(r.correct_text),
{
}

/// Two published entries with the same original text are stored with the
/// same original text, whatever their corrected texts are.
pub proof fn law_errata_original_ignores_correction(
    r1: RawErratum,
    e1: Erratum,
    r2: RawErratum,
    e2: Erratum,
)
    requires
        stored_as(r1, e1),
        stored_as(r2, e2),
        opt_view(r1.orig_text) == opt_view(r2.orig_text),
    ensures
        opt_view(e1.orig_text) == opt_view(e2.orig_text),
{
    law_errata_texts_stay_in_place(r1, e1);
    law_errata_texts_stay_in_place(r2, e2);
}

fn text_or_empty(o: &Option<String>) -> (r: String)
    ensures
        r@ == or_empty(opt_view(*o)),
{
    match o {
        Some(s) => s.clone(),
        None => String::new(),
    }
}

/// The stored form of one entry, or `None` when it has no numeric id or no
/// RFC doc-id.
pub fn erratum_from_raw(e: &RawErratum) -> (r: Option<Erratum>)
    ensures
        r is Some <==> is_storable(*e),
        r matches Some(x) ==> stored_as(*e, x),
{
    let eid = match &e.errata_id {
        Some(s) => parse_u32(s.as_str()),
        None => None,
    };
    let eid = match eid {
        Some(n) => n,
        None => return None,
    };
    let rfc = match parse_rfc_doc_id(e.doc_id.as_str()) {
        Some(n) => n,
        None => return None,
    };
    Some(
        Erratum {
            eid,
            rfc,
            status: text_or_empty(&e.errata_status_code),
            kind: text_or_empty(&e.errata_type_code),
            section: copy_opt(&e.section),
            orig_text: copy_opt(&e.orig_text),
            correct_text: copy_opt(&e.correct_text),
            notes: copy_opt(&e.notes),
            submitted: copy_opt(&e.submit_date),
            updated: copy_opt(&e.update_date),
            submitter: copy_opt(&e.submitter_name),
            verifier: copy_opt(&e.verifier_name),
        },
    )
}

/// The errata to store for a published list: the storable entries, in order,
/// each in its stored form. Entries without a numeric id or an RFC doc-id
/// are skipped.
pub fn errata_from_raw(raw: &Vec<RawErratum>) -> (r: Vec<Erratum>)
    ensures
        r@.len() == raw@.filter(|e: RawErratum| is_storable(e)).len(),
        forall|k: int|
            0 <= k < r@.len() ==> stored_as(
                raw@.filter(|e: RawErratum| is_storable(e))[k],
                #[trigger] r@[k],
            ),
{
    let mut out: Vec<Erratum> = Vec::new();
    let n = raw.len();
    for i in 0..n
        invariant
            n == raw@.len(),
            out@.len() == raw@.take(i as int).filter(|e: RawErratum| is_storable(e)).len(),
            forall|k: int|
                0 <= k < out@.len() ==> stored_as(
                    raw@.take(i as int).filter(|e: RawErratum| is_storable(e))[k],
                    #[trigger] out@[k],
                ),
    {
        proof {
            assert(raw@.take(i + 1) == raw@.take(i as int).push(raw@[i as int]));
            raw@.take(i as int).lemma_filter_push(raw@[i as int], |e: RawErratum| is_storable(e));
        }
        match erratum_from_raw(&raw[i]) {
            Some(x) => {
                out.push(x);
            },
            None => {},
        }
    }
    assert(raw@.take(n as int) == raw@);
    out
}

/// `e`'s status, lower-cased, contains `needle` lower-cased.
pub open spec fn status_selected(e: Erratum, needle: Seq<char>) -> bool {
    contains_seq(unicode_lowercase(e.status@), unicode_lowercase(needle))
}

/// The errata of `errata`, in order, whose status contains `status` when
/// both are lower-cased; all of them without a status filter.
pub fn errata_with_status(errata: Vec<Erratum>, status: Option<&str>) -> (r: Vec<Erratum>)
    ensures
        match status {
            None => r@ == errata@,
            Some(s) => r@ == errata@.filter(|e: Erratum| status_selected(e, s@)),
        },
{
    let needle = match status {
        None => {
            return errata;
        },
        Some(s) => s,
    };
    let low = chars_of(lowercase(needle).as_str());
    let ghost all = errata@;
    let ghost p = |e: Erratum| status_selected(e, needle@);
    let mut out: Vec<Erratum> = Vec::new();
    for e in it: errata
        invariant
            low@ == unicode_lowercase(needle@),
            it.seq() == all,
            p == (|e: Erratum| status_selected(e, needle@)),
            out@ == all.take(it.index() as int).filter(p),
    {
        let ghost k = it.index() as int;
        proof {
            assert(all.take(k + 1) == all.take(k).push(all[k]));
            all.take(k).lemma_filter_push(all[k], p);
        }
        let st = chars_of(lowercase(e.status.as_str()).as_str());
        if contains_chars(&st, &low) {
            out.push(e);
        }
    }
    assert(all.take(all.len() as int) == all);
    out
}

} // verus!
