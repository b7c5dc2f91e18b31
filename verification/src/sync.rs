//! Decisions of the conditional-download protocol used to sync the index and
//! the errata: whether a probe can prove the cached copy current, and which
//! validators a download is conditioned on.
use crate::model::{copy_opt, opt_view};
use vstd::prelude::*;

verus! {

/// Validators a server reported for a resource (`ETag`, `Last-Modified`).
#[derive(Debug)]
pub struct HeadProbe {
    /// The `ETag` header, when sent.
    pub etag: Option<String>,
    /// The `Last-Modified` header, when sent.
    pub last_modified: Option<String>,
}

/// Stored and fresh validators agree: the entity tag decides whenever one was
/// stored before; the modification date is consulted only without a stored
/// entity tag, and then only when both dates are known.
pub open spec fn validators_agree(
    prior_etag: Option<Seq<char>>,
    new_etag: Option<Seq<char>>,
    prior_lm: Option<Seq<char>>,
    new_lm: Option<Seq<char>>,
) -> bool {
    if prior_etag is Some {
        new_etag is Some && new_etag == prior_etag
    } else {
        prior_lm is Some && new_lm is Some && prior_lm == new_lm
    }
}

fn same_text(a: &String, b: &String) -> (r: bool)
    ensures
        r == (a@ == b@),
{
    *a == *b
}

/// Prefer etag (strong); fall back to last-modified only if no prior etag is stored.
pub fn validators_match(
    prior_etag: &Option<String>,
    new_etag: &Option<String>,
    prior_lm: &Option<String>,
    new_lm: &Option<String>,
) -> (r: bool)
    ensures
        r == validators_agree(
            opt_view(*prior_etag),
            opt_view(*new_etag),
            opt_view(*prior_lm),
            opt_view(*new_lm),
        ),
{
    if prior_etag.is_some() {
        return match (prior_etag, new_etag) {
            (Some(p), Some(c)) => same_text(p, c),
            _ => false,
        };
    }
    if let (Some(p), Some(c)) = (prior_lm, new_lm) {
        return same_text(p, c);
    }
    false
}

/// What a sync does next.
#[derive(Debug)]
pub enum SyncAction {
    /// Probe the resource with a `HEAD` request and compare its validators.
    Probe,
    /// Download the resource, conditional on the stored validators.
    Fetch {
        /// Value for `If-None-Match`.
        if_none_match: Option<String>,
        /// Value for `If-Modified-Since`.
        if_modified_since: Option<String>,
    },
    /// The stored copy is current: record the sync time and skip the ingest.
    Unchanged,
}

/// `a` asks for a download conditioned on exactly the given validators.
pub open spec fn is_fetch_with(a: SyncAction, etag: Option<Seq<char>>, lm: Option<Seq<char>>) -> bool {
    match a {
        SyncAction::Fetch { if_none_match, if_modified_since } => opt_view(if_none_match) == etag
            && opt_view(if_modified_since) == lm,
        _ => false,
    }
}

/// First step of a sync: probe when any validator is stored (the server may
/// ignore conditional requests), otherwise download outright.
pub fn first_action(prior_etag: &Option<String>, prior_lm: &Option<String>) -> (r: SyncAction)
    ensures
        (prior_etag.is_some() || prior_lm.is_some()) ==> r is Probe,
        !(prior_etag.is_some() || prior_lm.is_some()) ==> is_fetch_with(r, None, None),
{
    if prior_etag.is_some() || prior_lm.is_some() {
        SyncAction::Probe
    } else {
        SyncAction::Fetch { if_none_match: None, if_modified_since: None }
    }
}

/// Step after a probe: unchanged when the probe succeeded and its validators
/// agree with the stored ones, otherwise a download conditioned on the
/// stored validators.
pub fn after_probe(
    prior_etag: &Option<String>,
    prior_lm: &Option<String>,
    probe: &Option<HeadProbe>,
) -> (r: SyncAction)
    ensures
        match probe {
            Some(p) => if validators_agree(
                opt_view(*prior_etag),
                opt_view(p.etag),
                opt_view(*prior_lm),
                opt_view(p.last_modified),
            ) {
                r is Unchanged
            } else {
                is_fetch_with(r, opt_view(*prior_etag), opt_view(*prior_lm))
            },
            None => is_fetch_with(r, opt_view(*prior_etag), opt_view(*prior_lm)),
        },
{
    if let Some(p) = probe {
        if validators_match(prior_etag, &p.etag, prior_lm, &p.last_modified) {
            return SyncAction::Unchanged;
        }
    }
    SyncAction::Fetch { if_none_match: copy_opt(prior_etag), if_modified_since: copy_opt(prior_lm) }
}

/// Step after the download answered: HTTP 304 means unchanged; any other
/// status goes on to the ingest (or to the status error).
pub fn after_download(status: u16) -> (unchanged: bool)
    ensures
        unchanged == (status == 304),
{
    status == 304
}

/// A server that still reports the validators stored from the last download
/// is answered "unchanged": stored validators always agree with themselves
/// when at least one of them was stored.
pub proof fn law_stored_validators_agree(etag: Option<Seq<char>>, last_modified: Option<Seq<char>>)
    requires
        etag is Some || last_modified is Some,
    ensures
        validators_agree(etag, etag, last_modified, last_modified),
{
}

} // verus!
