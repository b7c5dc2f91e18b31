//! Facet listings: the distinct values of one metadata axis of the index,
//! each with the number of RFCs carrying it.
use crate::model::{opt_str_view, Facet, FacetKind, Rfc};
use crate::text::{chars_of, contains_ignore_ascii_case, contains_ignore_case, str_eq};
use vstd::prelude::*;

verus! {

/// An optional field as a list of at most one value.
pub open spec fn opt_values(o: Option<String>) -> Seq<Seq<char>> {
    match o {
        Some(s) => seq![s@],
        None => seq![],
    }
}

/// The values of facet `kind` that `r` carries.
pub open spec fn facet_values(r: Rfc, kind: FacetKind) -> Seq<Seq<char>> {
    match kind {
        FacetKind::WorkingGroup => opt_values(r.wg),
        FacetKind::Area => opt_values(r.area),
        FacetKind::Stream => opt_values(r.stream),
        FacetKind::Status => opt_values(r.current_status),
        FacetKind::Keyword => r.keywords@.map_values(|s: String| s@),
    }
}

/// `r` carries value `v` of facet `kind`.
pub open spec fn carries(r: Rfc, kind: FacetKind, v: Seq<char>) -> bool {
    facet_values(r, kind).contains(v)
}

/// Number of RFCs of `rs` that carry value `v` of facet `kind`.
pub open spec fn carrier_count(rs: Seq<Rfc>, kind: FacetKind, v: Seq<char>) -> nat
    decreases rs.len(),
{
    if rs.len() == 0 {
        0
    } else {
        carrier_count(rs.drop_last(), kind, v) + if carries(rs.last(), kind, v) {
            1nat
        } else {
            0nat
        }
    }
}

/// `v` passes the optional case-insensitive substring filter.
pub open spec fn facet_selected(v: Seq<char>, contains: Option<Seq<char>>) -> bool {
    match contains {
        Some(c) => contains_ignore_case(v, c),
        None => true,
    }
}

/// Lexicographic order on characters (code point order).
pub open spec fn lex_lt(a: Seq<char>, b: Seq<char>) -> bool
    decreases a.len(),
{
    if a.len() == 0 {
        b.len() > 0
    } else if b.len() == 0 {
        false
    } else if a[0] != b[0] {
        a[0] < b[0]
    } else {
        lex_lt(a.drop_first(), b.drop_first())
    }
}

/// `x` is listed before `y`: more carriers first, then by value.
pub open spec fn ranks_before(x: (Seq<char>, u32), y: (Seq<char>, u32)) -> bool {
    x.1 > y.1 || (x.1 == y.1 && lex_lt(x.0, y.0))
}

/// View of a facet bucket.
pub open spec fn facet_view(f: Facet) -> (Seq<char>, u32) {
    (f.value@, f.count)
}

pub proof fn lemma_lex_irreflexive(a: Seq<char>)
    ensures
        !lex_lt(a, a),
    decreases a.len(),
{
    if a.len() > 0 {
        lemma_lex_irreflexive(a.drop_first());
    }
}

pub proof fn lemma_lex_total(a: Seq<char>, b: Seq<char>)
    ensures
        a != b ==> lex_lt(a, b) || lex_lt(b, a),
        !(lex_lt(a, b) && lex_lt(b, a)),
    decreases a.len(),
{
    if a.len() > 0 && b.len() > 0 && a[0] == b[0] {
        lemma_lex_total(a.drop_first(), b.drop_first());
        if a != b {
            assert(a.drop_first() != b.drop_first()) by {
                if a.drop_first() == b.drop_first() {
                    assert(a =~= b) by {
                        assert forall|i: int| 0 <= i < a.len() implies a[i] == b[i] by {
                            if i > 0 {
                                assert(a[i] == a.drop_first()[i - 1]);
                                assert(b[i] == b.drop_first()[i - 1]);
                            }
                        }
                    }
                }
            }
        }
    } else if a.len() == 0 && b.len() == 0 {
        assert(a =~= b);
    }
}

pub proof fn lemma_lex_transitive(a: Seq<char>, b: Seq<char>, c: Seq<char>)
    requires
        lex_lt(a, b),
        lex_lt(b, c),
    ensures
        lex_lt(a, c),
    decreases a.len(),
{
    if a.len() > 0 && b.len() > 0 && c.len() > 0 {
        if a[0] == b[0] && b[0] == c[0] {
            lemma_lex_transitive(a.drop_first(), b.drop_first(), c.drop_first());
        }
    }
}

pub proof fn lemma_ranks_total(x: (Seq<char>, u32), y: (Seq<char>, u32))
    requires
        x.0 != y.0,
    ensures
        ranks_before(x, y) || ranks_before(y, x),
        !(ranks_before(x, y) && ranks_before(y, x)),
{
    lemma_lex_total(x.0, y.0);
}

pub proof fn lemma_ranks_transitive(x: (Seq<char>, u32), y: (Seq<char>, u32), z: (Seq<char>, u32))
    requires
        ranks_before(x, y),
        ranks_before(y, z),
    ensures
        ranks_before(x, z),
{
    if x.1 == y.1 && y.1 == z.1 {
        lemma_lex_transitive(x.0, y.0, z.0);
    }
}

/// Character-wise lexicographic comparison.
fn lex_less(a: &str, b: &str) -> (r: bool)
    ensures
        r == lex_lt(a@, b@),
{
    let x = chars_of(a);
    let y = chars_of(b);
    assert(x@.subrange(0, x@.len() as int) == x@);
    assert(y@.subrange(0, y@.len() as int) == y@);
    let mut i: usize = 0;
    while i < x.len() && i < y.len() && x[i] == y[i]
        invariant
            x@ == a@,
            y@ == b@,
            i <= x@.len(),
            i <= y@.len(),
            lex_lt(a@, b@) == lex_lt(x@.subrange(i as int, x@.len() as int), y@.subrange(i as int, y@.len() as int)),
        decreases x@.len() - i,
    {
        let ghost xs = x@.subrange(i as int, x@.len() as int);
        let ghost ys = y@.subrange(i as int, y@.len() as int);
        assert(xs.drop_first() == x@.subrange(i + 1, x@.len() as int));
        assert(ys.drop_first() == y@.subrange(i + 1, y@.len() as int));
        i = i + 1;
    }
    proof {
        assert(x@.subrange(0, x@.len() as int) == x@);
        assert(y@.subrange(0, y@.len() as int) == y@);
    }
    let ghost xs = x@.subrange(i as int, x@.len() as int);
    let ghost ys = y@.subrange(i as int, y@.len() as int);
    if i == x.len() {
        i < y.len()
    } else if i == y.len() {
        false
    } else {
        assert(xs[0] == x@[i as int] && ys[0] == y@[i as int]);
        x[i] < y[i]
    }
}

/// The values of facet `kind` that `r` carries.
fn values_of(r: &Rfc, kind: FacetKind) -> (v: Vec<String>)
    ensures
        v@.map_values(|s: String| s@) == facet_values(*r, kind),
{
    let single = match kind {
        FacetKind::WorkingGroup => &r.wg,
        FacetKind::Area => &r.area,
        FacetKind::Stream => &r.stream,
        FacetKind::Status => &r.current_status,
        FacetKind::Keyword => {
            let mut out: Vec<String> = Vec::new();
            for i in 0..r.keywords.len()
                invariant
                    out@.map_values(|s: String| s@) == r.keywords@.take(i as int).map_values(
                        |s: String| s@,
                    ),
            {
                let ghost before = out@;
                out.push(r.keywords[i].clone());
                assert(r.keywords@.take(i + 1) == r.keywords@.take(i as int).push(
                    r.keywords@[i as int],
                ));
                assert(out@.map_values(|s: String| s@) =~= before.map_values(|s: String| s@).push(
                    r.keywords@[i as int]@,
                ));
                assert(r.keywords@.take(i + 1).map_values(|s: String| s@) =~= r.keywords@.take(
                    i as int,
                ).map_values(|s: String| s@).push(r.keywords@[i as int]@));
            }
            assert(r.keywords@.take(r.keywords@.len() as int) == r.keywords@);
            return out;
        },
    };
    let mut out: Vec<String> = Vec::new();
    match single {
        Some(s) => {
            out.push(s.clone());
        },
        None => {},
    }
    assert(out@.map_values(|s: String| s@) == opt_values(*single));
    out
}

/// Some RFC among the first `n` of `rs` carries value `v` of facet `kind`.
pub open spec fn carried_before(rs: Seq<Rfc>, n: int, kind: FacetKind, v: Seq<char>) -> bool {
    exists|k: int| 0 <= k < n && k < rs.len() && #[trigger] carries(rs[k], kind, v)
}

/// `v` is one of the strings of `d`.
pub open spec fn listed(d: Seq<String>, v: Seq<char>) -> bool {
    exists|x: int| 0 <= x < d.len() && (#[trigger] d[x])@ == v
}

/// The strings of `d` are pairwise distinct.
pub open spec fn distinct_strings(d: Seq<String>) -> bool {
    forall|x: int, y: int| 0 <= x < y < d.len() ==> (#[trigger] d[x])@ != (#[trigger] d[y])@
}

/// The values of the facet buckets `fs` are pairwise distinct.
pub open spec fn distinct_values(fs: Seq<Facet>) -> bool {
    forall|a: int, b: int| 0 <= a < b < fs.len() ==> (#[trigger] fs[a]).value@ != (#[trigger] fs[b]).value@
}

/// `fs` is listed in rank order: more carriers first, ties by value.
pub open spec fn ranked(fs: Seq<Facet>) -> bool {
    forall|a: int, b: int| 0 <= a < b < fs.len() ==> ranks_before(facet_view(#[trigger] fs[a]), facet_view(#[trigger] fs[b]))
}

/// `r` carries value `v` of facet `kind`.
fn carries_value(r: &Rfc, kind: FacetKind, v: &str) -> (b: bool)
    ensures
        b == carries(*r, kind, v@),
{
    let vals = values_of(r, kind);
    let ghost vs = vals@.map_values(|s: String| s@);
    for t in 0..vals.len()
        invariant
            vs == vals@.map_values(|s: String| s@),
            vs == facet_values(*r, kind),
            forall|u: int| 0 <= u < t ==> vs[u] != v@,
    {
        if str_eq(vals[t].as_str(), v) {
            assert(vs[t as int] == v@);
            return true;
        }
    }
    false
}

/// The distinct values of facet `kind` carried by the RFCs of `rs`, in
/// order of first occurrence.
fn distinct_carried(rs: &Vec<Rfc>, kind: FacetKind) -> (d: Vec<String>)
    ensures
        distinct_strings(d@),
        forall|x: int| 0 <= x < d@.len() ==> carried_before(rs@, rs@.len() as int, kind, (#[trigger] d@[x])@),
        forall|k: int, v: Seq<char>|
            0 <= k < rs@.len() && #[trigger] carries(rs@[k], kind, v) ==> listed(d@, v),
{
    let mut d: Vec<String> = Vec::new();
    for i in 0..rs.len()
        invariant
            distinct_strings(d@),
            forall|x: int| 0 <= x < d@.len() ==> carried_before(rs@, i as int, kind, (#[trigger] d@[x])@),
            forall|k: int, v: Seq<char>| 0 <= k < i && #[trigger] carries(rs@[k], kind, v) ==> listed(d@, v),
    {
        let vals = values_of(&rs[i], kind);
        let ghost vs = vals@.map_values(|s: String| s@);
        for t in 0..vals.len()
            invariant
                i < rs@.len(),
                vs == vals@.map_values(|s: String| s@),
                vs == facet_values(rs@[i as int], kind),
                distinct_strings(d@),
                forall|x: int| 0 <= x < d@.len() ==> carried_before(rs@, i + 1, kind, (#[trigger] d@[x])@),
                forall|k: int, v: Seq<char>| 0 <= k < i && #[trigger] carries(rs@[k], kind, v) ==> listed(d@, v),
                forall|u: int| 0 <= u < t ==> listed(d@, #[trigger] vs[u]),
        {
            let ghost before = d@;
            let mut found = false;
            for x in 0..d.len()
                invariant
                    d@ == before,
                    t < vals@.len(),
                    !found ==> forall|y: int| 0 <= y < x ==> (#[trigger] d@[y])@ != vals@[t as int]@,
                    found ==> listed(d@, vals@[t as int]@),
            {
                if !found && str_eq(d[x].as_str(), vals[t].as_str()) {
                    found = true;
                }
            }
            proof {
                assert(vs[t as int] == vals@[t as int]@);
                assert(carries(rs@[i as int], kind, vs[t as int]));
            }
            if !found {
                d.push(vals[t].clone());
                proof {
                    let n = before.len() as int;
                    assert(d@[n]@ == vs[t as int]);
                    assert forall|x: int, y: int| 0 <= x < y < d@.len() implies (#[trigger] d@[x])@
                        != (#[trigger] d@[y])@ by {
                        if y < n {
                            assert(before[x]@ != before[y]@);
                        } else {
                            assert(d@[x] == before[x]);
                        }
                    }
                    assert forall|x: int| 0 <= x < d@.len() implies carried_before(
                        rs@,
                        i + 1,
                        kind,
                        (#[trigger] d@[x])@,
                    ) by {
                        if x < n {
                            assert(d@[x] == before[x]);
                        } else {
                            assert(carries(rs@[i as int], kind, d@[x]@));
                        }
                    }
                    assert forall|k: int, v: Seq<char>|
                        0 <= k < i && #[trigger] carries(rs@[k], kind, v) implies listed(d@, v) by {
                        let x = choose|x: int| 0 <= x < before.len() && (#[trigger] before[x])@ == v;
                        assert(d@[x] == before[x]);
                    }
                    assert forall|u: int| 0 <= u < t + 1 implies listed(d@, #[trigger] vs[u]) by {
                        if u < t {
                            let x = choose|x: int| 0 <= x < before.len() && (#[trigger] before[x])@ == vs[u];
                            assert(d@[x] == before[x]);
                        } else {
                            assert(d@[n]@ == vs[u]);
                        }
                    }
                }
            }
        }
        proof {
            assert(vs.len() == vals@.len());
            assert forall|x: int| 0 <= x < d@.len() implies carried_before(
                rs@,
                i + 1,
                kind,
                (#[trigger] d@[x])@,
            ) by {}
            assert forall|k: int, v: Seq<char>|
                0 <= k < i + 1 && #[trigger] carries(rs@[k], kind, v) implies listed(d@, v) by {
                if k == i {
                    let u = choose|u: int| 0 <= u < vs.len() && vs[u] == v;
                    assert(listed(d@, vs[u]));
                }
            }
        }
    }
    d
}

proof fn lemma_carrier_count_push(rs: Seq<Rfc>, x: Rfc, kind: FacetKind, v: Seq<char>)
    ensures
        carrier_count(rs.push(x), kind, v) == carrier_count(rs, kind, v) + if carries(x, kind, v) {
            1nat
        } else {
            0nat
        },
{
    assert(rs.push(x).drop_last() == rs);
}

proof fn lemma_carrier_count_positive(rs: Seq<Rfc>, kind: FacetKind, v: Seq<char>, k: int)
    requires
        0 <= k < rs.len(),
        carries(rs[k], kind, v),
    ensures
        carrier_count(rs, kind, v) > 0,
    decreases rs.len(),
{
    if k < rs.len() - 1 {
        assert(rs.drop_last()[k] == rs[k]);
        lemma_carrier_count_positive(rs.drop_last(), kind, v, k);
    }
}

/// Number of RFCs of `rs` that carry value `v` of facet `kind`.
fn count_carriers(rs: &Vec<Rfc>, kind: FacetKind, v: &str) -> (n: u32)
    requires
        rs@.len() <= u32::MAX,
    ensures
        n == carrier_count(rs@, kind, v@),
{
    let mut n: u32 = 0;
    for k in 0..rs.len()
        invariant
            rs@.len() <= u32::MAX,
            n == carrier_count(rs@.take(k as int), kind, v@),
            n <= k,
    {
        proof {
            assert(rs@.take(k + 1) == rs@.take(k as int).push(rs@[k as int]));
            lemma_carrier_count_push(rs@.take(k as int), rs@[k as int], kind, v@);
        }
        if carries_value(&rs[k], kind, v) {
            n = n + 1;
        }
    }
    assert(rs@.take(rs@.len() as int) == rs@);
    n
}

/// `x` is listed before `y`.
fn ranks_before_exec(x: &Facet, y: &Facet) -> (b: bool)
    ensures
        b == ranks_before(facet_view(*x), facet_view(*y)),
{
    if x.count != y.count {
        x.count > y.count
    } else {
        lex_less(x.value.as_str(), y.value.as_str())
    }
}

/// Insert `f` into the ranked listing `out` at its place.
fn insert_ranked(out: &mut Vec<Facet>, f: Facet)
    requires
        ranked(old(out)@),
        distinct_values(old(out)@),
        forall|a: int| 0 <= a < old(out)@.len() ==> (#[trigger] old(out)@[a]).value@ != f.value@,
    ensures
        ranked(final(out)@),
        distinct_values(final(out)@),
        forall|a: int|
            0 <= a < final(out)@.len() ==> #[trigger] final(out)@[a] == f || old(out)@.contains(
                final(out)@[a],
            ),
        final(out)@.contains(f),
        forall|b: int| 0 <= b < old(out)@.len() ==> final(out)@.contains(#[trigger] old(out)@[b]),
{
    let mut p: usize = 0;
    while p < out.len() && ranks_before_exec(&out[p], &f)
        invariant
            p <= out@.len(),
            forall|q: int| 0 <= q < p ==> ranks_before(facet_view(#[trigger] out@[q]), facet_view(f)),
        decreases out@.len() - p,
    {
        p = p + 1;
    }
    let ghost o = out@;
    proof {
        assert forall|q: int| p <= q < o.len() implies ranks_before(
            facet_view(f),
            facet_view(#[trigger] o[q]),
        ) by {
            lemma_ranks_total(facet_view(o[p as int]), facet_view(f));
            if q > p {
                lemma_ranks_transitive(facet_view(f), facet_view(o[p as int]), facet_view(o[q]));
            }
        }
    }
    out.insert(p, f);
    proof {
        let pp = p as int;
        o.insert_ensures(pp, f);
        assert(out@ == o.insert(pp, f));
        assert forall|a: int, b: int| 0 <= a < b < out@.len() implies ranks_before(
            facet_view(#[trigger] out@[a]),
            facet_view(#[trigger] out@[b]),
        ) by {
            if b < pp {
                assert(out@[a] == o[a] && out@[b] == o[b]);
            } else if b == pp {
                assert(out@[a] == o[a]);
            } else if a == pp {
                assert(out@[b] == o[b - 1]);
            } else if a < pp {
                assert(out@[a] == o[a] && out@[b] == o[b - 1]);
            } else {
                assert(out@[a] == o[a - 1] && out@[b] == o[b - 1]);
            }
        }
        assert forall|a: int, b: int| 0 <= a < b < out@.len() implies (#[trigger] out@[a]).value@
            != (#[trigger] out@[b]).value@ by {
            if b < pp {
                assert(out@[a] == o[a] && out@[b] == o[b]);
            } else if b == pp {
                assert(out@[a] == o[a]);
            } else if a == pp {
                assert(out@[b] == o[b - 1]);
            } else if a < pp {
                assert(out@[a] == o[a] && out@[b] == o[b - 1]);
            } else {
                assert(out@[a] == o[a - 1] && out@[b] == o[b - 1]);
            }
        }
        assert forall|a: int| 0 <= a < out@.len() implies #[trigger] out@[a] == f || o.contains(
            out@[a],
        ) by {
            if a < pp {
                assert(out@[a] == o[a]);
            } else if a > pp {
                assert(out@[a] == o[a - 1]);
            }
        }
        assert(out@[pp] == f);
        assert forall|b: int| 0 <= b < o.len() implies out@.contains(#[trigger] o[b]) by {
            if b < pp {
                assert(out@[b] == o[b]);
            } else {
                assert(out@[b + 1] == o[b]);
            }
        }
    }
}

/// `f` is a bucket of facet `kind` over `rs` that passes the filter.
pub open spec fn valid_bucket(rs: Seq<Rfc>, kind: FacetKind, contains: Option<Seq<char>>, f: Facet) -> bool {
    &&& facet_selected(f.value@, contains)
    &&& f.count == carrier_count(rs, kind, f.value@)
    &&& f.count > 0
}

/// Every bucket of `out` is valid.
#[verifier::opaque]
spec fn all_valid(rs: Seq<Rfc>, kind: FacetKind, filt: Option<Seq<char>>, out: Seq<Facet>) -> bool {
    forall|a: int| 0 <= a < out.len() ==> valid_bucket(rs, kind, filt, #[trigger] out[a])
}

/// Every bucket of `out` holds one of the first `x` strings of `d`.
#[verifier::opaque]
spec fn from_prefix(d: Seq<String>, x: int, out: Seq<Facet>) -> bool {
    forall|a: int| 0 <= a < out.len() ==> exists|y: int| 0 <= y < x && (#[trigger] d[y])@ == (#[trigger] out[a]).value@
}

/// Every selected string among the first `x` of `d` has a bucket in `out`.
#[verifier::opaque]
spec fn covers_prefix(d: Seq<String>, x: int, out: Seq<Facet>, filt: Option<Seq<char>>) -> bool {
    forall|y: int|
        0 <= y < x && facet_selected((#[trigger] d[y])@, filt) ==> exists|a: int|
            0 <= a < out.len() && (#[trigger] out[a]).value@ == d[y]@
}

/// What `insert_ranked` guarantees of the listing after inserting `f` into `o`.
spec fn inserted(out: Seq<Facet>, o: Seq<Facet>, f: Facet) -> bool {
    &&& forall|a: int| 0 <= a < out.len() ==> #[trigger] out[a] == f || o.contains(out[a])
    &&& out.contains(f)
    &&& forall|b: int| 0 <= b < o.len() ==> out.contains(#[trigger] o[b])
}

proof fn lemma_keep_step(
    rs: Seq<Rfc>,
    kind: FacetKind,
    filt: Option<Seq<char>>,
    d: Seq<String>,
    x: int,
    o: Seq<Facet>,
    out: Seq<Facet>,
    f: Facet,
)
    requires
        0 <= x < d.len(),
        all_valid(rs, kind, filt, o),
        from_prefix(d, x, o),
        covers_prefix(d, x, o, filt),
        inserted(out, o, f),
        f.value@ == d[x]@,
        valid_bucket(rs, kind, filt, f),
    ensures
        all_valid(rs, kind, filt, out),
        from_prefix(d, x + 1, out),
        covers_prefix(d, x + 1, out, filt),
{
    reveal(all_valid);
    reveal(from_prefix);
    reveal(covers_prefix);
    assert forall|a: int| 0 <= a < out.len() implies valid_bucket(rs, kind, filt, #[trigger] out[a])
        && exists|y: int| 0 <= y < x + 1 && (#[trigger] d[y])@ == out[a].value@ by {
        if out[a] == f {
            assert(d[x]@ == out[a].value@);
        } else {
            let b = choose|b: int| 0 <= b < o.len() && o[b] == out[a];
            assert(valid_bucket(rs, kind, filt, o[b]));
            let y = choose|y: int| 0 <= y < x && (#[trigger] d[y])@ == o[b].value@;
        }
    }
    assert forall|y: int|
        0 <= y < x + 1 && facet_selected((#[trigger] d[y])@, filt) implies exists|a: int|
            0 <= a < out.len() && (#[trigger] out[a]).value@ == d[y]@ by {
        if y < x {
            let b = choose|b: int| 0 <= b < o.len() && (#[trigger] o[b]).value@ == d[y]@;
            assert(out.contains(o[b]));
        } else {
            assert(out.contains(f));
        }
    }
}

proof fn lemma_skip_step(d: Seq<String>, x: int, out: Seq<Facet>, filt: Option<Seq<char>>)
    requires
        0 <= x < d.len(),
        !facet_selected(d[x]@, filt),
        from_prefix(d, x, out),
        covers_prefix(d, x, out, filt),
    ensures
        from_prefix(d, x + 1, out),
        covers_prefix(d, x + 1, out, filt),
{
    reveal(from_prefix);
    reveal(covers_prefix);
    assert forall|a: int| 0 <= a < out.len() implies exists|y: int|
        0 <= y < x + 1 && (#[trigger] d[y])@ == (#[trigger] out[a]).value@ by {
        let y = choose|y: int| 0 <= y < x && (#[trigger] d[y])@ == out[a].value@;
    }
}

proof fn lemma_fresh_value(d: Seq<String>, x: int, o: Seq<Facet>, f: Facet)
    requires
        0 <= x < d.len(),
        distinct_strings(d),
        from_prefix(d, x, o),
        f.value@ == d[x]@,
    ensures
        forall|a: int| 0 <= a < o.len() ==> (#[trigger] o[a]).value@ != f.value@,
{
    reveal(from_prefix);
    assert forall|a: int| 0 <= a < o.len() implies (#[trigger] o[a]).value@ != f.value@ by {
        let y = choose|y: int| 0 <= y < x && (#[trigger] d[y])@ == o[a].value@;
        assert(d[y]@ != d[x]@);
    }
}

/// The facet listing of `kind` over `rs`: every distinct value that some RFC
/// carries and that passes the optional case-insensitive `contains` filter,
/// with the number of RFCs carrying it; most carried first, ties broken by
/// value.
pub fn compute_facets(rs: &Vec<Rfc>, kind: FacetKind, contains: Option<&str>) -> (out: Vec<Facet>)
    requires
        rs@.len() <= u32::MAX,
    ensures
        ranked(out@),
        distinct_values(out@),
        forall|a: int|
            0 <= a < out@.len() ==> valid_bucket(rs@, kind, opt_str_view(contains), #[trigger] out@[a]),
        forall|k: int, v: Seq<char>|
            0 <= k < rs@.len() && #[trigger] carries(rs@[k], kind, v) && facet_selected(
                v,
                opt_str_view(contains),
            ) ==> exists|a: int| 0 <= a < out@.len() && (#[trigger] out@[a]).value@ == v,
{
    let ghost filt = opt_str_view(contains);
    let d = distinct_carried(rs, kind);
    let mut out: Vec<Facet> = Vec::new();
    proof {
        reveal(all_valid);
        reveal(from_prefix);
        reveal(covers_prefix);
    }
    for x in 0..d.len()
        invariant
            rs@.len() <= u32::MAX,
            filt == opt_str_view(contains),
            distinct_strings(d@),
            forall|y: int| 0 <= y < d@.len() ==> carried_before(rs@, rs@.len() as int, kind, (#[trigger] d@[y])@),
            ranked(out@),
            distinct_values(out@),
            all_valid(rs@, kind, filt, out@),
            from_prefix(d@, x as int, out@),
            covers_prefix(d@, x as int, out@, filt),
    {
        let keep = match contains {
            Some(c) => contains_ignore_ascii_case(d[x].as_str(), c),
            None => true,
        };
        let ghost o = out@;
        if keep {
            let n = count_carriers(rs, kind, d[x].as_str());
            proof {
                let k = choose|k: int| 0 <= k < rs@.len() && #[trigger] carries(rs@[k], kind, d@[x as int]@);
                lemma_carrier_count_positive(rs@, kind, d@[x as int]@, k);
            }
            let f = Facet { value: d[x].clone(), count: n };
            proof {
                lemma_fresh_value(d@, x as int, o, f);
            }
            insert_ranked(&mut out, f);
            proof {
                lemma_keep_step(rs@, kind, filt, d@, x as int, o, out@, f);
            }
        } else {
            proof {
                lemma_skip_step(d@, x as int, out@, filt);
            }
        }
    }
    proof {
        reveal(all_valid);
        reveal(covers_prefix);
        assert forall|k: int, v: Seq<char>|
            0 <= k < rs@.len() && #[trigger] carries(rs@[k], kind, v) && facet_selected(v, filt) implies exists|a: int|
                0 <= a < out@.len() && (#[trigger] out@[a]).value@ == v by {
            let y = choose|y: int| 0 <= y < d@.len() && (#[trigger] d@[y])@ == v;
        }
    }
    out
}

} // verus!
