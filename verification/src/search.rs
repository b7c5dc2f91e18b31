//! Full-text query handling: the literal-phrase fallback for queries that
//! the search engine rejects.
use crate::text::{chars_of, is_unicode_whitespace, is_whitespace};
use vstd::prelude::*;

verus! {

/// The whitespace-separated words of `s` (what `str::split_whitespace` yields).
pub open spec fn words(s: Seq<char>) -> Seq<Seq<char>>
    decreases s.len(),
{
    if s.len() == 0 {
        seq![]
    } else {
        let p = s.drop_last();
        let c = s.last();
        let w = words(p);
        if is_unicode_whitespace(c) {
            w
        } else if p.len() == 0 || is_unicode_whitespace(p.last()) {
            w.push(seq![c])
        } else {
            w.update(w.len() - 1, w.last().push(c))
        }
    }
}

/// `w` with every double quote removed, then wrapped in one pair of double
/// quotes.
pub open spec fn quoted(w: Seq<char>) -> Seq<char> {
    seq!['"'] + strip_quotes(w) + seq!['"']
}

/// `c` is not a double quote.
pub open spec fn not_quote(c: char) -> bool {
    c != '"'
}

/// `w` without any of its double quotes.
pub open spec fn strip_quotes(w: Seq<char>) -> Seq<char> {
    w.filter(|c: char| not_quote(c))
}

/// The words of `ws` joined with single spaces.
pub open spec fn join_space(ws: Seq<Seq<char>>) -> Seq<char>
    decreases ws.len(),
{
    if ws.len() == 0 {
        seq![]
    } else if ws.len() == 1 {
        ws[0]
    } else {
        join_space(ws.drop_last()) + seq![' '] + ws.last()
    }
}

/// The query as a sequence of literal phrases: every whitespace-separated
/// token, with every double quote removed, wrapped in double quotes.
pub open spec fn quote_tokens(q: Seq<char>) -> Seq<char> {
    join_space(words(q).map_values(|w: Seq<char>| quoted(w)))
}

/// A word is never empty and holds no whitespace.
pub open spec fn is_word(w: Seq<char>) -> bool {
    w.len() > 0 && forall|i: int| 0 <= i < w.len() ==> !is_unicode_whitespace(#[trigger] w[i])
}

pub proof fn lemma_words_are_words(s: Seq<char>)
    ensures
        forall|k: int| 0 <= k < words(s).len() ==> is_word(#[trigger] words(s)[k]),
        s.len() > 0 && !is_unicode_whitespace(s.last()) ==> words(s).len() > 0 && words(s).last()
            .len() > 0 && words(s).last().last() == s.last(),
    decreases s.len(),
{
    if s.len() > 0 {
        let p = s.drop_last();
        lemma_words_are_words(p);
        let c = s.last();
        let w = words(p);
        if !is_unicode_whitespace(c) && !(p.len() == 0 || is_unicode_whitespace(p.last())) {
            let nw = w.last().push(c);
            assert(is_word(nw)) by {
                assert forall|i: int| 0 <= i < nw.len() implies !is_unicode_whitespace(
                    #[trigger] nw[i],
                ) by {
                    if i < nw.len() - 1 {
                        assert(nw[i] == w.last()[i]);
                    }
                }
            }
        }
    }
}

/// The range `r` of `v` is at most `bound` and holds exactly `w`.
pub open spec fn range_holds(v: Seq<char>, r: (usize, usize), bound: int, w: Seq<char>) -> bool {
    r.0 <= r.1 <= bound && v.subrange(r.0 as int, r.1 as int) == w
}

/// Positions `[start, end)` of each word of `v`.
fn word_ranges(v: &Vec<char>) -> (r: Vec<(usize, usize)>)
    ensures
        r@.len() == words(v@).len(),
        forall|k: int|
            0 <= k < r@.len() ==> range_holds(v@, #[trigger] r@[k], v@.len() as int, words(v@)[k]),
{
    let mut r: Vec<(usize, usize)> = Vec::new();
    let mut in_word = false;
    let mut start: usize = 0;
    let n = v.len();
    for i in 0..n
        invariant
            n == v@.len(),
            start <= i,
            in_word ==> i > 0 && !is_unicode_whitespace(v@[i - 1]),
            !in_word ==> i == 0 || is_unicode_whitespace(v@[i - 1]),
            r@.len() + (if in_word {
                1int
            } else {
                0int
            }) == words(v@.take(i as int)).len(),
            forall|k: int|
                0 <= k < r@.len() ==> range_holds(v@, #[trigger] r@[k], i as int, words(v@.take(i as int))[k]),
            in_word ==> v@.subrange(start as int, i as int) == words(v@.take(i as int)).last(),
    {
        let ghost p = v@.take(i as int);
        let ghost s = v@.take(i + 1);
        let ghost w = words(p);
        let ghost old_r = r@;
        proof {
            assert(s.drop_last() == p);
            assert(s.last() == v@[i as int]);
            if i > 0 {
                assert(p.last() == v@[i - 1]);
            }
        }
        let c = v[i];
        if is_whitespace(c) {
            assert(words(s) == w);
            if in_word {
                r.push((start, i));
                in_word = false;
                proof {
                    assert(r@[r@.len() - 1] == (start, i));
                    assert forall|k: int| 0 <= k < r@.len() implies range_holds(
                        v@,
                        #[trigger] r@[k],
                        i + 1,
                        words(s)[k],
                    ) by {
                        if k < old_r.len() {
                            assert(r@[k] == old_r[k]);
                        }
                    }
                }
            }
        } else if !in_word {
            in_word = true;
            start = i;
            proof {
                assert(words(s) == w.push(seq![c]));
                assert(v@.subrange(i as int, i + 1) == seq![c]);
                assert forall|k: int| 0 <= k < r@.len() implies range_holds(
                    v@,
                    #[trigger] r@[k],
                    i + 1,
                    words(s)[k],
                ) by {
                    assert(words(s)[k] == w[k]);
                }
            }
        } else {
            proof {
                assert(words(s) == w.update(w.len() - 1, w.last().push(c)));
                assert(v@.subrange(start as int, i + 1) == v@.subrange(start as int, i as int).push(
                    c,
                ));
                assert forall|k: int| 0 <= k < r@.len() implies range_holds(
                    v@,
                    #[trigger] r@[k],
                    i + 1,
                    words(s)[k],
                ) by {
                    assert(words(s)[k] == w[k]);
                }
            }
        }
    }
    if in_word {
        let ghost old_r = r@;
        r.push((start, n));
        proof {
            assert forall|k: int| 0 <= k < r@.len() implies range_holds(
                v@,
                #[trigger] r@[k],
                n as int,
                words(v@.take(n as int))[k],
            ) by {
                if k < old_r.len() {
                    assert(r@[k] == old_r[k]);
                }
            }
        }
    }
    assert(v@.take(n as int) == v@);
    r
}

/// Append the characters of `v[s..e]` that are not double quotes to `out`.
fn push_unquoted(out: &mut String, v: &Vec<char>, s: usize, e: usize)
    requires
        s <= e <= v@.len(),
    ensures
        final(out)@ == old(out)@ + strip_quotes(v@.subrange(s as int, e as int)),
{
    let ghost p = |c: char| not_quote(c);
    let mut j = s;
    while j < e
        invariant
            s <= j <= e <= v@.len(),
            p == (|c: char| not_quote(c)),
            out@ == old(out)@ + v@.subrange(s as int, j as int).filter(p),
        decreases e - j,
    {
        proof {
            assert(v@.subrange(s as int, j + 1) == v@.subrange(s as int, j as int).push(v@[j as int]));
            v@.subrange(s as int, j as int).lemma_filter_push(v@[j as int], p);
        }
        if v[j] != '"' {
            out.push(v[j]);
        }
        j = j + 1;
    }
}

/// Wrap each whitespace-separated token in double quotes (after stripping
/// any embedded quotes), turning the query into a sequence of literal
/// phrases implicitly AND-joined.
pub fn quote_each_token(q: &str) -> (r: String)
    ensures
        r@ == quote_tokens(q@),
{
    let v = chars_of(q);
    let ranges = word_ranges(&v);
    let ghost ws = words(v@);
    let ghost qs = ws.map_values(|w: Seq<char>| quoted(w));
    let mut out = String::new();
    let n = ranges.len();
    for k in 0..n
        invariant
            n == ranges@.len() == ws.len(),
            ws == words(v@),
            v@ == q@,
            qs == ws.map_values(|w: Seq<char>| quoted(w)),
            forall|j: int|
                0 <= j < ranges@.len() ==> range_holds(
                    v@,
                    #[trigger] ranges@[j],
                    v@.len() as int,
                    ws[j],
                ),
            out@ == join_space(qs.take(k as int)),
    {
        let (a, b) = ranges[k];
        assert(range_holds(v@, ranges@[k as int], v@.len() as int, ws[k as int]));
        let ghost before = out@;
        if k > 0 {
            out.push(' ');
        }
        out.push('"');
        push_unquoted(&mut out, &v, a, b);
        out.push('"');
        proof {
            assert(qs[k as int] == quoted(ws[k as int]));
            assert(quoted(ws[k as int]) == seq!['"'] + strip_quotes(v@.subrange(a as int, b as int))
                + seq!['"']);
            let tk = qs.take(k + 1);
            assert(tk.drop_last() == qs.take(k as int));
            assert(tk.last() == qs[k as int]);
            if k == 0 {
                assert(tk.len() == 1);
                assert(out@ == qs[k as int]);
            } else {
                assert(out@ == before + seq![' '] + qs[k as int]);
            }
        }
    }
    assert(qs.take(n as int) == qs);
    out
}

/// The query to retry with when the search engine rejects `query`: its
/// literal-phrase form, unless that is the query itself.
pub fn retry_query(query: &str) -> (r: Option<String>)
    ensures
        match r {
            Some(s) => s@ == quote_tokens(query@) && s@ != query@,
            None => quote_tokens(query@) == query@,
        },
{
    let sanitized = quote_each_token(query);
    let v = chars_of(query);
    let w = chars_of(sanitized.as_str());
    if v.len() != w.len() {
        assert(v@.len() != w@.len());
        return Some(sanitized);
    }
    let mut i: usize = 0;
    while i < v.len()
        invariant
            v@ == query@,
            w@ == sanitized@,
            sanitized@ == quote_tokens(query@),
            v@.len() == w@.len(),
            i <= v@.len(),
            forall|j: int| 0 <= j < i ==> v@[j] == w@[j],
        decreases v@.len() - i,
    {
        if v[i] != w[i] {
            assert(v@[i as int] != w@[i as int]);
            return Some(sanitized);
        }
        i = i + 1;
    }
    assert(v@ =~= w@);
    None
}

proof fn lemma_words_append_word(s: Seq<char>, b: Seq<char>)
    requires
        is_word(b),
        s.len() == 0 || is_unicode_whitespace(s.last()),
    ensures
        words(s + b) == words(s).push(b),
    decreases b.len(),
{
    let c = b.last();
    let bp = b.drop_last();
    assert((s + b).drop_last() == s + bp);
    assert((s + b).last() == c);
    assert(!is_unicode_whitespace(b[b.len() - 1]));
    if bp.len() == 0 {
        assert(s + bp == s);
        assert(b == seq![c]);
    } else {
        assert(is_word(bp)) by {
            assert forall|i: int| 0 <= i < bp.len() implies !is_unicode_whitespace(#[trigger] bp[i]) by {
                assert(bp[i] == b[i]);
            }
        }
        lemma_words_append_word(s, bp);
        assert((s + bp).last() == bp.last());
        assert(bp.last() == b[b.len() - 2]);
        assert(!is_unicode_whitespace(b[b.len() - 2]));
        let w = words(s + bp);
        assert(w.last() == bp);
        assert(bp.push(c) == b);
        assert(w.update(w.len() - 1, w.last().push(c)) == words(s).push(b));
    }
}

proof fn lemma_words_join(xs: Seq<Seq<char>>)
    requires
        forall|k: int| 0 <= k < xs.len() ==> is_word(#[trigger] xs[k]),
    ensures
        words(join_space(xs)) == xs,
    decreases xs.len(),
{
    if xs.len() == 1 {
        assert(is_word(xs[0]));
        lemma_words_append_word(seq![], xs[0]);
        assert(seq![] + xs[0] == xs[0]);
        assert(seq![].push(xs[0]) == xs);
    } else if xs.len() > 1 {
        let init = xs.drop_last();
        assert forall|k: int| 0 <= k < init.len() implies is_word(#[trigger] init[k]) by {
            assert(init[k] == xs[k]);
        }
        lemma_words_join(init);
        let j = join_space(init) + seq![' '];
        assert(j.drop_last() == join_space(init));
        assert(words(j) == words(join_space(init)));
        assert(is_word(xs[xs.len() - 1]));
        lemma_words_append_word(j, xs.last());
        assert(init.push(xs.last()) == xs);
    }
}

/// Removing the double quotes of a word leaves characters of the word, none
/// a quote, and removing them again changes nothing.
proof fn lemma_strip_quotes(w: Seq<char>)
    ensures
        forall|i: int| 0 <= i < strip_quotes(w).len() ==> not_quote(#[trigger] strip_quotes(w)[i]),
        is_word(w) ==> forall|i: int|
            0 <= i < strip_quotes(w).len() ==> !is_unicode_whitespace(#[trigger] strip_quotes(w)[i]),
        strip_quotes(strip_quotes(w)) == strip_quotes(w),
    decreases w.len(),
{
    let p = |c: char| not_quote(c);
    if w.len() > 0 {
        let x = w.drop_last();
        lemma_strip_quotes(x);
        assert(w == x.push(w.last()));
        x.lemma_filter_push(w.last(), p);
        x.filter(p).lemma_filter_push(w.last(), p);
        if is_word(w) {
            assert(is_word(x) || x.len() == 0) by {
                if x.len() > 0 {
                    assert forall|i: int| 0 <= i < x.len() implies !is_unicode_whitespace(#[trigger] x[i]) by {
                        assert(x[i] == w[i]);
                    }
                }
            }
            assert(!is_unicode_whitespace(w[w.len() - 1]));
            if x.len() == 0 {
                assert(x.filter(p) =~= Seq::<char>::empty());
            }
        }
    } else {
        assert(w.filter(p) =~= Seq::<char>::empty());
        assert(w.filter(p).filter(p) =~= Seq::<char>::empty());
    }
}

proof fn lemma_quoted_fixed(w: Seq<char>)
    requires
        is_word(w),
    ensures
        is_word(quoted(w)),
        quoted(quoted(w)) == quoted(w),
{
    let p = |c: char| not_quote(c);
    let t = strip_quotes(w);
    lemma_strip_quotes(w);
    let q = quoted(w);
    assert(q == seq!['"'] + t + seq!['"']);
    assert forall|i: int| 0 <= i < q.len() implies !is_unicode_whitespace(#[trigger] q[i]) by {
        if 0 < i < q.len() - 1 {
            assert(q[i] == t[i - 1]);
        }
    }
    Seq::filter_distributes_over_add(seq!['"'] + t, seq!['"'], p);
    Seq::filter_distributes_over_add(seq!['"'], t, p);
    reveal_with_fuel(Seq::filter, 2);
    assert(seq!['"'].filter(p) =~= Seq::<char>::empty());
    assert(strip_quotes(q) =~= t.filter(p));
}

/// Quoting a query's tokens a second time changes nothing: the literal-phrase
/// form of a query is its own literal-phrase form.
pub proof fn law_quote_tokens_idempotent(q: Seq<char>)
    ensures
        quote_tokens(quote_tokens(q)) == quote_tokens(q),
{
    let ws = words(q);
    lemma_words_are_words(q);
    let qs = ws.map_values(|w: Seq<char>| quoted(w));
    assert forall|k: int| 0 <= k < qs.len() implies is_word(#[trigger] qs[k]) by {
        lemma_quoted_fixed(ws[k]);
    }
    lemma_words_join(qs);
    let qqs = qs.map_values(|w: Seq<char>| quoted(w));
    assert forall|k: int| 0 <= k < qqs.len() implies #[trigger] qqs[k] == qs[k] by {
        lemma_quoted_fixed(ws[k]);
    }
    assert(qqs == qs);
}

/// The answer of a search: the first attempt when it succeeded; otherwise
/// the attempt with the literal-phrase query when one was made and
/// succeeded; otherwise the first attempt's error.
pub fn search_answer<T, E>(first: Result<T, E>, retried: Option<Result<T, E>>) -> (r: Result<T, E>)
    ensures
        first is Ok ==> r == first,
        first is Err ==> match retried {
            Some(Ok(x)) => r == Ok::<T, E>(x),
            _ => r == first,
        },
{
    match first {
        Ok(x) => Ok(x),
        Err(e) => match retried {
            Some(Ok(y)) => Ok(y),
            _ => Err(e),
        },
    }
}

} // verus!
