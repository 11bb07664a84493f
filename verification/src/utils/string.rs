//! Literal text replacement: the substitution half of the template
//! engine.  Substitution replaces the first occurrence of a key and
//! rescans from the start, repeating until no occurrence remains; its
//! result is the fixed point of those rounds, and callers carry the
//! precondition that the rounds reach one.  A single left-to-right
//! pass (`replace_chars`) also exists for the validation-message
//! rendering, which substitutes each token once.

use vstd::prelude::*;

use crate::vars::{entries_lookup, VarEntry, Vars};

verus! {

/// `pat` occurs in `s` starting at `i`.
pub open spec fn match_at(s: Seq<char>, pat: Seq<char>, i: int) -> bool {
    0 <= i && i + pat.len() <= s.len() && s.subrange(i, i + pat.len() as int) == pat
}

/// `pat` occurs somewhere in `s`.
pub open spec fn contains_seq(s: Seq<char>, pat: Seq<char>) -> bool {
    exists|i: int| match_at(s, pat, i)
}

/// Replace every occurrence of `pat` in `s` by `rep`, scanning left to
/// right and continuing after each replaced stretch.  An empty `pat`
/// leaves `s` unchanged.
pub open spec fn spec_replace_all(s: Seq<char>, pat: Seq<char>, rep: Seq<char>) -> Seq<char>
    decreases s.len(),
{
    if pat.len() == 0 || s.len() < pat.len() {
        s
    } else if s.subrange(0, pat.len() as int) == pat {
        rep + spec_replace_all(s.skip(pat.len() as int), pat, rep)
    } else {
        seq![s[0]] + spec_replace_all(s.skip(1), pat, rep)
    }
}

/// The characters of `s`, in order.
pub fn str_to_chars(s: &str) -> (r: Vec<char>)
    ensures
        r@ == s@,
{
    let n = s.unicode_len();
    let mut r: Vec<char> = Vec::new();
    let mut i: usize = 0;
    while i < n
        invariant
            n == s@.len(),
            i <= n,
            r@ =~= s@.subrange(0, i as int),
        decreases n - i,
    {
        r.push(s.get_char(i));
        proof {
            assert(r@ =~= s@.subrange(0, i + 1 as int));
        }
        i = i + 1;
    }
    proof {
        assert(r@ =~= s@);
    }
    r
}

/// Relies on `core::iter::Iterator::collect`, which builds a `String`
/// holding exactly the iterated characters in order.
#[verifier::external_body]
pub fn chars_to_string(v: &Vec<char>) -> (r: String)
    ensures
        r@ == v@,
{
    v.iter().collect()
}

/// `pat` read against `s` at offset `i`.
pub fn chars_match_at(s: &Vec<char>, pat: &Vec<char>, i: usize) -> (r: bool)
    requires
        i + pat@.len() <= s@.len(),
    ensures
        r == (s@.subrange(i as int, i + pat@.len() as int) == pat@),
{
    let m = pat.len();
    let n = s.len();
    let mut j: usize = 0;
    while j < m
        invariant
            m == pat@.len(),
            n == s@.len(),
            i + m <= n,
            j <= m,
            forall|t: int| 0 <= t < j ==> s@[i + t] == pat@[t],
        decreases m - j,
    {
        if s[i + j] != pat[j] {
            proof {
                assert(s@.subrange(i as int, i + pat@.len() as int)[j as int] == s@[i + j]);
            }
            return false;
        }
        j = j + 1;
    }
    proof {
        assert(s@.subrange(i as int, i + pat@.len() as int) =~= pat@);
    }
    true
}

/// Replace every occurrence of `pat` by `rep` in `s`, left to right.
pub fn replace_chars(s: &Vec<char>, pat: &Vec<char>, rep: &Vec<char>) -> (r: Vec<char>)
    ensures
        r@ == spec_replace_all(s@, pat@, rep@),
{
    let n = s.len();
    let m = pat.len();
    let mut r: Vec<char> = Vec::new();
    if m == 0 {
        let mut i: usize = 0;
        while i < n
            invariant
                n == s@.len(),
                i <= n,
                r@ =~= s@.subrange(0, i as int),
            decreases n - i,
        {
            r.push(s[i]);
            proof {
                assert(r@ =~= s@.subrange(0, i + 1 as int));
            }
            i = i + 1;
        }
        proof {
            assert(r@ =~= s@);
        }
        return r;
    }
    let mut i: usize = 0;
    proof {
        assert(s@.skip(0) =~= s@);
        assert(r@ =~= Seq::<char>::empty());
        assert(r@ + spec_replace_all(s@, pat@, rep@) =~= spec_replace_all(s@, pat@, rep@));
    }
    while i < n
        invariant
            n == s@.len(),
            m == pat@.len(),
            m >= 1,
            i <= n,
            spec_replace_all(s@, pat@, rep@) == r@ + spec_replace_all(
                s@.skip(i as int),
                pat@,
                rep@,
            ),
        decreases n - i,
    {
        let ghost tail = s@.skip(i as int);
        if m <= n - i && chars_match_at(s, pat, i) {
            proof {
                assert(tail.subrange(0, m as int) =~= s@.subrange(i as int, i + m as int));
                assert(spec_replace_all(tail, pat@, rep@) == rep@ + spec_replace_all(
                    tail.skip(m as int),
                    pat@,
                    rep@,
                ));
                assert(tail.skip(m as int) =~= s@.skip(i + m as int));
            }
            let mut j: usize = 0;
            let ghost r_mid = r@;
            while j < rep.len()
                invariant
                    j <= rep@.len(),
                    r@ =~= r_mid + rep@.subrange(0, j as int),
                decreases rep@.len() - j,
            {
                r.push(rep[j]);
                proof {
                    assert(r@ =~= r_mid + rep@.subrange(0, j + 1 as int));
                }
                j = j + 1;
            }
            proof {
                assert(r@ =~= r_mid + rep@);
                assert((r_mid + rep@) + spec_replace_all(s@.skip(i + m as int), pat@, rep@)
                    =~= r_mid + (rep@ + spec_replace_all(s@.skip(i + m as int), pat@, rep@)));
            }
            i = i + m;
        } else {
            let ghost r_mid = r@;
            proof {
                if m <= n - i {
                    assert(tail.subrange(0, m as int) =~= s@.subrange(i as int, i + m as int));
                    assert(tail.subrange(0, m as int) != pat@);
                } else {
                    assert(tail.len() < m);
                }
                if tail.len() >= m {
                    assert(spec_replace_all(tail, pat@, rep@) == seq![tail[0]]
                        + spec_replace_all(tail.skip(1), pat@, rep@));
                }
                assert(tail.skip(1) =~= s@.skip(i + 1 as int));
                assert(tail[0] == s@[i as int]);
            }
            r.push(s[i]);
            proof {
                if tail.len() < m {
                    // the whole remainder is shorter than the pattern:
                    // it is copied through unchanged
                    assert(spec_replace_all(tail, pat@, rep@) == tail);
                    assert(spec_replace_all(s@.skip(i + 1 as int), pat@, rep@) == s@.skip(
                        i + 1 as int,
                    ));
                    assert(tail =~= seq![tail[0]] + tail.skip(1));
                }
                assert(r@ =~= r_mid + seq![s@[i as int]]);
                assert((r_mid + seq![s@[i as int]]) + spec_replace_all(
                    s@.skip(i + 1 as int),
                    pat@,
                    rep@,
                ) =~= r_mid + (seq![s@[i as int]] + spec_replace_all(
                    s@.skip(i + 1 as int),
                    pat@,
                    rep@,
                )));
            }
            i = i + 1;
        }
    }
    proof {
        assert(s@.skip(i as int) =~= Seq::<char>::empty());
        assert(spec_replace_all(s@.skip(i as int), pat@, rep@) == s@.skip(i as int));
        assert(r@ =~= r@ + s@.skip(i as int));
    }
    r
}

// ---------------------------------------------------------------------
// Repeat-until-none substitution.
//
// One round replaces the first occurrence of the key; the scan then
// restarts from the front.  The result is the fixed point of the
// rounds.  The rounds need not reach one (a key inside its own
// replacement loops forever), so each substitution carries the
// precondition that they do.
// ---------------------------------------------------------------------

/// Where the first occurrence of `pat` at or after `from` starts.
pub open spec fn spec_find_pat(s: Seq<char>, pat: Seq<char>, from: int) -> Option<int>
    decreases s.len() - from,
{
    if from < 0 || from + pat.len() > s.len() {
        None
    } else if pat.len() == 0 {
        Some(from)
    } else if s.subrange(from, from + pat.len() as int) == pat {
        Some(from)
    } else {
        spec_find_pat(s, pat, from + 1)
    }
}

/// What a find result means: `Some` is the leftmost match at or after
/// `from`; `None` means no match starts there or later.
pub proof fn lemma_find_pat_props(s: Seq<char>, pat: Seq<char>, from: int)
    requires
        from >= 0,
    ensures
        match spec_find_pat(s, pat, from) {
            Some(i) => from <= i && match_at(s, pat, i) && forall|j: int|
                from <= j < i ==> !match_at(s, pat, j),
            None => forall|j: int| j >= from ==> !match_at(s, pat, j),
        },
    decreases s.len() - from,
{
    if from + pat.len() > s.len() {
    } else if pat.len() == 0 {
        assert(s.subrange(from, from + pat.len() as int) =~= pat);
        assert(match_at(s, pat, from));
    } else if s.subrange(from, from + pat.len() as int) == pat {
        assert(match_at(s, pat, from));
    } else {
        assert(!match_at(s, pat, from));
        lemma_find_pat_props(s, pat, from + 1);
    }
}

/// The find from the front decides occurrence.
pub proof fn lemma_find_pat_contains(s: Seq<char>, pat: Seq<char>)
    ensures
        spec_find_pat(s, pat, 0) is Some <==> contains_seq(s, pat),
{
    lemma_find_pat_props(s, pat, 0);
    if spec_find_pat(s, pat, 0) is Some {
        assert(match_at(s, pat, spec_find_pat(s, pat, 0)->Some_0));
    }
    if contains_seq(s, pat) {
        let i = choose|i: int| match_at(s, pat, i);
        if spec_find_pat(s, pat, 0) is None {
            assert(!match_at(s, pat, i));
        }
    }
}

/// One round of the substitution: the first occurrence of `pat`
/// replaced by `rep`; a text without one is unchanged.
pub open spec fn spec_replace_round(s: Seq<char>, pat: Seq<char>, rep: Seq<char>) -> Seq<char> {
    match spec_find_pat(s, pat, 0) {
        Option::None => s,
        Option::Some(i) => s.subrange(0, i) + rep + s.skip(i + pat.len()),
    }
}

/// `fuel` rounds of the substitution.
pub open spec fn spec_replace_iter(s: Seq<char>, pat: Seq<char>, rep: Seq<char>, fuel: nat)
    -> Seq<char>
    decreases fuel,
{
    if fuel == 0 {
        s
    } else {
        spec_replace_iter(spec_replace_round(s, pat, rep), pat, rep, (fuel - 1) as nat)
    }
}

/// The rounds reach a text without an occurrence of `pat`: the
/// substitution terminates on this input.
pub open spec fn spec_replacement_terminates(s: Seq<char>, pat: Seq<char>, rep: Seq<char>)
    -> bool {
    exists|n: nat| !contains_seq(#[trigger] spec_replace_iter(s, pat, rep, n), pat)
}

/// The substitution's result: the rounds' fixed point.  Meaningful
/// only where the substitution terminates.
pub open spec fn spec_replace_fix(s: Seq<char>, pat: Seq<char>, rep: Seq<char>) -> Seq<char> {
    spec_replace_iter(
        s,
        pat,
        rep,
        choose|n: nat| !contains_seq(#[trigger] spec_replace_iter(s, pat, rep, n), pat),
    )
}

/// A text without an occurrence is a fixed point of the round.
pub proof fn lemma_round_of_fixed(s: Seq<char>, pat: Seq<char>, rep: Seq<char>)
    requires
        !contains_seq(s, pat),
    ensures
        spec_replace_round(s, pat, rep) == s,
{
    lemma_find_pat_contains(s, pat);
}

proof fn lemma_iter_of_fixed(s: Seq<char>, pat: Seq<char>, rep: Seq<char>, m: nat)
    requires
        !contains_seq(s, pat),
    ensures
        spec_replace_iter(s, pat, rep, m) == s,
    decreases m,
{
    if m > 0 {
        lemma_round_of_fixed(s, pat, rep);
        lemma_iter_of_fixed(s, pat, rep, (m - 1) as nat);
    }
}

proof fn lemma_iter_add(s: Seq<char>, pat: Seq<char>, rep: Seq<char>, a: nat, b: nat)
    ensures
        spec_replace_iter(s, pat, rep, a + b) == spec_replace_iter(
            spec_replace_iter(s, pat, rep, a),
            pat,
            rep,
            b,
        ),
    decreases a,
{
    if a > 0 {
        lemma_iter_add(spec_replace_round(s, pat, rep), pat, rep, (a - 1) as nat, b);
        assert(spec_replace_iter(s, pat, rep, a + b) == spec_replace_iter(
            spec_replace_round(s, pat, rep),
            pat,
            rep,
            ((a + b) - 1) as nat,
        ));
    }
}

/// One more round extends the iteration by one.
pub proof fn lemma_iter_unroll(s: Seq<char>, pat: Seq<char>, rep: Seq<char>, k: nat)
    ensures
        spec_replace_iter(s, pat, rep, k + 1) == spec_replace_round(
            spec_replace_iter(s, pat, rep, k),
            pat,
            rep,
        ),
{
    lemma_iter_add(s, pat, rep, k, 1);
    let x = spec_replace_iter(s, pat, rep, k);
    assert(spec_replace_iter(x, pat, rep, 1) == spec_replace_iter(
        spec_replace_round(x, pat, rep),
        pat,
        rep,
        0,
    ));
    assert(spec_replace_iter(spec_replace_round(x, pat, rep), pat, rep, 0)
        == spec_replace_round(x, pat, rep));
}

/// What the fixed point is: no occurrence remains, and every round
/// count that reaches quiescence gives the same text.
pub proof fn lemma_fix_props(s: Seq<char>, pat: Seq<char>, rep: Seq<char>)
    requires
        spec_replacement_terminates(s, pat, rep),
    ensures
        !contains_seq(spec_replace_fix(s, pat, rep), pat),
        forall|n: nat|
            !contains_seq(#[trigger] spec_replace_iter(s, pat, rep, n), pat) ==> spec_replace_fix(
                s,
                pat,
                rep,
            ) == spec_replace_iter(s, pat, rep, n),
{
    let w = choose|n: nat| !contains_seq(#[trigger] spec_replace_iter(s, pat, rep, n), pat);
    assert(spec_replace_fix(s, pat, rep) == spec_replace_iter(s, pat, rep, w));
    assert forall|n: nat|
        !contains_seq(#[trigger] spec_replace_iter(s, pat, rep, n), pat) implies spec_replace_fix(
        s,
        pat,
        rep,
    ) == spec_replace_iter(s, pat, rep, n) by {
        if n <= w {
            lemma_iter_add(s, pat, rep, n, (w - n) as nat);
            lemma_iter_of_fixed(spec_replace_iter(s, pat, rep, n), pat, rep, (w - n) as nat);
        } else {
            lemma_iter_add(s, pat, rep, w, (n - w) as nat);
            lemma_iter_of_fixed(spec_replace_iter(s, pat, rep, w), pat, rep, (n - w) as nat);
        }
    }
}

/// A text without the pattern: the substitution terminates at once and
/// changes nothing.
pub proof fn lemma_fix_absent(s: Seq<char>, pat: Seq<char>, rep: Seq<char>)
    requires
        !contains_seq(s, pat),
    ensures
        spec_replacement_terminates(s, pat, rep),
        spec_replace_fix(s, pat, rep) == s,
{
    assert(spec_replace_iter(s, pat, rep, 0) == s);
    lemma_fix_props(s, pat, rep);
}

/// Each pair's substitution terminates on the text the earlier pairs
/// produce.
pub open spec fn spec_pairs_terminate(s: Seq<char>, pairs: Seq<VarEntry>) -> bool
    decreases pairs.len(),
{
    pairs.len() == 0 || (spec_replacement_terminates(s, pairs[0].0, pairs[0].1)
        && spec_pairs_terminate(spec_replace_fix(s, pairs[0].0, pairs[0].1), pairs.skip(1)))
}

/// The pairs' substitutions applied in order, each run to its fixed
/// point.
pub open spec fn spec_replace_pairs_fix(s: Seq<char>, pairs: Seq<VarEntry>) -> Seq<char>
    decreases pairs.len(),
{
    if pairs.len() == 0 {
        s
    } else {
        spec_replace_pairs_fix(spec_replace_fix(s, pairs[0].0, pairs[0].1), pairs.skip(1))
    }
}

/// Pairs none of whose keys occur terminate at once and change
/// nothing.
pub proof fn lemma_pairs_fix_absent(s: Seq<char>, pairs: Seq<VarEntry>)
    requires
        forall|i: int| 0 <= i < pairs.len() ==> !contains_seq(s, (#[trigger] pairs[i]).0),
    ensures
        spec_pairs_terminate(s, pairs),
        spec_replace_pairs_fix(s, pairs) == s,
    decreases pairs.len(),
{
    if pairs.len() > 0 {
        lemma_fix_absent(s, pairs[0].0, pairs[0].1);
        assert forall|i: int|
            0 <= i < pairs.skip(1).len() implies !contains_seq(
            s,
            (#[trigger] pairs.skip(1)[i]).0,
        ) by {
            assert(pairs.skip(1)[i] == pairs[i + 1]);
        }
        lemma_pairs_fix_absent(s, pairs.skip(1));
    }
}

/// The start of the first occurrence of `pat` in `s`, if any.
fn find_first(s: &Vec<char>, pat: &Vec<char>) -> (r: Option<usize>)
    ensures
        match r {
            Some(i) => spec_find_pat(s@, pat@, 0) == Some(i as int),
            None => spec_find_pat(s@, pat@, 0) is None,
        },
{
    let n = s.len();
    let m = pat.len();
    if m > n {
        return None;
    }
    let mut i: usize = 0;
    while i <= n - m
        invariant
            n == s@.len(),
            m == pat@.len(),
            m <= n,
            i <= n - m + 1,
            spec_find_pat(s@, pat@, 0) == spec_find_pat(s@, pat@, i as int),
        decreases n - m + 1 - i,
    {
        if chars_match_at(s, pat, i) {
            return Some(i);
        }
        proof {
            if m == 0 {
                assert(s@.subrange(i as int, i as int) =~= pat@);
            }
        }
        i = i + 1;
    }
    None
}

/// Run the substitution to its fixed point: replace the first
/// occurrence and rescan, until none remains.
fn replace_fix_chars(s: &Vec<char>, pat: &Vec<char>, rep: &Vec<char>) -> (r: Vec<char>)
    requires
        spec_replacement_terminates(s@, pat@, rep@),
    ensures
        r@ == spec_replace_fix(s@, pat@, rep@),
        !contains_seq(r@, pat@),
{
    let ghost nwit: nat = choose|n: nat|
        !contains_seq(#[trigger] spec_replace_iter(s@, pat@, rep@, n), pat@);
    let mut cur = copy_range(s, 0, s.len());
    let ghost mut k: nat = 0;
    proof {
        assert(cur@ =~= s@);
    }
    loop
        invariant_except_break
            cur@ == spec_replace_iter(s@, pat@, rep@, k),
            k <= nwit,
        invariant
            !contains_seq(spec_replace_iter(s@, pat@, rep@, nwit), pat@),
        ensures
            cur@ == spec_replace_fix(s@, pat@, rep@),
            !contains_seq(cur@, pat@),
        decreases nwit - k,
    {
        match find_first(&cur, pat) {
            None => {
                proof {
                    lemma_find_pat_contains(cur@, pat@);
                    lemma_fix_props(s@, pat@, rep@);
                }
                break;
            },
            Some(i) => {
                proof {
                    lemma_find_pat_props(cur@, pat@, 0);
                    assert(match_at(cur@, pat@, i as int));
                    if k == nwit {
                        assert(contains_seq(cur@, pat@));
                        assert(false);
                    }
                }
                let p = pat.len();
                let cn = cur.len();
                let mut next = copy_range(&cur, 0, i);
                let ghost pre = next@;
                let mut j: usize = 0;
                while j < rep.len()
                    invariant
                        j <= rep@.len(),
                        next@ =~= pre + rep@.subrange(0, j as int),
                    decreases rep@.len() - j,
                {
                    next.push(rep[j]);
                    proof {
                        assert(next@ =~= pre + rep@.subrange(0, j + 1 as int));
                    }
                    j = j + 1;
                }
                proof {
                    assert(next@ =~= cur@.subrange(0, i as int) + rep@);
                }
                let ghost mid = next@;
                let mut t: usize = i + p;
                while t < cn
                    invariant
                        cn == cur@.len(),
                        i + p <= t <= cn,
                        next@ =~= mid + cur@.subrange(i + p as int, t as int),
                    decreases cn - t,
                {
                    next.push(cur[t]);
                    proof {
                        assert(next@ =~= mid + cur@.subrange(i + p as int, t + 1 as int));
                    }
                    t = t + 1;
                }
                proof {
                    assert(cur@.subrange(i + p as int, cn as int) =~= cur@.skip(i + p as int));
                    assert(next@ =~= cur@.subrange(0, i as int) + rep@ + cur@.skip(i + p as int));
                    assert(spec_replace_round(cur@, pat@, rep@) == next@);
                    lemma_iter_unroll(s@, pat@, rep@, k);
                }
                cur = next;
                proof {
                    k = k + 1;
                }
            },
        }
    }
    cur
}

/// Replace every occurrence of `from` in `src` by `to`, rescanning
/// from the front after each substitution until none remains.
pub fn _replace_range(src: &mut String, from: &str, to: &str)
    requires
        spec_replacement_terminates(old(src)@, from@, to@),
    ensures
        final(src)@ == spec_replace_fix(old(src)@, from@, to@),
        !contains_seq(final(src)@, from@),
{
    let s = str_to_chars(src.as_str());
    let pat = str_to_chars(from);
    let rep = str_to_chars(to);
    let out = replace_fix_chars(&s, &pat, &rep);
    *src = chars_to_string(&out);
}

/// Substitute each pair of `data` in turn inside `src`, front to back,
/// each run to its fixed point.
pub fn replace_all_str(src: &mut String, data: &Vec<(String, String)>)
    requires
        spec_pairs_terminate(old(src)@, data@.map_values(|p: (String, String)| (p.0@, p.1@))),
    ensures
        final(src)@ == spec_replace_pairs_fix(
            old(src)@,
            data@.map_values(|p: (String, String)| (p.0@, p.1@)),
        ),
{
    let ghost pairs = data@.map_values(|p: (String, String)| (p.0@, p.1@));
    let n = data.len();
    let mut i: usize = 0;
    proof {
        assert(pairs.skip(0) =~= pairs);
    }
    while i < n
        invariant
            n == data@.len(),
            pairs == data@.map_values(|p: (String, String)| (p.0@, p.1@)),
            i <= n,
            spec_pairs_terminate(src@, pairs.skip(i as int)),
            spec_replace_pairs_fix(old(src)@, pairs) == spec_replace_pairs_fix(
                src@,
                pairs.skip(i as int),
            ),
        decreases n - i,
    {
        let ghost tail = pairs.skip(i as int);
        proof {
            assert(pairs[i as int] == (data@[i as int].0@, data@[i as int].1@));
            assert(tail[0] == pairs[i as int]);
            assert(tail.skip(1) =~= pairs.skip(i + 1 as int));
        }
        _replace_range(src, data[i].0.as_str(), data[i].1.as_str());
        i = i + 1;
    }
    proof {
        assert(pairs.skip(i as int) =~= Seq::<VarEntry>::empty());
    }
}

/// Substitute each entry of `data` in turn inside `src`, in the map's
/// insertion order, each run to its fixed point.
pub fn replace_all_str_from_map(src: &mut String, data: &Vars)
    requires
        spec_pairs_terminate(old(src)@, data.entries()),
    ensures
        final(src)@ == spec_replace_pairs_fix(old(src)@, data.entries()),
{
    let ghost pairs = data.entries();
    let n = data.len();
    let mut i: usize = 0;
    proof {
        assert(pairs.skip(0) =~= pairs);
    }
    while i < n
        invariant
            n == data.entries().len(),
            pairs == data.entries(),
            i <= n,
            spec_pairs_terminate(src@, pairs.skip(i as int)),
            spec_replace_pairs_fix(old(src)@, pairs) == spec_replace_pairs_fix(
                src@,
                pairs.skip(i as int),
            ),
        decreases n - i,
    {
        let ghost tail = pairs.skip(i as int);
        proof {
            assert(tail[0] == pairs[i as int]);
            assert(tail.skip(1) =~= pairs.skip(i + 1 as int));
        }
        let p = data.pair_at(i);
        _replace_range(src, p.0.as_str(), p.1.as_str());
        i = i + 1;
    }
    proof {
        assert(pairs.skip(i as int) =~= Seq::<VarEntry>::empty());
    }
}

// ---------------------------------------------------------------------
// Placeholder scanning.
//
// A placeholder is `{{`, one word character, then the shortest run of
// characters (none of them a line break) up to the next `}}`.  Scanning
// is leftmost-first and non-overlapping.
// ---------------------------------------------------------------------

/// A character that may open a placeholder name.
pub open spec fn is_word_char(c: char) -> bool {
    (c as u32 >= 97 && c as u32 <= 122)  // 'a'..'z'
    || (c as u32 >= 65 && c as u32 <= 90)  // 'A'..'Z'
    || (c as u32 >= 48 && c as u32 <= 57)  // '0'..'9'
    || c == '_'
}

/// Whitespace as the trimming step understands it.
pub open spec fn is_space_char(c: char) -> bool {
    c == ' ' || c == '\t' || c == '\n' || c == '\r'
}

/// The position of the first `}}` at or after `j`, unless a line break
/// comes first.
pub open spec fn spec_find_close(s: Seq<char>, j: int) -> Option<int>
    decreases s.len() - j,
{
    if j < 0 || j + 2 > s.len() {
        None
    } else if s[j] == '}' && s[j + 1] == '}' {
        Some(j)
    } else if s[j] == '\n' {
        None
    } else {
        spec_find_close(s, j + 1)
    }
}

/// A placeholder starts at `i`.
pub open spec fn ph_at(s: Seq<char>, i: int) -> bool {
    &&& 0 <= i
    &&& i + 3 <= s.len()
    &&& s[i] == '{'
    &&& s[i + 1] == '{'
    &&& is_word_char(s[i + 2])
    &&& spec_find_close(s, i + 3) is Some
}

/// The end (exclusive) of the placeholder starting at `i`.
pub open spec fn ph_end(s: Seq<char>, i: int) -> int {
    spec_find_close(s, i + 3)->Some_0 + 2
}

/// The first placeholder at or after `from`: its start and end.
pub open spec fn spec_find_ph(s: Seq<char>, from: int) -> Option<(int, int)>
    decreases s.len() - from,
{
    if from < 0 || from + 3 > s.len() {
        None
    } else if ph_at(s, from) {
        Some((from, ph_end(s, from)))
    } else {
        spec_find_ph(s, from + 1)
    }
}

/// Bounds of `spec_find_close`: the closing position sits between `j`
/// and the end of the text.
pub proof fn lemma_find_close_bounds(s: Seq<char>, j: int)
    requires
        spec_find_close(s, j) is Some,
    ensures
        j <= spec_find_close(s, j)->Some_0,
        spec_find_close(s, j)->Some_0 + 2 <= s.len(),
    decreases s.len() - j,
{
    if j < 0 || j + 2 > s.len() {
    } else if s[j] == '}' && s[j + 1] == '}' {
    } else if s[j] == '\n' {
    } else {
        lemma_find_close_bounds(s, j + 1);
    }
}

/// Bounds of `spec_find_ph`: a found placeholder starts at or after
/// `from`, is at least five characters long, and ends within the text.
pub proof fn lemma_find_ph_bounds(s: Seq<char>, from: int)
    requires
        spec_find_ph(s, from) is Some,
    ensures
        from <= spec_find_ph(s, from)->Some_0.0,
        spec_find_ph(s, from)->Some_0.0 + 5 <= spec_find_ph(s, from)->Some_0.1,
        spec_find_ph(s, from)->Some_0.1 <= s.len(),
        ph_at(s, spec_find_ph(s, from)->Some_0.0),
        spec_find_ph(s, from)->Some_0.1 == ph_end(s, spec_find_ph(s, from)->Some_0.0),
    decreases s.len() - from,
{
    if from < 0 || from + 3 > s.len() {
    } else if ph_at(s, from) {
        lemma_find_close_bounds(s, from + 3);
    } else {
        lemma_find_ph_bounds(s, from + 1);
    }
}

/// All placeholders of `s` from `from` on, leftmost first,
/// non-overlapping: each entry is a start and an end.
pub open spec fn spec_phs(s: Seq<char>, from: int) -> Seq<(int, int)>
    decreases s.len() - from,
    when from >= 0
    via spec_phs_decreases
{
    match spec_find_ph(s, from) {
        Option::None => Seq::empty(),
        Option::Some(r) => seq![r] + spec_phs(s, r.1),
    }
}

#[via_fn]
proof fn spec_phs_decreases(s: Seq<char>, from: int) {
    if spec_find_ph(s, from) is Some {
        lemma_find_ph_bounds(s, from);
    }
}

/// The matched placeholder texts of `s`, in scanning order.
pub open spec fn spec_ph_texts(s: Seq<char>) -> Seq<Seq<char>> {
    spec_phs(s, 0).map_values(|r: (int, int)| s.subrange(r.0, r.1))
}

/// The position of the first `}}` at or after `j`, unless a line break
/// comes first.
fn find_close(s: &Vec<char>, j: usize) -> (r: Option<usize>)
    ensures
        match r {
            Some(c) => spec_find_close(s@, j as int) == Some(c as int),
            None => spec_find_close(s@, j as int) is None,
        },
{
    let n = s.len();
    let mut k: usize = j;
    while k < n && k + 1 < n
        invariant
            n == s@.len(),
            j <= k,
            spec_find_close(s@, j as int) == spec_find_close(s@, k as int),
        decreases n - k,
    {
        if s[k] == '}' && s[k + 1] == '}' {
            return Some(k);
        }
        if s[k] == '\n' {
            return None;
        }
        k = k + 1;
    }
    None
}

/// The first placeholder at or after `from`.
fn find_ph(s: &Vec<char>, from: usize) -> (r: Option<(usize, usize)>)
    ensures
        match r {
            Some(p) => spec_find_ph(s@, from as int) == Some((p.0 as int, p.1 as int)) && p.1
                <= s@.len(),
            None => spec_find_ph(s@, from as int) is None,
        },
{
    let n = s.len();
    let mut i: usize = from;
    while i < n && i + 1 < n && i + 2 < n
        invariant
            n == s@.len(),
            from <= i,
            spec_find_ph(s@, from as int) == spec_find_ph(s@, i as int),
        decreases n - i,
    {
        if s[i] == '{' && s[i + 1] == '{' && is_word(s[i + 2]) {
            if let Some(c) = find_close(s, i + 3) {
                proof {
                    assert(ph_at(s@, i as int));
                    lemma_find_close_bounds(s@, i + 3 as int);
                }
                return Some((i, c + 2));
            }
        }
        proof {
            assert(!ph_at(s@, i as int));
        }
        i = i + 1;
    }
    None
}

/// A character that may open a placeholder name.
fn is_word(c: char) -> (r: bool)
    ensures
        r == is_word_char(c),
{
    let n = c as u32;
    (n >= 97 && n <= 122) || (n >= 65 && n <= 90) || (n >= 48 && n <= 57) || c == '_'
}

/// Every placeholder of `s`, leftmost first, non-overlapping.
fn scan_phs(s: &Vec<char>) -> (r: Vec<(usize, usize)>)
    ensures
        r@.map_values(|p: (usize, usize)| (p.0 as int, p.1 as int)) == spec_phs(s@, 0),
        forall|i: int| 0 <= i < r@.len() ==> r@[i].0 < r@[i].1 && r@[i].1 <= s@.len(),
{
    let mut r: Vec<(usize, usize)> = Vec::new();
    let mut cur: usize = 0;
    let n = s.len();
    while cur <= n
        invariant
            n == s@.len(),
            cur <= n + 1,
            spec_phs(s@, 0) =~= r@.map_values(|p: (usize, usize)| (p.0 as int, p.1 as int))
                + spec_phs(s@, cur as int),
            forall|i: int| 0 <= i < r@.len() ==> r@[i].0 < r@[i].1 && r@[i].1 <= s@.len(),
        decreases n + 1 - cur,
    {
        let ghost pre = r@;
        match find_ph(s, cur) {
            Some(p) => {
                proof {
                    lemma_find_ph_bounds(s@, cur as int);
                }
                r.push(p);
                proof {
                    assert(spec_phs(s@, cur as int) == seq![(p.0 as int, p.1 as int)]
                        + spec_phs(s@, p.1 as int));
                    assert(r@.map_values(|q: (usize, usize)| (q.0 as int, q.1 as int))
                        =~= pre.map_values(|q: (usize, usize)| (q.0 as int, q.1 as int)).push(
                        (p.0 as int, p.1 as int),
                    ));
                    assert(pre.map_values(|q: (usize, usize)| (q.0 as int, q.1 as int)).push(
                        (p.0 as int, p.1 as int),
                    ) + spec_phs(s@, p.1 as int) =~= pre.map_values(
                        |q: (usize, usize)| (q.0 as int, q.1 as int),
                    ) + (seq![(p.0 as int, p.1 as int)] + spec_phs(s@, p.1 as int)));
                    assert(cur < p.1);
                }
                cur = p.1;
            },
            None => {
                proof {
                    assert(spec_phs(s@, cur as int) =~= Seq::<(int, int)>::empty());
                    assert(r@.map_values(|q: (usize, usize)| (q.0 as int, q.1 as int))
                        + spec_phs(s@, cur as int) =~= r@.map_values(
                        |q: (usize, usize)| (q.0 as int, q.1 as int),
                    ));
                }
                return r;
            },
        }
    }
    proof {
        assert(spec_find_ph(s@, cur as int) is None);
        assert(spec_phs(s@, cur as int) =~= Seq::<(int, int)>::empty());
        assert(r@.map_values(|q: (usize, usize)| (q.0 as int, q.1 as int)) + spec_phs(
            s@,
            cur as int,
        ) =~= r@.map_values(|q: (usize, usize)| (q.0 as int, q.1 as int)));
    }
    r
}

// ---------------------------------------------------------------------
// Candidate resolution.
//
// A placeholder body is a `?`-separated list of candidate names.  Each
// candidate is trimmed; an empty candidate stands for the empty string;
// otherwise the first candidate found in the variable map wins.
// ---------------------------------------------------------------------

/// `s` without leading whitespace.
pub open spec fn spec_trim_front(s: Seq<char>) -> Seq<char>
    decreases s.len(),
{
    if s.len() > 0 && is_space_char(s[0]) {
        spec_trim_front(s.skip(1))
    } else {
        s
    }
}

/// `s` without trailing whitespace.
pub open spec fn spec_trim_back(s: Seq<char>) -> Seq<char>
    decreases s.len(),
{
    if s.len() > 0 && is_space_char(s[s.len() - 1]) {
        spec_trim_back(s.drop_last())
    } else {
        s
    }
}

/// `s` without leading or trailing whitespace.
pub open spec fn spec_trim(s: Seq<char>) -> Seq<char> {
    spec_trim_back(spec_trim_front(s))
}

/// The index of the first `?` in `s`, or the length when there is none.
pub open spec fn spec_first_q(s: Seq<char>) -> int
    decreases s.len(),
{
    if s.len() == 0 {
        0
    } else if s[0] == '?' {
        0
    } else {
        1 + spec_first_q(s.skip(1))
    }
}

pub proof fn lemma_first_q_bounds(s: Seq<char>)
    ensures
        0 <= spec_first_q(s) <= s.len(),
    decreases s.len(),
{
    if s.len() > 0 && s[0] != '?' {
        lemma_first_q_bounds(s.skip(1));
    }
}

/// `s` cut at every `?`.
pub open spec fn spec_split_q(s: Seq<char>) -> Seq<Seq<char>>
    decreases s.len(),
    via spec_split_q_decreases
{
    if spec_first_q(s) == s.len() {
        seq![s]
    } else {
        seq![s.subrange(0, spec_first_q(s))] + spec_split_q(s.skip(spec_first_q(s) + 1))
    }
}

#[via_fn]
proof fn spec_split_q_decreases(s: Seq<char>) {
    lemma_first_q_bounds(s);
}

/// The first candidate of `cands` that resolves: a trimmed empty
/// candidate resolves to the empty string, a known key to its value.
pub open spec fn spec_resolve(cands: Seq<Seq<char>>, entries: Seq<VarEntry>) -> Option<Seq<char>>
    decreases cands.len(),
{
    if cands.len() == 0 {
        None
    } else {
        let c = spec_trim(cands[0]);
        if c.len() == 0 {
            Some(Seq::<char>::empty())
        } else if entries_lookup(entries, c) is Some {
            entries_lookup(entries, c)
        } else {
            spec_resolve(cands.skip(1), entries)
        }
    }
}

/// What the placeholder text `{{body}}` resolves to.
pub open spec fn spec_resolve_text(t: Seq<char>, entries: Seq<VarEntry>) -> Option<Seq<char>> {
    spec_resolve(spec_split_q(t.subrange(2, t.len() - 2)), entries)
}

/// `t` is one of the texts of `ts`.
pub open spec fn texts_contain(ts: Seq<Seq<char>>, t: Seq<char>) -> bool {
    exists|i: int| 0 <= i < ts.len() && ts[i] == t
}

/// `ts` with later repetitions of a text removed.
pub open spec fn spec_dedup(ts: Seq<Seq<char>>) -> Seq<Seq<char>>
    decreases ts.len(),
{
    if ts.len() == 0 {
        Seq::empty()
    } else {
        let d = spec_dedup(ts.drop_last());
        if texts_contain(ts.drop_last(), ts.last()) {
            d
        } else {
            d.push(ts.last())
        }
    }
}

/// Removing repetitions changes no memberships.
pub proof fn lemma_dedup_membership(ts: Seq<Seq<char>>, t: Seq<char>)
    ensures
        texts_contain(spec_dedup(ts), t) <==> texts_contain(ts, t),
    decreases ts.len(),
{
    if ts.len() > 0 {
        lemma_dedup_membership(ts.drop_last(), t);
        let d = spec_dedup(ts.drop_last());
        let dd = spec_dedup(ts);
        // from the shorter list into the full one
        if texts_contain(ts.drop_last(), t) {
            let i = choose|i: int| 0 <= i < ts.drop_last().len() && ts.drop_last()[i] == t;
            assert(ts[i] == t);
            assert(texts_contain(ts, t));
        }
        if texts_contain(ts, t) {
            let i = choose|i: int| 0 <= i < ts.len() && ts[i] == t;
            if i < ts.len() - 1 {
                assert(ts.drop_last()[i] == ts[i]);
                assert(texts_contain(ts.drop_last(), t));
                let j = choose|j: int| 0 <= j < d.len() && d[j] == t;
                if !texts_contain(ts.drop_last(), ts.last()) {
                    assert(dd[j] == d[j]);
                }
                assert(texts_contain(dd, t));
            } else {
                assert(t == ts.last());
                if texts_contain(ts.drop_last(), ts.last()) {
                    let j = choose|j: int| 0 <= j < d.len() && d[j] == t;
                    assert(dd[j] == t);
                } else {
                    assert(dd[dd.len() - 1] == t);
                }
                assert(texts_contain(dd, t));
            }
        }
        if texts_contain(dd, t) {
            let j = choose|j: int| 0 <= j < dd.len() && dd[j] == t;
            if texts_contain(ts.drop_last(), ts.last()) {
                assert(d[j] == t);
                assert(texts_contain(ts.drop_last(), t));
            } else {
                if j < d.len() {
                    assert(d[j] == t);
                    assert(texts_contain(ts.drop_last(), t));
                } else {
                    assert(t == ts.last());
                    assert(ts[ts.len() - 1] == t);
                }
            }
            assert(texts_contain(ts, t));
        }
    }
}

/// Every deduplicated text occurs in the original list.
pub proof fn lemma_dedup_elements(ts: Seq<Seq<char>>, j: int)
    requires
        0 <= j < spec_dedup(ts).len(),
    ensures
        texts_contain(ts, spec_dedup(ts)[j]),
    decreases ts.len(),
{
    lemma_dedup_membership(ts, spec_dedup(ts)[j]);
}

// ---------------------------------------------------------------------
// Expansion.
// ---------------------------------------------------------------------

/// Every placeholder of `s` resolves against `entries`.
pub open spec fn spec_all_resolved(s: Seq<char>, entries: Seq<VarEntry>) -> bool {
    forall|i: int|
        0 <= i < spec_ph_texts(s).len() ==> spec_resolve_text(
            #[trigger] spec_ph_texts(s)[i],
            entries,
        ) is Some
}

/// The replacement pairs of `s`: each distinct placeholder text and its
/// resolution, in scanning order.
pub open spec fn spec_expand_pairs(s: Seq<char>, entries: Seq<VarEntry>) -> Seq<VarEntry> {
    spec_dedup(spec_ph_texts(s)).map_values(
        |t: Seq<char>| (t, spec_resolve_text(t, entries)->Some_0),
    )
}

/// The expansion of `s` against `entries`: `None` when some placeholder
/// does not resolve, otherwise `s` with every placeholder text
/// substituted to its resolution, each substitution run to its fixed
/// point.
pub open spec fn spec_expand(s: Seq<char>, entries: Seq<VarEntry>) -> Option<Seq<char>> {
    if spec_all_resolved(s, entries) {
        Some(spec_replace_pairs_fix(s, spec_expand_pairs(s, entries)))
    } else {
        None
    }
}

/// The expansion's substitutions terminate; holds trivially when some
/// placeholder does not resolve, for then nothing is substituted.
pub open spec fn spec_expansion_terminates(s: Seq<char>, entries: Seq<VarEntry>) -> bool {
    spec_all_resolved(s, entries) ==> spec_pairs_terminate(s, spec_expand_pairs(s, entries))
}

/// The characters of `s` from `a` (inclusive) to `b` (exclusive).
pub fn copy_range(s: &Vec<char>, a: usize, b: usize) -> (r: Vec<char>)
    requires
        a <= b <= s@.len(),
    ensures
        r@ == s@.subrange(a as int, b as int),
{
    let mut r: Vec<char> = Vec::new();
    let mut i: usize = a;
    while i < b
        invariant
            a <= i <= b <= s@.len(),
            r@ =~= s@.subrange(a as int, i as int),
        decreases b - i,
    {
        r.push(s[i]);
        proof {
            assert(r@ =~= s@.subrange(a as int, i + 1 as int));
        }
        i = i + 1;
    }
    r
}

/// `s` without leading or trailing whitespace.
pub fn trim_chars(s: &Vec<char>) -> (r: Vec<char>)
    ensures
        r@ == spec_trim(s@),
{
    let n = s.len();
    let mut a: usize = 0;
    proof {
        assert(s@.skip(0) =~= s@);
    }
    while a < n && is_space(s[a])
        invariant
            n == s@.len(),
            a <= n,
            spec_trim_front(s@) == spec_trim_front(s@.skip(a as int)),
        decreases n - a,
    {
        proof {
            assert(s@.skip(a as int)[0] == s@[a as int]);
            assert(s@.skip(a as int).skip(1) =~= s@.skip(a + 1 as int));
        }
        a = a + 1;
    }
    proof {
        if a < n {
            assert(s@.skip(a as int)[0] == s@[a as int]);
        }
        assert(spec_trim_front(s@) == s@.skip(a as int));
    }
    let mut b: usize = n;
    while b > a && is_space(s[b - 1])
        invariant
            n == s@.len(),
            a <= b <= n,
            spec_trim_front(s@) == s@.skip(a as int),
            spec_trim_back(s@.skip(a as int)) == spec_trim_back(s@.subrange(a as int, b as int)),
        decreases b,
    {
        proof {
            let t = s@.subrange(a as int, b as int);
            assert(t[t.len() - 1] == s@[b - 1]);
            assert(t.drop_last() =~= s@.subrange(a as int, b - 1));
        }
        b = b - 1;
    }
    proof {
        let t = s@.subrange(a as int, b as int);
        if b > a {
            assert(t[t.len() - 1] == s@[b - 1]);
        }
        assert(spec_trim_back(t) == t);
        assert(s@.skip(a as int) =~= s@.subrange(a as int, n as int));
    }
    copy_range(s, a, b)
}

/// Whitespace as the trimming step understands it.
fn is_space(c: char) -> (r: bool)
    ensures
        r == is_space_char(c),
{
    c == ' ' || c == '\t' || c == '\n' || c == '\r'
}

/// `s` cut at every `?`.
fn split_q(s: &Vec<char>) -> (r: Vec<Vec<char>>)
    ensures
        r@.map_values(|v: Vec<char>| v@) == spec_split_q(s@),
{
    let n = s.len();
    let mut r: Vec<Vec<char>> = Vec::new();
    let mut start: usize = 0;
    proof {
        assert(s@.skip(0) =~= s@);
        assert(r@.map_values(|v: Vec<char>| v@) =~= Seq::<Seq<char>>::empty());
    }
    while start <= n
        invariant
            n == s@.len(),
            start <= n,
            spec_split_q(s@) =~= r@.map_values(|v: Vec<char>| v@) + spec_split_q(
                s@.skip(start as int),
            ),
        decreases n + 1 - start,
    {
        let ghost pre = r@;
        let ghost tail = s@.skip(start as int);
        let mut j: usize = start;
        while j < n && s[j] != '?'
            invariant
                n == s@.len(),
                start <= j <= n,
                tail == s@.skip(start as int),
                spec_first_q(tail) == (j - start) + spec_first_q(s@.skip(j as int)),
            decreases n - j,
        {
            proof {
                assert(s@.skip(j as int)[0] == s@[j as int]);
                assert(s@.skip(j as int).skip(1) =~= s@.skip(j + 1 as int));
            }
            j = j + 1;
        }
        proof {
            if j < n {
                assert(s@.skip(j as int)[0] == s@[j as int]);
                assert(spec_first_q(s@.skip(j as int)) == 0);
            } else {
                assert(s@.skip(j as int) =~= Seq::<char>::empty());
            }
            assert(spec_first_q(tail) == j - start);
            assert(tail.subrange(0, j - start) =~= s@.subrange(start as int, j as int));
        }
        let part = copy_range(s, start, j);
        r.push(part);
        proof {
            assert(r@.map_values(|v: Vec<char>| v@) =~= pre.map_values(|v: Vec<char>| v@).push(
                tail.subrange(0, j - start),
            ));
        }
        if j == n {
            proof {
                assert(spec_first_q(tail) == tail.len());
                assert(spec_split_q(tail) == seq![tail]);
                assert(tail.subrange(0, j - start) =~= tail);
                assert(pre.map_values(|v: Vec<char>| v@).push(tail) =~= pre.map_values(
                    |v: Vec<char>| v@,
                ) + seq![tail]);
                assert(r@.map_values(|v: Vec<char>| v@) =~= spec_split_q(s@));
            }
            return r;
        } else {
            proof {
                assert(spec_first_q(tail) < tail.len());
                assert(spec_split_q(tail) == seq![tail.subrange(0, j - start)] + spec_split_q(
                    tail.skip(j - start + 1),
                ));
                assert(tail.skip(j - start + 1) =~= s@.skip(j + 1 as int));
                assert(pre.map_values(|v: Vec<char>| v@).push(tail.subrange(0, j - start))
                    + spec_split_q(s@.skip(j + 1 as int)) =~= pre.map_values(
                    |v: Vec<char>| v@,
                ) + (seq![tail.subrange(0, j - start)] + spec_split_q(s@.skip(j + 1 as int))));
            }
            start = j + 1;
        }
    }
    proof {
        assert(false);
    }
    r
}

/// Whether two character vectors hold the same text.
fn chars_eq(a: &Vec<char>, b: &Vec<char>) -> (r: bool)
    ensures
        r == (a@ == b@),
{
    if a.len() != b.len() {
        return false;
    }
    let r = chars_match_at(a, b, 0);
    proof {
        if a@.subrange(0, b@.len() as int) == b@ {
            assert(a@ =~= a@.subrange(0, b@.len() as int));
        } else {
            assert(a@ != b@) by {
                if a@ == b@ {
                    assert(a@.subrange(0, b@.len() as int) =~= b@);
                }
            }
        }
    }
    r
}

/// Resolve the placeholder text `{{body}}` against the variable map.
fn resolve_text(t: &Vec<char>, vars: &Vars) -> (r: Option<String>)
    requires
        t@.len() >= 4,
    ensures
        match r {
            Some(v) => spec_resolve_text(t@, vars.entries()) == Some(v@),
            None => spec_resolve_text(t@, vars.entries()) is None,
        },
{
    let body = copy_range(t, 2, t.len() - 2);
    let cands = split_q(&body);
    let ghost cseq = cands@.map_values(|v: Vec<char>| v@);
    let n = cands.len();
    let mut i: usize = 0;
    proof {
        assert(cseq.skip(0) =~= cseq);
    }
    while i < n
        invariant
            n == cands@.len(),
            cseq == cands@.map_values(|v: Vec<char>| v@),
            cseq == spec_split_q(t@.subrange(2, t@.len() - 2)),
            i <= n,
            spec_resolve(cseq, vars.entries()) == spec_resolve(
                cseq.skip(i as int),
                vars.entries(),
            ),
        decreases n - i,
    {
        proof {
            assert(cseq.skip(i as int)[0] == cseq[i as int]);
            assert(cseq[i as int] == cands@[i as int]@);
        }
        let c = trim_chars(&cands[i]);
        if c.len() == 0 {
            return Some(String::new());
        }
        let cs = chars_to_string(&c);
        match vars.get(&cs) {
            Some(v) => {
                return Some(v);
            },
            None => {
                proof {
                    crate::vars::lemma_lookup_some_iff_contains(vars.entries(), c@);
                    assert(cseq.skip(i as int).skip(1) =~= cseq.skip(i + 1 as int));
                }
            },
        }
        i = i + 1;
    }
    proof {
        assert(cseq.skip(i as int) =~= Seq::<Seq<char>>::empty());
    }
    None
}

/// `ts` with later repetitions of a text removed.
fn dedup_texts(ts: &Vec<Vec<char>>) -> (r: Vec<Vec<char>>)
    ensures
        r@.map_values(|v: Vec<char>| v@) == spec_dedup(ts@.map_values(|v: Vec<char>| v@)),
{
    let ghost tseq = ts@.map_values(|v: Vec<char>| v@);
    let n = ts.len();
    let mut r: Vec<Vec<char>> = Vec::new();
    let mut i: usize = 0;
    proof {
        assert(tseq.subrange(0, 0) =~= Seq::<Seq<char>>::empty());
        assert(r@.map_values(|v: Vec<char>| v@) =~= spec_dedup(tseq.subrange(0, 0)));
    }
    while i < n
        invariant
            n == ts@.len(),
            tseq == ts@.map_values(|v: Vec<char>| v@),
            i <= n,
            r@.map_values(|v: Vec<char>| v@) == spec_dedup(tseq.subrange(0, i as int)),
        decreases n - i,
    {
        let ghost pre = r@;
        let ghost prefix = tseq.subrange(0, i as int);
        let ghost grown = tseq.subrange(0, i + 1 as int);
        proof {
            assert(grown.drop_last() =~= prefix);
            assert(grown.last() == tseq[i as int]);
            assert(tseq[i as int] == ts@[i as int]@);
        }
        // is ts[i] already among the kept texts?
        let mut seen = false;
        let m = r.len();
        let mut j: usize = 0;
        while j < m
            invariant
                m == r@.len(),
                j <= m,
                n == ts@.len(),
                i < n,
                tseq == ts@.map_values(|v: Vec<char>| v@),
                seen ==> texts_contain(r@.map_values(|v: Vec<char>| v@), tseq[i as int]),
                !seen ==> forall|k: int| 0 <= k < j ==> (#[trigger] r@[k])@ != tseq[i as int],
            decreases m - j,
        {
            if chars_eq(&r[j], &ts[i]) {
                proof {
                    assert(r@.map_values(|v: Vec<char>| v@)[j as int] == tseq[i as int]);
                }
                seen = true;
                j = m;
            } else {
                proof {
                    assert(r@.map_values(|v: Vec<char>| v@)[j as int] == r@[j as int]@);
                }
                j = j + 1;
            }
        }
        proof {
            lemma_dedup_membership(prefix, tseq[i as int]);
            if !seen {
                let mv = r@.map_values(|v: Vec<char>| v@);
                if texts_contain(mv, tseq[i as int]) {
                    let k = choose|k: int| 0 <= k < mv.len() && mv[k] == tseq[i as int];
                    assert(r@[k]@ == tseq[i as int]);
                    assert(false);
                }
            }
        }
        if seen {
            proof {
                assert(texts_contain(prefix, tseq[i as int]));
                assert(spec_dedup(grown) == spec_dedup(prefix));
            }
        } else {
            proof {
                assert(!texts_contain(prefix, tseq[i as int]));
                assert(spec_dedup(grown) == spec_dedup(prefix).push(tseq[i as int]));
            }
            let kept = copy_range(&ts[i], 0, ts[i].len());
            proof {
                assert(kept@ =~= tseq[i as int]);
            }
            r.push(kept);
            proof {
                assert(r@.map_values(|v: Vec<char>| v@) =~= pre.map_values(
                    |v: Vec<char>| v@,
                ).push(tseq[i as int]));
            }
        }
        i = i + 1;
    }
    proof {
        assert(tseq.subrange(0, n as int) =~= tseq);
    }
    r
}

/// Expand every placeholder of `exp` against the variable map: `None`
/// when some placeholder does not resolve, otherwise the text with each
/// distinct placeholder replaced everywhere by its resolution.
pub fn get_value_from_exp(exp: &str, vars: &Vars) -> (r: Option<String>)
    requires
        spec_expansion_terminates(exp@, vars.entries()),
    ensures
        match r {
            Some(v) => spec_expand(exp@, vars.entries()) == Some(v@),
            None => spec_expand(exp@, vars.entries()) is None,
        },
{
    let s = str_to_chars(exp);
    let phs = scan_phs(&s);
    let ghost phseq = spec_phs(s@, 0);

    // the matched placeholder texts, in scanning order
    let mut texts: Vec<Vec<char>> = Vec::new();
    let n = phs.len();
    let mut i: usize = 0;
    proof {
        assert(texts@.map_values(|v: Vec<char>| v@) =~= spec_ph_texts(s@).subrange(0, 0));
    }
    while i < n
        invariant
            n == phs@.len(),
            phs@.map_values(|p: (usize, usize)| (p.0 as int, p.1 as int)) == spec_phs(s@, 0),
            forall|k: int| 0 <= k < phs@.len() ==> phs@[k].0 < phs@[k].1 && phs@[k].1 <= s@.len(),
            s@ == exp@,
            i <= n,
            texts@.map_values(|v: Vec<char>| v@) =~= spec_ph_texts(s@).subrange(0, i as int),
        decreases n - i,
    {
        let ghost pre = texts@;
        proof {
            assert(spec_phs(s@, 0)[i as int] == (phs@[i as int].0 as int,
            phs@[i as int].1 as int));
            assert(spec_ph_texts(s@)[i as int] == s@.subrange(phs@[i as int].0 as int,
            phs@[i as int].1 as int));
        }
        let t = copy_range(&s, phs[i].0, phs[i].1);
        texts.push(t);
        proof {
            assert(texts@.map_values(|v: Vec<char>| v@) =~= pre.map_values(
                |v: Vec<char>| v@,
            ).push(s@.subrange(phs@[i as int].0 as int, phs@[i as int].1 as int)));
            assert(pre.map_values(|v: Vec<char>| v@).push(spec_ph_texts(s@)[i as int])
                =~= spec_ph_texts(s@).subrange(0, i + 1 as int));
        }
        i = i + 1;
    }
    proof {
        assert(spec_ph_texts(s@).subrange(0, n as int) =~= spec_ph_texts(s@));
    }

    let dd = dedup_texts(&texts);
    let ghost ddseq = spec_dedup(spec_ph_texts(s@));

    // resolve each distinct text; a failure decides the whole expansion
    let m = dd.len();
    let mut reps: Vec<(Vec<char>, Vec<char>)> = Vec::new();
    let mut i: usize = 0;
    proof {
        assert(reps@.map_values(|p: (Vec<char>, Vec<char>)| (p.0@, p.1@)) =~= spec_expand_pairs(
            s@,
            vars.entries(),
        ).subrange(0, 0));
    }
    while i < m
        invariant
            m == dd@.len(),
            dd@.map_values(|v: Vec<char>| v@) == ddseq,
            ddseq == spec_dedup(spec_ph_texts(s@)),
            phseq == spec_phs(s@, 0),
            s@ == exp@,
            i <= m,
            forall|k: int|
                0 <= k < i ==> spec_resolve_text(#[trigger] ddseq[k], vars.entries()) is Some,
            reps@.map_values(|p: (Vec<char>, Vec<char>)| (p.0@, p.1@)) =~= spec_expand_pairs(
                s@,
                vars.entries(),
            ).subrange(0, i as int),
        decreases m - i,
    {
        let ghost pre = reps@;
        proof {
            assert(ddseq[i as int] == dd@[i as int]@);
            lemma_dedup_elements(spec_ph_texts(s@), i as int);
            let w = choose|w: int|
                0 <= w < spec_ph_texts(s@).len() && spec_ph_texts(s@)[w] == ddseq[i as int];
            lemma_phs_bounds(s@, 0, w);
            assert(spec_ph_texts(s@)[w] == s@.subrange(phseq[w].0, phseq[w].1));
            assert(s@.subrange(phseq[w].0, phseq[w].1).len() == phseq[w].1 - phseq[w].0);
            assert(ddseq[i as int].len() >= 4);
        }
        match resolve_text(&dd[i], vars) {
            Some(v) => {
                let rep = str_to_chars(v.as_str());
                let pat = copy_range(&dd[i], 0, dd[i].len());
                proof {
                    assert(pat@ =~= ddseq[i as int]);
                }
                reps.push((pat, rep));
                proof {
                    assert(spec_expand_pairs(s@, vars.entries())[i as int] == (ddseq[i as int],
                    spec_resolve_text(ddseq[i as int], vars.entries())->Some_0));
                    assert(reps@.map_values(|p: (Vec<char>, Vec<char>)| (p.0@, p.1@))
                        =~= pre.map_values(|p: (Vec<char>, Vec<char>)| (p.0@, p.1@)).push(
                        spec_expand_pairs(s@, vars.entries())[i as int],
                    ));
                    assert(pre.map_values(|p: (Vec<char>, Vec<char>)| (p.0@, p.1@)).push(
                        spec_expand_pairs(s@, vars.entries())[i as int],
                    ) =~= spec_expand_pairs(s@, vars.entries()).subrange(0, i + 1 as int));
                }
            },
            None => {
                proof {
                    assert(!spec_all_resolved(s@, vars.entries())) by {
                        lemma_dedup_membership(spec_ph_texts(s@), ddseq[i as int]);
                        assert(texts_contain(ddseq, ddseq[i as int]));
                        let w = choose|w: int|
                            0 <= w < spec_ph_texts(s@).len() && spec_ph_texts(s@)[w] == ddseq[i
                                as int];
                        assert(spec_resolve_text(spec_ph_texts(s@)[w], vars.entries()) is None);
                    }
                }
                return None;
            },
        }
        i = i + 1;
    }
    proof {
        assert(spec_all_resolved(s@, vars.entries())) by {
            assert forall|k: int| 0 <= k < spec_ph_texts(s@).len() implies spec_resolve_text(
                #[trigger] spec_ph_texts(s@)[k],
                vars.entries(),
            ) is Some by {
                lemma_dedup_membership(spec_ph_texts(s@), spec_ph_texts(s@)[k]);
                assert(texts_contain(spec_ph_texts(s@), spec_ph_texts(s@)[k]));
                let j = choose|j: int| 0 <= j < ddseq.len() && ddseq[j] == spec_ph_texts(s@)[k];
            }
        }
        assert(spec_expand_pairs(s@, vars.entries()).subrange(0, m as int) =~= spec_expand_pairs(
            s@,
            vars.entries(),
        ));
    }

    // apply the substitutions, front to back, each to its fixed point
    let ghost pairspec = spec_expand_pairs(s@, vars.entries());
    let mut cur = s;
    let mut i: usize = 0;
    proof {
        assert(pairspec.skip(0) =~= pairspec);
    }
    while i < m
        invariant
            m == reps@.len(),
            reps@.map_values(|p: (Vec<char>, Vec<char>)| (p.0@, p.1@)) == pairspec,
            i <= m,
            spec_pairs_terminate(cur@, pairspec.skip(i as int)),
            spec_replace_pairs_fix(s@, pairspec) == spec_replace_pairs_fix(
                cur@,
                pairspec.skip(i as int),
            ),
        decreases m - i,
    {
        let ghost tail = pairspec.skip(i as int);
        proof {
            assert(tail[0] == pairspec[i as int]);
            assert(pairspec[i as int] == (reps@[i as int].0@, reps@[i as int].1@));
            assert(tail.skip(1) =~= pairspec.skip(i + 1 as int));
        }
        cur = replace_fix_chars(&cur, &reps[i].0, &reps[i].1);
        i = i + 1;
    }
    proof {
        assert(pairspec.skip(m as int) =~= Seq::<VarEntry>::empty());
    }
    Some(chars_to_string(&cur))
}

/// Each placeholder range found by the scan lies inside the text and
/// is at least five characters wide.
proof fn lemma_phs_bounds(s: Seq<char>, from: int, w: int)
    requires
        from >= 0,
        0 <= w < spec_phs(s, from).len(),
    ensures
        from <= spec_phs(s, from)[w].0,
        spec_phs(s, from)[w].0 + 5 <= spec_phs(s, from)[w].1,
        spec_phs(s, from)[w].1 <= s.len(),
    decreases s.len() - from,
{
    lemma_find_ph_bounds(s, from);
    let r = spec_find_ph(s, from)->Some_0;
    if w == 0 {
        assert(spec_phs(s, from)[0] == r);
    } else {
        lemma_phs_bounds(s, r.1, w - 1);
        assert(spec_phs(s, from)[w] == spec_phs(s, r.1)[w - 1]);
    }
}

/// Expansion is idempotent on a text without placeholders: its
/// substitutions terminate at once, and it returns the text itself, so
/// expanding the result changes nothing further.
pub proof fn lemma_expand_no_placeholders(s: Seq<char>, entries: Seq<VarEntry>)
    requires
        spec_phs(s, 0).len() == 0,
    ensures
        spec_expansion_terminates(s, entries),
        spec_expand(s, entries) == Some(s),
{
    assert(spec_ph_texts(s) =~= Seq::<Seq<char>>::empty());
    assert(spec_dedup(spec_ph_texts(s)) =~= Seq::<Seq<char>>::empty());
    assert(spec_expand_pairs(s, entries) =~= Seq::<VarEntry>::empty());
    assert(spec_replace_pairs_fix(s, spec_expand_pairs(s, entries)) == s);
}

/// Substituting a single pair runs that key's substitution to its
/// fixed point: no occurrence of the key remains, so every former
/// occurrence now reads the value.
pub proof fn lemma_substitution_consumes_key(s: Seq<char>, pairs: Seq<VarEntry>)
    requires
        pairs.len() == 1,
        spec_pairs_terminate(s, pairs),
    ensures
        spec_replace_pairs_fix(s, pairs) == spec_replace_fix(s, pairs[0].0, pairs[0].1),
        !contains_seq(spec_replace_pairs_fix(s, pairs), pairs[0].0),
{
    let s1 = spec_replace_fix(s, pairs[0].0, pairs[0].1);
    assert(spec_replace_pairs_fix(s, pairs) == spec_replace_pairs_fix(s1, pairs.skip(1)));
    assert(pairs.skip(1) =~= Seq::<VarEntry>::empty());
    assert(spec_replace_pairs_fix(s1, Seq::<VarEntry>::empty()) == s1);
    lemma_fix_props(s, pairs[0].0, pairs[0].1);
}

/// After the whole substitution fold, the last pair's key does not
/// occur in the result: its occurrences were all replaced, and no
/// later substitution could recreate one.
pub proof fn lemma_last_key_consumed(s: Seq<char>, pairs: Seq<VarEntry>)
    requires
        pairs.len() > 0,
        spec_pairs_terminate(s, pairs),
    ensures
        !contains_seq(spec_replace_pairs_fix(s, pairs), pairs.last().0),
    decreases pairs.len(),
{
    let s1 = spec_replace_fix(s, pairs[0].0, pairs[0].1);
    assert(spec_replace_pairs_fix(s, pairs) == spec_replace_pairs_fix(s1, pairs.skip(1)));
    if pairs.len() == 1 {
        assert(pairs.skip(1) =~= Seq::<VarEntry>::empty());
        assert(spec_replace_pairs_fix(s1, Seq::<VarEntry>::empty()) == s1);
        assert(pairs.last() == pairs[0]);
        lemma_fix_props(s, pairs[0].0, pairs[0].1);
    } else {
        assert(pairs.skip(1).last() == pairs.last());
        lemma_last_key_consumed(s1, pairs.skip(1));
    }
}

/// A round that finds an occurrence of a longer key shrinks the text.
proof fn lemma_round_shrinks(s: Seq<char>, pat: Seq<char>, rep: Seq<char>)
    requires
        contains_seq(s, pat),
        rep.len() < pat.len(),
    ensures
        spec_replace_round(s, pat, rep).len() < s.len(),
{
    lemma_find_pat_contains(s, pat);
    lemma_find_pat_props(s, pat, 0);
    let i = spec_find_pat(s, pat, 0)->Some_0;
    assert(match_at(s, pat, i));
    assert(spec_replace_round(s, pat, rep) == s.subrange(0, i) + rep + s.skip(i + pat.len()));
}

/// A replacement shorter than its key always terminates: every round
/// that still finds an occurrence shrinks the text.
pub proof fn lemma_shorter_replacement_terminates(s: Seq<char>, pat: Seq<char>, rep: Seq<char>)
    requires
        rep.len() < pat.len(),
    ensures
        spec_replacement_terminates(s, pat, rep),
    decreases s.len(),
{
    if !contains_seq(s, pat) {
        assert(spec_replace_iter(s, pat, rep, 0) == s);
    } else {
        lemma_round_shrinks(s, pat, rep);
        let s1 = spec_replace_round(s, pat, rep);
        lemma_shorter_replacement_terminates(s1, pat, rep);
        let n = choose|n: nat| !contains_seq(#[trigger] spec_replace_iter(s1, pat, rep, n), pat);
        assert(spec_replace_iter(s, pat, rep, n + 1) == spec_replace_iter(s1, pat, rep, n));
    }
}

} // verus!
