use vstd::prelude::*;

verus! {

/// A position in a table together with its score.
#[derive(Clone, Copy, Debug, PartialEq, Eq, Structural)]
pub struct Ranked {
    pub index: usize,
    pub score: i64,
}

/// Ranking order: higher score first; among equal scores, the earlier position first.
pub open spec fn ranks_before(x: Ranked, y: Ranked) -> bool {
    x.score > y.score || (x.score == y.score && x.index < y.index)
}

pub open spec fn strictly_ranked(s: Seq<Ranked>) -> bool {
    forall|j: int, k: int| 0 <= j < k < s.len() ==> #[trigger] ranks_before(s[j], s[k])
}

/// `s` lists, best first, exactly the positions `i < n` that `keep` admits, each
/// with the score that `score` gives it.
pub open spec fn ranks_exactly(
    s: Seq<Ranked>,
    n: int,
    keep: spec_fn(int) -> bool,
    score: spec_fn(int) -> int,
) -> bool {
    &&& strictly_ranked(s)
    &&& forall|j: int|
        #![trigger s[j]]
        0 <= j < s.len() ==> 0 <= s[j].index < n && keep(s[j].index as int) && s[j].score == score(
            s[j].index as int,
        )
    &&& forall|i: int| 0 <= i < n && #[trigger] keep(i) ==> exists|j: int| 0 <= j < s.len() && s[j].index == i
}

/// The ranking of the positions below `n` that `keep` admits: a stable sort by
/// descending score. It exists wherever the scores fit an `i64`
/// (`lemma_ranking_exists`) and is unique (`lemma_ranking_unique`).
pub open spec fn ranking(n: int, keep: spec_fn(int) -> bool, score: spec_fn(int) -> int) -> Seq<
    Ranked,
> {
    choose|s: Seq<Ranked>| ranks_exactly(s, n, keep, score)
}

/// The first `limit` entries of `s`, or all of them where there are fewer.
pub open spec fn take_at_most(s: Seq<Ranked>, limit: int) -> Seq<Ranked> {
    if s.len() <= limit {
        s
    } else {
        s.subrange(0, limit)
    }
}

proof fn lemma_sorted_same_elements(s1: Seq<Ranked>, s2: Seq<Ranked>)
    requires
        strictly_ranked(s1),
        strictly_ranked(s2),
        forall|x: Ranked| s1.contains(x) <==> s2.contains(x),
    ensures
        s1 == s2,
    decreases s1.len(),
{
    if s1.len() == 0 {
        if s2.len() > 0 {
            assert(s2.contains(s2[0]));
        }
        assert(s1 =~= s2);
    } else {
        assert(s1.contains(s1[0]));
        assert(s2.contains(s1[0]));
        let j = choose|j: int| 0 <= j < s2.len() && s2[j] == s1[0];
        assert(s2.contains(s2[0]));
        let k = choose|k: int| 0 <= k < s1.len() && s1[k] == s2[0];
        if j > 0 {
            assert(ranks_before(s2[0], s2[j]));
            if k > 0 {
                assert(ranks_before(s1[0], s1[k]));
            }
        }
        assert(s1[0] == s2[0]);
        let t1 = s1.drop_first();
        let t2 = s2.drop_first();
        assert forall|x: Ranked| t1.contains(x) implies t2.contains(x) by {
            let m = choose|m: int| 0 <= m < t1.len() && t1[m] == x;
            assert(ranks_before(s1[0], s1[m + 1]));
            assert(s1.contains(x));
            let q = choose|q: int| 0 <= q < s2.len() && s2[q] == x;
            assert(q != 0);
            assert(t2[q - 1] == x);
        }
        assert forall|x: Ranked| t2.contains(x) implies t1.contains(x) by {
            let m = choose|m: int| 0 <= m < t2.len() && t2[m] == x;
            assert(ranks_before(s2[0], s2[m + 1]));
            assert(s2.contains(x));
            let q = choose|q: int| 0 <= q < s1.len() && s1[q] == x;
            assert(q != 0);
            assert(t1[q - 1] == x);
        }
        assert(strictly_ranked(t1)) by {
            assert forall|a: int, b: int| 0 <= a < b < t1.len() implies #[trigger] ranks_before(
                t1[a],
                t1[b],
            ) by {
                assert(ranks_before(s1[a + 1], s1[b + 1]));
            }
        }
        assert(strictly_ranked(t2)) by {
            assert forall|a: int, b: int| 0 <= a < b < t2.len() implies #[trigger] ranks_before(
                t2[a],
                t2[b],
            ) by {
                assert(ranks_before(s2[a + 1], s2[b + 1]));
            }
        }
        lemma_sorted_same_elements(t1, t2);
        assert(s1 =~= s2) by {
            assert forall|a: int| 0 <= a < s1.len() implies s1[a] == s2[a] by {
                if a > 0 {
                    assert(s1[a] == t1[a - 1]);
                    assert(s2[a] == t2[a - 1]);
                }
            }
        }
    }
}

/// Two lists that rank the same positions by the same scores are equal.
pub proof fn lemma_ranking_unique(
    s1: Seq<Ranked>,
    s2: Seq<Ranked>,
    n: int,
    keep: spec_fn(int) -> bool,
    score: spec_fn(int) -> int,
)
    requires
        ranks_exactly(s1, n, keep, score),
        ranks_exactly(s2, n, keep, score),
    ensures
        s1 == s2,
{
    assert forall|x: Ranked| s1.contains(x) implies s2.contains(x) by {
        let j = choose|j: int| 0 <= j < s1.len() && s1[j] == x;
        assert(keep(s1[j].index as int));
        let k = choose|k: int| 0 <= k < s2.len() && s2[k].index == x.index;
        assert(s2[k] == x);
    }
    assert forall|x: Ranked| s2.contains(x) implies s1.contains(x) by {
        let j = choose|j: int| 0 <= j < s2.len() && s2[j] == x;
        assert(keep(s2[j].index as int));
        let k = choose|k: int| 0 <= k < s1.len() && s1[k].index == x.index;
        assert(s1[k] == x);
    }
    lemma_sorted_same_elements(s1, s2);
}

/// A list that ranks the admitted positions is the ranking.
pub proof fn lemma_ranking_is(
    s: Seq<Ranked>,
    n: int,
    keep: spec_fn(int) -> bool,
    score: spec_fn(int) -> int,
)
    requires
        ranks_exactly(s, n, keep, score),
    ensures
        ranking(n, keep, score) == s,
{
    let r = ranking(n, keep, score);
    assert(ranks_exactly(r, n, keep, score));
    lemma_ranking_unique(r, s, n, keep, score);
}

/// The empty list ranks the positions below zero.
pub proof fn lemma_ranks_start(keep: spec_fn(int) -> bool, score: spec_fn(int) -> int)
    ensures
        ranks_exactly(Seq::<Ranked>::empty(), 0, keep, score),
{
}

/// A position that `keep` refuses leaves the list as it is.
pub proof fn lemma_ranks_skip(
    s: Seq<Ranked>,
    n: int,
    keep: spec_fn(int) -> bool,
    score: spec_fn(int) -> int,
)
    requires
        ranks_exactly(s, n, keep, score),
        !keep(n),
    ensures
        ranks_exactly(s, n + 1, keep, score),
{
    assert forall|i: int| 0 <= i < n + 1 && #[trigger] keep(i) implies exists|j: int|
        0 <= j < s.len() && s[j].index == i by {
        assert(i < n);
    }
}

/// Inserting position `n`, which `keep` admits, extends the list by it.
pub proof fn lemma_ranks_extend(
    s: Seq<Ranked>,
    p: int,
    h: Ranked,
    n: int,
    keep: spec_fn(int) -> bool,
    score: spec_fn(int) -> int,
)
    requires
        ranks_exactly(s, n, keep, score),
        0 <= p <= s.len(),
        h.index == n,
        keep(n),
        h.score == score(n),
        strictly_ranked(s.insert(p, h)),
    ensures
        ranks_exactly(s.insert(p, h), n + 1, keep, score),
{
    let t = s.insert(p, h);
    s.insert_ensures(p, h);
    assert forall|j: int| #![trigger t[j]] 0 <= j < t.len() implies 0 <= t[j].index < n + 1 && keep(
        t[j].index as int,
    ) && t[j].score == score(t[j].index as int) by {
        if j < p {
            assert(t[j] == s[j]);
        } else if j > p {
            assert(t[j] == s[j - 1]);
        }
    }
    assert forall|i: int| 0 <= i < n + 1 && #[trigger] keep(i) implies exists|j: int|
        0 <= j < t.len() && t[j].index == i by {
        if i == n {
            assert(t[p].index == i);
        } else {
            let j0 = choose|j: int| 0 <= j < s.len() && s[j].index == i;
            if j0 < p {
                assert(t[j0].index == i);
            } else {
                assert(t[j0 + 1].index == i);
            }
        }
    }
}

/// The number of leading entries of `s` that score at least `t`.
pub open spec fn lead(s: Seq<Ranked>, t: int) -> int
    decreases s.len(),
{
    if s.len() == 0 || s[0].score < t {
        0
    } else {
        1 + lead(s.drop_first(), t)
    }
}

/// In a ranked list the entries that score at least `t` come first.
pub proof fn lemma_lead(s: Seq<Ranked>, t: int)
    requires
        strictly_ranked(s),
    ensures
        0 <= lead(s, t) <= s.len(),
        forall|j: int| 0 <= j < lead(s, t) ==> #[trigger] s[j].score >= t,
        forall|j: int| lead(s, t) <= j < s.len() ==> #[trigger] s[j].score < t,
    decreases s.len(),
{
    if s.len() > 0 && s[0].score >= t {
        let u = s.drop_first();
        assert(strictly_ranked(u)) by {
            assert forall|a: int, b: int| 0 <= a < b < u.len() implies #[trigger] ranks_before(
                u[a],
                u[b],
            ) by {
                assert(ranks_before(s[a + 1], s[b + 1]));
            }
        }
        lemma_lead(u, t);
        assert forall|j: int| 0 <= j < lead(s, t) implies #[trigger] s[j].score >= t by {
            if j > 0 {
                assert(s[j] == u[j - 1]);
            }
        }
        assert forall|j: int| lead(s, t) <= j < s.len() implies #[trigger] s[j].score < t by {
            assert(s[j] == u[j - 1]);
        }
    } else if s.len() > 0 {
        assert forall|j: int| 0 <= j < s.len() implies #[trigger] s[j].score < t by {
            if j > 0 {
                assert(ranks_before(s[0], s[j]));
            }
        }
    }
}

proof fn lemma_insert_at_lead(s: Seq<Ranked>, h: Ranked)
    requires
        strictly_ranked(s),
        forall|j: int| 0 <= j < s.len() ==> s[j].index < h.index,
    ensures
        strictly_ranked(s.insert(lead(s, h.score as int), h)),
{
    lemma_lead(s, h.score as int);
    let p = lead(s, h.score as int);
    s.insert_ensures(p, h);
    let t = s.insert(p, h);
    assert forall|j: int, k: int| 0 <= j < k < t.len() implies #[trigger] ranks_before(t[j], t[k]) by {
        if k < p {
            assert(ranks_before(s[j], s[k]));
        } else if k == p {
            assert(s[j].score >= h.score);
        } else if j < p {
            assert(t[k] == s[k - 1]);
            assert(ranks_before(s[j], s[k - 1]));
        } else if j == p {
            assert(t[k] == s[k - 1]);
            assert(s[k - 1].score < h.score);
        } else {
            assert(ranks_before(s[j - 1], s[k - 1]));
        }
    }
}

/// Every admitted position with a score that fits a `Ranked` can be ranked.
pub proof fn lemma_ranking_exists(n: int, keep: spec_fn(int) -> bool, score: spec_fn(int) -> int)
    requires
        0 <= n <= usize::MAX,
        forall|i: int| 0 <= i < n && #[trigger] keep(i) ==> i64::MIN <= score(i) <= i64::MAX,
    ensures
        ranks_exactly(ranking(n, keep, score), n, keep, score),
{
    let s = lemma_ranks_exist(n, keep, score);
    lemma_ranking_is(s, n, keep, score);
}

proof fn lemma_ranks_exist(n: int, keep: spec_fn(int) -> bool, score: spec_fn(int) -> int) -> (s: Seq<
    Ranked,
>)
    requires
        0 <= n <= usize::MAX,
        forall|i: int| 0 <= i < n && #[trigger] keep(i) ==> i64::MIN <= score(i) <= i64::MAX,
    ensures
        ranks_exactly(s, n, keep, score),
    decreases n,
{
    if n == 0 {
        Seq::empty()
    } else {
        let s0 = lemma_ranks_exist(n - 1, keep, score);
        if keep(n - 1) {
            let h = Ranked { index: (n - 1) as usize, score: score(n - 1) as i64 };
            lemma_insert_at_lead(s0, h);
            let p = lead(s0, h.score as int);
            lemma_lead(s0, h.score as int);
            lemma_ranks_extend(s0, p, h, n - 1, keep, score);
            s0.insert(p, h)
        } else {
            lemma_ranks_skip(s0, n - 1, keep, score);
            s0
        }
    }
}

/// Inserts `h` where the ranking order puts it, after every entry of a score at
/// least as high: `h`'s position is later than all those present.
pub fn insert_ranked(hits: &mut Vec<Ranked>, h: Ranked) -> (p: usize)
    requires
        strictly_ranked(old(hits)@),
        forall|j: int| 0 <= j < old(hits)@.len() ==> old(hits)@[j].index < h.index,
    ensures
        p <= old(hits)@.len(),
        final(hits)@ == old(hits)@.insert(p as int, h),
        strictly_ranked(final(hits)@),
{
    let mut p: usize = 0;
    while p < hits.len() && hits[p].score >= h.score
        invariant
            p <= hits@.len(),
            forall|j: int| 0 <= j < p ==> hits@[j].score >= h.score,
        decreases hits@.len() - p,
    {
        p = p + 1;
    }
    let ghost s = hits@;
    proof {
        lemma_lead(s, h.score as int);
        let l = lead(s, h.score as int);
        if (p as int) < l {
            assert(s[p as int].score >= h.score);
        } else if (p as int) > l {
            assert(s[l].score >= h.score);
        }
        lemma_insert_at_lead(s, h);
    }
    hits.insert(p, h);
    p
}

} // verus!
