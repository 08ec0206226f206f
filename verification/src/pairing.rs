//! Greedy pairing of candidate lines: each line, in order, is paired with
//! the first later line that is still free and that it can pair with. Which
//! lines can pair (parallel, at a wall's or a window's depth, overlapping)
//! is a question of geometry that the caller answers in `ok`.

use vstd::prelude::*;

verus! {

/// Whether line `i` can pair with line `j`; a missing answer is no.
pub open spec fn can_pair(ok: Seq<Seq<bool>>, i: int, j: int) -> bool {
    0 <= i < ok.len() && 0 <= j < ok[i].len() && ok[i][j]
}

/// The first line from `j` on that is free and can pair with `i`.
pub open spec fn first_free(ok: Seq<Seq<bool>>, used: Seq<bool>, i: int, j: int) -> Option<int>
    decreases ok.len() - j,
{
    if j < 0 || j >= ok.len() {
        None
    } else if !used[j] && can_pair(ok, i, j) {
        Some(j)
    } else {
        first_free(ok, used, i, j + 1)
    }
}

/// Pairing from line `i` on, with the lines in `used` already taken and
/// `pairs` made so far. Gives the pairs and the lines taken.
pub open spec fn pairing(ok: Seq<Seq<bool>>, i: int, used: Seq<bool>, pairs: Seq<(usize, usize)>) -> (
    Seq<(usize, usize)>,
    Seq<bool>,
)
    decreases ok.len() - i,
{
    if i < 0 || i >= ok.len() {
        (pairs, used)
    } else if used[i] {
        pairing(ok, i + 1, used, pairs)
    } else {
        match first_free(ok, used, i, i + 1) {
            Some(j) => pairing(
                ok,
                i + 1,
                used.update(i, true).update(j, true),
                pairs.push((i as usize, j as usize)),
            ),
            None => pairing(ok, i + 1, used, pairs),
        }
    }
}

/// The greedy pairing of all the lines of `ok`.
pub open spec fn greedy(ok: Seq<Seq<bool>>) -> (Seq<(usize, usize)>, Seq<bool>) {
    pairing(ok, 0, Seq::new(ok.len(), |i: int| false), seq![])
}

/// The lines among the first `n` that `used` leaves free, in order.
pub open spec fn free_lines(used: Seq<bool>, n: int) -> Seq<usize>
    decreases n,
{
    if n <= 0 {
        seq![]
    } else if !used[n - 1] {
        free_lines(used, n - 1).push((n - 1) as usize)
    } else {
        free_lines(used, n - 1)
    }
}

pub open spec fn rows_view(ok: Seq<Vec<bool>>) -> Seq<Seq<bool>> {
    ok.map_values(|r: Vec<bool>| r@)
}

/// Pairs the lines greedily; `ok[i][j]` says whether line `i` can pair
/// with line `j`. Gives the pairs, in the order made, and the lines left
/// alone, in order.
pub fn greedy_pairs(ok: &[Vec<bool>]) -> (r: (Vec<(usize, usize)>, Vec<usize>))
    ensures
        r.0@ == greedy(rows_view(ok@)).0,
        r.1@ == free_lines(greedy(rows_view(ok@)).1, ok@.len() as int),
{
    let n = ok.len();
    let ghost okv = rows_view(ok@);
    let mut used: Vec<bool> = Vec::new();
    let mut k: usize = 0;
    while k < n
        invariant
            k <= n,
            used@ == Seq::new(k as nat, |i: int| false),
        decreases n - k,
    {
        used.push(false);
        k = k + 1;
    }
    let mut pairs: Vec<(usize, usize)> = Vec::new();
    assert(used@ =~= Seq::new(okv.len(), |i: int| false));
    let ghost target = greedy(okv);
    let mut i: usize = 0;
    while i < n
        invariant
            i <= n,
            n == ok@.len(),
            okv == rows_view(ok@),
            used@.len() == n,
            pairing(okv, i as int, used@, pairs@) == target,
        decreases n - i,
    {
        if !used[i] {
            let mut j: usize = i + 1;
            while j < n
                invariant
                    i < n,
                    i + 1 <= j <= n,
                    n == ok@.len(),
                    okv == rows_view(ok@),
                    used@.len() == n,
                    first_free(okv, used@, i as int, j as int) == first_free(okv, used@, i as int, i + 1),
                ensures
                    j <= n,
                    j < n ==> first_free(okv, used@, i as int, i + 1) == Some(j as int),
                    j == n ==> first_free(okv, used@, i as int, i + 1) == None::<int>,
                decreases n - j,
            {
                assert(okv[i as int] == ok@[i as int]@);
                if !used[j] && j < ok[i].len() && ok[i][j] {
                    break;
                }
                j = j + 1;
            }
            if j < n {
                pairs.push((i, j));
                used.set(i, true);
                used.set(j, true);
            }
        }
        i = i + 1;
    }
    let ghost final_used = used@;
    assert(pairing(okv, n as int, used@, pairs@) == (pairs@, used@));
    let mut lone: Vec<usize> = Vec::new();
    let mut k: usize = 0;
    while k < n
        invariant
            k <= n,
            used@ == final_used,
            used@.len() == n,
            lone@ == free_lines(final_used, k as int),
        decreases n - k,
    {
        if !used[k] {
            lone.push(k);
        }
        k = k + 1;
    }
    (pairs, lone)
}

proof fn lemma_first_free(ok: Seq<Seq<bool>>, used: Seq<bool>, i: int, j: int)
    requires
        0 <= j,
    ensures
        first_free(ok, used, i, j) matches Some(k) ==> j <= k < ok.len() && !used[k] && can_pair(ok, i, k),
        first_free(ok, used, i, j) is None ==> forall|b: int| j <= b < ok.len() ==> used[b] || !can_pair(ok, i, b),
    decreases ok.len() - j,
{
    if j < ok.len() && !(!used[j] && can_pair(ok, i, j)) {
        lemma_first_free(ok, used, i, j + 1);
    }
}

/// Whether no two free lines before `i` and after it can pair.
pub open spec fn settled(ok: Seq<Seq<bool>>, used: Seq<bool>, i: int) -> bool {
    forall|a: int, b: int|
        0 <= a < i && a < b < ok.len() && !#[trigger] used[a] && !#[trigger] used[b] ==> !can_pair(ok, a, b)
}

/// Whether each pair is of two lines, the first before the second, that
/// can pair.
pub open spec fn pairs_ok(ok: Seq<Seq<bool>>, pairs: Seq<(usize, usize)>) -> bool {
    forall|k: int| 0 <= k < pairs.len() ==> #[trigger] pairs[k].0 < pairs[k].1 < ok.len() && can_pair(ok, pairs[k].0 as int, pairs[k].1 as int)
}

proof fn lemma_pairing(ok: Seq<Seq<bool>>, i: int, used: Seq<bool>, pairs: Seq<(usize, usize)>)
    requires
        0 <= i <= ok.len(),
        ok.len() <= usize::MAX,
        used.len() == ok.len(),
        settled(ok, used, i),
        pairs_ok(ok, pairs),
    ensures
        pairing(ok, i, used, pairs).1.len() == ok.len(),
        settled(ok, pairing(ok, i, used, pairs).1, ok.len() as int),
        pairs_ok(ok, pairing(ok, i, used, pairs).0),
    decreases ok.len() - i,
{
    if i < ok.len() {
        if used[i] {
            assert(settled(ok, used, i + 1));
            lemma_pairing(ok, i + 1, used, pairs);
        } else {
            lemma_first_free(ok, used, i, i + 1);
            match first_free(ok, used, i, i + 1) {
                Some(j) => {
                    let u2 = used.update(i, true).update(j, true);
                    let p2 = pairs.push((i as usize, j as usize));
                    assert(settled(ok, u2, i + 1)) by {
                        assert forall|a: int, b: int|
                            0 <= a < i + 1 && a < b < ok.len() && !#[trigger] u2[a] && !#[trigger] u2[b] implies !can_pair(ok, a, b) by {
                            assert(a != i && a != j && b != i && b != j);
                            assert(!used[a] && !used[b]);
                        }
                    }
                    assert(pairs_ok(ok, p2)) by {
                        assert forall|k: int| 0 <= k < p2.len() implies #[trigger] p2[k].0 < p2[k].1 < ok.len() && can_pair(ok, p2[k].0 as int, p2[k].1 as int) by {
                            if k < pairs.len() {
                                assert(p2[k] == pairs[k]);
                            }
                        }
                    }
                    lemma_pairing(ok, i + 1, u2, p2);
                },
                None => {
                    assert(settled(ok, used, i + 1));
                    lemma_pairing(ok, i + 1, used, pairs);
                },
            }
        }
    }
}

proof fn lemma_free_lines(used: Seq<bool>, n: int)
    requires
        0 <= n <= used.len(),
        n <= usize::MAX + 1,
    ensures
        forall|a: int| 0 <= a < free_lines(used, n).len() ==> #[trigger] free_lines(used, n)[a] < n && !used[free_lines(used, n)[a] as int],
        forall|a: int, b: int| 0 <= a < b < free_lines(used, n).len() ==> free_lines(used, n)[a] < free_lines(used, n)[b],
    decreases n,
{
    if n > 0 {
        lemma_free_lines(used, n - 1);
        let f = free_lines(used, n);
        let p = free_lines(used, n - 1);
        if !used[n - 1] {
            assert(f == p.push((n - 1) as usize));
            assert forall|a: int| 0 <= a < f.len() implies #[trigger] f[a] < n && !used[f[a] as int] by {
                if a < p.len() {
                    assert(f[a] == p[a]);
                }
            }
            assert forall|a: int, b: int| 0 <= a < b < f.len() implies f[a] < f[b] by {
                assert(f[a] == p[a]);
                if b < p.len() {
                    assert(f[b] == p[b]);
                }
            }
        }
    }
}

/// What greedy pairing gives: each pair is of two lines, the first before
/// the second, that can pair; and no two of the lines left alone can pair,
/// the earlier with the later.
pub proof fn lemma_pairing_is_maximal(ok: Seq<Seq<bool>>)
    requires
        ok.len() <= usize::MAX,
    ensures
        pairs_ok(ok, greedy(ok).0),
        forall|a: int, b: int|
            0 <= a < b < free_lines(greedy(ok).1, ok.len() as int).len() ==> !can_pair(
                ok,
                #[trigger] free_lines(greedy(ok).1, ok.len() as int)[a] as int,
                #[trigger] free_lines(greedy(ok).1, ok.len() as int)[b] as int,
            ),
{
    let used0 = Seq::new(ok.len(), |i: int| false);
    lemma_pairing(ok, 0, used0, seq![]);
    let used = greedy(ok).1;
    let lone = free_lines(used, ok.len() as int);
    lemma_free_lines(used, ok.len() as int);
    assert forall|a: int, b: int| 0 <= a < b < lone.len() implies !can_pair(ok, #[trigger] lone[a] as int, #[trigger] lone[b] as int) by {
        assert(!used[lone[a] as int] && !used[lone[b] as int]);
    }
}

/// Whether line `x` is one end of one of the pairs.
pub open spec fn end_of(pairs: Seq<(usize, usize)>, x: int) -> bool {
    exists|k: int| 0 <= k < pairs.len() && ((#[trigger] pairs[k]).0 == x || pairs[k].1 == x)
}

/// Whether no line is an end of two pairs, or both ends of one.
pub open spec fn ends_distinct(pairs: Seq<(usize, usize)>) -> bool {
    forall|k1: int, k2: int|
        0 <= k1 < pairs.len() && 0 <= k2 < pairs.len() ==> (#[trigger] pairs[k1]).0 != (
        #[trigger] pairs[k2]).1 && (k1 != k2 ==> pairs[k1].0 != pairs[k2].0 && pairs[k1].1
            != pairs[k2].1)
}

/// The lines taken are exactly the ends of the pairs made.
pub open spec fn tracks(used: Seq<bool>, pairs: Seq<(usize, usize)>) -> bool {
    &&& forall|k: int|
        0 <= k < pairs.len() ==> (#[trigger] pairs[k]).0 < used.len() && pairs[k].1 < used.len()
    &&& forall|x: int| 0 <= x < used.len() ==> (#[trigger] used[x] <==> end_of(pairs, x))
}

proof fn lemma_pairing_tracks(ok: Seq<Seq<bool>>, i: int, used: Seq<bool>, pairs: Seq<(usize, usize)>)
    requires
        0 <= i <= ok.len(),
        ok.len() <= usize::MAX,
        used.len() == ok.len(),
        tracks(used, pairs),
        ends_distinct(pairs),
    ensures
        pairing(ok, i, used, pairs).1.len() == ok.len(),
        tracks(pairing(ok, i, used, pairs).1, pairing(ok, i, used, pairs).0),
        ends_distinct(pairing(ok, i, used, pairs).0),
    decreases ok.len() - i,
{
    if i < ok.len() {
        if used[i] {
            lemma_pairing_tracks(ok, i + 1, used, pairs);
        } else {
            lemma_first_free(ok, used, i, i + 1);
            match first_free(ok, used, i, i + 1) {
                Some(j) => {
                    let u2 = used.update(i, true).update(j, true);
                    let p2 = pairs.push((i as usize, j as usize));
                    let last = pairs.len() as int;
                    assert(p2[last] == (i as usize, j as usize));
                    assert(!end_of(pairs, i));
                    assert(!end_of(pairs, j));
                    assert forall|k: int| 0 <= k < p2.len() implies (#[trigger] p2[k]).0 < u2.len()
                        && p2[k].1 < u2.len() by {
                        if k < last {
                            assert(p2[k] == pairs[k]);
                        }
                    }
                    assert forall|x: int| 0 <= x < u2.len() implies (#[trigger] u2[x] <==> end_of(
                        p2,
                        x,
                    )) by {
                        if x == i || x == j {
                            assert(p2[last] == (i as usize, j as usize));
                        } else {
                            if used[x] {
                                let k = choose|k: int|
                                    0 <= k < pairs.len() && ((#[trigger] pairs[k]).0 == x
                                        || pairs[k].1 == x);
                                assert(p2[k] == pairs[k]);
                            }
                            if end_of(p2, x) {
                                let k = choose|k: int|
                                    0 <= k < p2.len() && ((#[trigger] p2[k]).0 == x || p2[k].1
                                        == x);
                                assert(k != last);
                                assert(p2[k] == pairs[k]);
                            }
                        }
                    }
                    assert forall|k1: int, k2: int|
                        0 <= k1 < p2.len() && 0 <= k2 < p2.len() implies (#[trigger] p2[k1]).0 != (
                        #[trigger] p2[k2]).1 && (k1 != k2 ==> p2[k1].0 != p2[k2].0 && p2[k1].1
                            != p2[k2].1) by {
                        if k1 < last {
                            assert(p2[k1] == pairs[k1]);
                        }
                        if k2 < last {
                            assert(p2[k2] == pairs[k2]);
                        }
                    }
                    lemma_pairing_tracks(ok, i + 1, u2, p2);
                },
                None => {
                    lemma_pairing_tracks(ok, i + 1, used, pairs);
                },
            }
        }
    }
}

proof fn lemma_free_lines_has(used: Seq<bool>, n: int, x: int)
    requires
        0 <= x < n <= used.len(),
        n <= usize::MAX + 1,
        !used[x],
    ensures
        free_lines(used, n).contains(x as usize),
    decreases n,
{
    if x < n - 1 {
        lemma_free_lines_has(used, n - 1, x);
        let p = free_lines(used, n - 1);
        let a = choose|a: int| 0 <= a < p.len() && p[a] == x as usize;
        if !used[n - 1] {
            assert(free_lines(used, n)[a] == p[a]);
        }
    } else {
        let f = free_lines(used, n);
        assert(f[f.len() - 1] == x as usize);
    }
}

/// Greedy pairing splits the lines: every line is either one end of
/// exactly one pair or one of the lines left alone, and never both; no
/// pair has the same line at both ends, and no line is left alone twice.
pub proof fn lemma_pairing_splits_lines(ok: Seq<Seq<bool>>)
    requires
        ok.len() <= usize::MAX,
    ensures
        ({
            let pairs = greedy(ok).0;
            let lone = free_lines(greedy(ok).1, ok.len() as int);
            &&& ends_distinct(pairs)
            &&& forall|k: int| 0 <= k < pairs.len() ==> (#[trigger] pairs[k]).1 < ok.len()
            &&& forall|a: int, b: int| 0 <= a < b < lone.len() ==> lone[a] < lone[b]
            &&& forall|a: int| 0 <= a < lone.len() ==> #[trigger] lone[a] < ok.len() && !end_of(
                pairs,
                lone[a] as int,
            )
            &&& forall|x: int| 0 <= x < ok.len() ==> end_of(pairs, x) || lone.contains(x as usize)
        }),
{
    let used0 = Seq::new(ok.len(), |i: int| false);
    let none = Seq::<(usize, usize)>::empty();
    assert(tracks(used0, none));
    lemma_pairing_tracks(ok, 0, used0, none);
    lemma_pairing(ok, 0, used0, none);
    let pairs = greedy(ok).0;
    let used = greedy(ok).1;
    let lone = free_lines(used, ok.len() as int);
    lemma_free_lines(used, ok.len() as int);
    assert forall|x: int| 0 <= x < ok.len() implies end_of(pairs, x) || lone.contains(
        x as usize,
    ) by {
        if !used[x] {
            lemma_free_lines_has(used, ok.len() as int, x);
        }
    }
    assert forall|a: int| 0 <= a < lone.len() implies #[trigger] lone[a] < ok.len() && !end_of(
        pairs,
        lone[a] as int,
    ) by {
        assert(!used[lone[a] as int]);
    }
}

} // verus!
