//! The faces of the planar graph that wall centerlines form: vertices
//! interned by their snapped keys, paired half-edges, `next` pointers
//! linked around each vertex, and the cycles that the pointers trace.
//! Where the geometry needs floating point (snapping a point to its key,
//! ordering a vertex's edges by angle, the area of a face), the caller
//! computes it and hands the result in.

use std::collections::HashMap;

use vstd::prelude::*;

verus! {

/// Whether position `k` is the first at which `keys[k]` occurs.
pub open spec fn first_at(keys: Seq<(i64, i64)>, k: int) -> bool {
    forall|j: int| 0 <= j < k ==> keys[j] != keys[k]
}

/// The integer that a key is filed under in the vertex table: `x` above,
/// `y` (shifted to be nonnegative) below, 64 bits each.
pub open spec fn packed(k: (i64, i64)) -> int {
    k.0 * 0x1_0000_0000_0000_0000 + (k.1 + 0x8000_0000_0000_0000)
}

proof fn lemma_packed(a: (i64, i64), b: (i64, i64))
    ensures
        i128::MIN <= packed(a) <= i128::MAX,
        packed(a) == packed(b) ==> a == b,
{
    let (a0, a1, b0, b1) = (a.0 as int, a.1 as int, b.0 as int, b.1 as int);
    assert(i128::MIN <= a0 * 0x1_0000_0000_0000_0000 + (a1 + 0x8000_0000_0000_0000) <= i128::MAX)
        by (nonlinear_arith)
        requires
            i64::MIN <= a0 <= i64::MAX,
            i64::MIN <= a1 <= i64::MAX,
    ;
    assert(a0 * 0x1_0000_0000_0000_0000 + (a1 + 0x8000_0000_0000_0000) == b0
        * 0x1_0000_0000_0000_0000 + (b1 + 0x8000_0000_0000_0000) ==> a0 == b0 && a1 == b1)
        by (nonlinear_arith)
        requires
            i64::MIN <= a1 <= i64::MAX,
            i64::MIN <= b1 <= i64::MAX,
    ;
}

fn pack_key(k: (i64, i64)) -> (c: i128)
    ensures
        c == packed(k),
{
    proof {
        lemma_packed(k, k);
    }
    let hi: i128 = k.0 as i128;
    let lo: i128 = k.1 as i128;
    assert(hi * 0x1_0000_0000_0000_0000 == k.0 * 0x1_0000_0000_0000_0000);
    hi * 0x1_0000_0000_0000_0000i128 + (lo + 0x8000_0000_0000_0000i128)
}

/// Numbers the distinct keys in the order in which they first occur.
/// The first result gives each position its vertex; the second gives each
/// vertex the position where its key first occurs. A key is looked up in
/// a hash map from its packed integer to its vertex.
pub fn intern_keys(keys: &[(i64, i64)]) -> (r: (Vec<usize>, Vec<usize>))
    ensures
        r.0@.len() == keys@.len(),
        forall|v: int| 0 <= v < r.1@.len() ==> r.1@[v] < keys@.len() && first_at(keys@, r.1@[v] as int),
        forall|v: int, w: int| 0 <= v < w < r.1@.len() ==> r.1@[v] < r.1@[w],
        forall|k: int|
            0 <= k < keys@.len() ==> r.0@[k] < r.1@.len() && keys@[r.1@[r.0@[k] as int] as int]
                == keys@[k],
        forall|k: int| 0 <= k < keys@.len() && first_at(keys@, k) ==> r.1@[r.0@[k] as int] == k,
{
    broadcast use vstd::std_specs::hash::group_hash_axioms;

    let n = keys.len();
    let mut idx: Vec<usize> = Vec::new();
    let mut firsts: Vec<usize> = Vec::new();
    let mut table: HashMap<i128, usize> = HashMap::new();
    let mut k: usize = 0;
    while k < n
        invariant
            n == keys@.len(),
            k <= n,
            idx@.len() == k,
            forall|v: int| 0 <= v < firsts@.len() ==> firsts@[v] < k && first_at(keys@, firsts@[v] as int),
            forall|v: int, w: int| 0 <= v < w < firsts@.len() ==> firsts@[v] < firsts@[w],
            forall|j: int|
                0 <= j < k ==> idx@[j] < firsts@.len() && keys@[firsts@[idx@[j] as int] as int]
                    == keys@[j],
            forall|j: int| 0 <= j < k && first_at(keys@, j) ==> firsts@[idx@[j] as int] == j,
            forall|v: int|
                #![trigger firsts@[v]]
                0 <= v < firsts@.len() ==> table@.contains_key(
                    packed(keys@[firsts@[v] as int]) as i128,
                ) && table@[packed(keys@[firsts@[v] as int]) as i128] == v,
            forall|c: i128|
                #[trigger] table@.contains_key(c) ==> table@[c] < firsts@.len() && packed(
                    keys@[firsts@[table@[c] as int] as int],
                ) == c,
        decreases n - k,
    {
        let key = keys[k];
        let code = pack_key(key);
        match table.get(&code) {
            Some(found) => {
                let v = *found;
                proof {
                    let f = firsts@[v as int];
                    lemma_packed(keys@[f as int], key);
                    assert(keys@[f as int] == key);
                    assert(!first_at(keys@, k as int)) by {
                        assert(keys@[f as int] == keys@[k as int]);
                    }
                }
                idx.push(v);
            },
            None => {
                proof {
                    assert forall|j: int| 0 <= j < k implies keys@[j] != keys@[k as int] by {
                        let v = idx@[j] as int;
                        assert(keys@[j] == keys@[firsts@[v] as int]);
                        assert(table@.contains_key(packed(keys@[firsts@[v] as int]) as i128));
                    }
                    assert(first_at(keys@, k as int));
                }
                let ghost old_firsts = firsts@;
                let ghost old_table = table@;
                let vnew = firsts.len();
                table.insert(code, vnew);
                idx.push(vnew);
                firsts.push(k);
                proof {
                    assert forall|v: int|
                        #![trigger firsts@[v]]
                        0 <= v < firsts@.len() implies table@.contains_key(
                        packed(keys@[firsts@[v] as int]) as i128,
                    ) && table@[packed(keys@[firsts@[v] as int]) as i128] == v by {
                        if v < old_firsts.len() {
                            assert(firsts@[v] == old_firsts[v]);
                            lemma_packed(keys@[old_firsts[v] as int], key);
                            assert(old_firsts[v] < k);
                            assert(keys@[old_firsts[v] as int] != key);
                        }
                    }
                    assert forall|c: i128| #[trigger] table@.contains_key(c) implies table@[c]
                        < firsts@.len() && packed(keys@[firsts@[table@[c] as int] as int]) == c by {
                        if c != code {
                            assert(old_table.contains_key(c));
                            assert(firsts@[old_table[c] as int] == old_firsts[old_table[c] as int]);
                        }
                    }
                }
            },
        }
        k = k + 1;
    }
    (idx, firsts)
}

/// A half-edge of the graph: from `origin` to `target`, with its opposite
/// half-edge `twin` and the wall it lies on.
#[derive(Debug, Clone, Copy, PartialEq, Eq, Structural)]
pub struct GraphEdge {
    pub origin: usize,
    pub target: usize,
    pub twin: usize,
    pub wall_id: u32,
}

/// The half-edges of the segments `ends` (each its two vertices and its
/// wall): a segment whose ends differ gives the pair from its first end to
/// its second and back, each the other's twin; a segment whose ends meet
/// gives none.
pub open spec fn edges_of(ends: Seq<(usize, usize, u32)>) -> Seq<GraphEdge>
    decreases ends.len(),
{
    if ends.len() == 0 {
        seq![]
    } else {
        let prev = edges_of(ends.drop_last());
        let (i, j, w) = ends.last();
        if i == j {
            prev
        } else {
            let e = prev.len();
            prev.push(GraphEdge { origin: i, target: j, twin: (e + 1) as usize, wall_id: w }).push(
                GraphEdge { origin: j, target: i, twin: e as usize, wall_id: w },
            )
        }
    }
}

proof fn lemma_edges_len(ends: Seq<(usize, usize, u32)>)
    ensures
        edges_of(ends).len() <= 2 * ends.len(),
    decreases ends.len(),
{
    if ends.len() > 0 {
        lemma_edges_len(ends.drop_last());
    }
}

/// Builds the half-edges of the segments `ends`.
pub fn build_edges(ends: &[(usize, usize, u32)]) -> (edges: Vec<GraphEdge>)
    requires
        ends@.len() < usize::MAX / 2,
    ensures
        edges@ == edges_of(ends@),
{
    let mut edges: Vec<GraphEdge> = Vec::new();
    let mut k: usize = 0;
    while k < ends.len()
        invariant
            k <= ends@.len(),
            ends@.len() < usize::MAX / 2,
            edges@ == edges_of(ends@.take(k as int)),
        decreases ends@.len() - k,
    {
        proof {
            lemma_edges_len(ends@.take(k as int));
            assert(ends@.take(k + 1).drop_last() =~= ends@.take(k as int));
        }
        let (i, j, w) = ends[k];
        if i != j {
            let e = edges.len();
            edges.push(GraphEdge { origin: i, target: j, twin: e + 1, wall_id: w });
            edges.push(GraphEdge { origin: j, target: i, twin: e, wall_id: w });
        }
        k = k + 1;
    }
    assert(ends@.take(ends@.len() as int) =~= ends@);
    edges
}

/// The half-edges among the first `m` that leave vertex `v`, in order.
pub open spec fn edges_from(es: Seq<GraphEdge>, v: usize, m: int) -> Seq<usize>
    decreases m,
{
    if m <= 0 {
        seq![]
    } else {
        let prev = edges_from(es, v, m - 1);
        if es[m - 1].origin == v {
            prev.push((m - 1) as usize)
        } else {
            prev
        }
    }
}

/// For each of the `n_verts` vertices, the half-edges that leave it, in
/// the order of `edges`.
pub fn outgoing_lists(edges: &[GraphEdge], n_verts: usize) -> (outs: Vec<Vec<usize>>)
    ensures
        outs@.len() == n_verts,
        forall|v: int| 0 <= v < n_verts ==> #[trigger] outs@[v]@ == edges_from(edges@, v as usize, edges@.len() as int),
{
    let m = edges.len();
    let mut outs: Vec<Vec<usize>> = Vec::new();
    let mut v: usize = 0;
    while v < n_verts
        invariant
            v <= n_verts,
            m == edges@.len(),
            outs@.len() == v,
            forall|u: int| 0 <= u < v ==> #[trigger] outs@[u]@ == edges_from(edges@, u as usize, m as int),
        decreases n_verts - v,
    {
        let mut l: Vec<usize> = Vec::new();
        let mut e: usize = 0;
        while e < m
            invariant
                e <= m,
                m == edges@.len(),
                l@ == edges_from(edges@, v, e as int),
            decreases m - e,
        {
            if edges[e].origin == v {
                l.push(e);
            }
            e = e + 1;
        }
        outs.push(l);
        v = v + 1;
    }
    outs
}

/// The entry before position `idx` of the list `l`, cyclically.
pub open spec fn prev_in(l: Seq<usize>, idx: int) -> usize {
    if idx == 0 {
        l[l.len() - 1]
    } else {
        l[idx - 1]
    }
}

/// The link made at position `idx` of a vertex's list `l` of leaving
/// half-edges: the twin of `l[idx]` is followed by the half-edge before it.
pub open spec fn link_of(es: Seq<GraphEdge>, l: Seq<usize>, idx: int) -> (usize, usize) {
    (es[l[idx] as int].twin, prev_in(l, idx))
}

/// The links made at the first `n` positions of `l`, in order.
pub open spec fn list_links(es: Seq<GraphEdge>, l: Seq<usize>, n: int) -> Seq<(usize, usize)>
    decreases n,
{
    if n <= 0 {
        seq![]
    } else {
        list_links(es, l, n - 1).push(link_of(es, l, n - 1))
    }
}

/// The links made for the first `v` vertices' lists, in order.
pub open spec fn all_links(es: Seq<GraphEdge>, outs: Seq<Seq<usize>>, v: int) -> Seq<(usize, usize)>
    decreases v,
{
    if v <= 0 {
        seq![]
    } else {
        all_links(es, outs, v - 1) + list_links(es, outs[v - 1], outs[v - 1].len() as int)
    }
}

/// The half-edge last linked after `e`, if any was.
pub open spec fn last_link(links: Seq<(usize, usize)>, e: int) -> Option<usize>
    decreases links.len(),
{
    if links.len() == 0 {
        None
    } else if links.last().0 == e {
        Some(links.last().1)
    } else {
        last_link(links.drop_last(), e)
    }
}

pub open spec fn lists_view(outs: Seq<Vec<usize>>) -> Seq<Seq<usize>> {
    outs.map_values(|l: Vec<usize>| l@)
}

/// Links each half-edge to the one that follows it around its face: for
/// each vertex, with its leaving half-edges ordered by angle, the twin of
/// each is followed by the one before it in the order, cyclically. A
/// half-edge that is linked twice keeps its last link.
pub fn link_next(edges: &[GraphEdge], outs: &[Vec<usize>]) -> (next: Vec<Option<usize>>)
    requires
        forall|e: int| 0 <= e < edges@.len() ==> #[trigger] edges@[e].twin < edges@.len(),
        forall|v: int, i: int|
            0 <= v < outs@.len() && 0 <= i < outs@[v]@.len() ==> #[trigger] outs@[v]@[i] < edges@.len(),
    ensures
        next@.len() == edges@.len(),
        forall|e: int|
            0 <= e < edges@.len() ==> #[trigger] next@[e] == last_link(
                all_links(edges@, lists_view(outs@), outs@.len() as int),
                e,
            ),
{
    let m = edges.len();
    let ghost ls = lists_view(outs@);
    let mut next: Vec<Option<usize>> = Vec::new();
    let mut e: usize = 0;
    while e < m
        invariant
            e <= m,
            next@.len() == e,
            forall|j: int| 0 <= j < e ==> #[trigger] next@[j] == None::<usize>,
        decreases m - e,
    {
        next.push(None);
        e = e + 1;
    }
    let mut v: usize = 0;
    while v < outs.len()
        invariant
            v <= outs@.len(),
            m == edges@.len(),
            ls == lists_view(outs@),
            next@.len() == m,
            forall|e: int| 0 <= e < edges@.len() ==> #[trigger] edges@[e].twin < edges@.len(),
            forall|v: int, i: int|
                0 <= v < outs@.len() && 0 <= i < outs@[v]@.len() ==> #[trigger] outs@[v]@[i] < edges@.len(),
            forall|j: int| 0 <= j < m ==> #[trigger] next@[j] == last_link(all_links(edges@, ls, v as int), j),
        decreases outs@.len() - v,
    {
        let l = &outs[v];
        let k = l.len();
        let ghost before = all_links(edges@, ls, v as int);
        assert(ls[v as int] == l@);
        let mut idx: usize = 0;
        while idx < k
            invariant
                idx <= k,
                k == l@.len(),
                v < outs@.len(),
                l@ == outs@[v as int]@,
                m == edges@.len(),
                next@.len() == m,
                forall|e: int| 0 <= e < edges@.len() ==> #[trigger] edges@[e].twin < edges@.len(),
                forall|v: int, i: int|
                    0 <= v < outs@.len() && 0 <= i < outs@[v]@.len() ==> #[trigger] outs@[v]@[i] < edges@.len(),
                forall|j: int|
                    0 <= j < m ==> #[trigger] next@[j] == last_link(
                        before + list_links(edges@, l@, idx as int),
                        j,
                    ),
            decreases k - idx,
        {
            let cur = l[idx];
            let nxt = if idx == 0 {
                l[k - 1]
            } else {
                l[idx - 1]
            };
            let t = edges[cur].twin;
            let ghost old_next = next@;
            next.set(t, Some(nxt));
            proof {
                let s = before + list_links(edges@, l@, idx as int);
                let s2 = before + list_links(edges@, l@, idx + 1);
                assert(link_of(edges@, l@, idx as int) == (t, nxt));
                assert(s2 =~= s.push((t, nxt)));
                assert(s2.drop_last() =~= s);
                assert forall|j: int| 0 <= j < m implies #[trigger] next@[j] == last_link(s2, j) by {
                    if j != t as int {
                        assert(next@[j] == old_next[j]);
                    }
                }
            }
            idx = idx + 1;
        }
        proof {
            assert(all_links(edges@, ls, v + 1) =~= before + list_links(edges@, l@, k as int));
        }
        v = v + 1;
    }
    next
}

/// The longest walk that face tracing takes, in steps.
pub open spec fn max_steps() -> nat {
    100_000
}

/// Walking from `cur` along `next`, on the walk started at `start`: each
/// half-edge not yet visited is marked and added to `cycle`; the walk stops
/// at a visited half-edge, at one with no successor, on coming back to
/// `start`, or after `max_steps()` steps. Gives the cycle and the marks.
pub open spec fn walk(
    next: Seq<Option<usize>>,
    start: int,
    cur: int,
    visited: Seq<bool>,
    steps: nat,
    cycle: Seq<usize>,
) -> (Seq<usize>, Seq<bool>)
    decreases max_steps() - steps,
{
    if !(0 <= cur < visited.len()) || visited[cur] {
        (cycle, visited)
    } else {
        let v2 = visited.update(cur, true);
        let c2 = cycle.push(cur as usize);
        match next[cur] {
            None => (c2, v2),
            Some(n) => if steps + 1 > max_steps() || n == start {
                (c2, v2)
            } else {
                walk(next, start, n as int, v2, steps + 1, c2)
            },
        }
    }
}

/// Tracing walks from each half-edge from `start` on that no earlier walk
/// visited, keeping the walks of at least three half-edges.
pub open spec fn trace(
    next: Seq<Option<usize>>,
    start: int,
    visited: Seq<bool>,
    faces: Seq<Seq<usize>>,
) -> Seq<Seq<usize>>
    decreases next.len() - start,
{
    if start < 0 || start >= next.len() {
        faces
    } else if visited[start] {
        trace(next, start + 1, visited, faces)
    } else {
        let (c, v) = walk(next, start, start, visited, 0, seq![]);
        trace(next, start + 1, v, if c.len() >= 3 { faces.push(c) } else { faces })
    }
}

/// The faces that `next` traces: the walks from each half-edge in turn,
/// none visited twice, of at least three half-edges each.
pub open spec fn faces_of(next: Seq<Option<usize>>) -> Seq<Seq<usize>> {
    trace(next, 0, Seq::new(next.len(), |i: int| false), seq![])
}

/// Traces the cycles of `next`.
pub fn trace_faces(next: &[Option<usize>]) -> (faces: Vec<Vec<usize>>)
    requires
        forall|e: int| 0 <= e < next@.len() ==> (#[trigger] next@[e] matches Some(n) ==> n < next@.len()),
    ensures
        lists_view(faces@) == faces_of(next@),
{
    let m = next.len();
    let mut visited: Vec<bool> = Vec::new();
    let mut i: usize = 0;
    while i < m
        invariant
            i <= m,
            visited@ == Seq::new(i as nat, |j: int| false),
        decreases m - i,
    {
        visited.push(false);
        i = i + 1;
    }
    let mut faces: Vec<Vec<usize>> = Vec::new();
    assert(visited@ =~= Seq::new(next@.len(), |j: int| false));
    assert(lists_view(faces@) =~= Seq::<Seq<usize>>::empty());
    let mut start: usize = 0;
    while start < m
        invariant
            start <= m,
            m == next@.len(),
            visited@.len() == m,
            forall|e: int| 0 <= e < next@.len() ==> (#[trigger] next@[e] matches Some(n) ==> n < next@.len()),
            trace(next@, start as int, visited@, lists_view(faces@)) == faces_of(next@),
        decreases m - start,
    {
        if !visited[start] {
            let ghost target = walk(next@, start as int, start as int, visited@, 0, seq![]);
            let mut cycle: Vec<usize> = Vec::new();
            let mut cur: usize = start;
            let mut steps: usize = 0;
            loop
                invariant_except_break
                    steps <= max_steps(),
                    walk(next@, start as int, cur as int, visited@, steps as nat, cycle@) == target,
                invariant
                    m == next@.len(),
                    start < m,
                    cur < m,
                    visited@.len() == m,
                    forall|e: int| 0 <= e < next@.len() ==> (#[trigger] next@[e] matches Some(n) ==> n < next@.len()),
                ensures
                    visited@.len() == m,
                    (cycle@, visited@) == target,
                decreases max_steps() - steps,
            {
                if visited[cur] {
                    break;
                }
                visited.set(cur, true);
                cycle.push(cur);
                match next[cur] {
                    None => {
                        break;
                    },
                    Some(n) => {
                        cur = n;
                    },
                }
                steps = steps + 1;
                if steps > 100_000 {
                    break;
                }
                if cur == start {
                    break;
                }
            }
            proof {
                let fv = lists_view(faces@);
                if cycle@.len() >= 3 {
                    assert(lists_view(faces@.push(cycle)) =~= fv.push(cycle@));
                }
            }
            if cycle.len() >= 3 {
                faces.push(cycle);
            }
        }
        start = start + 1;
    }
    faces
}

/// The walls that bound a face: the walls of its half-edges, each once, in
/// increasing order.
pub fn face_walls(edges: &[GraphEdge], cycle: &[usize]) -> (r: Vec<u32>)
    requires
        forall|k: int| 0 <= k < cycle@.len() ==> #[trigger] cycle@[k] < edges@.len(),
    ensures
        forall|i: int, j: int| 0 <= i < j < r@.len() ==> r@[i] < r@[j],
        forall|x: u32|
            r@.contains(x) <==> exists|k: int|
                0 <= k < cycle@.len() && #[trigger] edges@[cycle@[k] as int].wall_id == x,
{
    let mut r: Vec<u32> = Vec::new();
    let mut k: usize = 0;
    while k < cycle.len()
        invariant
            k <= cycle@.len(),
            forall|k: int| 0 <= k < cycle@.len() ==> #[trigger] cycle@[k] < edges@.len(),
            forall|i: int, j: int| 0 <= i < j < r@.len() ==> r@[i] < r@[j],
            forall|x: u32|
                r@.contains(x) <==> exists|j: int|
                    0 <= j < k && #[trigger] edges@[cycle@[j] as int].wall_id == x,
        decreases cycle@.len() - k,
    {
        let id = edges[cycle[k]].wall_id;
        let mut p: usize = 0;
        while p < r.len() && r[p] < id
            invariant
                p <= r@.len(),
                forall|i: int| 0 <= i < p ==> r@[i] < id,
            decreases r@.len() - p,
        {
            p = p + 1;
        }
        let ghost old_r = r@;
        if p < r.len() && r[p] == id {
            proof {
                assert forall|x: u32|
                    r@.contains(x) <==> exists|j: int|
                        0 <= j < k + 1 && #[trigger] edges@[cycle@[j] as int].wall_id == x by {
                    if x == id {
                        assert(r@[p as int] == x);
                        assert(edges@[cycle@[k as int] as int].wall_id == x);
                    } else if r@.contains(x) {
                        let j = choose|j: int| 0 <= j < k && #[trigger] edges@[cycle@[j] as int].wall_id == x;
                        assert(0 <= j < k + 1);
                    } else {
                        assert forall|j: int| 0 <= j < k + 1 implies #[trigger] edges@[cycle@[j] as int].wall_id != x by {
                            if j < k && edges@[cycle@[j] as int].wall_id == x {
                                assert(r@.contains(x));
                            }
                        }
                    }
                }
            }
        } else {
            r.insert(p, id);
            proof {
                assert(r@ == old_r.insert(p as int, id));
                assert forall|i: int, j: int| 0 <= i < j < r@.len() implies r@[i] < r@[j] by {
                    if j < p {
                        assert(r@[i] == old_r[i] && r@[j] == old_r[j]);
                    } else if j == p {
                        assert(r@[i] == old_r[i]);
                    } else if i == p {
                        assert(r@[j] == old_r[j - 1]);
                        assert(old_r[p as int] >= id);
                        if j - 1 > p {
                            assert(old_r[p as int] < old_r[j - 1]);
                        }
                    } else if i < p {
                        assert(r@[i] == old_r[i] && r@[j] == old_r[j - 1]);
                    } else {
                        assert(r@[i] == old_r[i - 1] && r@[j] == old_r[j - 1]);
                    }
                }
                assert forall|x: u32|
                    r@.contains(x) <==> exists|j: int|
                        0 <= j < k + 1 && #[trigger] edges@[cycle@[j] as int].wall_id == x by {
                    if x == id {
                        assert(r@[p as int] == x);
                        assert(edges@[cycle@[k as int] as int].wall_id == x);
                    } else if r@.contains(x) {
                        let i = choose|i: int| 0 <= i < r@.len() && r@[i] == x;
                        if i < p {
                            assert(old_r[i] == x);
                        } else {
                            assert(old_r[i - 1] == x);
                        }
                        assert(old_r.contains(x));
                        let j = choose|j: int| 0 <= j < k && #[trigger] edges@[cycle@[j] as int].wall_id == x;
                        assert(0 <= j < k + 1);
                    } else {
                        assert forall|j: int| 0 <= j < k + 1 implies #[trigger] edges@[cycle@[j] as int].wall_id != x by {
                            if j < k && edges@[cycle@[j] as int].wall_id == x {
                                assert(old_r.contains(x));
                                let i = choose|i: int| 0 <= i < old_r.len() && old_r[i] == x;
                                if i < p {
                                    assert(r@[i] == x);
                                } else {
                                    assert(r@[i + 1] == x);
                                }
                            }
                        }
                    }
                }
            }
        }
        k = k + 1;
    }
    r
}

/// Whether each half-edge of `c` but the last is followed by the next one.
pub open spec fn follows(next: Seq<Option<usize>>, c: Seq<usize>) -> bool {
    forall|i: int| 0 <= i < c.len() - 1 ==> #[trigger] next[c[i] as int] == Some(c[i + 1])
}

/// Whether no half-edge occurs twice in `c`.
pub open spec fn no_repeat(c: Seq<usize>) -> bool {
    forall|i: int, j: int| 0 <= i < j < c.len() ==> c[i] != c[j]
}

proof fn lemma_walk(
    next: Seq<Option<usize>>,
    start: int,
    cur: int,
    visited: Seq<bool>,
    steps: nat,
    cycle: Seq<usize>,
)
    requires
        visited.len() == next.len(),
        next.len() <= usize::MAX,
        follows(next, cycle),
        no_repeat(cycle),
        cycle.len() > 0 ==> next[cycle.last() as int] == Some(cur as usize),
        forall|i: int| 0 <= i < cycle.len() ==> #[trigger] cycle[i] < visited.len() && visited[cycle[i] as int],
    ensures
        walk(next, start, cur, visited, steps, cycle).0.len() >= cycle.len(),
        walk(next, start, cur, visited, steps, cycle).0.take(cycle.len() as int) == cycle,
        follows(next, walk(next, start, cur, visited, steps, cycle).0),
        no_repeat(walk(next, start, cur, visited, steps, cycle).0),
        walk(next, start, cur, visited, steps, cycle).1.len() == visited.len(),
        forall|e: int|
            0 <= e < visited.len() && visited[e] ==> #[trigger] walk(next, start, cur, visited, steps, cycle).1[e],
        forall|i: int|
            0 <= i < walk(next, start, cur, visited, steps, cycle).0.len() ==> (#[trigger] walk(next, start, cur, visited, steps, cycle).0[i])
                < visited.len() && walk(next, start, cur, visited, steps, cycle).1[walk(next, start, cur, visited, steps, cycle).0[i] as int],
        forall|i: int|
            cycle.len() <= i < walk(next, start, cur, visited, steps, cycle).0.len() ==> !visited[#[trigger] walk(next, start, cur, visited, steps, cycle).0[i] as int],
    decreases max_steps() - steps,
{
    if !(0 <= cur < visited.len()) || visited[cur] {
        assert(cycle.take(cycle.len() as int) =~= cycle);
    } else {
        let v2 = visited.update(cur, true);
        let c2 = cycle.push(cur as usize);
        assert(c2.last() == cur as usize);
        assert(follows(next, c2)) by {
            assert forall|i: int| 0 <= i < c2.len() - 1 implies #[trigger] next[c2[i] as int] == Some(c2[i + 1]) by {
                if i < cycle.len() - 1 {
                    assert(c2[i] == cycle[i] && c2[i + 1] == cycle[i + 1]);
                } else {
                    assert(c2[i] == cycle.last());
                }
            }
        }
        assert(no_repeat(c2)) by {
            assert forall|i: int, j: int| 0 <= i < j < c2.len() implies c2[i] != c2[j] by {
                assert(c2[i] == cycle[i]);
                if j == cycle.len() {
                    assert(c2[j] == cur as usize);
                    assert(visited[cycle[i] as int]);
                } else {
                    assert(c2[j] == cycle[j]);
                }
            }
        }
        assert forall|i: int| 0 <= i < c2.len() implies #[trigger] c2[i] < v2.len() && v2[c2[i] as int] by {
            if i < cycle.len() {
                assert(c2[i] == cycle[i]);
                assert(visited[cycle[i] as int]);
            } else {
                assert(c2[i] == cur as usize);
            }
        }
        match next[cur] {
            None => {
                assert(c2.take(cycle.len() as int) =~= cycle);
                assert forall|i: int| cycle.len() <= i < c2.len() implies !#[trigger] visited[c2[i] as int] by {
                    assert(c2[i] == cur as usize);
                }
            },
            Some(n) => {
                if steps + 1 > max_steps() || n == start {
                    assert(c2.take(cycle.len() as int) =~= cycle);
                    assert forall|i: int| cycle.len() <= i < c2.len() implies !#[trigger] visited[c2[i] as int] by {
                        assert(c2[i] == cur as usize);
                    }
                } else {
                    lemma_walk(next, start, n as int, v2, steps + 1, c2);
                    let (c, v) = walk(next, start, n as int, v2, steps + 1, c2);
                    assert(c.take(c2.len() as int) == c2);
                    assert(c.take(cycle.len() as int) =~= cycle) by {
                        assert forall|i: int| 0 <= i < cycle.len() implies c[i] == cycle[i] by {
                            assert(c.take(c2.len() as int)[i] == c2[i]);
                        }
                    }
                    assert forall|i: int| cycle.len() <= i < c.len() implies !#[trigger] visited[c[i] as int] by {
                        if i == cycle.len() {
                            assert(c.take(c2.len() as int)[i] == c2[i]);
                            assert(c2[i] == cur as usize);
                        } else {
                            assert(!v2[c[i] as int]);
                        }
                    }
                }
            },
        }
    }
}

/// Each face has at least three half-edges, follows `next` and repeats none.
pub open spec fn faces_well_formed(next: Seq<Option<usize>>, fs: Seq<Seq<usize>>) -> bool {
    forall|a: int| 0 <= a < fs.len() ==> #[trigger] fs[a].len() >= 3 && follows(next, fs[a]) && no_repeat(fs[a])
}

/// No two faces share a half-edge.
pub open spec fn faces_disjoint(fs: Seq<Seq<usize>>) -> bool {
    forall|a: int, b: int, i: int, j: int|
        0 <= a < b < fs.len() && 0 <= i < fs[a].len() && 0 <= j < fs[b].len() ==> #[trigger] fs[a][i] != #[trigger] fs[b][j]
}

spec fn faces_visited(fs: Seq<Seq<usize>>, visited: Seq<bool>) -> bool {
    forall|a: int, i: int|
        #![trigger fs[a][i]]
        0 <= a < fs.len() && 0 <= i < fs[a].len() ==> fs[a][i] < visited.len() && visited[fs[a][i] as int]
}

proof fn lemma_trace(next: Seq<Option<usize>>, start: int, visited: Seq<bool>, faces: Seq<Seq<usize>>)
    requires
        0 <= start,
        visited.len() == next.len(),
        next.len() <= usize::MAX,
        faces_well_formed(next, faces),
        faces_visited(faces, visited),
        faces_disjoint(faces),
    ensures
        faces_well_formed(next, trace(next, start, visited, faces)),
        faces_disjoint(trace(next, start, visited, faces)),
    decreases next.len() - start,
{
    if start >= next.len() {
    } else if visited[start] {
        lemma_trace(next, start + 1, visited, faces);
    } else {
        lemma_walk(next, start, start, visited, 0, seq![]);
        let (c, v) = walk(next, start, start, visited, 0, seq![]);
        let nf = if c.len() >= 3 { faces.push(c) } else { faces };
        assert(faces_visited(nf, v)) by {
            assert forall|a: int, i: int|
                0 <= a < nf.len() && 0 <= i < nf[a].len() implies nf[a][i] < v.len() && #[trigger] v[nf[a][i] as int] by {
                if a < faces.len() {
                    assert(nf[a] == faces[a]);
                    assert(faces[a][i] < visited.len() && visited[faces[a][i] as int]);
                }
            }
        }
        assert(faces_disjoint(nf)) by {
            assert forall|a: int, b: int, i: int, j: int|
                0 <= a < b < nf.len() && 0 <= i < nf[a].len() && 0 <= j < nf[b].len() implies #[trigger] nf[a][i] != #[trigger] nf[b][j] by {
                if b == faces.len() {
                    assert(nf[b] == c);
                    assert(nf[a] == faces[a]);
                    assert(faces[a][i] < visited.len() && visited[faces[a][i] as int]);
                    assert(!visited[c[j] as int]);
                } else {
                    assert(nf[a] == faces[a] && nf[b] == faces[b]);
                }
            }
        }
        assert(faces_well_formed(next, nf)) by {
            assert forall|a: int| 0 <= a < nf.len() implies #[trigger] nf[a].len() >= 3 && follows(next, nf[a]) && no_repeat(nf[a]) by {
                if a < faces.len() {
                    assert(nf[a] == faces[a]);
                }
            }
        }
        lemma_trace(next, start + 1, v, nf);
    }
}

/// The faces that tracing finds are paths of `next`: each has at least
/// three half-edges, each half-edge of a face but its last is followed by
/// the next one, no half-edge occurs twice in a face, and no two faces
/// share a half-edge.
pub proof fn lemma_faces_are_disjoint_paths(next: Seq<Option<usize>>)
    requires
        next.len() <= usize::MAX,
    ensures
        faces_well_formed(next, faces_of(next)),
        faces_disjoint(faces_of(next)),
{
    lemma_trace(next, 0, Seq::new(next.len(), |i: int| false), seq![]);
}

/// A sequence of distinct values below `m` has at most `m` of them.
proof fn lemma_distinct_bounded(c: Seq<usize>, m: int)
    requires
        0 <= m,
        no_repeat(c),
        forall|i: int| 0 <= i < c.len() ==> #[trigger] c[i] < m,
    ensures
        c.len() <= m,
    decreases m,
{
    if c.len() > 0 {
        let x = c.last();
        let d = c.drop_last();
        let top = (m - 1) as usize;
        let d2 = d.map_values(|v: usize| if v == top { x } else { v });
        assert forall|i: int| 0 <= i < d2.len() implies #[trigger] d2[i] < m - 1 by {
            assert(d[i] == c[i]);
            assert(c[i] != x);
            if d[i] == top {
                assert(x != top) by {
                    assert(c[i] == top);
                }
            }
        }
        assert(no_repeat(d2)) by {
            assert forall|i: int, j: int| 0 <= i < j < d2.len() implies d2[i] != d2[j] by {
                assert(d[i] == c[i] && d[j] == c[j]);
                assert(c[i] != c[j]);
                assert(c[i] != x && c[j] != x);
            }
        }
        lemma_distinct_bounded(d2, m - 1);
    }
}

/// Whether every half-edge has a successor, no two the same.
pub open spec fn is_permutation(next: Seq<Option<usize>>) -> bool {
    &&& forall|e: int| 0 <= e < next.len() ==> (#[trigger] next[e] matches Some(n) && n < next.len())
    &&& forall|a: int, b: int| 0 <= a < next.len() && 0 <= b < next.len() && a != b ==> #[trigger] next[a] != #[trigger] next[b]
}

/// Whether each visited half-edge's predecessor is visited too.
spec fn pre_closed(next: Seq<Option<usize>>, visited: Seq<bool>) -> bool {
    forall|x: int, y: int|
        0 <= x < visited.len() && 0 <= y < next.len() && #[trigger] visited[x] && #[trigger] next[y] == Some(x as usize) ==> visited[y]
}

/// Whether, leaving out the half-edges of `cycle`, each visited half-edge's
/// predecessor is visited and left out too.
spec fn base_closed(next: Seq<Option<usize>>, visited: Seq<bool>, cycle: Seq<usize>) -> bool {
    forall|x: int, y: int|
        0 <= x < visited.len() && 0 <= y < next.len() && #[trigger] visited[x] && !cycle.contains(x as usize)
            && #[trigger] next[y] == Some(x as usize) ==> visited[y] && !cycle.contains(y as usize)
}

proof fn lemma_walk_closed(
    next: Seq<Option<usize>>,
    start: int,
    cur: int,
    visited: Seq<bool>,
    steps: nat,
    cycle: Seq<usize>,
)
    requires
        is_permutation(next),
        next.len() <= max_steps(),
        visited.len() == next.len(),
        0 <= start < next.len(),
        0 <= cur < next.len(),
        cycle.len() == steps,
        follows(next, cycle),
        no_repeat(cycle),
        forall|i: int| 0 <= i < cycle.len() ==> #[trigger] cycle[i] < visited.len() && visited[cycle[i] as int],
        cycle.len() == 0 ==> cur == start && !visited[start],
        cycle.len() > 0 ==> cycle[0] == start && next[cycle.last() as int] == Some(cur as usize) && cur != start,
        base_closed(next, visited, cycle),
    ensures
        walk(next, start, cur, visited, steps, cycle).0.len() > 0,
        walk(next, start, cur, visited, steps, cycle).0[0] == start,
        next[walk(next, start, cur, visited, steps, cycle).0.last() as int] == Some(
            walk(next, start, cur, visited, steps, cycle).0[0],
        ),
        walk(next, start, cur, visited, steps, cycle).1.len() == visited.len(),
        pre_closed(next, walk(next, start, cur, visited, steps, cycle).1),
    decreases max_steps() - steps,
{
    let m = next.len();
    assert(!visited[cur]) by {
        if cycle.len() > 0 && visited[cur] {
            let last = cycle.last();
            if cycle.contains(cur as usize) {
                let k = choose|k: int| 0 <= k < cycle.len() && cycle[k] == cur as usize;
                assert(k != 0);
                assert(next[cycle[k - 1] as int] == Some(cycle[k]));
                assert(next[last as int] == Some(cur as usize));
                assert(cycle[k - 1] == last);
                assert(cycle[k - 1] == cycle[cycle.len() - 1]);
            } else {
                assert(cycle[cycle.len() - 1] == last);
                assert(cycle.contains(last));
            }
        }
    }
    let v2 = visited.update(cur, true);
    let c2 = cycle.push(cur as usize);
    assert(!cycle.contains(cur as usize)) by {
        if cycle.contains(cur as usize) {
            let k = choose|k: int| 0 <= k < cycle.len() && cycle[k] == cur as usize;
            assert(visited[cycle[k] as int]);
        }
    }
    assert(no_repeat(c2)) by {
        assert forall|i: int, j: int| 0 <= i < j < c2.len() implies c2[i] != c2[j] by {
            assert(c2[i] == cycle[i]);
            if j < cycle.len() {
                assert(c2[j] == cycle[j]);
            } else {
                assert(cycle.contains(cycle[i]));
            }
        }
    }
    assert(follows(next, c2)) by {
        assert forall|i: int| 0 <= i < c2.len() - 1 implies #[trigger] next[c2[i] as int] == Some(c2[i + 1]) by {
            if i < cycle.len() - 1 {
                assert(c2[i] == cycle[i] && c2[i + 1] == cycle[i + 1]);
            } else {
                assert(c2[i] == cycle.last());
            }
        }
    }
    assert forall|i: int| 0 <= i < c2.len() implies #[trigger] c2[i] < v2.len() && v2[c2[i] as int] by {
        if i < cycle.len() {
            assert(c2[i] == cycle[i]);
        }
    }
    assert(c2[0] == start) by {
        if cycle.len() > 0 {
            assert(c2[0] == cycle[0]);
        }
    }
    let n = next[cur]->0;
    assert(next[cur] == Some(n));
    if steps + 1 > max_steps() {
        lemma_distinct_bounded(c2, m as int);
        assert(false);
    } else if n == start {
        assert(pre_closed(next, v2)) by {
            assert forall|x: int, y: int|
                0 <= x < v2.len() && 0 <= y < next.len() && #[trigger] v2[x] && #[trigger] next[y] == Some(x as usize) implies v2[y] by {
                if c2.contains(x as usize) {
                    let k = choose|k: int| 0 <= k < c2.len() && c2[k] == x as usize;
                    if k == 0 {
                        assert(next[cur] == next[y]);
                        assert(y == cur);
                    } else {
                        assert(next[c2[k - 1] as int] == Some(c2[k]));
                        assert(next[c2[k - 1] as int] == next[y]);
                        assert(y == c2[k - 1] as int);
                    }
                } else {
                    assert(x != cur) by {
                        assert(c2[c2.len() - 1] == cur as usize);
                    }
                    assert(!cycle.contains(x as usize)) by {
                        if cycle.contains(x as usize) {
                            let k = choose|k: int| 0 <= k < cycle.len() && cycle[k] == x as usize;
                            assert(c2[k] == x as usize);
                        }
                    }
                    assert(visited[x]);
                }
            }
        }
    } else {
        assert(base_closed(next, v2, c2)) by {
            assert forall|x: int, y: int|
                0 <= x < v2.len() && 0 <= y < next.len() && #[trigger] v2[x] && !c2.contains(x as usize)
                    && #[trigger] next[y] == Some(x as usize) implies v2[y] && !c2.contains(y as usize) by {
                assert(x != cur) by {
                    assert(c2[c2.len() - 1] == cur as usize);
                }
                assert(!cycle.contains(x as usize)) by {
                    if cycle.contains(x as usize) {
                        let k = choose|k: int| 0 <= k < cycle.len() && cycle[k] == x as usize;
                        assert(c2[k] == x as usize);
                    }
                }
                assert(visited[x]);
                assert(visited[y] && !cycle.contains(y as usize));
                assert(y != cur);
                if c2.contains(y as usize) {
                    let k = choose|k: int| 0 <= k < c2.len() && c2[k] == y as usize;
                    if k < cycle.len() {
                        assert(cycle[k] == y as usize);
                        assert(cycle.contains(y as usize));
                    }
                }
            }
        }
        assert(c2.last() == cur as usize);
        lemma_walk_closed(next, start, n as int, v2, steps + 1, c2);
    }
}

proof fn lemma_trace_closed(next: Seq<Option<usize>>, start: int, visited: Seq<bool>, faces: Seq<Seq<usize>>)
    requires
        is_permutation(next),
        next.len() <= max_steps(),
        0 <= start,
        visited.len() == next.len(),
        pre_closed(next, visited),
        forall|a: int| 0 <= a < faces.len() ==> #[trigger] faces[a].len() > 0 && next[faces[a].last() as int] == Some(faces[a][0]),
    ensures
        forall|a: int|
            0 <= a < trace(next, start, visited, faces).len() ==> #[trigger] trace(next, start, visited, faces)[a].len() > 0
                && next[trace(next, start, visited, faces)[a].last() as int] == Some(trace(next, start, visited, faces)[a][0]),
    decreases next.len() - start,
{
    if start >= next.len() {
    } else if visited[start] {
        lemma_trace_closed(next, start + 1, visited, faces);
    } else {
        assert(base_closed(next, visited, seq![])) by {
            assert forall|x: usize| !seq![].contains(x) by {}
        }
        lemma_walk_closed(next, start, start, visited, 0, seq![]);
        let (c, v) = walk(next, start, start, visited, 0, seq![]);
        let nf = if c.len() >= 3 { faces.push(c) } else { faces };
        assert forall|a: int| 0 <= a < nf.len() implies #[trigger] nf[a].len() > 0 && next[nf[a].last() as int] == Some(nf[a][0]) by {
            if a < faces.len() {
                assert(nf[a] == faces[a]);
            } else {
                assert(nf[a] == c);
            }
        }
        lemma_trace_closed(next, start + 1, v, nf);
    }
}

/// Where every half-edge has a successor and no two share one, and there
/// are no more half-edges than a walk may take steps, each face that
/// tracing finds is closed: its last half-edge is followed by its first.
pub proof fn lemma_faces_are_closed(next: Seq<Option<usize>>)
    requires
        is_permutation(next),
        next.len() <= max_steps(),
    ensures
        forall|a: int|
            0 <= a < faces_of(next).len() ==> next[(#[trigger] faces_of(next)[a]).last() as int] == Some(
                faces_of(next)[a][0],
            ),
{
    lemma_trace_closed(next, 0, Seq::new(next.len(), |i: int| false), seq![]);
}

/// The successors that `link_next` gives the half-edges `es` for the
/// ordered lists `outs`.
pub open spec fn linked(es: Seq<GraphEdge>, outs: Seq<Seq<usize>>) -> Seq<Option<usize>> {
    Seq::new(es.len(), |e: int| last_link(all_links(es, outs, outs.len() as int), e))
}

/// Whether half-edge `e` is in one of the lists `outs`.
pub open spec fn listed(outs: Seq<Seq<usize>>, e: int) -> bool {
    exists|v: int, i: int| 0 <= v < outs.len() && 0 <= i < outs[v].len() && #[trigger] outs[v][i] == e
}

/// Whether the half-edges `es` and their lists `outs` form a graph: each
/// half-edge's twin is a half-edge whose twin it is, and each half-edge is
/// listed exactly once.
pub open spec fn well_linked(es: Seq<GraphEdge>, outs: Seq<Seq<usize>>) -> bool {
    &&& forall|e: int| 0 <= e < es.len() ==> #[trigger] es[e].twin < es.len() && es[es[e].twin as int].twin == e
    &&& forall|v: int, i: int| 0 <= v < outs.len() && 0 <= i < outs[v].len() ==> #[trigger] outs[v][i] < es.len()
    &&& forall|e: int| 0 <= e < es.len() ==> #[trigger] listed(outs, e)
    &&& forall|v1: int, i1: int, v2: int, i2: int|
        0 <= v1 < outs.len() && 0 <= i1 < outs[v1].len() && 0 <= v2 < outs.len() && 0 <= i2 < outs[v2].len()
            && #[trigger] outs[v1][i1] == #[trigger] outs[v2][i2] ==> v1 == v2 && i1 == i2
}

proof fn lemma_last_link_append(a: Seq<(usize, usize)>, b: Seq<(usize, usize)>, e: int)
    ensures
        last_link(a + b, e) == (match last_link(b, e) {
            Some(x) => Some(x),
            None => last_link(a, e),
        }),
    decreases b.len(),
{
    if b.len() == 0 {
        assert(a + b =~= a);
    } else {
        assert((a + b).last() == b.last());
        assert((a + b).drop_last() =~= a + b.drop_last());
        lemma_last_link_append(a, b.drop_last(), e);
    }
}

proof fn lemma_list_links(es: Seq<GraphEdge>, l: Seq<usize>, n: int)
    requires
        0 <= n <= l.len(),
        forall|i: int| 0 <= i < l.len() ==> #[trigger] l[i] < es.len(),
        forall|i: int, j: int| 0 <= i < j < l.len() ==> l[i] != l[j],
        forall|a: int, b: int| 0 <= a < es.len() && 0 <= b < es.len() && a != b ==> #[trigger] es[a].twin != #[trigger] es[b].twin,
    ensures
        forall|i: int| 0 <= i < n ==> last_link(list_links(es, l, n), #[trigger] es[l[i] as int].twin as int) == Some(prev_in(l, i)),
        forall|t: int|
            (forall|i: int| 0 <= i < n ==> #[trigger] es[l[i] as int].twin != t) ==> last_link(list_links(es, l, n), t) is None,
    decreases n,
{
    if n > 0 {
        lemma_list_links(es, l, n - 1);
        let s = list_links(es, l, n);
        assert(s.drop_last() =~= list_links(es, l, n - 1));
        assert forall|i: int| 0 <= i < n implies last_link(s, #[trigger] es[l[i] as int].twin as int) == Some(prev_in(l, i)) by {
            if i < n - 1 {
                assert(l[i] != l[n - 1]);
            }
        }
        assert forall|t: int|
            (forall|i: int| 0 <= i < n ==> #[trigger] es[l[i] as int].twin != t) implies last_link(s, t) is None by {
            assert(es[l[n - 1] as int].twin != t);
            assert(s.last() == link_of(es, l, n - 1));
            assert(last_link(s, t) == last_link(s.drop_last(), t));
            assert(forall|i: int| 0 <= i < n - 1 ==> #[trigger] es[l[i] as int].twin != t);
            assert(last_link(list_links(es, l, n - 1), t) is None);
        }
    }
}

proof fn lemma_all_links(es: Seq<GraphEdge>, outs: Seq<Seq<usize>>, w: int)
    requires
        0 <= w <= outs.len(),
        well_linked(es, outs),
    ensures
        forall|v: int, i: int|
            0 <= v < w && 0 <= i < outs[v].len() ==> last_link(all_links(es, outs, w), #[trigger] es[outs[v][i] as int].twin as int)
                == Some(prev_in(outs[v], i)),
    decreases w,
{
    if w > 0 {
        lemma_all_links(es, outs, w - 1);
        let l = outs[w - 1];
        assert forall|a: int, b: int| 0 <= a < es.len() && 0 <= b < es.len() && a != b implies #[trigger] es[a].twin != #[trigger] es[b].twin by {
            if es[a].twin == es[b].twin {
                assert(es[es[a].twin as int].twin == a);
            }
        }
        assert forall|i: int, j: int| 0 <= i < j < l.len() implies l[i] != l[j] by {
            if l[i] == l[j] {
                assert(outs[w - 1][i] == outs[w - 1][j]);
            }
        }
        assert forall|i: int| 0 <= i < l.len() implies #[trigger] l[i] < es.len() by {
            assert(outs[w - 1][i] < es.len());
        }
        lemma_list_links(es, l, l.len() as int);
        let a = all_links(es, outs, w - 1);
        let b = list_links(es, l, l.len() as int);
        assert(all_links(es, outs, w) == a + b);
        assert forall|v: int, i: int|
            0 <= v < w && 0 <= i < outs[v].len() implies last_link(all_links(es, outs, w), #[trigger] es[outs[v][i] as int].twin as int)
                == Some(prev_in(outs[v], i)) by {
            let t = es[outs[v][i] as int].twin as int;
            lemma_last_link_append(a, b, t);
            if v < w - 1 {
                assert forall|j: int| 0 <= j < l.len() implies #[trigger] es[l[j] as int].twin != t by {
                    if es[l[j] as int].twin == t {
                        assert(outs[w - 1][j] == outs[v][i]) by {
                            assert(outs[w - 1][j] < es.len() && outs[v][i] < es.len());
                        }
                    }
                }
            }
        }
    }
}

/// Where the half-edges and their lists form a graph, linking gives every
/// half-edge exactly one successor, and no two half-edges the same one.
pub proof fn lemma_links_form_permutation(es: Seq<GraphEdge>, outs: Seq<Seq<usize>>)
    requires
        well_linked(es, outs),
    ensures
        is_permutation(linked(es, outs)),
{
    let next = linked(es, outs);
    lemma_all_links(es, outs, outs.len() as int);
    let all = all_links(es, outs, outs.len() as int);
    assert forall|e: int| 0 <= e < next.len() implies (#[trigger] next[e] matches Some(n) && n < next.len()) by {
        let t = es[e].twin as int;
        assert(listed(outs, t));
        let (v, i) = choose|v: int, i: int| 0 <= v < outs.len() && 0 <= i < outs[v].len() && #[trigger] outs[v][i] == t;
        assert(es[outs[v][i] as int].twin == e);
        assert(next[e] == Some(prev_in(outs[v], i)));
        let k = outs[v].len();
        if i == 0 {
            assert(outs[v][k - 1] < es.len());
        } else {
            assert(outs[v][i - 1] < es.len());
        }
    }
    assert forall|a: int, b: int| 0 <= a < next.len() && 0 <= b < next.len() && a != b implies #[trigger] next[a] != #[trigger] next[b] by {
        let ta = es[a].twin as int;
        let tb = es[b].twin as int;
        assert(listed(outs, ta) && listed(outs, tb));
        let (va, ia) = choose|v: int, i: int| 0 <= v < outs.len() && 0 <= i < outs[v].len() && #[trigger] outs[v][i] == ta;
        let (vb, ib) = choose|v: int, i: int| 0 <= v < outs.len() && 0 <= i < outs[v].len() && #[trigger] outs[v][i] == tb;
        assert(es[outs[va][ia] as int].twin == a);
        assert(es[outs[vb][ib] as int].twin == b);
        assert(next[a] == Some(prev_in(outs[va], ia)));
        assert(next[b] == Some(prev_in(outs[vb], ib)));
        if next[a] == next[b] {
            let pa = if ia == 0 { outs[va].len() - 1 } else { ia - 1 };
            let pb = if ib == 0 { outs[vb].len() - 1 } else { ib - 1 };
            assert(outs[va][pa] == prev_in(outs[va], ia));
            assert(outs[vb][pb] == prev_in(outs[vb], ib));
            assert(va == vb && pa == pb);
            assert(ia == ib);
            assert(ta == tb);
            assert(es[ta].twin == a && es[tb].twin == b);
        }
    }
}

/// Where the half-edges and their lists form a graph of no more half-edges
/// than a walk may take steps, every face traced from the links is closed.
pub proof fn lemma_graph_faces_are_closed(es: Seq<GraphEdge>, outs: Seq<Seq<usize>>)
    requires
        well_linked(es, outs),
        es.len() <= max_steps(),
    ensures
        forall|a: int|
            0 <= a < faces_of(linked(es, outs)).len() ==> linked(es, outs)[(#[trigger] faces_of(linked(es, outs))[a]).last() as int]
                == Some(faces_of(linked(es, outs))[a][0]),
{
    lemma_links_form_permutation(es, outs);
    lemma_faces_are_closed(linked(es, outs));
}

} // verus!
