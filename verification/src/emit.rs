//! Emission rules: how one polygon's compressed corner indices become output
//! indices. Triangulation fans a quad from its first corner; the wireframe
//! rule emits each polygon's edges once, deduplicating undirected edges by
//! remembering both directed forms of every edge it has emitted.

use vstd::prelude::*;

use crate::model::PolygonShapeError;
use crate::model::QuadMode;

verus! {

/// The triangle indices of one polygon with corner indices `q` (length 3 or
/// 4): a triangle verbatim, a quad split along its 0-2 diagonal into
/// `(q[0], q[1], q[2])` and `(q[0], q[2], q[3])`, both in original winding
/// order.
pub open spec fn triangle_fan(q: Seq<u16>) -> Seq<u16> {
    if q.len() == 3 {
        q
    } else {
        seq![q[0], q[1], q[2], q[0], q[2], q[3]]
    }
}

/// The directed edges one polygon with corner indices `q` (length 3 or 4)
/// proposes for the wireframe, in emission order. A triangle proposes its
/// outline under either mode; a quad proposes its two tessellated triangle
/// outlines (diagonal included) under `Tessellate`, and its own four edges
/// (no diagonal) under `Keep`.
pub open spec fn polygon_edges(q: Seq<u16>, quad_mode: QuadMode) -> Seq<(u16, u16)> {
    match quad_mode {
        QuadMode::Tessellate => {
            if q.len() == 4 {
                seq![
                    (q[0], q[1]),
                    (q[1], q[2]),
                    (q[2], q[0]),
                    (q[0], q[2]),
                    (q[2], q[3]),
                    (q[3], q[0]),
                ]
            } else {
                seq![(q[0], q[1]), (q[1], q[2]), (q[2], q[0])]
            }
        },
        QuadMode::Keep => {
            if q.len() == 4 {
                seq![(q[0], q[1]), (q[1], q[2]), (q[2], q[3]), (q[3], q[0])]
            } else {
                seq![(q[0], q[1]), (q[1], q[2]), (q[2], q[0])]
            }
        },
    }
}

/// Fold the proposed edges `es` into the output state: an edge whose directed
/// pair was already seen is skipped; a new edge appends its two endpoints to
/// the index buffer and records both directed forms as seen. Returns the new
/// `(index buffer, seen list)` pair.
pub open spec fn add_edges(
    idx: Seq<u16>,
    seen: Seq<(u16, u16)>,
    es: Seq<(u16, u16)>,
) -> (Seq<u16>, Seq<(u16, u16)>)
    decreases es.len(),
{
    if es.len() == 0 {
        (idx, seen)
    } else {
        let e = es.first();
        if seen.contains(e) {
            add_edges(idx, seen, es.drop_first())
        } else {
            add_edges(idx.push(e.0).push(e.1), seen.push(e).push((e.1, e.0)), es.drop_first())
        }
    }
}

/// Whether every entry of `s` is strictly below `n`.
pub open spec fn all_below(s: Seq<u16>, n: int) -> bool {
    forall|x: int| 0 <= x < s.len() ==> ((#[trigger] s[x]) as int) < n
}

/// Triangulating a polygon only rearranges its corner indices, so the
/// triangle indices stay below any bound the corner indices are below.
pub proof fn lemma_fan_below(q: Seq<u16>, n: int)
    requires
        3 <= q.len() <= 4,
        all_below(q, n),
    ensures
        all_below(triangle_fan(q), n),
{
    if q.len() == 4 {
        let f = triangle_fan(q);
        assert forall|x: int| 0 <= x < f.len() implies ((f[x]) as int) < n by {
            if x == 0 {
                assert(f[x] == q[0]);
            } else if x == 1 {
                assert(f[x] == q[1]);
            } else if x == 2 {
                assert(f[x] == q[2]);
            } else if x == 3 {
                assert(f[x] == q[0]);
            } else if x == 4 {
                assert(f[x] == q[2]);
            } else {
                assert(f[x] == q[3]);
            }
        }
    }
}

/// Whether both endpoints of every edge of `es` are strictly below `n`.
pub open spec fn edges_below(es: Seq<(u16, u16)>, n: int) -> bool {
    forall|x: int| 0 <= x < es.len() ==> ((#[trigger] es[x]).0 as int) < n && (es[x].1 as int) < n
}

/// A polygon's proposed wireframe edges connect its own corner indices, so
/// their endpoints stay below any bound the corner indices are below.
pub proof fn lemma_edges_below(q: Seq<u16>, quad_mode: QuadMode, n: int)
    requires
        3 <= q.len() <= 4,
        all_below(q, n),
    ensures
        edges_below(polygon_edges(q, quad_mode), n),
{
    let es = polygon_edges(q, quad_mode);
    assert(q[0] == q.index(0) && q[1] == q.index(1) && q[2] == q.index(2));
    assert forall|x: int| 0 <= x < es.len() implies ((es[x]).0 as int) < n && ((es[x]).1 as int)
        < n by {
        if x == 0 {
            assert(es[x] == (q[0], q[1]));
        } else if x == 1 {
            assert(es[x] == (q[1], q[2]));
        } else if x == 2 {
            assert((es[x].0 == q[2] || es[x].0 == q[0]) && (es[x].1 == q[0] || es[x].1 == q[3]));
        } else if x == 3 {
            assert((es[x].0 == q[0] || es[x].0 == q[3]) && (es[x].1 == q[2] || es[x].1 == q[0]));
        } else if x == 4 {
            assert(es[x] == (q[2], q[3]));
        } else {
            assert(es[x] == (q[3], q[0]));
        }
    }
}

/// Folding edges into the index buffer only appends edge endpoints, so the
/// buffer stays below any bound that buffer and endpoints are below.
pub proof fn lemma_add_edges_below(idx: Seq<u16>, seen: Seq<(u16, u16)>, es: Seq<(u16, u16)>, n: int)
    requires
        all_below(idx, n),
        edges_below(es, n),
    ensures
        all_below(add_edges(idx, seen, es).0, n),
    decreases es.len(),
{
    if es.len() == 0 {
    } else {
        let e = es.first();
        assert(e == es[0]);
        assert forall|x: int| 0 <= x < es.drop_first().len() implies ((#[trigger] es.drop_first()[x]).0
            as int) < n && (es.drop_first()[x].1 as int) < n by {
            assert(es.drop_first()[x] == es[x + 1]);
        }
        if seen.contains(e) {
            lemma_add_edges_below(idx, seen, es.drop_first(), n);
        } else {
            let idx2 = idx.push(e.0).push(e.1);
            assert forall|x: int| 0 <= x < idx2.len() implies ((idx2[x]) as int) < n by {
                if x < idx.len() {
                    assert(idx2[x] == idx[x]);
                }
            }
            lemma_add_edges_below(idx2, seen.push(e).push((e.1, e.0)), es.drop_first(), n);
        }
    }
}

/// Whether the directed pair `(a, b)` has been seen.
fn edge_seen(seen: &Vec<(u16, u16)>, a: u16, b: u16) -> (r: bool)
    ensures
        r == seen@.contains((a, b)),
{
    let mut j: usize = 0;
    while j < seen.len()
        invariant
            j <= seen@.len(),
            forall|t: int| 0 <= t < j ==> seen@[t] != (a, b),
        decreases seen@.len() - j,
    {
        let e = seen[j];
        if e.0 == a && e.1 == b {
            proof {
                assert(seen@[j as int] == (a, b));
            }
            return true;
        }
        j += 1;
    }
    false
}

/// Emit the edge `(a, b)` unless it was already seen in either direction;
/// seeing it records both directions, so each undirected edge is emitted at
/// most once per conversion.
fn add_line(indices: &mut Vec<u16>, seen: &mut Vec<(u16, u16)>, a: u16, b: u16)
    ensures
        old(seen)@.contains((a, b)) ==> final(indices)@ == old(indices)@ && final(seen)@ == old(
            seen,
        )@,
        !old(seen)@.contains((a, b)) ==> final(indices)@ == old(indices)@.push(a).push(b)
            && final(seen)@ == old(seen)@.push((a, b)).push((b, a)),
{
    if !edge_seen(seen, a, b) {
        indices.push(a);
        indices.push(b);
        seen.push((a, b));
        seen.push((b, a));
    }
}

/// Triangulation rule: append the polygon's triangle indices to the output
/// buffer, or fail when the polygon is neither a triangle nor a quad.
pub fn triangulate_polygon(indices: &mut Vec<u16>, q: &Vec<u16>) -> (r: Result<
    (),
    PolygonShapeError,
>)
    ensures
        (r is Ok) <==> (3 <= q@.len() <= 4),
        r is Ok ==> final(indices)@ == old(indices)@ + triangle_fan(q@),
        r is Err ==> final(indices)@ == old(indices)@,
{
    let n = q.len();
    if n == 3 {
        indices.push(q[0]);
        indices.push(q[1]);
        indices.push(q[2]);
        proof {
            assert(indices@ =~= old(indices)@ + triangle_fan(q@));
        }
        Ok(())
    } else if n == 4 {
        indices.push(q[0]);
        indices.push(q[1]);
        indices.push(q[2]);
        indices.push(q[0]);
        indices.push(q[2]);
        indices.push(q[3]);
        proof {
            assert(indices@ =~= old(indices)@ + triangle_fan(q@));
        }
        Ok(())
    } else {
        Err(PolygonShapeError)
    }
}

/// Wireframe rule: append the polygon's not-yet-seen edges to the output
/// buffer as index pairs, or fail when the polygon is neither a triangle nor
/// a quad.
pub fn wireframe_polygon(
    indices: &mut Vec<u16>,
    seen: &mut Vec<(u16, u16)>,
    q: &Vec<u16>,
    quad_mode: QuadMode,
) -> (r: Result<(), PolygonShapeError>)
    ensures
        (r is Ok) <==> (3 <= q@.len() <= 4),
        r is Ok ==> (final(indices)@, final(seen)@) == add_edges(
            old(indices)@,
            old(seen)@,
            polygon_edges(q@, quad_mode),
        ),
        r is Err ==> final(indices)@ == old(indices)@ && final(seen)@ == old(seen)@,
{
    let n = q.len();
    if n < 3 || n > 4 {
        return Err(PolygonShapeError);
    }
    let mut edges: Vec<(u16, u16)> = Vec::new();
    match quad_mode {
        QuadMode::Tessellate => {
            edges.push((q[0], q[1]));
            edges.push((q[1], q[2]));
            edges.push((q[2], q[0]));
            if n == 4 {
                edges.push((q[0], q[2]));
                edges.push((q[2], q[3]));
                edges.push((q[3], q[0]));
            }
        },
        QuadMode::Keep => {
            edges.push((q[0], q[1]));
            edges.push((q[1], q[2]));
            if n == 4 {
                edges.push((q[2], q[3]));
                edges.push((q[3], q[0]));
            } else {
                edges.push((q[2], q[0]));
            }
        },
    }
    proof {
        assert(edges@ =~= polygon_edges(q@, quad_mode));
        assert(edges@.skip(0) =~= edges@);
    }
    let ghost idx0 = indices@;
    let ghost seen0 = seen@;
    let mut t: usize = 0;
    while t < edges.len()
        invariant
            t <= edges@.len(),
            add_edges(indices@, seen@, edges@.skip(t as int)) == add_edges(idx0, seen0, edges@),
        decreases edges@.len() - t,
    {
        let e = edges[t];
        proof {
            assert(edges@.skip(t as int).first() == edges@[t as int]);
            assert(edges@.skip(t as int).drop_first() =~= edges@.skip(t as int + 1));
        }
        add_line(indices, seen, e.0, e.1);
        t += 1;
    }
    proof {
        assert(edges@.skip(edges@.len() as int) =~= Seq::<(u16, u16)>::empty());
    }
    Ok(())
}

} // verus!
