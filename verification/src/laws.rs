//! The conversion's guarantees, stated and proved once and for all: output
//! indices are valid offsets into the vertex buffer, the vertex buffer holds
//! each distinct corner key exactly once, triangulation preserves winding
//! order, and a wireframe never emits an undirected edge twice.

use vstd::prelude::*;

use crate::dedup::index_in;
use crate::dedup::lemma_dedup_props;
use crate::dedup::lemma_index_in_bounds;
use crate::emit::add_edges;
use crate::emit::all_below;
use crate::emit::lemma_add_edges_below;
use crate::emit::lemma_edges_below;
use crate::emit::lemma_fan_below;
use crate::emit::polygon_edges;
use crate::emit::triangle_fan;
use crate::indexer::EmissionRule;
use crate::indexer::compressed_corners;
use crate::indexer::covers;
use crate::indexer::emit_all;
use crate::indexer::index_buffer;
use crate::indexer::vertex_table;
use crate::model::ColorMode;
use crate::model::CornerKey;
use crate::model::Polygon;
use crate::model::QuadMode;
use crate::model::all_tri_or_quad;
use crate::model::corner_stream;
use crate::model::corner_total;

verus! {

/// The corner-key stream is exactly as long as the polygons' corner counts
/// add up to.
proof fn lemma_stream_len(polys: Seq<Polygon>, mode: ColorMode)
    ensures
        corner_stream(polys, mode).len() == corner_total(polys),
    decreases polys.len(),
{
    if polys.len() > 0 {
        lemma_stream_len(polys.drop_last(), mode);
    }
}

/// The corner-key stream holds every polygon's every corner key.
proof fn lemma_stream_covers(polys: Seq<Polygon>, mode: ColorMode)
    ensures
        covers(corner_stream(polys, mode), polys, mode),
    decreases polys.len(),
{
    broadcast use vstd::seq_lib::group_seq_properties;

    if polys.len() > 0 {
        let rest = polys.drop_last();
        lemma_stream_covers(rest, mode);
        let s = corner_stream(polys, mode);
        assert forall|t: int, i: int|
            0 <= t < polys.len() && 0 <= i < polys[t].corner_count() implies s.contains(
            #[trigger] polys[t].corner_key(mode, i),
        ) by {
            if t < polys.len() - 1 {
                assert(rest[t] == polys[t]);
                assert(corner_stream(rest, mode).contains(polys[t].corner_key(mode, i)));
            } else {
                assert(polys.last() == polys[t]);
                assert(polys[t].corner_keys(mode)[i] == polys[t].corner_key(mode, i));
                assert(polys[t].corner_keys(mode).contains(polys[t].corner_key(mode, i)));
            }
        }
    }
}

/// Concatenation keeps a bound on every entry.
proof fn lemma_all_below_add(a: Seq<u16>, b: Seq<u16>, n: int)
    requires
        all_below(a, n),
        all_below(b, n),
    ensures
        all_below(a + b, n),
{
    assert forall|x: int| 0 <= x < (a + b).len() implies (((a + b)[x]) as int) < n by {
        if x < a.len() {
            assert((a + b)[x] == a[x]);
        } else {
            assert((a + b)[x] == b[x - a.len()]);
        }
    }
}

/// Every compressed corner index of a covered polygon is a valid offset into
/// a duplicate-free vertex list of at most 65536 entries.
proof fn lemma_compressed_below(verts: Seq<CornerKey>, p: Polygon, mode: ColorMode)
    requires
        verts.len() <= 0x10000,
        forall|i: int| 0 <= i < p.corner_count() ==> verts.contains(#[trigger] p.corner_key(mode, i)),
    ensures
        all_below(compressed_corners(verts, p, mode), verts.len() as int),
{
    let q = compressed_corners(verts, p, mode);
    assert forall|x: int| 0 <= x < q.len() implies ((q[x]) as int) < verts.len() by {
        lemma_index_in_bounds(verts, p.corner_key(mode, x));
        assert(index_in(verts, p.corner_key(mode, x)) < 0x10000);
    }
}

/// Emission only ever writes compressed corner indices, so, over triangles
/// and quads, the whole output stays below the vertex count.
proof fn lemma_emit_all_below(
    verts: Seq<CornerKey>,
    polys: Seq<Polygon>,
    mode: ColorMode,
    rule: EmissionRule,
)
    requires
        verts.len() <= 0x10000,
        covers(verts, polys, mode),
        all_tri_or_quad(polys),
    ensures
        all_below(emit_all(verts, polys, mode, rule).0, verts.len() as int),
    decreases polys.len(),
{
    if polys.len() > 0 {
        let rest = polys.drop_last();
        assert forall|t: int, i: int|
            0 <= t < rest.len() && 0 <= i < rest[t].corner_count() implies verts.contains(
            #[trigger] rest[t].corner_key(mode, i),
        ) by {
            assert(rest[t] == polys[t]);
        }
        assert forall|t: int| 0 <= t < rest.len() implies (#[trigger] rest[t]).is_tri_or_quad() by {
            assert(rest[t] == polys[t]);
        }
        lemma_emit_all_below(verts, rest, mode, rule);
        let p = polys.last();
        assert(p == polys[polys.len() - 1]);
        let q = compressed_corners(verts, p, mode);
        lemma_compressed_below(verts, p, mode);
        let state = emit_all(verts, rest, mode, rule);
        match rule {
            EmissionRule::Triangulate => {
                lemma_fan_below(q, verts.len() as int);
                lemma_all_below_add(state.0, triangle_fan(q), verts.len() as int);
            },
            EmissionRule::Wireframe(quad_mode) => {
                lemma_edges_below(q, quad_mode, verts.len() as int);
                lemma_add_edges_below(
                    state.0,
                    state.1,
                    polygon_edges(q, quad_mode),
                    verts.len() as int,
                );
            },
        }
    }
}

/// Every index the conversion emits is a valid offset into the vertex buffer
/// it emits, whichever emission rule and modes are chosen.
pub proof fn lemma_index_buffer_in_bounds(polys: Seq<Polygon>, mode: ColorMode, rule: EmissionRule)
    requires
        corner_total(polys) <= 0x10000,
        all_tri_or_quad(polys),
    ensures
        all_below(index_buffer(polys, mode, rule), vertex_table(polys, mode).len() as int),
{
    let s = corner_stream(polys, mode);
    let verts = vertex_table(polys, mode);
    lemma_stream_len(polys, mode);
    lemma_dedup_props(s);
    lemma_stream_covers(polys, mode);
    assert forall|t: int, i: int|
        0 <= t < polys.len() && 0 <= i < polys[t].corner_count() implies verts.contains(
        #[trigger] polys[t].corner_key(mode, i),
    ) by {
        assert(s.contains(polys[t].corner_key(mode, i)));
    }
    lemma_emit_all_below(verts, polys, mode, rule);
}

/// The vertex buffer holds each distinct corner key of the soup exactly
/// once: it is duplicate-free, it holds exactly the keys that occur in the
/// corner stream, and its length is the number of distinct corner keys.
pub proof fn lemma_vertex_table_dedups(polys: Seq<Polygon>, mode: ColorMode)
    ensures
        vertex_table(polys, mode).no_duplicates(),
        forall|k: CornerKey| #[trigger] vertex_table(polys, mode).contains(k) <==> corner_stream(
            polys,
            mode,
        ).contains(k),
        vertex_table(polys, mode).len() == corner_stream(polys, mode).to_set().len(),
{
    let s = corner_stream(polys, mode);
    let verts = vertex_table(polys, mode);
    lemma_dedup_props(s);
    assert(verts.to_set() =~= s.to_set());
    verts.unique_seq_to_set();
}

/// Triangulation preserves winding order: a quad with corners `[a, b, c, d]`
/// yields the triangles `[a, b, c]` and `[a, c, d]`, in that order.
pub proof fn lemma_triangulation_preserves_winding(a: u16, b: u16, c: u16, d: u16)
    ensures
        triangle_fan(seq![a, b, c, d]) == seq![a, b, c] + seq![a, c, d],
{
    assert(triangle_fan(seq![a, b, c, d]) =~= seq![a, b, c] + seq![a, c, d]);
}

/// The index pair at position `p` of a line-pair index buffer.
pub open spec fn edge_pair(idx: Seq<u16>, p: int) -> (u16, u16) {
    (idx[2 * p], idx[2 * p + 1])
}

/// The same edge, directed the other way.
pub open spec fn flip(e: (u16, u16)) -> (u16, u16) {
    (e.1, e.0)
}

/// The wireframe output invariant: the buffer pairs up evenly, every emitted
/// pair is recorded as seen in both directions, and no two emitted pairs are
/// the same undirected edge.
spec fn wire_state_ok(idx: Seq<u16>, seen: Seq<(u16, u16)>) -> bool {
    &&& idx.len() % 2 == 0
    &&& forall|p: int|
        0 <= p < idx.len() / 2 ==> seen.contains(#[trigger] edge_pair(idx, p)) && seen.contains(
            flip(edge_pair(idx, p)),
        )
    &&& forall|p1: int, p2: int|
        #![trigger edge_pair(idx, p1), edge_pair(idx, p2)]
        0 <= p1 < p2 < idx.len() / 2 ==> edge_pair(idx, p1) != edge_pair(idx, p2) && flip(
            edge_pair(idx, p1),
        ) != edge_pair(idx, p2)
}

/// Folding any proposed edges into a state with the wireframe invariant
/// keeps the invariant: an edge seen in either direction is never re-emitted.
proof fn lemma_add_edges_wire_ok(idx: Seq<u16>, seen: Seq<(u16, u16)>, es: Seq<(u16, u16)>)
    requires
        wire_state_ok(idx, seen),
    ensures
        wire_state_ok(add_edges(idx, seen, es).0, add_edges(idx, seen, es).1),
    decreases es.len(),
{
    broadcast use vstd::seq_lib::group_seq_properties;

    if es.len() == 0 {
    } else {
        let e = es.first();
        if seen.contains(e) {
            lemma_add_edges_wire_ok(idx, seen, es.drop_first());
        } else {
            let idx2 = idx.push(e.0).push(e.1);
            let seen2 = seen.push(e).push(flip(e));
            let half = idx.len() as int / 2;
            assert forall|p: int| 0 <= p < idx2.len() / 2 implies seen2.contains(
                #[trigger] edge_pair(idx2, p),
            ) && seen2.contains(flip(edge_pair(idx2, p))) by {
                if p < half {
                    assert(edge_pair(idx2, p) == edge_pair(idx, p));
                } else {
                    assert(edge_pair(idx2, p) == e);
                    assert(seen2[seen.len() as int] == e);
                    assert(seen2[seen.len() as int + 1] == flip(e));
                    assert(seen2.contains(e));
                    assert(seen2.contains(flip(e)));
                }
            }
            assert forall|p1: int, p2: int|
                #![trigger edge_pair(idx2, p1), edge_pair(idx2, p2)]
                0 <= p1 < p2 < idx2.len() / 2 implies edge_pair(idx2, p1) != edge_pair(idx2, p2)
                && flip(edge_pair(idx2, p1)) != edge_pair(idx2, p2) by {
                assert(edge_pair(idx2, p1) == edge_pair(idx, p1));
                if p2 < half {
                    assert(edge_pair(idx2, p2) == edge_pair(idx, p2));
                } else {
                    assert(edge_pair(idx2, p2) == e);
                    assert(seen.contains(edge_pair(idx, p1)));
                    assert(seen.contains(flip(edge_pair(idx, p1))));
                }
            }
            lemma_add_edges_wire_ok(idx2, seen2, es.drop_first());
        }
    }
}

/// The whole wireframe pass keeps the invariant, whatever the polygons.
proof fn lemma_emit_all_wire_ok(
    verts: Seq<CornerKey>,
    polys: Seq<Polygon>,
    mode: ColorMode,
    quad_mode: QuadMode,
)
    ensures
        wire_state_ok(
            emit_all(verts, polys, mode, EmissionRule::Wireframe(quad_mode)).0,
            emit_all(verts, polys, mode, EmissionRule::Wireframe(quad_mode)).1,
        ),
    decreases polys.len(),
{
    let rule = EmissionRule::Wireframe(quad_mode);
    if polys.len() == 0 {
    } else {
        lemma_emit_all_wire_ok(verts, polys.drop_last(), mode, quad_mode);
        let state = emit_all(verts, polys.drop_last(), mode, rule);
        lemma_add_edges_wire_ok(
            state.0,
            state.1,
            polygon_edges(compressed_corners(verts, polys.last(), mode), quad_mode),
        );
    }
}

/// A wireframe index buffer holds no duplicate undirected edge: it pairs up
/// evenly, and for any two of its pairs, neither the pair itself nor its
/// reversal is emitted again.
pub proof fn lemma_wireframe_no_duplicate_edges(
    polys: Seq<Polygon>,
    mode: ColorMode,
    quad_mode: QuadMode,
)
    ensures
        index_buffer(polys, mode, EmissionRule::Wireframe(quad_mode)).len() % 2 == 0,
        forall|p1: int, p2: int|
            #![trigger edge_pair(index_buffer(polys, mode, EmissionRule::Wireframe(quad_mode)), p1), edge_pair(index_buffer(polys, mode, EmissionRule::Wireframe(quad_mode)), p2)]
            0 <= p1 < p2 < index_buffer(polys, mode, EmissionRule::Wireframe(quad_mode)).len() / 2
                ==> edge_pair(index_buffer(polys, mode, EmissionRule::Wireframe(quad_mode)), p1)
                != edge_pair(index_buffer(polys, mode, EmissionRule::Wireframe(quad_mode)), p2)
                && edge_pair(index_buffer(polys, mode, EmissionRule::Wireframe(quad_mode)), p1)
                != flip(
                edge_pair(index_buffer(polys, mode, EmissionRule::Wireframe(quad_mode)), p2),
            ),
{
    let rule = EmissionRule::Wireframe(quad_mode);
    let verts = vertex_table(polys, mode);
    lemma_emit_all_wire_ok(verts, polys, mode, quad_mode);
    let idx = index_buffer(polys, mode, rule);
    assert forall|p1: int, p2: int|
        #![trigger edge_pair(idx, p1), edge_pair(idx, p2)]
        0 <= p1 < p2 < idx.len() / 2 implies edge_pair(idx, p1) != edge_pair(idx, p2) && edge_pair(
        idx,
        p1,
    ) != flip(edge_pair(idx, p2)) by {
        assert(flip(edge_pair(idx, p1)) != edge_pair(idx, p2));
        assert(flip(flip(edge_pair(idx, p1))) == edge_pair(idx, p1));
    }
}

/// Keep-mode wireframe of a single quad `[a, b, c, d]` with distinct corners
/// yields exactly its four outline edges, in order, and no diagonal.
pub proof fn lemma_keep_quad_edges(a: u16, b: u16, c: u16, d: u16)
    requires
        a != b,
        a != c,
        a != d,
        b != c,
        b != d,
        c != d,
    ensures
        add_edges(Seq::empty(), Seq::empty(), polygon_edges(seq![a, b, c, d], QuadMode::Keep)).0
            == seq![a, b, b, c, c, d, d, a],
{
    let q = seq![a, b, c, d];
    let es = polygon_edges(q, QuadMode::Keep);
    assert(es =~= seq![(a, b), (b, c), (c, d), (d, a)]);
    let i0: Seq<u16> = Seq::empty();
    let s0: Seq<(u16, u16)> = Seq::empty();
    let i1 = i0.push(a).push(b);
    let s1 = s0.push((a, b)).push((b, a));
    let i2 = i1.push(b).push(c);
    let s2 = s1.push((b, c)).push((c, b));
    let i3 = i2.push(c).push(d);
    let s3 = s2.push((c, d)).push((d, c));
    let i4 = i3.push(d).push(a);
    assert(!s0.contains((a, b)));
    assert(add_edges(i0, s0, es) == add_edges(i1, s1, es.drop_first())) by {
        assert(es.first() == (a, b));
    }
    assert(!s1.contains((b, c)));
    assert(add_edges(i1, s1, es.drop_first()) == add_edges(i2, s2, es.drop_first().drop_first()))
        by {
        assert(es.drop_first().first() == (b, c));
    }
    assert(!s2.contains((c, d)));
    assert(add_edges(i2, s2, es.drop_first().drop_first()) == add_edges(
        i3,
        s3,
        es.drop_first().drop_first().drop_first(),
    )) by {
        assert(es.drop_first().drop_first().first() == (c, d));
    }
    let s4 = s3.push((d, a)).push((a, d));
    assert(!s3.contains((d, a)));
    assert(add_edges(i3, s3, es.drop_first().drop_first().drop_first()) == add_edges(
        i4,
        s4,
        es.drop_first().drop_first().drop_first().drop_first(),
    )) by {
        assert(es.drop_first().drop_first().drop_first().first() == (d, a));
    }
    assert(es.drop_first().drop_first().drop_first().drop_first().len() == 0);
    assert(add_edges(i4, s4, es.drop_first().drop_first().drop_first().drop_first()) == (i4, s4));
    assert(add_edges(i0, s0, es).0 == i4);
    assert(i4 =~= seq![a, b, b, c, c, d, d, a]);
}

/// Tessellate-mode wireframe of a single quad `[a, b, c, d]` with distinct
/// corners yields exactly five undirected edges: the four outline edges and
/// one diagonal, emitted once even though both synthetic triangles reference
/// it.
pub proof fn lemma_tessellate_quad_edges(a: u16, b: u16, c: u16, d: u16)
    requires
        a != b,
        a != c,
        a != d,
        b != c,
        b != d,
        c != d,
    ensures
        add_edges(
            Seq::empty(),
            Seq::empty(),
            polygon_edges(seq![a, b, c, d], QuadMode::Tessellate),
        ).0 == seq![a, b, b, c, c, a, c, d, d, a],
{
    let q = seq![a, b, c, d];
    let es = polygon_edges(q, QuadMode::Tessellate);
    assert(es =~= seq![(a, b), (b, c), (c, a), (a, c), (c, d), (d, a)]);
    let i0: Seq<u16> = Seq::empty();
    let s0: Seq<(u16, u16)> = Seq::empty();
    let i1 = i0.push(a).push(b);
    let s1 = s0.push((a, b)).push((b, a));
    let i2 = i1.push(b).push(c);
    let s2 = s1.push((b, c)).push((c, b));
    let i3 = i2.push(c).push(a);
    let s3 = s2.push((c, a)).push((a, c));
    let i4 = i3.push(c).push(d);
    let s4 = s3.push((c, d)).push((d, c));
    let i5 = i4.push(d).push(a);
    let es1 = es.drop_first();
    let es2 = es1.drop_first();
    let es3 = es2.drop_first();
    let es4 = es3.drop_first();
    let es5 = es4.drop_first();
    assert(!s0.contains((a, b)));
    assert(add_edges(i0, s0, es) == add_edges(i1, s1, es1)) by {
        assert(es.first() == (a, b));
    }
    assert(!s1.contains((b, c)));
    assert(add_edges(i1, s1, es1) == add_edges(i2, s2, es2)) by {
        assert(es1.first() == (b, c));
    }
    assert(!s2.contains((c, a)));
    assert(add_edges(i2, s2, es2) == add_edges(i3, s3, es3)) by {
        assert(es2.first() == (c, a));
    }
    // the diagonal reappears as (a, c) and is skipped: it was seen as the
    // reversal of (c, a)
    assert(s3[s3.len() - 1] == (a, c));
    assert(s3.contains((a, c)));
    assert(add_edges(i3, s3, es3) == add_edges(i3, s3, es4)) by {
        assert(es3.first() == (a, c));
    }
    assert(!s3.contains((c, d)));
    assert(add_edges(i3, s3, es4) == add_edges(i4, s4, es5)) by {
        assert(es4.first() == (c, d));
    }
    let s5 = s4.push((d, a)).push((a, d));
    assert(!s4.contains((d, a)));
    assert(add_edges(i4, s4, es5) == add_edges(i5, s5, es5.drop_first())) by {
        assert(es5.first() == (d, a));
    }
    assert(es5.drop_first().len() == 0);
    assert(add_edges(i5, s5, es5.drop_first()) == (i5, s5));
    assert(add_edges(i0, s0, es).0 == i5);
    assert(i5 =~= seq![a, b, b, c, c, a, c, d, d, a]);
}

} // verus!
