//! The polygon indexer: one pass over the polygon list that deduplicates
//! corner keys into a compact vertex list and applies the selected emission
//! rule to each polygon's compressed corner indices.

use vstd::prelude::*;

use crate::dedup::dedup_keys;
use crate::dedup::index_in;
use crate::dedup::intern;
use crate::dedup::lemma_index_in_bounds;
use crate::dedup::lemma_index_in_prefix;
use crate::dedup::lemma_dedup_push;
use crate::emit::add_edges;
use crate::emit::all_below;
use crate::emit::lemma_add_edges_below;
use crate::emit::lemma_edges_below;
use crate::emit::lemma_fan_below;
use crate::emit::polygon_edges;
use crate::emit::triangle_fan;
use crate::emit::triangulate_polygon;
use crate::emit::wireframe_polygon;
use crate::model::ColorMode;
use crate::model::CornerKey;
use crate::model::Polygon;
use crate::model::PolygonShapeError;
use crate::model::QuadMode;
use crate::model::all_tri_or_quad;
use crate::model::corner_stream;
use crate::model::corner_total;
use crate::model::polygon_vert_norm_pairs;
use crate::model::polygon_vert_uv_pairs;

verus! {

/// The emission rule: what a polygon's compressed corner indices contribute
/// to the output index buffer.
#[derive(Copy, Clone, Debug)]
pub enum EmissionRule {
    /// One or two triangles per polygon.
    Triangulate,
    /// Line pairs for the polygon's not-yet-seen edges.
    Wireframe(QuadMode),
}

/// The compressed corner indices of polygon `p` against the vertex list
/// `verts`: for each corner, the index its key deduplicated to.
pub open spec fn compressed_corners(verts: Seq<CornerKey>, p: Polygon, mode: ColorMode) -> Seq<
    u16,
> {
    Seq::new(p.corner_count(), |i: int| index_in(verts, p.corner_key(mode, i)) as u16)
}

/// One emission step: what rule `rule` makes of one polygon's compressed
/// corner indices `q`, given the output state `(index buffer, seen edges)`.
pub open spec fn emit_polygon(
    state: (Seq<u16>, Seq<(u16, u16)>),
    q: Seq<u16>,
    rule: EmissionRule,
) -> (Seq<u16>, Seq<(u16, u16)>) {
    match rule {
        EmissionRule::Triangulate => (state.0 + triangle_fan(q), state.1),
        EmissionRule::Wireframe(quad_mode) => add_edges(state.0, state.1, polygon_edges(q, quad_mode)),
    }
}

/// The output state after emitting every polygon of `polys` in input order,
/// with corner indices compressed against `verts`.
pub open spec fn emit_all(
    verts: Seq<CornerKey>,
    polys: Seq<Polygon>,
    mode: ColorMode,
    rule: EmissionRule,
) -> (Seq<u16>, Seq<(u16, u16)>)
    decreases polys.len(),
{
    if polys.len() == 0 {
        (Seq::empty(), Seq::empty())
    } else {
        emit_polygon(
            emit_all(verts, polys.drop_last(), mode, rule),
            compressed_corners(verts, polys.last(), mode),
            rule,
        )
    }
}

/// The vertex buffer of a conversion: the soup's corner-key stream under
/// `mode`, deduplicated to first occurrences.
pub open spec fn vertex_table(polys: Seq<Polygon>, mode: ColorMode) -> Seq<CornerKey> {
    dedup_keys(corner_stream(polys, mode))
}

/// The index buffer of a conversion under emission rule `rule`.
pub open spec fn index_buffer(polys: Seq<Polygon>, mode: ColorMode, rule: EmissionRule) -> Seq<
    u16,
> {
    emit_all(vertex_table(polys, mode), polys, mode, rule).0
}

/// Whether `verts` holds every corner key of every polygon of `polys`.
pub open spec fn covers(verts: Seq<CornerKey>, polys: Seq<Polygon>, mode: ColorMode) -> bool {
    forall|t: int, i: int|
        0 <= t < polys.len() && 0 <= i < polys[t].corner_count() ==> verts.contains(
            #[trigger] polys[t].corner_key(mode, i),
        )
}

/// Taking one more polygon adds its corner count to the running total.
proof fn lemma_total_take_succ(polys: Seq<Polygon>, i: int)
    requires
        0 <= i < polys.len(),
    ensures
        corner_total(polys.take(i + 1)) == corner_total(polys.take(i))
            + polys[i].corner_count(),
{
    assert(polys.take(i + 1).drop_last() =~= polys.take(i));
    assert(polys.take(i + 1).last() == polys[i]);
}

/// A prefix never has more corners than the whole list.
proof fn lemma_total_prefix(polys: Seq<Polygon>, i: int)
    requires
        0 <= i <= polys.len(),
    ensures
        corner_total(polys.take(i)) <= corner_total(polys),
    decreases polys.len() - i,
{
    if i == polys.len() {
        assert(polys.take(i) =~= polys);
    } else {
        lemma_total_take_succ(polys, i);
        lemma_total_prefix(polys, i + 1);
    }
}

/// Taking one more polygon appends its corner keys to the running stream.
proof fn lemma_stream_take_succ(polys: Seq<Polygon>, mode: ColorMode, i: int)
    requires
        0 <= i < polys.len(),
    ensures
        corner_stream(polys.take(i + 1), mode) == corner_stream(polys.take(i), mode)
            + polys[i].corner_keys(mode),
{
    assert(polys.take(i + 1).drop_last() =~= polys.take(i));
    assert(polys.take(i + 1).last() == polys[i]);
}

/// Compressed corner indices do not depend on vertex-list entries past the
/// keys they compress: extending a duplicate-free vertex list that already
/// covers the polygon changes nothing.
proof fn lemma_compressed_prefix(
    v1: Seq<CornerKey>,
    v2: Seq<CornerKey>,
    p: Polygon,
    mode: ColorMode,
)
    requires
        v1.is_prefix_of(v2),
        v2.no_duplicates(),
        forall|i: int| 0 <= i < p.corner_count() ==> v1.contains(#[trigger] p.corner_key(mode, i)),
    ensures
        compressed_corners(v1, p, mode) == compressed_corners(v2, p, mode),
{
    assert forall|i: int| 0 <= i < p.corner_count() implies index_in(v1, p.corner_key(mode, i))
        == index_in(v2, p.corner_key(mode, i)) by {
        lemma_index_in_prefix(v1, v2, p.corner_key(mode, i));
    }
    assert(compressed_corners(v1, p, mode) =~= compressed_corners(v2, p, mode));
}

/// The same, lifted to the whole emission pass.
proof fn lemma_emit_all_prefix(
    v1: Seq<CornerKey>,
    v2: Seq<CornerKey>,
    polys: Seq<Polygon>,
    mode: ColorMode,
    rule: EmissionRule,
)
    requires
        v1.is_prefix_of(v2),
        v2.no_duplicates(),
        covers(v1, polys, mode),
    ensures
        emit_all(v1, polys, mode, rule) == emit_all(v2, polys, mode, rule),
    decreases polys.len(),
{
    if polys.len() == 0 {
    } else {
        let rest = polys.drop_last();
        assert forall|t: int, i: int|
            0 <= t < rest.len() && 0 <= i < rest[t].corner_count() implies v1.contains(
            #[trigger] rest[t].corner_key(mode, i),
        ) by {
            assert(rest[t] == polys[t]);
        }
        lemma_emit_all_prefix(v1, v2, rest, mode, rule);
        assert(polys.last() == polys[polys.len() - 1]);
        lemma_compressed_prefix(v1, v2, polys.last(), mode);
    }
}

/// Generate the vertex and index buffers for this polygon soup: deduplicate
/// `(position, attribute)` corner keys into a compact vertex list and apply
/// the emission rule to each polygon in input order. A polygon that is
/// neither a triangle nor a quad aborts the conversion: the error is
/// returned and no partial output leaks.
pub fn polygon_indices(polys: &Vec<Polygon>, color_mode: ColorMode, rule: EmissionRule) -> (r:
    Result<(Vec<CornerKey>, Vec<u16>), PolygonShapeError>)
    requires
        corner_total(polys@) <= 0x10000,
    ensures
        (r is Ok) <==> all_tri_or_quad(polys@),
        r matches Ok(out) ==> out.0@ == vertex_table(polys@, color_mode) && out.1@ == index_buffer(
            polys@,
            color_mode,
            rule,
        ) && all_below(out.1@, out.0@.len() as int),
{
    let mut vertices: Vec<CornerKey> = Vec::new();
    let mut indices: Vec<u16> = Vec::new();
    let mut seen: Vec<(u16, u16)> = Vec::new();
    let mut pi: usize = 0;
    proof {
        assert(polys@.take(0) =~= Seq::<Polygon>::empty());
    }
    while pi < polys.len()
        invariant
            pi <= polys@.len(),
            corner_total(polys@) <= 0x10000,
            forall|t: int| 0 <= t < pi ==> (#[trigger] polys@[t]).is_tri_or_quad(),
            vertices@ == dedup_keys(corner_stream(polys@.take(pi as int), color_mode)),
            vertices@.no_duplicates(),
            vertices@.len() <= corner_total(polys@.take(pi as int)),
            covers(vertices@, polys@.take(pi as int), color_mode),
            (indices@, seen@) == emit_all(vertices@, polys@.take(pi as int), color_mode, rule),
            all_below(indices@, vertices@.len() as int),
        decreases polys@.len() - pi,
    {
        let ghost prefix = polys@.take(pi as int);
        let ghost v_start = vertices@;
        let poly = &polys[pi];
        let keys = match color_mode {
            ColorMode::Normal => polygon_vert_norm_pairs(poly),
            ColorMode::Uv => polygon_vert_uv_pairs(poly),
        };
        let n = keys.len();
        proof {
            assert(keys@.take(0) =~= Seq::<CornerKey>::empty());
            assert(corner_stream(prefix, color_mode) + keys@.take(0) =~= corner_stream(
                prefix,
                color_mode,
            ));
            lemma_total_take_succ(polys@, pi as int);
            lemma_total_prefix(polys@, pi as int + 1);
        }
        let mut poly_buf: Vec<u16> = Vec::new();
        let mut j: usize = 0;
        while j < n
            invariant
                j <= n,
                pi < polys@.len(),
                corner_total(polys@) <= 0x10000,
                prefix == polys@.take(pi as int),
                n == keys@.len(),
                n == polys@[pi as int].corner_count(),
                keys@ == polys@[pi as int].corner_keys(color_mode),
                vertices@ == dedup_keys(corner_stream(prefix, color_mode) + keys@.take(j as int)),
                vertices@.no_duplicates(),
                vertices@.len() <= corner_total(prefix) + j,
                corner_total(prefix) + n <= corner_total(polys@),
                v_start == dedup_keys(corner_stream(prefix, color_mode)),
                v_start.is_prefix_of(vertices@),
                poly_buf@.len() == j,
                forall|t: int|
                    0 <= t < j ==> vertices@.contains(#[trigger] keys@[t]) && poly_buf@[t] as int
                        == index_in(vertices@, keys@[t]),
            decreases n - j,
        {
            let k = keys[j];
            let ghost v_before = vertices@;
            let ghost stream_before = corner_stream(prefix, color_mode) + keys@.take(j as int);
            proof {
                lemma_dedup_push(stream_before, k);
                assert(stream_before.push(k) =~= corner_stream(prefix, color_mode) + keys@.take(
                    j as int + 1,
                ));
            }
            let idx = intern(&mut vertices, k);
            poly_buf.push(idx);
            proof {
                assert(v_before.is_prefix_of(vertices@)) by {
                    assert(v_before =~= vertices@.take(v_before.len() as int));
                }
                assert(v_start.is_prefix_of(vertices@)) by {
                    assert(v_start =~= vertices@.take(v_start.len() as int));
                }
                assert forall|t: int| 0 <= t < j + 1 implies vertices@.contains(
                    #[trigger] keys@[t],
                ) && poly_buf@[t] as int == index_in(vertices@, keys@[t]) by {
                    if t < j {
                        assert(v_before.contains(keys@[t]));
                        assert(vertices@.contains(keys@[t])) by {
                            let w = choose|w: int|
                                0 <= w < v_before.len() && v_before[w] == keys@[t];
                            assert(vertices@[w] == keys@[t]);
                        }
                        lemma_index_in_prefix(v_before, vertices@, keys@[t]);
                        assert(poly_buf@[t] == poly_buf@.drop_last()[t]);
                    } else {
                        assert(poly_buf@[t] == idx);
                    }
                }
            }
            j += 1;
        }
        proof {
            assert(keys@.take(n as int) =~= keys@);
            lemma_stream_take_succ(polys@, color_mode, pi as int);
            assert(corner_stream(prefix, color_mode) + keys@ == corner_stream(
                polys@.take(pi as int + 1),
                color_mode,
            ));
            let ghost cc = compressed_corners(vertices@, polys@[pi as int], color_mode);
            assert forall|t: int| 0 <= t < poly_buf@.len() implies poly_buf@[t] == cc[t] by {
                assert(keys@[t] == polys@[pi as int].corner_key(color_mode, t));
                lemma_index_in_bounds(vertices@, keys@[t]);
                assert(index_in(vertices@, keys@[t]) < 0x10000);
                assert(poly_buf@[t] as int == index_in(vertices@, keys@[t]));
            }
            assert(poly_buf@ =~= compressed_corners(vertices@, polys@[pi as int], color_mode));
            // the corner indices are valid offsets into the vertex list
            assert forall|t: int| 0 <= t < poly_buf@.len() implies ((#[trigger] poly_buf@[t])
                as int) < vertices@.len() by {
                lemma_index_in_bounds(vertices@, keys@[t]);
            }
            // the running output is unchanged when re-read against the grown
            // vertex list
            lemma_emit_all_prefix(v_start, vertices@, prefix, color_mode, rule);
            // the old output entries stay below the grown vertex count
            assert(all_below(indices@, vertices@.len() as int));
        }
        let emit_r = match rule {
            EmissionRule::Triangulate => triangulate_polygon(&mut indices, &poly_buf),
            EmissionRule::Wireframe(quad_mode) => wireframe_polygon(
                &mut indices,
                &mut seen,
                &poly_buf,
                quad_mode,
            ),
        };
        if let Err(e) = emit_r {
            proof {
                assert(!polys@[pi as int].is_tri_or_quad());
                assert(!all_tri_or_quad(polys@));
            }
            return Err(e);
        }
        proof {
            assert(polys@.take(pi as int + 1).drop_last() =~= prefix);
            assert(polys@.take(pi as int + 1).last() == polys@[pi as int]);
            assert((indices@, seen@) == emit_all(
                vertices@,
                polys@.take(pi as int + 1),
                color_mode,
                rule,
            ));
            // output entries stay valid offsets
            match rule {
                EmissionRule::Triangulate => {
                    lemma_fan_below(poly_buf@, vertices@.len() as int);
                },
                EmissionRule::Wireframe(quad_mode) => {
                    lemma_edges_below(poly_buf@, quad_mode, vertices@.len() as int);
                    lemma_add_edges_below(
                        emit_all(vertices@, prefix, color_mode, rule).0,
                        emit_all(vertices@, prefix, color_mode, rule).1,
                        polygon_edges(poly_buf@, quad_mode),
                        vertices@.len() as int,
                    );
                },
            }
            // every covered key stays covered, and the new polygon is covered
            assert forall|t: int, i: int|
                0 <= t < pi as int + 1 && 0 <= i < polys@.take(pi as int + 1)[t].corner_count()
                    implies vertices@.contains(
                #[trigger] polys@.take(pi as int + 1)[t].corner_key(color_mode, i),
            ) by {
                if t < pi as int {
                    assert(prefix[t] == polys@.take(pi as int + 1)[t]);
                    assert(v_start.contains(prefix[t].corner_key(color_mode, i)));
                    let w = choose|w: int|
                        0 <= w < v_start.len() && v_start[w] == prefix[t].corner_key(color_mode, i);
                    assert(vertices@[w] == prefix[t].corner_key(color_mode, i));
                } else {
                    assert(polys@.take(pi as int + 1)[t] == polys@[pi as int]);
                    assert(keys@[i] == polys@[pi as int].corner_key(color_mode, i));
                }
            }
        }
        pi += 1;
    }
    proof {
        assert(polys@.take(polys@.len() as int) =~= polys@);
    }
    Ok((vertices, indices))
}

/// Generate a triangle mesh for this polygon soup: a deduplicated vertex
/// list and an index buffer of triangle triples, quads fanned from their
/// first corner in original winding order.
pub fn triangles(polys: &Vec<Polygon>, color_mode: ColorMode) -> (r: Result<
    (Vec<CornerKey>, Vec<u16>),
    PolygonShapeError,
>)
    requires
        corner_total(polys@) <= 0x10000,
    ensures
        (r is Ok) <==> all_tri_or_quad(polys@),
        r matches Ok(out) ==> out.0@ == vertex_table(polys@, color_mode) && out.1@ == index_buffer(
            polys@,
            color_mode,
            EmissionRule::Triangulate,
        ) && all_below(out.1@, out.0@.len() as int),
{
    polygon_indices(polys, color_mode, EmissionRule::Triangulate)
}

/// Generate a wireframe for this polygon soup: a deduplicated vertex list
/// and an index buffer of line pairs, each undirected edge emitted once.
/// Quads either keep their four original edges or are tessellated into two
/// outlined triangles (see [`QuadMode`]).
pub fn wireframe(polys: &Vec<Polygon>, color_mode: ColorMode, quad_mode: QuadMode) -> (r: Result<
    (Vec<CornerKey>, Vec<u16>),
    PolygonShapeError,
>)
    requires
        corner_total(polys@) <= 0x10000,
    ensures
        (r is Ok) <==> all_tri_or_quad(polys@),
        r matches Ok(out) ==> out.0@ == vertex_table(polys@, color_mode) && out.1@ == index_buffer(
            polys@,
            color_mode,
            EmissionRule::Wireframe(quad_mode),
        ) && all_below(out.1@, out.0@.len() as int),
{
    polygon_indices(polys, color_mode, EmissionRule::Wireframe(quad_mode))
}

} // verus!
