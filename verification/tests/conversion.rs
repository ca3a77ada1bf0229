//! Behavioural tests of the polygon-soup conversion: triangulation,
//! wireframes under both quad modes, corner-key deduplication, and rejection
//! of polygons that are neither triangles nor quads.

use polymesh::ColorMode;
use polymesh::CornerKey;
use polymesh::Polygon;
use polymesh::PolygonShapeError;
use polymesh::QuadMode;
use polymesh::polygon_vert_norm_pairs;
use polymesh::polygon_vert_uv_pairs;
use polymesh::triangles;
use polymesh::triangulate_polygon;
use polymesh::wireframe;
use polymesh::wireframe_polygon;

fn key(position: usize, attribute: Option<usize>) -> CornerKey {
    CornerKey { position, attribute }
}

/// One quad over four positions, no attributes: four deduplicated vertices
/// and the two fan triangles `[0,1,2]`, `[0,2,3]`.
#[test]
fn single_quad_triangulation() {
    // positions (0,0,0), (1,0,0), (1,1,0), (0,1,0) in the external tables;
    // the quad references them as corners [0, 1, 2, 3]
    let polys = vec![Polygon::P(vec![0, 1, 2, 3])];
    let (verts, idx) = triangles(&polys, ColorMode::Uv).unwrap();
    assert_eq!(verts.len(), 4);
    assert_eq!(
        verts,
        vec![key(0, None), key(1, None), key(2, None), key(3, None)]
    );
    assert_eq!(idx, vec![0, 1, 2, 0, 2, 3]);
}

#[test]
fn single_triangle_passes_through() {
    let polys = vec![Polygon::P(vec![5, 6, 7])];
    let (verts, idx) = triangles(&polys, ColorMode::Normal).unwrap();
    assert_eq!(verts, vec![key(5, None), key(6, None), key(7, None)]);
    assert_eq!(idx, vec![0, 1, 2]);
}

#[test]
fn empty_model_yields_empty_buffers() {
    let polys: Vec<Polygon> = Vec::new();
    let (verts, idx) = triangles(&polys, ColorMode::Uv).unwrap();
    assert!(verts.is_empty());
    assert!(idx.is_empty());
    let (verts, idx) = wireframe(&polys, ColorMode::Uv, QuadMode::Keep).unwrap();
    assert!(verts.is_empty());
    assert!(idx.is_empty());
}

/// Two triangles sharing two corners: the shared corner keys are reused, so
/// only four vertices are emitted.
#[test]
fn shared_corners_are_deduplicated() {
    let polys = vec![Polygon::P(vec![0, 1, 2]), Polygon::P(vec![0, 2, 3])];
    let (verts, idx) = triangles(&polys, ColorMode::Uv).unwrap();
    assert_eq!(verts.len(), 4);
    assert_eq!(idx, vec![0, 1, 2, 0, 2, 3]);
}

/// The same position with two different texture coordinates is two corner
/// keys under `Uv`, but one under `Normal` (where these polygons carry no
/// selected attribute).
#[test]
fn attribute_mode_changes_the_corner_key() {
    let polys = vec![
        Polygon::PT(vec![(0, 0), (1, 0), (2, 0)]),
        Polygon::PT(vec![(0, 1), (1, 0), (2, 0)]),
    ];
    let (verts_uv, idx_uv) = triangles(&polys, ColorMode::Uv).unwrap();
    assert_eq!(
        verts_uv,
        vec![
            key(0, Some(0)),
            key(1, Some(0)),
            key(2, Some(0)),
            key(0, Some(1)),
        ]
    );
    assert_eq!(idx_uv, vec![0, 1, 2, 3, 1, 2]);

    let (verts_n, idx_n) = triangles(&polys, ColorMode::Normal).unwrap();
    assert_eq!(verts_n, vec![key(0, None), key(1, None), key(2, None)]);
    assert_eq!(idx_n, vec![0, 1, 2, 0, 1, 2]);
}

#[test]
fn normal_mode_reads_the_normal_index() {
    let poly = Polygon::PTN(vec![(0, 1, 2), (3, 4, 5), (6, 7, 8)]);
    assert_eq!(
        polygon_vert_uv_pairs(&poly),
        vec![key(0, Some(1)), key(3, Some(4)), key(6, Some(7))]
    );
    assert_eq!(
        polygon_vert_norm_pairs(&poly),
        vec![key(0, Some(2)), key(3, Some(5)), key(6, Some(8))]
    );

    let pn = Polygon::PN(vec![(0, 9), (1, 9), (2, 9)]);
    assert_eq!(
        polygon_vert_norm_pairs(&pn),
        vec![key(0, Some(9)), key(1, Some(9)), key(2, Some(9))]
    );
    assert_eq!(
        polygon_vert_uv_pairs(&pn),
        vec![key(0, None), key(1, None), key(2, None)]
    );
}

/// Keep-mode wireframe of one quad: its four outline edges, no diagonal.
#[test]
fn keep_quad_wireframe_has_four_edges() {
    let polys = vec![Polygon::P(vec![0, 1, 2, 3])];
    let (verts, idx) = wireframe(&polys, ColorMode::Uv, QuadMode::Keep).unwrap();
    assert_eq!(verts.len(), 4);
    assert_eq!(idx, vec![0, 1, 1, 2, 2, 3, 3, 0]);
}

/// Tessellate-mode wireframe of one quad: four outline edges plus one
/// diagonal, the diagonal emitted once although both triangles reference it.
#[test]
fn tessellate_quad_wireframe_has_five_edges() {
    let polys = vec![Polygon::P(vec![0, 1, 2, 3])];
    let (verts, idx) = wireframe(&polys, ColorMode::Uv, QuadMode::Tessellate).unwrap();
    assert_eq!(verts.len(), 4);
    assert_eq!(idx, vec![0, 1, 1, 2, 2, 0, 2, 3, 3, 0]);
    assert_eq!(idx.len() / 2, 5);
}

/// Triangle wireframes are identical under both quad modes.
#[test]
fn triangle_wireframe_ignores_quad_mode() {
    let polys = vec![Polygon::P(vec![0, 1, 2])];
    let (_, keep) = wireframe(&polys, ColorMode::Uv, QuadMode::Keep).unwrap();
    let (_, tess) = wireframe(&polys, ColorMode::Uv, QuadMode::Tessellate).unwrap();
    assert_eq!(keep, vec![0, 1, 1, 2, 2, 0]);
    assert_eq!(tess, keep);
}

/// An edge shared by two polygons is emitted only once, whichever direction
/// the second polygon walks it in.
#[test]
fn shared_edge_emitted_once() {
    let polys = vec![Polygon::P(vec![0, 1, 2]), Polygon::P(vec![1, 0, 3])];
    let (verts, idx) = wireframe(&polys, ColorMode::Uv, QuadMode::Keep).unwrap();
    assert_eq!(verts.len(), 4);
    // the second triangle's first edge (1, 0) reverses the seen (0, 1)
    assert_eq!(idx, vec![0, 1, 1, 2, 2, 0, 0, 3, 3, 1]);
}

/// Two quads sharing one edge: 4 + 3 new edges, and no undirected pair is
/// ever emitted twice.
#[test]
fn adjacent_quads_share_an_edge() {
    let polys = vec![Polygon::P(vec![0, 1, 2, 3]), Polygon::P(vec![1, 4, 5, 2])];
    let (verts, idx) = wireframe(&polys, ColorMode::Uv, QuadMode::Keep).unwrap();
    assert_eq!(verts.len(), 6);
    assert_eq!(idx.len(), 14);
    let pairs: Vec<(u16, u16)> = idx.chunks(2).map(|c| (c[0], c[1])).collect();
    for (i, &(a, b)) in pairs.iter().enumerate() {
        for &(c, d) in pairs.iter().skip(i + 1) {
            assert!((a, b) != (c, d));
            assert!((a, b) != (d, c));
        }
    }
}

/// A polygon with five corners aborts the conversion under every rule, and
/// nothing of the partially built buffers leaks out.
#[test]
fn five_corner_polygon_is_rejected() {
    let polys = vec![Polygon::P(vec![0, 1, 2]), Polygon::P(vec![0, 1, 2, 3, 4])];
    assert_eq!(triangles(&polys, ColorMode::Uv), Err(PolygonShapeError));
    assert_eq!(
        wireframe(&polys, ColorMode::Uv, QuadMode::Keep),
        Err(PolygonShapeError)
    );
    assert_eq!(
        wireframe(&polys, ColorMode::Uv, QuadMode::Tessellate),
        Err(PolygonShapeError)
    );
}

#[test]
fn two_corner_polygon_is_rejected() {
    let polys = vec![Polygon::P(vec![0, 1])];
    assert_eq!(triangles(&polys, ColorMode::Normal), Err(PolygonShapeError));
    assert_eq!(
        wireframe(&polys, ColorMode::Normal, QuadMode::Tessellate),
        Err(PolygonShapeError)
    );
}

/// The triangulation rule on its own: a quad appends both fan triangles, a
/// bad corner count appends nothing and fails.
#[test]
fn triangulation_rule_appends_fan() {
    let mut idx: Vec<u16> = vec![9];
    assert!(triangulate_polygon(&mut idx, &vec![4, 5, 6, 7]).is_ok());
    assert_eq!(idx, vec![9, 4, 5, 6, 4, 6, 7]);
    assert_eq!(
        triangulate_polygon(&mut idx, &vec![0, 1, 2, 3, 4]),
        Err(PolygonShapeError)
    );
    assert_eq!(idx, vec![9, 4, 5, 6, 4, 6, 7]);
}

/// The wireframe rule on its own: seen edges carry across polygons, and a
/// bad corner count changes nothing and fails.
#[test]
fn wireframe_rule_deduplicates_across_calls() {
    let mut idx: Vec<u16> = Vec::new();
    let mut seen: Vec<(u16, u16)> = Vec::new();
    assert!(wireframe_polygon(&mut idx, &mut seen, &vec![0, 1, 2], QuadMode::Keep).is_ok());
    assert_eq!(idx, vec![0, 1, 1, 2, 2, 0]);
    // the shared edge (2, 1) is the reversal of the seen (1, 2)
    assert!(wireframe_polygon(&mut idx, &mut seen, &vec![2, 1, 3], QuadMode::Keep).is_ok());
    assert_eq!(idx, vec![0, 1, 1, 2, 2, 0, 1, 3, 3, 2]);
    assert_eq!(
        wireframe_polygon(&mut idx, &mut seen, &vec![0, 1], QuadMode::Keep),
        Err(PolygonShapeError)
    );
    assert_eq!(idx, vec![0, 1, 1, 2, 2, 0, 1, 3, 3, 2]);
}

/// A quad whose corners all carry the same key collapses to one vertex; its
/// only undirected edge is the degenerate (0, 0), emitted once.
#[test]
fn fully_degenerate_quad_collapses() {
    let polys = vec![Polygon::P(vec![7, 7, 7, 7])];
    let (verts, idx) = triangles(&polys, ColorMode::Uv).unwrap();
    assert_eq!(verts, vec![key(7, None)]);
    assert_eq!(idx, vec![0, 0, 0, 0, 0, 0]);
    let (verts, idx) = wireframe(&polys, ColorMode::Uv, QuadMode::Keep).unwrap();
    assert_eq!(verts, vec![key(7, None)]);
    assert_eq!(idx, vec![0, 0]);
}
