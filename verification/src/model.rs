//! Data model of the polygon soup: polygons referencing shared position and
//! attribute tables by index, the corner keys used for vertex deduplication,
//! and the conversion modes.

use vstd::prelude::*;

verus! {

/// Whether or not to tessellate quads when generating a wireframe.
#[derive(Copy, Clone, Debug)]
pub enum QuadMode {
    Keep,
    Tessellate,
}

/// Which per-corner attribute feeds the vertex color channel.
#[derive(Copy, Clone, Debug)]
pub enum ColorMode {
    Normal,
    Uv,
}

/// One polygon of the soup. Each corner references a position and, depending
/// on the variant, a texture coordinate and/or a normal, all by table index.
#[derive(Clone, Debug, PartialEq)]
pub enum Polygon {
    /// Corners carry a position index only.
    P(Vec<usize>),
    /// Corners carry `(position, texture coordinate)` indices.
    PT(Vec<(usize, usize)>),
    /// Corners carry `(position, normal)` indices.
    PN(Vec<(usize, usize)>),
    /// Corners carry `(position, texture coordinate, normal)` indices.
    PTN(Vec<(usize, usize, usize)>),
}

/// The deduplication identity of one polygon corner: its position index plus,
/// when the polygon variant carries the selected attribute, that attribute's
/// index. Two corners with equal keys share one emitted vertex.
#[derive(Copy, Clone, Debug, PartialEq, Eq)]
pub struct CornerKey {
    pub position: usize,
    pub attribute: Option<usize>,
}

/// A polygon had fewer than 3 or more than 4 corners: the whole conversion
/// aborts with this error and returns no partial output.
#[derive(Copy, Clone, Debug, PartialEq, Eq)]
pub struct PolygonShapeError;

impl Polygon {
    /// How many corners the polygon has.
    pub open spec fn corner_count(self) -> nat {
        match self {
            Polygon::P(v) => v@.len(),
            Polygon::PT(v) => v@.len(),
            Polygon::PN(v) => v@.len(),
            Polygon::PTN(v) => v@.len(),
        }
    }

    /// The key of corner `i` under attribute mode `mode`: the position index,
    /// paired with the texture-coordinate or normal index when the variant
    /// carries the selected attribute, and `None` otherwise.
    pub open spec fn corner_key(self, mode: ColorMode, i: int) -> CornerKey {
        match self {
            Polygon::P(v) => CornerKey { position: v@[i], attribute: None },
            Polygon::PT(v) => match mode {
                ColorMode::Uv => CornerKey { position: v@[i].0, attribute: Some(v@[i].1) },
                ColorMode::Normal => CornerKey { position: v@[i].0, attribute: None },
            },
            Polygon::PN(v) => match mode {
                ColorMode::Uv => CornerKey { position: v@[i].0, attribute: None },
                ColorMode::Normal => CornerKey { position: v@[i].0, attribute: Some(v@[i].1) },
            },
            Polygon::PTN(v) => match mode {
                ColorMode::Uv => CornerKey { position: v@[i].0, attribute: Some(v@[i].1) },
                ColorMode::Normal => CornerKey { position: v@[i].0, attribute: Some(v@[i].2) },
            },
        }
    }

    /// The polygon's corners as a sequence of keys under `mode`, in the
    /// polygon's native corner order.
    pub open spec fn corner_keys(self, mode: ColorMode) -> Seq<CornerKey> {
        Seq::new(self.corner_count(), |i: int| self.corner_key(mode, i))
    }

    /// Whether the polygon is a triangle or a quad; anything else is rejected.
    pub open spec fn is_tri_or_quad(self) -> bool {
        3 <= self.corner_count() <= 4
    }

    /// How many corners the polygon has (executable form).
    pub fn num_corners(&self) -> (n: usize)
        ensures
            n == self.corner_count(),
    {
        match self {
            Polygon::P(v) => v.len(),
            Polygon::PT(v) => v.len(),
            Polygon::PN(v) => v.len(),
            Polygon::PTN(v) => v.len(),
        }
    }
}

/// Whether every polygon of the soup is a triangle or a quad.
pub open spec fn all_tri_or_quad(polys: Seq<Polygon>) -> bool {
    forall|i: int| 0 <= i < polys.len() ==> (#[trigger] polys[i]).is_tri_or_quad()
}

/// Total number of corners over all polygons.
pub open spec fn corner_total(polys: Seq<Polygon>) -> nat
    decreases polys.len(),
{
    if polys.len() == 0 {
        0
    } else {
        corner_total(polys.drop_last()) + polys.last().corner_count()
    }
}

/// All corner keys of the soup under `mode`, polygon by polygon in input
/// order, each polygon's corners in their native order.
pub open spec fn corner_stream(polys: Seq<Polygon>, mode: ColorMode) -> Seq<CornerKey>
    decreases polys.len(),
{
    if polys.len() == 0 {
        Seq::empty()
    } else {
        corner_stream(polys.drop_last(), mode) + polys.last().corner_keys(mode)
    }
}

/// The key of corner `j` of `poly` under `mode` (executable form).
fn corner_key_at(poly: &Polygon, mode: ColorMode, j: usize) -> (k: CornerKey)
    requires
        j < poly.corner_count(),
    ensures
        k == poly.corner_key(mode, j as int),
{
    match poly {
        Polygon::P(v) => CornerKey { position: v[j], attribute: None },
        Polygon::PT(v) => match mode {
            ColorMode::Uv => CornerKey { position: v[j].0, attribute: Some(v[j].1) },
            ColorMode::Normal => CornerKey { position: v[j].0, attribute: None },
        },
        Polygon::PN(v) => match mode {
            ColorMode::Uv => CornerKey { position: v[j].0, attribute: None },
            ColorMode::Normal => CornerKey { position: v[j].0, attribute: Some(v[j].1) },
        },
        Polygon::PTN(v) => match mode {
            ColorMode::Uv => CornerKey { position: v[j].0, attribute: Some(v[j].1) },
            ColorMode::Normal => CornerKey { position: v[j].0, attribute: Some(v[j].2) },
        },
    }
}

/// The polygon's corner keys under `mode`, in order (executable form).
pub fn corner_keys_of(poly: &Polygon, mode: ColorMode) -> (r: Vec<CornerKey>)
    ensures
        r@ == poly.corner_keys(mode),
{
    let n = poly.num_corners();
    let mut r: Vec<CornerKey> = Vec::new();
    let mut j: usize = 0;
    while j < n
        invariant
            j <= n,
            n == poly.corner_count(),
            r@.len() == j,
            forall|t: int| 0 <= t < j ==> r@[t] == poly.corner_key(mode, t),
        decreases n - j,
    {
        r.push(corner_key_at(poly, mode, j));
        j += 1;
    }
    proof {
        assert(r@ =~= poly.corner_keys(mode));
    }
    r
}

/// Extract the corner keys that feed the color channel from the texture
/// coordinates: `(position, Some(texcoord))` when the variant carries one,
/// `(position, None)` otherwise.
pub fn polygon_vert_uv_pairs(poly: &Polygon) -> (r: Vec<CornerKey>)
    ensures
        r@ == poly.corner_keys(ColorMode::Uv),
{
    corner_keys_of(poly, ColorMode::Uv)
}

/// Extract the corner keys that feed the color channel from the normals:
/// `(position, Some(normal))` when the variant carries one, `(position,
/// None)` otherwise.
pub fn polygon_vert_norm_pairs(poly: &Polygon) -> (r: Vec<CornerKey>)
    ensures
        r@ == poly.corner_keys(ColorMode::Normal),
{
    corner_keys_of(poly, ColorMode::Normal)
}

} // verus!
