//! Conversion of a polygon-soup model (triangles and quads referencing shared
//! position and attribute tables) into indexed draw data: a deduplicated list
//! of corner keys and a 16-bit index buffer, shaped either as triangle triples
//! or as wireframe line pairs.

mod dedup;
mod emit;
mod indexer;
mod laws;
mod model;

pub use laws::edge_pair;
pub use laws::flip;
pub use laws::lemma_index_buffer_in_bounds;
pub use laws::lemma_keep_quad_edges;
pub use laws::lemma_tessellate_quad_edges;
pub use laws::lemma_triangulation_preserves_winding;
pub use laws::lemma_vertex_table_dedups;
pub use laws::lemma_wireframe_no_duplicate_edges;

pub use indexer::EmissionRule;
pub use indexer::compressed_corners;
pub use indexer::emit_all;
pub use indexer::emit_polygon;
pub use indexer::index_buffer;
pub use indexer::polygon_indices;
pub use indexer::triangles;
pub use indexer::vertex_table;
pub use indexer::wireframe;

pub use emit::add_edges;
pub use emit::all_below;
pub use emit::polygon_edges;
pub use emit::triangle_fan;
pub use emit::triangulate_polygon;
pub use emit::wireframe_polygon;

pub use dedup::dedup_keys;
pub use dedup::index_in;

pub use model::ColorMode;
pub use model::CornerKey;
pub use model::Polygon;
pub use model::PolygonShapeError;
pub use model::QuadMode;
pub use model::all_tri_or_quad;
pub use model::corner_stream;
pub use model::corner_total;
pub use model::corner_keys_of;
pub use model::polygon_vert_norm_pairs;
pub use model::polygon_vert_uv_pairs;
