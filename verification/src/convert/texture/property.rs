mod settings;
mod face_id;
mod texture;
mod position_data;
mod uv_data;
mod vertex_indexes;

pub use settings::SettingsProperty;
pub use face_id::FaceIdProperty;
pub use texture::Texture;
pub use texture::blit_pixel;
pub use position_data::PositionData;
pub use position_data::pos_to_rgb;
pub use position_data::pos_pixel;
pub use uv_data::UVData;
pub use uv_data::normal_to_gb;
pub use uv_data::uv_pixel;
pub use vertex_indexes::VertexIndexes;
pub use vertex_indexes::to_rgb;
pub use vertex_indexes::{faces_corners, all_corners, frames_compatible, count_frame_corners, vtx_pixel};
pub use vertex_indexes::{lemma_faces_corners_prefix_le, lemma_faces_corners_take_succ, lemma_all_corners_len_compat};

use vstd::prelude::*;
use crate::canvas::Rgba;

verus! {

/// Every section encoder draws into one contiguous linear range of the
/// row-major canvas and leaves every other pixel alone: `new` differs from
/// `old` at most in the `count` addresses starting at `base`.
pub open spec fn unchanged_outside(old: Seq<Rgba>, new: Seq<Rgba>, base: int, count: int) -> bool {
    &&& new.len() == old.len()
    &&& forall|j: int|
        0 <= j < old.len() && !(base <= j < base + count) ==> new[j] == old[j]
}

} // verus!
