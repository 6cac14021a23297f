pub mod config;
pub mod texture;

use vstd::prelude::*;
use crate::canvas::Canvas;
use crate::convert::config::ConvertConfig;
use crate::convert::texture::{
    create_texture, layout_fits, output_pixel, texture_input_wf, total_rows, TextureError,
};

verus! {

/// Run one conversion job: encode the loaded geometry, animation
/// parameters and source textures into the single output canvas.  The
/// placeholder-geometry document that accompanies the canvas is trivial
/// templating over the face count and is left to the caller.
pub fn convert(config: ConvertConfig) -> (r: Result<Canvas, TextureError>)
    requires
        texture_input_wf(config),
    ensures
        match r {
            Ok(canvas) => {
                &&& layout_fits(config)
                &&& canvas.wf()
                &&& canvas.width == config.texture_size.0
                &&& canvas.height as nat == total_rows(config)
                &&& forall|j: int|
                    0 <= j < canvas.pixels@.len() ==> canvas.pixels@[j] == output_pixel(
                        config,
                        j,
                    )
            },
            Err(e) => e == TextureError::CanvasTooLarge && !layout_fits(config),
        },
{
    create_texture(&config)
}

} // verus!
