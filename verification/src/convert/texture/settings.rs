use vstd::prelude::*;
use crate::canvas::Canvas;
use crate::convert::config::ConvertConfig;
use crate::convert::texture::property::{unchanged_outside, SettingsProperty};
use crate::convert::texture::{build_settings, layout_fits, settings_of, texture_input_wf};

verus! {

/// The reason building the fixed-row header fails.
#[derive(Debug, Copy, Clone, PartialEq, Eq, Structural)]
pub enum SettingsError {
    /// The texture is too small to carry the header.
    InvalidTextureSize,
}

/// The settings header at its fixed, known offset: the only section a
/// consumer can locate without replaying the row-count formulas, so it
/// always sits in row 0.
pub struct SettingsHeader {
    pub settings: SettingsProperty,
}

impl SettingsHeader {
    /// Build the header from a validated configuration, refusing a
    /// texture smaller than 8 pixels on either axis.
    pub fn from_config(config: &ConvertConfig) -> (r: Result<SettingsHeader, SettingsError>)
        requires
            texture_input_wf(*config),
            layout_fits(*config),
        ensures
            match r {
                Ok(h) => {
                    &&& config.texture_size.0 >= 8
                    &&& config.texture_size.1 >= 8
                    &&& h.settings == settings_of(*config)
                },
                Err(SettingsError::InvalidTextureSize) => {
                    config.texture_size.0 < 8 || config.texture_size.1 < 8
                },
            },
    {
        if config.texture_size.0 < 8 || config.texture_size.1 < 8 {
            return Err(SettingsError::InvalidTextureSize);
        }
        Ok(SettingsHeader { settings: build_settings(config) })
    }

    /// Write the seven header pixels into row 0.
    pub fn draw(&self, image_buffer: &mut Canvas)
        requires
            old(image_buffer).wf(),
            self.settings.wf(),
            old(image_buffer).width >= 7,
            old(image_buffer).height >= 1,
        ensures
            final(image_buffer).wf(),
            final(image_buffer).width == old(image_buffer).width,
            final(image_buffer).height == old(image_buffer).height,
            forall|j: int|
                0 <= j < 7 ==> final(image_buffer).pixels@[j] == self.settings.pixel_spec(j),
            unchanged_outside(old(image_buffer).pixels@, final(image_buffer).pixels@, 0, 7),
    {
        self.settings.draw(image_buffer, 0);
    }
}

} // verus!
