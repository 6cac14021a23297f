use vstd::prelude::*;
use crate::canvas::Canvas;
use crate::obj::FramedObj;
use crate::obj::model::Position;

verus! {

/// The inputs one conversion job owns: the loaded geometry and the decoded
/// source textures.  Texture order defines slot order; slot 0 is the first.
#[derive(Debug, Clone)]
pub struct Input {
    pub obj: FramedObj,
    pub textures: Vec<Canvas>,
}

/// Animation parameters carried into the settings header.
#[derive(Debug, Copy, Clone, PartialEq, Eq, Structural)]
pub struct Animation {
    pub autoplay: bool,
    pub duration: u32,
    pub fade_textures: bool,
    pub easing: Option<Easing>,
}

/// The three independent color-overlay selectors, in packing order
/// (bit offsets 6, 3 and 0 of the packed byte).
#[derive(Debug, Copy, Clone, PartialEq, Eq, Structural)]
pub struct ColorBehavior(
    pub SingleColorBehavior,
    pub SingleColorBehavior,
    pub SingleColorBehavior,
);

impl ColorBehavior {
    /// The packed color-behavior byte: the three 3-bit selector codes at
    /// bit offsets 6, 3 and 0.  The topmost selector contributes only its
    /// low two bits, exactly as the byte layout admits.
    pub open spec fn to_u8_spec(&self) -> u8 {
        (((self.0.code_spec() % 4) * 64 + self.1.code_spec() * 8 + self.2.code_spec()) as u8)
    }

    pub fn to_u8(&self) -> (b: u8)
        ensures
            b == self.to_u8_spec(),
    {
        (self.0.code() % 4) * 64 + self.1.code() * 8 + self.2.code()
    }
}

/// A fully validated, immutable configuration for one conversion job.
/// `offset` and `scale` hold the raw bit patterns of the configured
/// transform; they are accepted and carried but not yet folded into the
/// quantization formula (a reserved extension of the format).
#[derive(Debug)]
pub struct ConvertConfig {
    pub input: Input,
    pub texture_size: (u32, u32),
    pub texture_resource: String,
    pub offset: Position<u64>,
    pub scale: u64,
    pub animation: Animation,
    pub color_behavior: ColorBehavior,
    pub autorotate_yaw: bool,
    pub autorotate_pitch: bool,
    pub compress: bool,
    pub no_shadow: bool,
    pub no_pow: bool,
    pub flip_uv: bool,
    pub visibility: Visibility,
}

/// The reasons configuration building fails; each aborts the whole
/// conversion before any output is produced.
#[derive(Debug, Copy, Clone, PartialEq, Eq, Structural)]
pub enum ConfigError {
    /// No source texture was provided.
    NoTextures,
    /// The source textures do not all share one size.
    TextureSizeMismatch,
}

/// All textures share the size of the first one.
pub open spec fn textures_same_size(textures: Seq<Canvas>) -> bool {
    forall|i: int|
        0 <= i < textures.len() ==> (#[trigger] textures[i]).width == textures[0].width
            && textures[i].height == textures[0].height
}

impl ConvertConfig {
    /// Build and validate a configuration.
    ///
    /// Fails exactly when no texture was provided or when the textures
    /// disagree in size.  On success every field is carried through
    /// unchanged, except that the compression flag is force-disabled when
    /// the UV pool holds more than 256 entries: the compressed addressing
    /// scheme cannot address more than 256 UV indices.
    pub fn new(
        input: Input,
        texture_resource: String,
        offset: Position<u64>,
        scale: u64,
        animation: Animation,
        color_behavior: ColorBehavior,
        autorotate_yaw: bool,
        autorotate_pitch: bool,
        compress: bool,
        no_shadow: bool,
        no_pow: bool,
        flip_uv: bool,
        visibility: Visibility,
    ) -> (r: Result<Self, ConfigError>)
        ensures
            match r {
                Ok(c) => {
                    &&& input.textures@.len() > 0
                    &&& textures_same_size(input.textures@)
                    &&& c.input == input
                    &&& c.texture_size == (input.textures@[0].width, input.textures@[0].height)
                    &&& c.texture_resource == texture_resource
                    &&& c.offset == offset
                    &&& c.scale == scale
                    &&& c.animation == animation
                    &&& c.color_behavior == color_behavior
                    &&& c.autorotate_yaw == autorotate_yaw
                    &&& c.autorotate_pitch == autorotate_pitch
                    &&& c.compress == (compress && input.obj.uvs@.len() <= 256)
                    &&& c.no_shadow == no_shadow
                    &&& c.no_pow == no_pow
                    &&& c.flip_uv == flip_uv
                    &&& c.visibility == visibility
                },
                Err(ConfigError::NoTextures) => input.textures@.len() == 0,
                Err(ConfigError::TextureSizeMismatch) => {
                    &&& input.textures@.len() > 0
                    &&& !textures_same_size(input.textures@)
                },
            },
    {
        if input.textures.len() == 0 {
            return Err(ConfigError::NoTextures);
        }
        let width: u32 = input.textures[0].width;
        let height: u32 = input.textures[0].height;
        let mut i: usize = 0;
        while i < input.textures.len()
            invariant
                i <= input.textures@.len(),
                input.textures@.len() > 0,
                width == input.textures@[0].width,
                height == input.textures@[0].height,
                forall|j: int|
                    0 <= j < i ==> (#[trigger] input.textures@[j]).width == width
                        && input.textures@[j].height == height,
            decreases input.textures@.len() - i,
        {
            if input.textures[i].width != width || input.textures[i].height != height {
                return Err(ConfigError::TextureSizeMismatch);
            }
            i = i + 1;
        }
        let compress = if input.obj.uvs.len() > 256 && compress {
            false
        } else {
            compress
        };
        Ok(
            Self {
                input,
                texture_size: (width, height),
                texture_resource,
                offset,
                scale,
                animation,
                color_behavior,
                autorotate_yaw,
                autorotate_pitch,
                compress,
                no_shadow,
                no_pow,
                flip_uv,
                visibility,
            },
        )
    }
}

/// Animation easing modes, encoded into the settings header.
#[derive(Debug, Copy, Clone, PartialEq, Eq, Structural)]
pub enum Easing {
    Linear,
    InOutCubic,
    Bezier,
}

/// The 2-bit easing code stored in the header: 0 none, 1 linear,
/// 2 in-out-cubic, 3 bezier.
pub open spec fn easing_code_spec(e: Option<Easing>) -> u8 {
    match e {
        Some(Easing::Linear) => 1,
        Some(Easing::InOutCubic) => 2,
        Some(Easing::Bezier) => 3,
        None => 0,
    }
}

/// Where the rendered model is visible.
#[derive(Debug, Copy, Clone, PartialEq, Eq, Structural)]
pub struct Visibility {
    pub gui: bool,
    pub first_person: bool,
    pub world: bool,
}

impl Visibility {
    /// The 3-bit visibility mask: bit 2 gui, bit 1 first person, bit 0
    /// world.
    pub open spec fn to_u8_spec(&self) -> u8 {
        ((if self.gui { 4 as int } else { 0 }) + (if self.first_person { 2 as int } else { 0 })
            + (if self.world { 1 as int } else { 0 })) as u8
    }

    pub fn to_u8(&self) -> (b: u8)
        ensures
            b == self.to_u8_spec(),
    {
        (if self.gui { 4 } else { 0 }) + (if self.first_person { 2 } else { 0 })
            + (if self.world { 1 } else { 0 })
    }
}

/// One color-overlay selector.
#[derive(Debug, Copy, Clone, PartialEq, Eq, Structural)]
pub enum SingleColorBehavior {
    Pitch,
    Yaw,
    Roll,
    Time,
    Scale,
    Overlay,
    Hurt,
}

impl SingleColorBehavior {
    /// The selector's 3-bit code.
    pub open spec fn code_spec(self) -> u8 {
        match self {
            SingleColorBehavior::Pitch => 0,
            SingleColorBehavior::Yaw => 1,
            SingleColorBehavior::Roll => 2,
            SingleColorBehavior::Time => 3,
            SingleColorBehavior::Scale => 4,
            SingleColorBehavior::Overlay => 5,
            SingleColorBehavior::Hurt => 6,
        }
    }

    pub fn code(self) -> (c: u8)
        ensures
            c == self.code_spec(),
            c <= 6,
    {
        match self {
            SingleColorBehavior::Pitch => 0,
            SingleColorBehavior::Yaw => 1,
            SingleColorBehavior::Roll => 2,
            SingleColorBehavior::Time => 3,
            SingleColorBehavior::Scale => 4,
            SingleColorBehavior::Overlay => 5,
            SingleColorBehavior::Hurt => 6,
        }
    }
}

} // verus!
