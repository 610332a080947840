//! Glyph atlas limits and the checks made before a glyph is packed.

use vstd::prelude::*;

verus! {

/// Transparent padding kept around every packed glyph.
pub const GLYPH_PADDING: u32 = 1;

/// Errors of the text system that do not come from the renderer.
#[derive(Debug, Clone, Copy, PartialEq, Eq, Structural)]
pub enum TextError {
    InvalidConfig(InvalidConfigReason),
    AtlasSizeOverflow,
    AtlasFull,
    GlyphTooLarge { width: u32, height: u32, page_size: u32 },
    InvalidGlyphData { expected: usize, actual: usize },
    UnsupportedSubpixelMask,
}

/// Which limit of a text configuration was out of range.
#[derive(Debug, Clone, Copy, PartialEq, Eq, Structural)]
pub enum InvalidConfigReason {
    PageSize,
    PageLimits,
    EmptyCache,
    LayoutCache,
}

impl InvalidConfigReason {
    /// The message shown for this reason.
    pub fn message(&self) -> (r: &'static str)
        ensures
            r@ == match self {
                InvalidConfigReason::PageSize => "atlas page size must be between 16 and 8192 pixels"@,
                InvalidConfigReason::PageLimits => "mask and color atlas page limits must be positive"@,
                InvalidConfigReason::EmptyCache => "empty glyph cache capacity must be positive"@,
                InvalidConfigReason::LayoutCache => "layout cache capacity must be positive"@,
            },
    {
        match self {
            InvalidConfigReason::PageSize => "atlas page size must be between 16 and 8192 pixels",
            InvalidConfigReason::PageLimits => "mask and color atlas page limits must be positive",
            InvalidConfigReason::EmptyCache => "empty glyph cache capacity must be positive",
            InvalidConfigReason::LayoutCache => "layout cache capacity must be positive",
        }
    }
}

/// Hard limits for render-context glyph storage.
#[derive(Debug, Clone, Copy, PartialEq, Eq, Structural)]
pub struct AtlasConfig {
    pub page_size: u32,
    pub max_mask_pages: usize,
    pub max_color_pages: usize,
    pub max_empty_entries: usize,
}

impl Default for AtlasConfig {
    fn default() -> (r: Self)
        ensures
            r == (AtlasConfig {
                page_size: 1024,
                max_mask_pages: 4,
                max_color_pages: 2,
                max_empty_entries: 2048,
            }),
    {
        AtlasConfig { page_size: 1024, max_mask_pages: 4, max_color_pages: 2, max_empty_entries: 2048 }
    }
}

/// The first limit of an atlas configuration that is out of range, if any.
pub open spec fn atlas_config_problem(config: AtlasConfig) -> Option<InvalidConfigReason> {
    if !(16 <= config.page_size <= 8192) {
        Some(InvalidConfigReason::PageSize)
    } else if config.max_mask_pages == 0 || config.max_color_pages == 0 {
        Some(InvalidConfigReason::PageLimits)
    } else if config.max_empty_entries == 0 {
        Some(InvalidConfigReason::EmptyCache)
    } else {
        None
    }
}

impl AtlasConfig {
    /// Accepts a page size of 16 to 8192 pixels and positive page and cache
    /// limits; reports the first limit out of range otherwise.
    pub fn validate(self) -> (r: Result<Self, TextError>)
        ensures
            match atlas_config_problem(self) {
                None => r == Ok::<AtlasConfig, TextError>(self),
                Some(reason) => r == Err::<AtlasConfig, TextError>(TextError::InvalidConfig(reason)),
            },
    {
        if !(16 <= self.page_size && self.page_size <= 8192) {
            return Err(TextError::InvalidConfig(InvalidConfigReason::PageSize));
        }
        if self.max_mask_pages == 0 || self.max_color_pages == 0 {
            return Err(TextError::InvalidConfig(InvalidConfigReason::PageLimits));
        }
        if self.max_empty_entries == 0 {
            return Err(TextError::InvalidConfig(InvalidConfigReason::EmptyCache));
        }
        Ok(self)
    }
}

/// Current and cumulative atlas counters.
#[derive(Debug, Clone, Copy, PartialEq, Eq, Structural)]
pub struct AtlasStats {
    pub mask_pages: usize,
    pub color_pages: usize,
    pub resident_glyphs: usize,
    pub evictions: u64,
    pub uploads: u64,
    pub rasterized_glyphs: u64,
    pub cache_hits: u64,
}

impl Default for AtlasStats {
    fn default() -> (r: Self)
        ensures
            r == (AtlasStats {
                mask_pages: 0,
                color_pages: 0,
                resident_glyphs: 0,
                evictions: 0,
                uploads: 0,
                rasterized_glyphs: 0,
                cache_hits: 0,
            }),
    {
        AtlasStats {
            mask_pages: 0,
            color_pages: 0,
            resident_glyphs: 0,
            evictions: 0,
            uploads: 0,
            rasterized_glyphs: 0,
            cache_hits: 0,
        }
    }
}

/// Text-system resource limits.
#[derive(Debug, Clone, Copy, PartialEq, Eq, Structural)]
pub struct TextConfig {
    pub layout_cache_capacity: usize,
    pub atlas: AtlasConfig,
}

impl Default for TextConfig {
    fn default() -> (r: Self)
        ensures
            r.layout_cache_capacity == 256,
            r.atlas == (AtlasConfig {
                page_size: 1024,
                max_mask_pages: 4,
                max_color_pages: 2,
                max_empty_entries: 2048,
            }),
    {
        TextConfig { layout_cache_capacity: 256, atlas: AtlasConfig::default() }
    }
}

impl TextConfig {
    /// The checks a text system makes on its limits when it is created: a
    /// positive layout cache, then a valid atlas configuration.
    pub fn validate(self) -> (r: Result<Self, TextError>)
        ensures
            self.layout_cache_capacity == 0 ==> r == Err::<TextConfig, TextError>(
                TextError::InvalidConfig(InvalidConfigReason::LayoutCache),
            ),
            self.layout_cache_capacity > 0 ==> match atlas_config_problem(self.atlas) {
                None => r == Ok::<TextConfig, TextError>(self),
                Some(reason) => r == Err::<TextConfig, TextError>(TextError::InvalidConfig(reason)),
            },
    {
        if self.layout_cache_capacity == 0 {
            return Err(TextError::InvalidConfig(InvalidConfigReason::LayoutCache));
        }
        match self.atlas.validate() {
            Ok(_) => Ok(self),
            Err(e) => Err(e),
        }
    }
}

/// Per-draw cache activity.
#[derive(Debug, Clone, Copy, PartialEq, Eq, Structural)]
pub struct TextDrawStats {
    pub visible_glyphs: usize,
    pub recorded_glyphs: usize,
    pub cache_hits: u64,
    pub rasterized_glyphs: u64,
    pub atlas_uploads: u64,
    pub atlas_evictions: u64,
}

impl Default for TextDrawStats {
    fn default() -> (r: Self)
        ensures
            r == (TextDrawStats {
                visible_glyphs: 0,
                recorded_glyphs: 0,
                cache_hits: 0,
                rasterized_glyphs: 0,
                atlas_uploads: 0,
                atlas_evictions: 0,
            }),
    {
        TextDrawStats {
            visible_glyphs: 0,
            recorded_glyphs: 0,
            cache_hits: 0,
            rasterized_glyphs: 0,
            atlas_uploads: 0,
            atlas_evictions: 0,
        }
    }
}

/// The slot a glyph of `width` x `height` pixels takes on a page: its size
/// with padding on every side, if that fits a page of `page_size`.
pub fn glyph_slot(width: u32, height: u32, page_size: u32) -> (r: Result<(u32, u32), TextError>)
    ensures
        width + 2 * GLYPH_PADDING > u32::MAX || height + 2 * GLYPH_PADDING > u32::MAX ==> r
            == Err::<(u32, u32), TextError>(TextError::AtlasSizeOverflow),
        width + 2 * GLYPH_PADDING <= u32::MAX && height + 2 * GLYPH_PADDING <= u32::MAX ==> if width + 2
            * GLYPH_PADDING <= page_size && height + 2 * GLYPH_PADDING <= page_size {
            r == Ok::<(u32, u32), TextError>(
                ((width + 2 * GLYPH_PADDING) as u32, (height + 2 * GLYPH_PADDING) as u32),
            )
        } else {
            r == Err::<(u32, u32), TextError>(TextError::GlyphTooLarge { width, height, page_size })
        },
{
    let padded_width = match width.checked_add(GLYPH_PADDING * 2) {
        Some(w) => w,
        None => {
            return Err(TextError::AtlasSizeOverflow);
        },
    };
    let padded_height = match height.checked_add(GLYPH_PADDING * 2) {
        Some(h) => h,
        None => {
            return Err(TextError::AtlasSizeOverflow);
        },
    };
    if padded_width > page_size || padded_height > page_size {
        return Err(TextError::GlyphTooLarge { width, height, page_size });
    }
    Ok((padded_width, padded_height))
}

/// Checks that a rasterized glyph carries exactly `width * height` pixels of
/// `bytes_per_pixel` bytes; a pixel or byte count beyond `usize` is an overflow.
pub fn validate_image(width: u32, height: u32, bytes_per_pixel: usize, actual: usize) -> (r: Result<
    (),
    TextError,
>)
    ensures
        width * height > usize::MAX || width * height * bytes_per_pixel > usize::MAX ==> r == Err::<
            (),
            TextError,
        >(TextError::AtlasSizeOverflow),
        width * height <= usize::MAX && width * height * bytes_per_pixel <= usize::MAX ==> if actual
            == width * height * bytes_per_pixel {
            r == Ok::<(), TextError>(())
        } else {
            r == Err::<(), TextError>(
                TextError::InvalidGlyphData {
                    expected: (width * height * bytes_per_pixel) as usize,
                    actual,
                },
            )
        },
{
    let w = width as usize;
    let h = height as usize;
    let pixels = match w.checked_mul(h) {
        Some(p) => p,
        None => {
            return Err(TextError::AtlasSizeOverflow);
        },
    };
    let expected = match pixels.checked_mul(bytes_per_pixel) {
        Some(e) => e,
        None => {
            return Err(TextError::AtlasSizeOverflow);
        },
    };
    if actual == expected {
        Ok(())
    } else {
        Err(TextError::InvalidGlyphData { expected, actual })
    }
}

/// The next frame or clock number: one more, wrapping past the largest
/// value to one, so that zero never occurs.
pub fn next_tick(value: u64) -> (r: u64)
    ensures
        r == if value == u64::MAX {
            1
        } else {
            value + 1
        },
{
    if value == u64::MAX {
        1
    } else {
        value + 1
    }
}

} // verus!
