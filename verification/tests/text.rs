use nkdhr_ui::text::skyline::SkylineAllocator;

#[test]
fn skyline_reuses_vertical_space_without_overlap() {
    let mut allocator = SkylineAllocator::new(16);
    assert_eq!(allocator.allocate(8, 8), Some((0, 0)));
    assert_eq!(allocator.allocate(8, 4), Some((8, 0)));
    assert_eq!(allocator.allocate(8, 4), Some((8, 4)));
    assert_eq!(allocator.allocate(16, 8), Some((0, 8)));
    assert_eq!(allocator.allocate(1, 1), None);
}

use nkdhr_ui::text::atlas::{
    glyph_slot, next_tick, validate_image, AtlasConfig, InvalidConfigReason, TextConfig, TextError,
};
use nkdhr_ui::text::layout::{
    ceil_boundary, ceil_grapheme_boundary, floor_boundary, floor_grapheme_boundary, source_line_starts,
};

#[test]
fn skyline_rejects_blocks_wider_or_taller_than_the_page() {
    let mut allocator = SkylineAllocator::new(16);
    assert_eq!(allocator.allocate(17, 1), None);
    assert_eq!(allocator.allocate(1, 17), None);
    assert_eq!(allocator.allocate(16, 16), Some((0, 0)));
    assert_eq!(allocator.allocate(1, 1), None);
}

#[test]
fn skyline_prefers_the_lowest_then_leftmost_position() {
    let mut allocator = SkylineAllocator::new(16);
    assert_eq!(allocator.allocate(4, 6), Some((0, 0)));
    assert_eq!(allocator.allocate(4, 2), Some((4, 0)));
    assert_eq!(allocator.allocate(4, 2), Some((8, 0)));
    assert_eq!(allocator.allocate(8, 3), Some((4, 2)));
    assert_eq!(allocator.allocate(4, 4), Some((12, 0)));
}

#[test]
fn atlas_config_validation_reports_the_first_bad_limit() {
    assert!(AtlasConfig::default().validate().is_ok());
    let small = AtlasConfig { page_size: 8, ..AtlasConfig::default() };
    assert_eq!(small.validate(), Err(TextError::InvalidConfig(InvalidConfigReason::PageSize)));
    let no_pages = AtlasConfig { max_color_pages: 0, ..AtlasConfig::default() };
    assert_eq!(no_pages.validate(), Err(TextError::InvalidConfig(InvalidConfigReason::PageLimits)));
    let no_cache = AtlasConfig { max_empty_entries: 0, ..AtlasConfig::default() };
    assert_eq!(no_cache.validate(), Err(TextError::InvalidConfig(InvalidConfigReason::EmptyCache)));
    let config = TextConfig { layout_cache_capacity: 0, ..TextConfig::default() };
    assert_eq!(config.validate(), Err(TextError::InvalidConfig(InvalidConfigReason::LayoutCache)));
    assert_eq!(TextConfig::default().validate(), Ok(TextConfig::default()));
    assert_eq!(InvalidConfigReason::PageSize.message(), "atlas page size must be between 16 and 8192 pixels");
}

#[test]
fn glyph_slots_are_padded_and_must_fit_a_page() {
    assert_eq!(glyph_slot(10, 12, 16), Ok((12, 14)));
    assert_eq!(
        glyph_slot(15, 2, 16),
        Err(TextError::GlyphTooLarge { width: 15, height: 2, page_size: 16 })
    );
    assert_eq!(glyph_slot(u32::MAX, 1, 16), Err(TextError::AtlasSizeOverflow));
}

#[test]
fn glyph_data_must_match_its_declared_size() {
    assert_eq!(validate_image(3, 2, 4, 24), Ok(()));
    assert_eq!(
        validate_image(3, 2, 1, 5),
        Err(TextError::InvalidGlyphData { expected: 6, actual: 5 })
    );
    assert_eq!(validate_image(u32::MAX, u32::MAX, usize::MAX, 0), Err(TextError::AtlasSizeOverflow));
    assert_eq!(next_tick(u64::MAX), 1);
    assert_eq!(next_tick(41), 42);
}

#[test]
fn grapheme_boundaries_never_split_a_cluster() {
    let text = "ae\u{301}b";
    assert_eq!(floor_grapheme_boundary(text, 2), 1);
    assert_eq!(ceil_grapheme_boundary(text, 2), 4);
    assert_eq!(floor_grapheme_boundary(text, 4), 4);
    assert_eq!(floor_grapheme_boundary(text, 99), text.len());
    assert_eq!(ceil_grapheme_boundary(text, 0), 0);
    assert_eq!(ceil_grapheme_boundary(text, 99), text.len());
}

#[test]
fn source_lines_start_after_each_newline() {
    assert_eq!(source_line_starts("ab\ncd\n\ne"), vec![0, 3, 6, 7]);
    assert_eq!(source_line_starts(""), vec![0]);
}

#[test]
fn boundaries_over_cluster_offsets() {
    let offsets = [0usize, 1, 4, 7];
    assert_eq!(floor_boundary(&offsets, 9, 5), 4);
    assert_eq!(floor_boundary(&offsets, 9, 4), 4);
    assert_eq!(floor_boundary(&offsets, 9, 12), 9);
    assert_eq!(ceil_boundary(&offsets, 9, 5), 7);
    assert_eq!(ceil_boundary(&offsets, 9, 8), 9);
    assert_eq!(ceil_boundary(&offsets, 9, 0), 0);
    assert_eq!(ceil_boundary(&offsets, 9, 30), 9);
}
