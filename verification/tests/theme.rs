use nkdhr_ui::theme::{Density, FontStacks, MaterialCapabilities};
use nkdhr_ui::theme_reads::{ThemeReadSet, TokenChange, TokenImpact};
use nkdhr_ui::tree::Invalidation;

fn change(path: &str, impact: TokenImpact) -> TokenChange {
    TokenChange { path: path.to_owned(), impact }
}

#[test]
fn typed_reads_only_invalidate_for_tokens_actually_read() {
    let reads = ThemeReadSet::from_paths(&["palette.surface"]);
    assert!(reads.contains("palette.surface"));
    assert!(!reads.is_empty());
    let unrelated = [change("palette.accent", TokenImpact::Paint)];
    assert!(reads.invalidation_for(&unrelated).is_empty());
    let related = [change("palette.surface", TokenImpact::Paint)];
    assert_eq!(reads.invalidation_for(&related), Invalidation::paint());
}

#[test]
fn layout_and_paint_diffs_stay_distinct() {
    let mut reads = ThemeReadSet::new();
    assert!(reads.is_empty());
    reads.record("spacing.medium");
    reads.extend(&["palette.accent", "spacing.medium"]);
    let paint = [change("palette.accent", TokenImpact::Paint)];
    assert_eq!(reads.invalidation_for(&paint), Invalidation::paint());
    let layout = [change("spacing.medium", TokenImpact::Layout)];
    assert_eq!(reads.invalidation_for(&layout), Invalidation::layout() | Invalidation::paint());
}

#[test]
fn theme_defaults_match_the_approved_values() {
    assert_eq!(Density::default(), Density::Standard);
    assert_eq!(FontStacks::default().ui[0], "Noto Sans");
    assert_eq!(FontStacks::default().mono, vec!["Maple Mono", "Noto Sans Mono", "monospace"]);
    assert!(!MaterialCapabilities::default().backdrop_blur);
}
