//! Theme vocabulary: density, text roles, material tiers and font stacks.

use vstd::prelude::*;

verus! {

#[derive(Debug, Clone, Copy, PartialEq, Eq, Structural, Hash)]
pub enum Density {
    Compact,
    Standard,
    Relaxed,
}

impl Default for Density {
    fn default() -> (r: Self)
        ensures
            r == Density::Standard,
    {
        Density::Standard
    }
}

#[derive(Debug, Clone, Copy, PartialEq, Eq, Structural, Hash)]
pub enum TextRole {
    Caption,
    BodySmall,
    Body,
    Label,
    Section,
    Page,
    Display,
    Mono,
}

#[derive(Debug, Clone, Copy, PartialEq, Eq, Structural, Hash)]
pub enum MaterialTier {
    GhostSurface,
    CompactNode,
    HoverTransient,
    Popover,
    ExpandedPanel,
    ContentSurface,
    Terminal,
}

/// What the backend and the accessibility settings allow materials to use.
#[derive(Debug, Clone, Copy, PartialEq, Eq, Structural, Hash)]
pub struct MaterialCapabilities {
    pub backdrop_blur: bool,
    pub reduced_transparency: bool,
    pub high_contrast: bool,
}

impl Default for MaterialCapabilities {
    fn default() -> (r: Self)
        ensures
            r == (MaterialCapabilities { backdrop_blur: false, reduced_transparency: false, high_contrast: false }),
    {
        MaterialCapabilities { backdrop_blur: false, reduced_transparency: false, high_contrast: false }
    }
}

#[derive(Debug, Clone, Copy)]
pub enum ThemeError {
    InvalidScale(&'static str),
    InvalidMaterial(MaterialTier),
    InvalidTypography,
    InvalidMotion,
}

/// Preferred font families for interface and monospace text.
#[derive(Debug, Clone)]
pub struct FontStacks {
    pub ui: Vec<String>,
    pub mono: Vec<String>,
}

impl Default for FontStacks {
    fn default() -> (r: Self)
        ensures
            r.ui@.map_values(|s: String| s@) == seq![
                "Noto Sans"@,
                "Noto Sans CJK SC"@,
                "system-ui"@,
                "Noto Color Emoji"@,
            ],
            r.mono@.map_values(|s: String| s@) == seq!["Maple Mono"@, "Noto Sans Mono"@, "monospace"@],
    {
        let mut ui: Vec<String> = Vec::new();
        ui.push(String::from_str("Noto Sans"));
        ui.push(String::from_str("Noto Sans CJK SC"));
        ui.push(String::from_str("system-ui"));
        ui.push(String::from_str("Noto Color Emoji"));
        let mut mono: Vec<String> = Vec::new();
        mono.push(String::from_str("Maple Mono"));
        mono.push(String::from_str("Noto Sans Mono"));
        mono.push(String::from_str("monospace"));
        let r = FontStacks { ui, mono };
        proof {
            assert(r.ui@.map_values(|s: String| s@) =~= seq![
                "Noto Sans"@,
                "Noto Sans CJK SC"@,
                "system-ui"@,
                "Noto Color Emoji"@,
            ]);
            assert(r.mono@.map_values(|s: String| s@) =~= seq!["Maple Mono"@, "Noto Sans Mono"@, "monospace"@]);
        }
        r
    }
}

} // verus!
