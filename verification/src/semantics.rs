//! Accessibility-facing semantic values.

use vstd::prelude::*;

verus! {

#[derive(Debug, Clone, Copy, PartialEq, Eq, Structural, Hash)]
pub enum SemanticRole {
    Generic,
    Group,
    Button,
    Toggle,
    Slider,
    List,
    ListItem,
    Text,
    TextInput,
    ScrollArea,
}

impl Default for SemanticRole {
    fn default() -> (r: Self)
        ensures
            r == SemanticRole::Generic,
    {
        SemanticRole::Generic
    }
}

/// What assistive technology learns of one widget.
#[derive(Debug, Clone)]
pub struct Semantics {
    pub role: SemanticRole,
    pub label: Option<String>,
    pub value: Option<String>,
    pub enabled: bool,
    pub focusable: bool,
}

impl Default for Semantics {
    /// A generic, enabled, unfocusable widget without label or value.
    fn default() -> (r: Self)
        ensures
            r.role == SemanticRole::Generic,
            r.label is None,
            r.value is None,
            r.enabled,
            !r.focusable,
    {
        Semantics { role: SemanticRole::Generic, label: None, value: None, enabled: true, focusable: false }
    }
}

} // verus!
