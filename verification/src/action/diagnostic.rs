//! Structured binding diagnostics.

use vstd::prelude::*;

verus! {

#[derive(Debug, Clone, Copy, PartialEq, Eq, Structural, Hash)]
pub enum BindingSeverity {
    Warning,
    Error,
}

#[derive(Debug, Clone, Copy, PartialEq, Eq, Structural, Hash)]
pub enum BindingDiagnosticCode {
    InvalidDocument,
    UnsupportedVersion,
    TooManyBindings,
    InvalidIdentifier,
    DuplicateBinding,
    UnknownAction,
    InvalidArgument,
    IncompatibleTrigger,
    Conflict,
    ReservedClientGesture,
    UnsupportedDevice,
    UnavailableAction,
}

/// Structured diagnostic suitable for compositor logs and retained Settings rows.
#[derive(Debug, PartialEq, Eq)]
pub struct BindingDiagnostic {
    pub severity: BindingSeverity,
    pub code: BindingDiagnosticCode,
    pub binding_id: Option<String>,
    pub related_binding_id: Option<String>,
    pub message: String,
}

/// What a diagnostic says, its human-readable message included.
pub struct DiagnosticV {
    pub severity: BindingSeverity,
    pub code: BindingDiagnosticCode,
    pub binding_id: Option<Seq<char>>,
    pub related_binding_id: Option<Seq<char>>,
    pub message: Seq<char>,
}

pub open spec fn opt_text(s: Option<String>) -> Option<Seq<char>> {
    match s {
        Some(t) => Some(t@),
        None => None,
    }
}

impl View for BindingDiagnostic {
    type V = DiagnosticV;

    open spec fn view(&self) -> DiagnosticV {
        DiagnosticV {
            severity: self.severity,
            code: self.code,
            binding_id: opt_text(self.binding_id),
            related_binding_id: opt_text(self.related_binding_id),
            message: self.message@,
        }
    }
}

impl Clone for BindingDiagnostic {
    fn clone(&self) -> (r: Self)
        ensures
            r == *self,
    {
        BindingDiagnostic {
            severity: self.severity,
            code: self.code,
            binding_id: match &self.binding_id {
                Some(s) => Some(s.clone()),
                None => None,
            },
            related_binding_id: match &self.related_binding_id {
                Some(s) => Some(s.clone()),
                None => None,
            },
            message: self.message.clone(),
        }
    }
}

impl BindingDiagnostic {
    pub fn error(code: BindingDiagnosticCode, binding_id: Option<&str>, message: &str) -> (r: Self)
        ensures
            r.severity == BindingSeverity::Error,
            r.code == code,
            r.binding_id.is_some() == binding_id.is_some(),
            binding_id matches Some(b) ==> r.binding_id matches Some(t) && t@ == b@,
            r.related_binding_id is None,
            r.message@ == message@,
    {
        BindingDiagnostic {
            severity: BindingSeverity::Error,
            code,
            binding_id: match binding_id {
                Some(b) => Some(String::from_str(b)),
                None => None,
            },
            related_binding_id: None,
            message: String::from_str(message),
        }
    }

    pub fn warning(code: BindingDiagnosticCode, binding_id: &str, message: &str) -> (r: Self)
        ensures
            r.severity == BindingSeverity::Warning,
            r.code == code,
            r.binding_id matches Some(t) && t@ == binding_id@,
            r.related_binding_id is None,
            r.message@ == message@,
    {
        BindingDiagnostic {
            severity: BindingSeverity::Warning,
            code,
            binding_id: Some(String::from_str(binding_id)),
            related_binding_id: None,
            message: String::from_str(message),
        }
    }
}

} // verus!
