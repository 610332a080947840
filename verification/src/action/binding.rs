//! Binding documents and their compilation into an effective binding set.

use vstd::prelude::*;

use crate::action::catalog::{
    invocation_error, invocation_valid_for, resolved_argument, ActionCatalog, ActionEnvironment,
    ActionInvocation, ValidatedActionInvocation,
};
use crate::action::diagnostic::{
    opt_text, BindingDiagnostic, BindingDiagnosticCode, BindingSeverity, DiagnosticV,
};
use crate::action::ident::{identifier_error, valid_identifier, validate_identifier};
use crate::action::trigger::{
    compile_trigger, compiled_trigger, context_overlaps, trigger_device, trigger_error,
    trigger_error_message, triggers_conflict, BindingContext, CompiledTrigger, CompiledV,
    DeviceClass, Trigger, TriggerV,
};
use crate::action::values::{ActionDescriptor, ActionKind, ActionValue};
use crate::strings::{debug_quote_text, debug_quoted, decimal_chars, decimal_text, StrMap, StrSet};

verus! {

pub const BINDING_SCHEMA_VERSION: u32 = 1;
pub const MAX_BINDINGS: usize = 2048;

/// One configured binding: an id, a context, a trigger and the invocation it runs.
#[derive(Debug)]
pub struct BindingEntry {
    pub id: String,
    pub context: BindingContext,
    pub trigger: Trigger,
    pub invocation: ActionInvocation,
}

/// The content of a [`BindingEntry`].
pub struct EntryV {
    pub id: Seq<char>,
    pub context: BindingContext,
    pub trigger: TriggerV,
    pub action: Seq<char>,
    pub arg_keys: Seq<Seq<char>>,
    pub arg_values: Seq<ActionValue>,
}

impl View for BindingEntry {
    type V = EntryV;

    open spec fn view(&self) -> EntryV {
        EntryV {
            id: self.id@,
            context: self.context,
            trigger: self.trigger@,
            action: self.invocation.action@,
            arg_keys: self.invocation.arguments.key_seq(),
            arg_values: self.invocation.arguments.value_seq(),
        }
    }
}

impl Clone for BindingEntry {
    fn clone(&self) -> (r: Self)
        ensures
            r@ == self@,
    {
        BindingEntry {
            id: self.id.clone(),
            context: self.context,
            trigger: self.trigger.clone(),
            invocation: self.invocation.clone(),
        }
    }
}

pub open spec fn entry_views(entries: Seq<BindingEntry>) -> Seq<EntryV> {
    entries.map_values(|e: BindingEntry| e@)
}

/// A versioned list of bindings.
#[derive(Debug)]
pub struct BindingDocument {
    pub version: u32,
    pub bindings: Vec<BindingEntry>,
}

impl BindingDocument {
    pub open spec fn entries(&self) -> Seq<EntryV> {
        entry_views(self.bindings@)
    }

    pub fn new(bindings: Vec<BindingEntry>) -> (r: Self)
        ensures
            r.version == BINDING_SCHEMA_VERSION,
            r.bindings == bindings,
    {
        BindingDocument { version: BINDING_SCHEMA_VERSION, bindings }
    }
}

impl Clone for BindingDocument {
    fn clone(&self) -> (r: Self)
        ensures
            r.version == self.version,
            r.entries() == self.entries(),
    {
        let mut bindings: Vec<BindingEntry> = Vec::new();
        let mut i: usize = 0;
        while i < self.bindings.len()
            invariant
                i <= self.bindings@.len(),
                bindings@.len() == i,
                forall|j: int| 0 <= j < i ==> #[trigger] bindings@[j]@ == self.bindings@[j]@,
            decreases self.bindings@.len() - i,
        {
            bindings.push(self.bindings[i].clone());
            i = i + 1;
        }
        let r = BindingDocument { version: self.version, bindings };
        assert(r.entries() =~= self.entries());
        r
    }
}

#[derive(Debug, Clone, Copy, PartialEq, Eq, Structural, Hash)]
pub enum BindingAvailability {
    Effective,
    UnsupportedDevice,
    UnavailableAction,
}

/// A binding after validation and normalization.
#[derive(Debug, PartialEq)]
pub struct CompiledBinding {
    pub id: String,
    pub context: BindingContext,
    pub trigger: CompiledTrigger,
    pub invocation: ValidatedActionInvocation,
    pub action_kind: ActionKind,
    pub availability: BindingAvailability,
}

/// The content of a [`CompiledBinding`].
pub struct BindingV {
    pub id: Seq<char>,
    pub context: BindingContext,
    pub trigger: CompiledV,
    pub action: Seq<char>,
    pub arguments: Map<Seq<char>, ActionValue>,
    pub action_kind: ActionKind,
    pub availability: BindingAvailability,
}

pub open spec fn args_map(m: StrMap<ActionValue>) -> Map<Seq<char>, ActionValue> {
    Map::new(|k: Seq<char>| m.has(k), |k: Seq<char>| m.lookup(k))
}

impl View for CompiledBinding {
    type V = BindingV;

    open spec fn view(&self) -> BindingV {
        BindingV {
            id: self.id@,
            context: self.context,
            trigger: self.trigger@,
            action: self.invocation.action@,
            arguments: args_map(self.invocation.arguments),
            action_kind: self.action_kind,
            availability: self.availability,
        }
    }
}

impl Clone for CompiledBinding {
    fn clone(&self) -> (r: Self)
        ensures
            r@ == self@,
    {
        let invocation = self.invocation.clone();
        assert(args_map(invocation.arguments) =~= args_map(self.invocation.arguments));
        CompiledBinding {
            id: self.id.clone(),
            context: self.context,
            trigger: self.trigger.clone(),
            invocation,
            action_kind: self.action_kind,
            availability: self.availability,
        }
    }
}

pub open spec fn binding_views(bs: Seq<CompiledBinding>) -> Seq<BindingV> {
    bs.map_values(|b: CompiledBinding| b@)
}

pub open spec fn diagnostic_views(ds: Seq<BindingDiagnostic>) -> Seq<DiagnosticV> {
    ds.map_values(|d: BindingDiagnostic| d@)
}

pub open spec fn error_diag(
    code: BindingDiagnosticCode,
    id: Option<Seq<char>>,
    message: Seq<char>,
) -> DiagnosticV {
    DiagnosticV { severity: BindingSeverity::Error, code, binding_id: id, related_binding_id: None, message }
}

pub open spec fn warning_diag(code: BindingDiagnosticCode, id: Seq<char>, message: Seq<char>) -> DiagnosticV {
    DiagnosticV {
        severity: BindingSeverity::Warning,
        code,
        binding_id: Some(id),
        related_binding_id: None,
        message,
    }
}

/// The message of an unsupported schema version.
pub open spec fn version_message(version: u32) -> Seq<char> {
    "binding schema version "@ + decimal_chars(version as nat) + " is unsupported; expected 1"@
}

/// The message of an entry whose action needs capabilities the host lacks.
pub open spec fn unavailable_message(d: ActionDescriptor, env: ActionEnvironment) -> Seq<char> {
    "action "@ + d.id@ + " requires unavailable capabilities: "@ + comma_joined(
        items_outside(d.required_capabilities.item_seq(), env.capabilities.view_set()),
    )
}

/// The message of an entry whose trigger device the host lacks.
pub open spec fn device_message(device: DeviceClass) -> Seq<char> {
    "device "@ + device_label(device) + " is unavailable in this host"@
}

/// The arguments a validated invocation of `e` carries.
pub open spec fn expected_arguments(catalog: ActionCatalog, e: EntryV) -> Map<Seq<char>, ActionValue> {
    let d = catalog.action(e.action);
    Map::new(
        |k: Seq<char>|
            d.arguments.has(k) && resolved_argument(d.arguments.lookup(k), e.arg_keys, e.arg_values, k)
                is Some,
        |k: Seq<char>| resolved_argument(d.arguments.lookup(k), e.arg_keys, e.arg_values, k)->0,
    )
}

/// What compiling one entry yields, given the ids seen before it.
pub enum StepV {
    Reject(BindingDiagnosticCode, Seq<char>),
    Accept(BindingAvailability),
}

pub open spec fn entry_step(
    catalog: ActionCatalog,
    env: ActionEnvironment,
    seen: Set<Seq<char>>,
    e: EntryV,
) -> StepV {
    if !valid_identifier(e.id) {
        StepV::Reject(BindingDiagnosticCode::InvalidIdentifier, identifier_error("binding"@, e.id))
    } else if seen.contains(e.id) {
        StepV::Reject(
            BindingDiagnosticCode::DuplicateBinding,
            "duplicate binding id "@ + debug_quoted(e.id),
        )
    } else if !catalog.has_action(e.action) {
        StepV::Reject(BindingDiagnosticCode::UnknownAction, "unknown action "@ + debug_quoted(e.action))
    } else if !invocation_valid_for(catalog.action(e.action), e.arg_keys, e.arg_values) {
        StepV::Reject(
            BindingDiagnosticCode::InvalidArgument,
            invocation_error(catalog.action(e.action), e.arg_keys, e.arg_values),
        )
    } else if trigger_error(e.trigger, catalog.action(e.action).kind) is Some {
        StepV::Reject(
            trigger_error(e.trigger, catalog.action(e.action).kind)->0,
            trigger_error_message(e.trigger, catalog.action(e.action).kind),
        )
    } else if !env.supports_action_spec(catalog.action(e.action)) {
        StepV::Accept(BindingAvailability::UnavailableAction)
    } else if !env.supports_device_spec(trigger_device(compiled_trigger(e.trigger))) {
        StepV::Accept(BindingAvailability::UnsupportedDevice)
    } else {
        StepV::Accept(BindingAvailability::Effective)
    }
}

/// The compiled binding of an accepted entry.
pub open spec fn entry_binding(catalog: ActionCatalog, e: EntryV, availability: BindingAvailability) -> BindingV {
    BindingV {
        id: e.id,
        context: e.context,
        trigger: compiled_trigger(e.trigger),
        action: e.action,
        arguments: expected_arguments(catalog, e),
        action_kind: catalog.action(e.action).kind,
        availability,
    }
}

/// The diagnostics, bindings and seen identifiers after scanning `es` in order.
pub struct ScanV {
    pub diagnostics: Seq<DiagnosticV>,
    pub bindings: Seq<BindingV>,
    pub seen: Set<Seq<char>>,
}

pub open spec fn scan(catalog: ActionCatalog, env: ActionEnvironment, es: Seq<EntryV>) -> ScanV
    decreases es.len(),
{
    if es.len() == 0 {
        ScanV { diagnostics: Seq::empty(), bindings: Seq::empty(), seen: Set::empty() }
    } else {
        let prev = scan(catalog, env, es.drop_last());
        let e = es.last();
        let seen = if valid_identifier(e.id) {
            prev.seen.insert(e.id)
        } else {
            prev.seen
        };
        match entry_step(catalog, env, prev.seen, e) {
            StepV::Reject(code, message) => ScanV {
                diagnostics: prev.diagnostics.push(error_diag(code, Some(e.id), message)),
                bindings: prev.bindings,
                seen,
            },
            StepV::Accept(availability) => ScanV {
                diagnostics: if availability == BindingAvailability::UnavailableAction {
                    prev.diagnostics.push(
                        warning_diag(
                            BindingDiagnosticCode::UnavailableAction,
                            e.id,
                            unavailable_message(catalog.action(e.action), env),
                        ),
                    )
                } else if availability == BindingAvailability::UnsupportedDevice {
                    prev.diagnostics.push(
                        warning_diag(
                            BindingDiagnosticCode::UnsupportedDevice,
                            e.id,
                            device_message(trigger_device(compiled_trigger(e.trigger))),
                        ),
                    )
                } else {
                    prev.diagnostics
                },
                bindings: prev.bindings.push(entry_binding(catalog, e, availability)),
                seen,
            },
        }
    }
}

/// Two compiled bindings can fire for the same input in overlapping contexts.
pub open spec fn bindings_conflict(a: BindingV, b: BindingV) -> bool {
    context_overlaps(a.context, b.context) && triggers_conflict(
        a.trigger,
        b.trigger,
        a.action_kind,
        b.action_kind,
    )
}

pub open spec fn conflict_diag(a: BindingV, b: BindingV) -> DiagnosticV {
    DiagnosticV {
        severity: BindingSeverity::Error,
        code: BindingDiagnosticCode::Conflict,
        binding_id: Some(a.id),
        related_binding_id: Some(b.id),
        message: "binding "@ + debug_quoted(a.id) + " conflicts with "@ + debug_quoted(b.id)
            + " in overlapping contexts"@,
    }
}

/// Conflicts of binding `i` with bindings `i + 1 .. j`, in order.
pub open spec fn conflict_row(bs: Seq<BindingV>, i: int, j: int) -> Seq<DiagnosticV>
    decreases j - i,
{
    if j <= i + 1 {
        Seq::empty()
    } else {
        conflict_row(bs, i, j - 1) + if bindings_conflict(bs[i], bs[j - 1]) {
            seq![conflict_diag(bs[i], bs[j - 1])]
        } else {
            Seq::empty()
        }
    }
}

/// Conflicts of every pair whose first binding is before `i`.
pub open spec fn conflict_rows(bs: Seq<BindingV>, i: int) -> Seq<DiagnosticV>
    decreases i,
{
    if i <= 0 {
        Seq::empty()
    } else {
        conflict_rows(bs, i - 1) + conflict_row(bs, i - 1, bs.len() as int)
    }
}

/// A window and its frame overlap, in either order, so two bindings with
/// the same key trigger there conflict.
pub proof fn law_window_and_frame_bindings_conflict(a: BindingV, b: BindingV)
    requires
        (a.context == BindingContext::Window && b.context == BindingContext::WindowFrame) || (
        a.context == BindingContext::WindowFrame && b.context == BindingContext::Window),
        a.trigger is Key,
        a.trigger == b.trigger,
    ensures
        context_overlaps(BindingContext::Window, BindingContext::WindowFrame),
        context_overlaps(BindingContext::WindowFrame, BindingContext::Window),
        bindings_conflict(a, b),
        bindings_conflict(b, a),
{
}

proof fn lemma_conflict_row_reports(bs: Seq<BindingV>, i: int, j: int, m: int)
    requires
        0 <= i < j < m <= bs.len(),
        bindings_conflict(bs[i], bs[j]),
    ensures
        conflict_row(bs, i, m).contains(conflict_diag(bs[i], bs[j])),
    decreases m - i,
{
    if m - 1 == j {
        let row = conflict_row(bs, i, m);
        assert(row[row.len() - 1] == conflict_diag(bs[i], bs[j]));
    } else {
        lemma_conflict_row_reports(bs, i, j, m - 1);
        let prev = conflict_row(bs, i, m - 1);
        let k = choose|k: int| 0 <= k < prev.len() && prev[k] == conflict_diag(bs[i], bs[j]);
        assert(conflict_row(bs, i, m)[k] == prev[k]);
    }
}

proof fn lemma_conflict_rows_report(bs: Seq<BindingV>, i: int, j: int, m: int)
    requires
        0 <= i < j < bs.len(),
        i < m <= bs.len(),
        bindings_conflict(bs[i], bs[j]),
    ensures
        conflict_rows(bs, m).contains(conflict_diag(bs[i], bs[j])),
    decreases m,
{
    let d = conflict_diag(bs[i], bs[j]);
    if m - 1 == i {
        lemma_conflict_row_reports(bs, i, j, bs.len() as int);
        let row = conflict_row(bs, i, bs.len() as int);
        let prev = conflict_rows(bs, m - 1);
        let k = choose|k: int| 0 <= k < row.len() && row[k] == d;
        assert(conflict_rows(bs, m)[prev.len() + k] == d);
    } else {
        lemma_conflict_rows_report(bs, i, j, m - 1);
        let prev = conflict_rows(bs, m - 1);
        let k = choose|k: int| 0 <= k < prev.len() && prev[k] == d;
        assert(conflict_rows(bs, m)[k] == d);
    }
}

/// Any two compiled bindings that conflict are reported as a conflict error,
/// so the document is rejected.
pub proof fn law_conflicting_bindings_reject_the_document(
    catalog: ActionCatalog,
    env: ActionEnvironment,
    version: u32,
    es: Seq<EntryV>,
    i: int,
    j: int,
)
    requires
        0 <= i < j < compiled_bindings(catalog, env, es).len(),
        bindings_conflict(
            compiled_bindings(catalog, env, es)[i],
            compiled_bindings(catalog, env, es)[j],
        ),
    ensures
        compiled_diagnostics(catalog, env, version, es).contains(
            conflict_diag(compiled_bindings(catalog, env, es)[i], compiled_bindings(catalog, env, es)[j]),
        ),
        has_error(compiled_diagnostics(catalog, env, version, es)),
{
    let bs = compiled_bindings(catalog, env, es);
    let d = conflict_diag(bs[i], bs[j]);
    lemma_conflict_rows_report(bs, i, j, bs.len() as int);
    let s = scan(catalog, env, considered(es));
    let head = header_diagnostics(version, es.len() as int) + s.diagnostics;
    let rows = conflict_rows(bs, bs.len() as int);
    let k = choose|k: int| 0 <= k < rows.len() && rows[k] == d;
    let all = compiled_diagnostics(catalog, env, version, es);
    assert(all == head + rows);
    assert(all[head.len() + k] == d);
    assert(all[head.len() + k].severity == BindingSeverity::Error);
}

/// The diagnostics on the document as a whole.
pub open spec fn header_diagnostics(version: u32, count: int) -> Seq<DiagnosticV> {
    (if version != BINDING_SCHEMA_VERSION {
        seq![error_diag(BindingDiagnosticCode::UnsupportedVersion, None, version_message(version))]
    } else {
        Seq::empty()
    }) + (if count > MAX_BINDINGS {
        seq![
            error_diag(
                BindingDiagnosticCode::TooManyBindings,
                None,
                "binding document exceeds 2048 entries"@,
            ),
        ]
    } else {
        Seq::empty()
    })
}

pub open spec fn considered(es: Seq<EntryV>) -> Seq<EntryV> {
    if es.len() > MAX_BINDINGS {
        es.take(MAX_BINDINGS as int)
    } else {
        es
    }
}

/// Every diagnostic of compiling `doc`: header, per-entry, then conflicts.
pub open spec fn compiled_diagnostics(
    catalog: ActionCatalog,
    env: ActionEnvironment,
    version: u32,
    es: Seq<EntryV>,
) -> Seq<DiagnosticV> {
    let s = scan(catalog, env, considered(es));
    header_diagnostics(version, es.len() as int) + s.diagnostics + conflict_rows(
        s.bindings,
        s.bindings.len() as int,
    )
}

pub open spec fn compiled_bindings(
    catalog: ActionCatalog,
    env: ActionEnvironment,
    es: Seq<EntryV>,
) -> Seq<BindingV> {
    scan(catalog, env, considered(es)).bindings
}

pub open spec fn has_error(ds: Seq<DiagnosticV>) -> bool {
    exists|i: int| 0 <= i < ds.len() && (#[trigger] ds[i]).severity == BindingSeverity::Error
}

/// A compiled candidate: bindings plus warnings.
#[derive(Debug)]
pub struct CompiledCandidate {
    pub bindings: Vec<CompiledBinding>,
    pub diagnostics: Vec<BindingDiagnostic>,
}

fn push_error(
    diagnostics: &mut Vec<BindingDiagnostic>,
    code: BindingDiagnosticCode,
    binding_id: &str,
    message: String,
)
    ensures
        diagnostic_views(final(diagnostics)@) == diagnostic_views(old(diagnostics)@).push(
            error_diag(code, Some(binding_id@), message@),
        ),
{
    let d = BindingDiagnostic {
        severity: BindingSeverity::Error,
        code,
        binding_id: Some(String::from_str(binding_id)),
        related_binding_id: None,
        message,
    };
    diagnostics.push(d);
    assert(diagnostic_views(diagnostics@) =~= diagnostic_views(old(diagnostics)@).push(
        error_diag(code, Some(binding_id@), message@),
    ));
}

fn push_diagnostic(diagnostics: &mut Vec<BindingDiagnostic>, d: BindingDiagnostic)
    ensures
        diagnostic_views(final(diagnostics)@) == diagnostic_views(old(diagnostics)@).push(d@),
{
    diagnostics.push(d);
    assert(diagnostic_views(diagnostics@) =~= diagnostic_views(old(diagnostics)@).push(d@));
}

/// The items of `items`, in order, that `excluded` does not hold.
pub open spec fn items_outside(items: Seq<Seq<char>>, excluded: Set<Seq<char>>) -> Seq<Seq<char>>
    decreases items.len(),
{
    if items.len() == 0 {
        Seq::empty()
    } else {
        let kept = items_outside(items.drop_last(), excluded);
        if excluded.contains(items.last()) {
            kept
        } else {
            kept.push(items.last())
        }
    }
}

/// The items joined with `", "` between neighbours.
pub open spec fn comma_joined(items: Seq<Seq<char>>) -> Seq<char>
    decreases items.len(),
{
    if items.len() == 0 {
        Seq::empty()
    } else if items.len() == 1 {
        items[0]
    } else {
        comma_joined(items.drop_last()) + seq![',', ' '] + items.last()
    }
}

/// The items of `set` that `missing_from` lacks, in the set's order, joined by `", "`.
fn text_list(set: &StrSet, missing_from: &StrSet) -> (r: String)
    ensures
        r@ == comma_joined(items_outside(set.item_seq(), missing_from.view_set())),
{
    let mut r = String::new();
    let mut first = true;
    let mut i: usize = 0;
    let ghost items = set.item_seq();
    let ghost excluded = missing_from.view_set();
    while i < set.len()
        invariant
            items == set.item_seq(),
            excluded == missing_from.view_set(),
            i <= items.len(),
            r@ == comma_joined(items_outside(items.take(i as int), excluded)),
            first == (items_outside(items.take(i as int), excluded).len() == 0),
        decreases items.len() - i,
    {
        let item = set.item_at(i);
        proof {
            assert(items.take(i as int + 1).drop_last() =~= items.take(i as int));
            assert(items.take(i as int + 1).last() == items[i as int]);
        }
        if !missing_from.contains(item.as_str()) {
            let ghost prev = items_outside(items.take(i as int), excluded);
            if !first {
                r.append(", ");
                proof {
                    reveal_strlit(", ");
                }
            }
            r.append(item.as_str());
            first = false;
            proof {
                let next = prev.push(items[i as int]);
                assert(next.drop_last() =~= prev);
                if prev.len() == 0 {
                    assert(r@ =~= comma_joined(next));
                } else {
                    assert(r@ =~= comma_joined(next));
                }
            }
        }
        i = i + 1;
    }
    proof {
        assert(items.take(items.len() as int) =~= items);
    }
    r
}

/// The name a diagnostic gives a device class.
pub open spec fn device_label(device: crate::action::trigger::DeviceClass) -> Seq<char> {
    match device {
        crate::action::trigger::DeviceClass::Keyboard => "Keyboard"@,
        crate::action::trigger::DeviceClass::Mouse => "Mouse"@,
        crate::action::trigger::DeviceClass::Touchpad => "Touchpad"@,
        crate::action::trigger::DeviceClass::Touchscreen => "Touchscreen"@,
        crate::action::trigger::DeviceClass::AnyPointer => "AnyPointer"@,
    }
}

fn device_name(device: crate::action::trigger::DeviceClass) -> (r: &'static str)
    ensures
        r@ == device_label(device),
{
    match device {
        crate::action::trigger::DeviceClass::Keyboard => "Keyboard",
        crate::action::trigger::DeviceClass::Mouse => "Mouse",
        crate::action::trigger::DeviceClass::Touchpad => "Touchpad",
        crate::action::trigger::DeviceClass::Touchscreen => "Touchscreen",
        crate::action::trigger::DeviceClass::AnyPointer => "AnyPointer",
    }
}

/// Compiles a binding document against the catalog and environment.
/// Succeeds with every binding and warning exactly when no diagnostic is an
/// error; otherwise returns every diagnostic.
pub fn compile_bindings(
    catalog: &ActionCatalog,
    environment: &ActionEnvironment,
    document: &BindingDocument,
) -> (r: Result<CompiledCandidate, Vec<BindingDiagnostic>>)
    ensures
        ({
            let ds = compiled_diagnostics(
                *catalog,
                *environment,
                document.version,
                document.entries(),
            );
            match r {
                Ok(c) => !has_error(ds) && diagnostic_views(c.diagnostics@) == ds && binding_views(
                    c.bindings@,
                ) == compiled_bindings(*catalog, *environment, document.entries()),
                Err(d) => has_error(ds) && diagnostic_views(d@) == ds,
            }
        }),
{
    let mut diagnostics: Vec<BindingDiagnostic> = Vec::new();
    if document.version != BINDING_SCHEMA_VERSION {
        let mut message = String::from_str("binding schema version ");
        let number = decimal_text(document.version as u64);
        message.append(number.as_str());
        message.append(" is unsupported; expected 1");
        push_diagnostic(
            &mut diagnostics,
            BindingDiagnostic::error(
                BindingDiagnosticCode::UnsupportedVersion,
                None,
                message.as_str(),
            ),
        );
    }
    if document.bindings.len() > MAX_BINDINGS {
        push_diagnostic(
            &mut diagnostics,
            BindingDiagnostic::error(
                BindingDiagnosticCode::TooManyBindings,
                None,
                "binding document exceeds 2048 entries",
            ),
        );
    }
    let ghost es = document.entries();
    let ghost header = header_diagnostics(document.version, es.len() as int);
    proof {
        assert(diagnostic_views(diagnostics@) =~= header);
    }
    let count = if document.bindings.len() > MAX_BINDINGS {
        MAX_BINDINGS
    } else {
        document.bindings.len()
    };
    let ghost cs = considered(es);
    let mut identifiers = StrSet::new();
    let mut bindings: Vec<CompiledBinding> = Vec::new();
    let mut i: usize = 0;
    while i < count
        invariant
            count == cs.len(),
            cs == considered(es),
            es == document.entries(),
            i <= count,
            count <= document.bindings@.len(),
            ({
                let s = scan(*catalog, *environment, cs.take(i as int));
                &&& diagnostic_views(diagnostics@) == header + s.diagnostics
                &&& binding_views(bindings@) == s.bindings
                &&& identifiers.view_set() == s.seen
            }),
        decreases count - i,
    {
        let entry = &document.bindings[i];
        let ghost e = entry@;
        let ghost prev = scan(*catalog, *environment, cs.take(i as int));
        proof {
            assert(cs[i as int] == e);
            assert(cs.take(i + 1).drop_last() =~= cs.take(i as int));
            assert(cs.take(i + 1).last() == e);
        }
        let checked = validate_identifier("binding", entry.id.as_str());
        if let Err(message) = checked {
            push_error(
                &mut diagnostics,
                BindingDiagnosticCode::InvalidIdentifier,
                entry.id.as_str(),
                message,
            );
            proof {
                assert(diagnostic_views(diagnostics@) =~= header + scan(
                    *catalog,
                    *environment,
                    cs.take(i + 1),
                ).diagnostics);
            }
            i = i + 1;
            continue;
        }
        if !identifiers.insert(entry.id.clone()) {
            let mut message = String::from_str("duplicate binding id ");
            let quoted = debug_quote_text(entry.id.as_str());
            message.append(quoted.as_str());
            push_error(
                &mut diagnostics,
                BindingDiagnosticCode::DuplicateBinding,
                entry.id.as_str(),
                message,
            );
            proof {
                assert(identifiers.view_set() =~= prev.seen.insert(e.id));
                assert(diagnostic_views(diagnostics@) =~= header + scan(
                    *catalog,
                    *environment,
                    cs.take(i + 1),
                ).diagnostics);
            }
            i = i + 1;
            continue;
        }
        let descriptor = match catalog.descriptor(entry.invocation.action.as_str()) {
            Some(d) => d,
            None => {
                let mut message = String::from_str("unknown action ");
                let quoted = debug_quote_text(entry.invocation.action.as_str());
                message.append(quoted.as_str());
                push_error(
                    &mut diagnostics,
                    BindingDiagnosticCode::UnknownAction,
                    entry.id.as_str(),
                    message,
                );
                proof {
                    assert(diagnostic_views(diagnostics@) =~= header + scan(
                        *catalog,
                        *environment,
                        cs.take(i + 1),
                    ).diagnostics);
                }
                i = i + 1;
                continue;
            },
        };
        let invocation = match catalog.validate_invocation(&entry.invocation) {
            Ok(invocation) => invocation,
            Err(error) => {
                push_error(
                    &mut diagnostics,
                    BindingDiagnosticCode::InvalidArgument,
                    entry.id.as_str(),
                    error,
                );
                proof {
                    assert(diagnostic_views(diagnostics@) =~= header + scan(
                        *catalog,
                        *environment,
                        cs.take(i + 1),
                    ).diagnostics);
                }
                i = i + 1;
                continue;
            },
        };
        let trigger = match compile_trigger(entry.id.as_str(), &entry.trigger, descriptor.kind) {
            Ok(trigger) => trigger,
            Err(diagnostic) => {
                push_diagnostic(&mut diagnostics, diagnostic);
                proof {
                    assert(diagnostic_views(diagnostics@) =~= header + scan(
                        *catalog,
                        *environment,
                        cs.take(i + 1),
                    ).diagnostics);
                }
                i = i + 1;
                continue;
            },
        };
        let availability = if !environment.supports_action(descriptor) {
            let mut message = String::from_str("action ");
            message.append(descriptor.id.as_str());
            message.append(" requires unavailable capabilities: ");
            let missing = text_list(&descriptor.required_capabilities, &environment.capabilities);
            message.append(missing.as_str());
            push_diagnostic(
                &mut diagnostics,
                BindingDiagnostic::warning(
                    BindingDiagnosticCode::UnavailableAction,
                    entry.id.as_str(),
                    message.as_str(),
                ),
            );
            BindingAvailability::UnavailableAction
        } else if !environment.supports_device(trigger.device()) {
            let mut message = String::from_str("device ");
            message.append(device_name(trigger.device()));
            message.append(" is unavailable in this host");
            push_diagnostic(
                &mut diagnostics,
                BindingDiagnostic::warning(
                    BindingDiagnosticCode::UnsupportedDevice,
                    entry.id.as_str(),
                    message.as_str(),
                ),
            );
            BindingAvailability::UnsupportedDevice
        } else {
            BindingAvailability::Effective
        };
        let binding = CompiledBinding {
            id: entry.id.clone(),
            context: entry.context,
            trigger,
            invocation,
            action_kind: descriptor.kind,
            availability,
        };
        proof {
            let got = binding@.arguments;
            let want = expected_arguments(*catalog, e);
            assert forall|k: Seq<char>| #[trigger] got.contains_key(k) == want.contains_key(k) && (
            got.contains_key(k) ==> got[k] == want[k]) by {
                assert(binding.invocation.arguments.get_spec(k) == (if catalog.action(e.action).arguments.has(k) {
                    resolved_argument(catalog.action(e.action).arguments.lookup(k), e.arg_keys, e.arg_values, k)
                } else {
                    None
                }));
            }
            assert(got =~= want);
            assert(binding@ == entry_binding(*catalog, e, availability));
        }
        bindings.push(binding);
        proof {
            let next = scan(*catalog, *environment, cs.take(i + 1));
            assert(binding_views(bindings@) =~= next.bindings);
            assert(diagnostic_views(diagnostics@) =~= header + next.diagnostics);
        }
        i = i + 1;
    }
    proof {
        assert(cs.take(count as int) =~= cs);
    }
    let ghost bs = binding_views(bindings@);
    let ghost entry_diags = scan(*catalog, *environment, cs).diagnostics;
    let n = bindings.len();
    let mut index: usize = 0;
    while index < n
        invariant
            n == bindings@.len(),
            bs == binding_views(bindings@),
            index <= n,
            diagnostic_views(diagnostics@) == header + entry_diags + conflict_rows(bs, index as int),
        decreases n - index,
    {
        let mut other_index: usize = index + 1;
        proof {
            assert(conflict_row(bs, index as int, other_index as int) =~= Seq::empty());
            assert(diagnostic_views(diagnostics@) =~= header + entry_diags + conflict_rows(
                bs,
                index as int,
            ) + conflict_row(bs, index as int, other_index as int));
        }
        while other_index < n
            invariant
                n == bindings@.len(),
                bs == binding_views(bindings@),
                index < n,
                index + 1 <= other_index <= n,
                diagnostic_views(diagnostics@) == header + entry_diags + conflict_rows(bs, index as int)
                    + conflict_row(bs, index as int, other_index as int),
            decreases n - other_index,
        {
            let binding = &bindings[index];
            let other = &bindings[other_index];
            proof {
                assert(bs[index as int] == binding@);
                assert(bs[other_index as int] == other@);
            }
            let ghost before = diagnostic_views(diagnostics@);
            if binding.context.overlaps(other.context) && binding.trigger.conflicts(
                &other.trigger,
                binding.action_kind,
                other.action_kind,
            ) {
                let mut message = String::from_str("binding ");
                let quoted = debug_quote_text(binding.id.as_str());
                message.append(quoted.as_str());
                message.append(" conflicts with ");
                let quoted_other = debug_quote_text(other.id.as_str());
                message.append(quoted_other.as_str());
                message.append(" in overlapping contexts");
                let d = BindingDiagnostic {
                    severity: BindingSeverity::Error,
                    code: BindingDiagnosticCode::Conflict,
                    binding_id: Some(binding.id.clone()),
                    related_binding_id: Some(other.id.clone()),
                    message,
                };
                proof {
                    assert(d@ == conflict_diag(bs[index as int], bs[other_index as int]));
                }
                push_diagnostic(&mut diagnostics, d);
            }
            proof {
                assert(diagnostic_views(diagnostics@) =~= header + entry_diags + conflict_rows(
                    bs,
                    index as int,
                ) + conflict_row(bs, index as int, other_index + 1));
            }
            other_index = other_index + 1;
        }
        proof {
            assert(diagnostic_views(diagnostics@) =~= header + entry_diags + conflict_rows(
                bs,
                index + 1,
            ));
        }
        index = index + 1;
    }
    let mut any_error = false;
    let mut k: usize = 0;
    while k < diagnostics.len()
        invariant
            k <= diagnostics@.len(),
            any_error == exists|j: int|
                0 <= j < k && (#[trigger] diagnostic_views(diagnostics@)[j]).severity
                    == BindingSeverity::Error,
        decreases diagnostics@.len() - k,
    {
        proof {
            assert(diagnostic_views(diagnostics@)[k as int] == diagnostics@[k as int]@);
        }
        if diagnostics[k].severity == BindingSeverity::Error {
            any_error = true;
        }
        k = k + 1;
    }
    proof {
        assert(compiled_bindings(*catalog, *environment, document.entries()) == bs);
    }
    if any_error {
        Err(diagnostics)
    } else {
        Ok(CompiledCandidate { bindings, diagnostics })
    }
}

} // verus!
