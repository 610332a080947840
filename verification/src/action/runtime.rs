//! Immutable binding snapshots and the last-known-good publisher.

use std::sync::Arc;

use vstd::prelude::*;

use crate::action::binding::{
    binding_views, compile_bindings, compiled_bindings, compiled_diagnostics, diagnostic_views,
    error_diag, has_error, BindingAvailability, BindingDocument, CompiledBinding, EntryV,
};
use crate::action::catalog::{ActionCatalog, ActionEnvironment};
use crate::action::diagnostic::{BindingDiagnostic, BindingDiagnosticCode, DiagnosticV};
use crate::action::trigger::{context_overlaps, trigger_matches, BindingContext, RuntimeTrigger};
use crate::action::values::MAX_DOCUMENT_BYTES;

verus! {

/// Immutable generation queried by both the compositor and Settings.
#[derive(Debug)]
pub struct BindingSnapshot {
    generation: u64,
    catalog: Arc<ActionCatalog>,
    bindings: Arc<Vec<CompiledBinding>>,
    diagnostics: Arc<Vec<BindingDiagnostic>>,
}

/// The binding that an input activates: the first effective binding, in
/// document order, whose context overlaps and whose trigger matches.
pub open spec fn first_match(
    bs: Seq<crate::action::binding::BindingV>,
    context: BindingContext,
    input: crate::action::trigger::CompiledV,
) -> Option<int> {
    if exists|i: int| 0 <= i < bs.len() && binding_fires(#[trigger] bs[i], context, input) {
        Some(
            choose|i: int|
                0 <= i < bs.len() && binding_fires(bs[i], context, input) && forall|j: int|
                    0 <= j < i ==> !binding_fires(#[trigger] bs[j], context, input),
        )
    } else {
        None
    }
}

pub open spec fn binding_fires(
    b: crate::action::binding::BindingV,
    context: BindingContext,
    input: crate::action::trigger::CompiledV,
) -> bool {
    b.availability == BindingAvailability::Effective && context_overlaps(b.context, context)
        && trigger_matches(b.trigger, input, b.action_kind)
}

impl BindingSnapshot {
    pub closed spec fn generation_spec(&self) -> u64 {
        self.generation
    }

    pub closed spec fn binding_seq(&self) -> Seq<CompiledBinding> {
        self.bindings@
    }

    pub closed spec fn diagnostic_seq(&self) -> Seq<BindingDiagnostic> {
        self.diagnostics@
    }

    pub closed spec fn catalog_spec(&self) -> ActionCatalog {
        *self.catalog
    }

    pub open spec fn binding_views(&self) -> Seq<crate::action::binding::BindingV> {
        binding_views(self.binding_seq())
    }

    pub open spec fn diagnostic_views(&self) -> Seq<DiagnosticV> {
        diagnostic_views(self.diagnostic_seq())
    }

    pub fn generation(&self) -> (r: u64)
        ensures
            r == self.generation_spec(),
    {
        self.generation
    }

    pub fn catalog(&self) -> (r: &Arc<ActionCatalog>)
        ensures
            **r == self.catalog_spec(),
    {
        &self.catalog
    }

    pub fn bindings(&self) -> (r: &[CompiledBinding])
        ensures
            r@ == self.binding_seq(),
    {
        self.bindings.as_slice()
    }

    pub fn diagnostics(&self) -> (r: &[BindingDiagnostic])
        ensures
            r@ == self.diagnostic_seq(),
    {
        self.diagnostics.as_slice()
    }

    /// The bindings whose availability is effective, in order.
    pub fn effective_bindings(&self) -> (r: Vec<&CompiledBinding>)
        ensures
            r@.map_values(|b: &CompiledBinding| *b) == self.binding_seq().filter(
                |b: CompiledBinding| b.availability == BindingAvailability::Effective,
            ),
    {
        let bs: &Vec<CompiledBinding> = &self.bindings;
        let ghost pred = |b: CompiledBinding| b.availability == BindingAvailability::Effective;
        let mut r: Vec<&CompiledBinding> = Vec::new();
        let mut i: usize = 0;
        while i < bs.len()
            invariant
                i <= bs@.len(),
                bs@ == self.binding_seq(),
                pred == (|b: CompiledBinding| b.availability == BindingAvailability::Effective),
                r@.map_values(|b: &CompiledBinding| *b) == bs@.take(i as int).filter(pred),
            decreases bs@.len() - i,
        {
            let ghost before = r@;
            let keep = bs[i].availability == BindingAvailability::Effective;
            if keep {
                r.push(&bs[i]);
            }
            proof {
                reveal(Seq::filter);
                let s1 = bs@.take(i + 1);
                assert(s1.drop_last() =~= bs@.take(i as int));
                assert(s1.last() == bs@[i as int]);
                assert(s1.filter(pred) == (if pred(s1.last()) {
                    s1.drop_last().filter(pred).push(s1.last())
                } else {
                    s1.drop_last().filter(pred)
                }));
                assert(pred(bs@[i as int]) == keep);
                if keep {
                    assert(r@.map_values(|b: &CompiledBinding| *b) =~= before.map_values(
                        |b: &CompiledBinding| *b,
                    ).push(bs@[i as int]));
                } else {
                    assert(r@ == before);
                }
                assert(r@.map_values(|b: &CompiledBinding| *b) =~= s1.filter(pred));
            }
            i = i + 1;
        }
        proof {
            assert(bs@.take(bs@.len() as int) =~= bs@);
        }
        r
    }

    /// The binding activated by `trigger` in `context`.
    pub fn find(&self, context: BindingContext, trigger: &RuntimeTrigger) -> (r: Option<
        &CompiledBinding,
    >)
        ensures
            match first_match(self.binding_views(), context, trigger@) {
                Some(i) => r matches Some(b) && *b == self.binding_seq()[i],
                None => r is None,
            },
    {
        let bs: &Vec<CompiledBinding> = &self.bindings;
        let ghost views = self.binding_views();
        let mut i: usize = 0;
        while i < bs.len()
            invariant
                i <= bs@.len(),
                bs@ == self.binding_seq(),
                views == binding_views(bs@),
                forall|j: int| 0 <= j < i ==> !binding_fires(#[trigger] views[j], context, trigger@),
            decreases bs@.len() - i,
        {
            let b = &bs[i];
            proof {
                assert(views[i as int] == b@);
            }
            if b.availability == BindingAvailability::Effective && b.context.overlaps(context)
                && b.trigger.matches(trigger, b.action_kind) {
                proof {
                    assert(binding_fires(views[i as int], context, trigger@));
                    let c = choose|c: int|
                        0 <= c < views.len() && binding_fires(views[c], context, trigger@) && forall|
                            j: int,
                        | 0 <= j < c ==> !binding_fires(#[trigger] views[j], context, trigger@);
                    if c < i {
                    } else if c > i {
                        assert(!binding_fires(views[i as int], context, trigger@));
                    }
                }
                return Some(b);
            }
            i = i + 1;
        }
        None
    }
}

/// The outcome of one publication attempt.
#[derive(Debug)]
pub struct BindingPublication {
    pub accepted: bool,
    pub effective: Arc<BindingSnapshot>,
    pub diagnostics: Arc<Vec<BindingDiagnostic>>,
}

/// Last-known-good atomic binding publisher.
#[derive(Debug)]
pub struct BindingRuntime {
    catalog: Arc<ActionCatalog>,
    environment: ActionEnvironment,
    source: BindingDocument,
    effective: Arc<BindingSnapshot>,
}

impl BindingRuntime {
    pub closed spec fn catalog_spec(&self) -> ActionCatalog {
        *self.catalog
    }

    pub closed spec fn environment_spec(&self) -> ActionEnvironment {
        self.environment
    }

    pub closed spec fn source_entries(&self) -> Seq<EntryV> {
        self.source.entries()
    }

    pub closed spec fn source_version(&self) -> u32 {
        self.source.version
    }

    pub closed spec fn effective_spec(&self) -> BindingSnapshot {
        *self.effective
    }

    /// The snapshot of the runtime always compiles from its catalog.
    #[verifier::type_invariant]
    pub closed spec fn well_formed(&self) -> bool {
        self.effective.catalog_spec() == *self.catalog
    }

    /// Compiles the initial document; fails with every diagnostic when any is an error.
    pub fn new(
        catalog: Arc<ActionCatalog>,
        environment: ActionEnvironment,
        initial: BindingDocument,
    ) -> (r: Result<Self, Vec<BindingDiagnostic>>)
        ensures
            ({
                let ds = compiled_diagnostics(*catalog, environment, initial.version, initial.entries());
                match r {
                    Ok(rt) => !has_error(ds) && rt.effective_spec().generation_spec() == 1
                        && rt.effective_spec().binding_views() == compiled_bindings(
                        *catalog,
                        environment,
                        initial.entries(),
                    ) && rt.effective_spec().diagnostic_views() == ds && rt.catalog_spec() == *catalog
                        && rt.environment_spec() == environment && rt.source_entries()
                        == initial.entries() && rt.source_version() == initial.version,
                    Err(d) => has_error(ds) && diagnostic_views(d@) == ds,
                }
            }),
    {
        let compiled = compile_bindings(&catalog, &environment, &initial)?;
        let effective = Arc::new(
            BindingSnapshot {
                generation: 1,
                catalog: catalog.clone(),
                bindings: Arc::new(compiled.bindings),
                diagnostics: Arc::new(compiled.diagnostics),
            },
        );
        Ok(BindingRuntime { catalog, environment, source: initial, effective })
    }

    /// The current effective snapshot.
    pub fn snapshot(&self) -> (r: Arc<BindingSnapshot>)
        ensures
            *r == self.effective_spec(),
    {
        self.effective.clone()
    }

    fn rejected(&self, diagnostics: Vec<BindingDiagnostic>) -> (r: BindingPublication)
        ensures
            !r.accepted,
            *r.effective == self.effective_spec(),
            r.diagnostics@ == diagnostics@,
    {
        BindingPublication {
            accepted: false,
            effective: self.effective.clone(),
            diagnostics: Arc::new(diagnostics),
        }
    }

    /// Compiles `document`; on success it becomes the next generation, on
    /// failure the runtime keeps its last good state unchanged.
    pub fn publish(&mut self, document: BindingDocument) -> (r: BindingPublication)
        ensures
            ({
                let ds = compiled_diagnostics(
                    old(self).catalog_spec(),
                    old(self).environment_spec(),
                    document.version,
                    document.entries(),
                );
                &&& r.accepted == !has_error(ds)
                &&& diagnostic_views(r.diagnostics@) == ds
                &&& *r.effective == final(self).effective_spec()
                &&& final(self).catalog_spec() == old(self).catalog_spec()
                &&& final(self).environment_spec() == old(self).environment_spec()
                &&& r.accepted ==> {
                    &&& final(self).effective_spec().generation_spec() == saturating_next(
                        old(self).effective_spec().generation_spec(),
                    )
                    &&& final(self).effective_spec().binding_views() == compiled_bindings(
                        old(self).catalog_spec(),
                        old(self).environment_spec(),
                        document.entries(),
                    )
                    &&& final(self).effective_spec().diagnostic_views() == ds
                    &&& final(self).source_entries() == document.entries()
                    &&& final(self).source_version() == document.version
                }
                &&& !r.accepted ==> *final(self) == *old(self)
            }),
    {
        proof {
            use_type_invariant(&*self);
        }
        match compile_bindings(&self.catalog, &self.environment, &document) {
            Ok(compiled) => {
                let diagnostics = Arc::new(compiled.diagnostics);
                let effective = Arc::new(
                    BindingSnapshot {
                        generation: self.effective.generation.saturating_add(1),
                        catalog: self.catalog.clone(),
                        bindings: Arc::new(compiled.bindings),
                        diagnostics: diagnostics.clone(),
                    },
                );
                self.source = document;
                self.effective = effective.clone();
                BindingPublication { accepted: true, effective, diagnostics }
            },
            Err(diagnostics) => self.rejected(diagnostics),
        }
    }

    /// Publishes a document decoded from text of `source_len` bytes. An
    /// oversized source or a decoding failure is rejected as an invalid
    /// document and keeps the last good state.
    pub fn publish_decoded(
        &mut self,
        source_len: usize,
        decoded: Result<BindingDocument, String>,
    ) -> (r: BindingPublication)
        ensures
            (source_len > MAX_DOCUMENT_BYTES || decoded is Err) ==> {
                &&& !r.accepted
                &&& *final(self) == *old(self)
                &&& *r.effective == old(self).effective_spec()
                &&& diagnostic_views(r.diagnostics@) == seq![
                    error_diag(
                        BindingDiagnosticCode::InvalidDocument,
                        None,
                        if source_len > MAX_DOCUMENT_BYTES {
                            "binding document exceeds 1048576 bytes"@
                        } else {
                            "binding document is not valid schema-v1 JSON: "@ + decoded->Err_0@
                        },
                    ),
                ]
            },
            (source_len <= MAX_DOCUMENT_BYTES && decoded is Ok) ==> ({
                let document = decoded->Ok_0;
                let ds = compiled_diagnostics(
                    old(self).catalog_spec(),
                    old(self).environment_spec(),
                    document.version,
                    document.entries(),
                );
                &&& r.accepted == !has_error(ds)
                &&& diagnostic_views(r.diagnostics@) == ds
                &&& *r.effective == final(self).effective_spec()
                &&& final(self).catalog_spec() == old(self).catalog_spec()
                &&& final(self).environment_spec() == old(self).environment_spec()
                &&& r.accepted ==> {
                    &&& final(self).effective_spec().generation_spec() == saturating_next(
                        old(self).effective_spec().generation_spec(),
                    )
                    &&& final(self).effective_spec().binding_views() == compiled_bindings(
                        old(self).catalog_spec(),
                        old(self).environment_spec(),
                        document.entries(),
                    )
                    &&& final(self).effective_spec().diagnostic_views() == ds
                    &&& final(self).source_entries() == document.entries()
                    &&& final(self).source_version() == document.version
                }
                &&& !r.accepted ==> *final(self) == *old(self)
            }),
    {
        if source_len > MAX_DOCUMENT_BYTES {
            let d = BindingDiagnostic::error(
                BindingDiagnosticCode::InvalidDocument,
                None,
                "binding document exceeds 1048576 bytes",
            );
            let mut v = Vec::new();
            v.push(d);
            proof {
                assert(diagnostic_views(v@) =~= seq![
                    error_diag(
                        BindingDiagnosticCode::InvalidDocument,
                        None,
                        "binding document exceeds 1048576 bytes"@,
                    ),
                ]);
            }
            return self.rejected(v);
        }
        match decoded {
            Ok(document) => self.publish(document),
            Err(error) => {
                let mut message = String::from_str(
                    "binding document is not valid schema-v1 JSON: ",
                );
                message.append(error.as_str());
                let d = BindingDiagnostic::error(
                    BindingDiagnosticCode::InvalidDocument,
                    None,
                    message.as_str(),
                );
                let mut v = Vec::new();
                v.push(d);
                proof {
                    assert(diagnostic_views(v@) =~= seq![
                        error_diag(
                            BindingDiagnosticCode::InvalidDocument,
                            None,
                            "binding document is not valid schema-v1 JSON: "@ + error@,
                        ),
                    ]);
                }
                self.rejected(v)
            },
        }
    }

    /// Replaces the environment and recompiles the current source document.
    pub fn set_environment(&mut self, environment: ActionEnvironment) -> (r: BindingPublication)
        ensures
            ({
                let ds = compiled_diagnostics(
                    old(self).catalog_spec(),
                    environment,
                    old(self).source_version(),
                    old(self).source_entries(),
                );
                &&& final(self).environment_spec() == environment
                &&& final(self).catalog_spec() == old(self).catalog_spec()
                &&& final(self).source_entries() == old(self).source_entries()
                &&& final(self).source_version() == old(self).source_version()
                &&& r.accepted == !has_error(ds)
                &&& diagnostic_views(r.diagnostics@) == ds
                &&& *r.effective == final(self).effective_spec()
                &&& r.accepted ==> final(self).effective_spec().binding_views() == compiled_bindings(
                    old(self).catalog_spec(),
                    environment,
                    old(self).source_entries(),
                ) && final(self).effective_spec().generation_spec() == saturating_next(
                    old(self).effective_spec().generation_spec(),
                ) && final(self).effective_spec().diagnostic_views() == ds
                &&& !r.accepted ==> final(self).effective_spec() == old(self).effective_spec()
            }),
    {
        proof {
            use_type_invariant(&*self);
        }
        self.environment = environment;
        let source = self.source.clone();
        self.publish(source)
    }
}

pub open spec fn saturating_next(g: u64) -> u64 {
    if g == u64::MAX {
        g
    } else {
        (g + 1) as u64
    }
}

} // verus!
