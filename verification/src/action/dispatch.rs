//! Host adapters for actions and the one-shot/continuous dispatcher.

use std::sync::Arc;

use vstd::prelude::*;

use crate::action::catalog::{ActionCatalog, ValidatedActionInvocation};
use crate::action::values::{ActionId, ActionKind};
use crate::strings::{debug_quote_text, StrMap};

verus! {

#[derive(Debug, Clone, Copy, PartialEq, Eq, Structural, Hash)]
pub enum TerminalReason {
    CancelledByInput,
    FocusChanged,
    DeviceRemoved,
    ConfigurationChanged,
    SessionLocked,
    TargetDestroyed,
    Superseded,
}

/// The phase an adapter is invoked with.
pub enum ActionPhase<P> {
    Invoke(P),
    Begin(P),
    Update(P),
    End,
    Cancel(TerminalReason),
}

/// A host-owned implementation of one action. It returns an optional
/// feedback message, or an error message.
pub trait ActionAdapter<C, P> {
    fn call(
        &self,
        context: &mut C,
        invocation: &ValidatedActionInvocation,
        phase: ActionPhase<P>,
    ) -> Result<Option<String>, String>;
}

/// Typed descriptors plus their host-owned invocation adapters.
pub struct ActionRegistry<A> {
    catalog: Arc<ActionCatalog>,
    adapters: StrMap<A>,
}

impl<A> ActionRegistry<A> {
    pub closed spec fn catalog_spec(&self) -> ActionCatalog {
        *self.catalog
    }

    pub closed spec fn has_adapter(&self, action: Seq<char>) -> bool {
        self.adapters.has(action)
    }

    pub fn new(catalog: Arc<ActionCatalog>) -> (r: Self)
        ensures
            r.catalog_spec() == *catalog,
            forall|a: Seq<char>| !#[trigger] r.has_adapter(a),
    {
        ActionRegistry { catalog, adapters: StrMap::new() }
    }

    pub fn catalog(&self) -> (r: &Arc<ActionCatalog>)
        ensures
            **r == self.catalog_spec(),
    {
        &self.catalog
    }

    /// Attaches an adapter to a known action that has none yet.
    pub fn register_adapter(&mut self, action: &str, adapter: A) -> (r: Result<(), String>)
        ensures
            r.is_ok() == (old(self).catalog_spec().has_action(action@) && !old(self).has_adapter(
                action@,
            )),
            final(self).catalog_spec() == old(self).catalog_spec(),
            forall|a: Seq<char>| #[trigger]
                final(self).has_adapter(a) == (old(self).has_adapter(a) || (r.is_ok() && a
                    == action@)),
    {
        proof {
            use_type_invariant(&*self.catalog);
            self.catalog.lemma_well_formed();
        }
        let descriptor = match self.catalog.descriptor(action) {
            Some(d) => d,
            None => {
                let mut message = String::from_str("cannot adapt unknown action ");
                let quoted = debug_quote_text(action);
                message.append(quoted.as_str());
                return Err(message);
            },
        };
        if self.adapters.contains_key(descriptor.id.as_str()) {
            let mut message = String::from_str("action ");
            let quoted = debug_quote_text(action);
            message.append(quoted.as_str());
            message.append(" already has an adapter");
            return Err(message);
        }
        let ghost before = self.adapters;
        let inserted = self.adapters.insert_new(String::from_str(descriptor.id.as_str()), adapter);
        proof {
            assert forall|a: Seq<char>| #[trigger] self.adapters.has(a) == (before.has(a) || a
                == action@) by {
                if a != action@ {
                    assert(self.adapters.get_spec(a) == before.get_spec(a));
                }
            }
        }
        Ok(())
    }

    pub fn adapter(&self, action: &ActionId) -> (r: Option<&A>)
        ensures
            r.is_some() == self.has_adapter(action@),
    {
        self.adapters.get(action.as_str())
    }
}

#[derive(Debug, Clone, Copy, PartialEq, Eq, Structural, Hash)]
pub struct InteractionId(u64);

impl InteractionId {
    pub closed spec fn value(self) -> u64 {
        self.0
    }
}

#[derive(Debug, Clone, Copy, PartialEq, Eq, Structural, Hash)]
pub enum ActionFeedbackKind {
    Invoked,
    Began,
    Updated,
    Ended,
    Cancelled,
}

#[derive(Debug, PartialEq, Eq)]
pub struct ActionFeedback {
    pub action: ActionId,
    pub kind: ActionFeedbackKind,
    pub message: Option<String>,
}

#[derive(Debug, PartialEq, Eq)]
pub enum DispatchError {
    WrongActionKind,
    MissingAdapter(ActionId),
    InteractionBusy,
    StaleInteraction,
    Adapter { action: ActionId, message: String },
}

/// One call handed to a host adapter: the phase's kind, the action it was
/// for, the reason of a cancel, and whether the adapter answered `Ok`.
pub struct AdapterCall {
    pub kind: ActionFeedbackKind,
    pub action: Seq<char>,
    pub reason: Option<TerminalReason>,
    pub accepted: bool,
}

/// The feedback kind that answers a phase.
pub open spec fn phase_kind<P>(phase: ActionPhase<P>) -> ActionFeedbackKind {
    match phase {
        ActionPhase::Invoke(_) => ActionFeedbackKind::Invoked,
        ActionPhase::Begin(_) => ActionFeedbackKind::Began,
        ActionPhase::Update(_) => ActionFeedbackKind::Updated,
        ActionPhase::End => ActionFeedbackKind::Ended,
        ActionPhase::Cancel(_) => ActionFeedbackKind::Cancelled,
    }
}

/// The record of handing `phase` for `action` to an adapter.
pub open spec fn handed<P>(action: Seq<char>, phase: ActionPhase<P>, accepted: bool) -> AdapterCall {
    AdapterCall {
        kind: phase_kind(phase),
        action,
        reason: match phase {
            ActionPhase::Cancel(reason) => Some(reason),
            _ => None,
        },
        accepted,
    }
}

/// What the dispatcher makes of an adapter's answer: its message becomes the
/// feedback, its error message becomes an adapter error.
pub open spec fn adapter_outcome(
    action: ActionId,
    kind: ActionFeedbackKind,
    answer: Result<Option<String>, String>,
) -> Result<ActionFeedback, DispatchError> {
    match answer {
        Ok(message) => Ok(ActionFeedback { action, kind, message }),
        Err(message) => Err(DispatchError::Adapter { action, message }),
    }
}

/// Turns an adapter's answer for `action` into the dispatcher's result.
pub fn feedback_of(
    action: &ActionId,
    kind: ActionFeedbackKind,
    answer: Result<Option<String>, String>,
) -> (r: Result<ActionFeedback, DispatchError>)
    ensures
        r == adapter_outcome(*action, kind, answer),
{
    match answer {
        Ok(message) => Ok(ActionFeedback { action: action.clone(), kind, message }),
        Err(message) => Err(DispatchError::Adapter { action: action.clone(), message }),
    }
}

fn kind_of<P>(phase: &ActionPhase<P>) -> (k: ActionFeedbackKind)
    ensures
        k == phase_kind(*phase),
{
    match phase {
        ActionPhase::Invoke(_) => ActionFeedbackKind::Invoked,
        ActionPhase::Begin(_) => ActionFeedbackKind::Began,
        ActionPhase::Update(_) => ActionFeedbackKind::Updated,
        ActionPhase::End => ActionFeedbackKind::Ended,
        ActionPhase::Cancel(_) => ActionFeedbackKind::Cancelled,
    }
}

/// Replays adapter calls: `Some(open)` when every update or terminal phase
/// belongs to an accepted begin, no begin is handed over while another is
/// open, and each accepted begin is closed by exactly one terminal phase;
/// `open` says whether the last accepted begin still awaits its terminal.
pub open spec fn bracketing(calls: Seq<AdapterCall>) -> Option<bool>
    decreases calls.len(),
{
    if calls.len() == 0 {
        Some(false)
    } else {
        match bracketing(calls.drop_last()) {
            None => None,
            Some(open) => match calls.last().kind {
                ActionFeedbackKind::Invoked => Some(open),
                ActionFeedbackKind::Began => if !open {
                    Some(calls.last().accepted)
                } else {
                    None
                },
                ActionFeedbackKind::Updated => if open {
                    Some(true)
                } else {
                    None
                },
                ActionFeedbackKind::Ended => if open {
                    Some(false)
                } else {
                    None
                },
                ActionFeedbackKind::Cancelled => if open {
                    Some(false)
                } else {
                    None
                },
            },
        }
    }
}

struct ActiveInteraction {
    id: InteractionId,
    invocation: ValidatedActionInvocation,
}

/// Central one-shot/continuous dispatcher. An accepted begin receives
/// exactly one terminal phase.
pub struct ActionDispatcher<A> {
    registry: Arc<ActionRegistry<A>>,
    active: Option<ActiveInteraction>,
    next_id: u64,
    calls: Ghost<Seq<AdapterCall>>,
}

impl<A> ActionDispatcher<A> {
    /// The adapter calls made so far, as `call` recorded them.
    pub closed spec fn adapter_calls(&self) -> Seq<AdapterCall> {
        self.calls@
    }

    pub closed spec fn active_spec(&self) -> Option<InteractionId> {
        match self.active {
            Some(a) => Some(a.id),
            None => None,
        }
    }

    pub closed spec fn active_action(&self) -> ActionId {
        self.active->0.invocation.action
    }

    pub closed spec fn next_id_spec(&self) -> u64 {
        self.next_id
    }

    pub closed spec fn registry_spec(&self) -> ActionRegistry<A> {
        *self.registry
    }

    /// Whether `action` names an action of the catalog with `kind`.
    pub open spec fn accepts(&self, action: Seq<char>, kind: ActionKind) -> bool {
        &&& self.registry_spec().catalog_spec().has_action(action)
        &&& self.registry_spec().catalog_spec().action(action).kind == kind
    }

    /// The dispatcher's validity: its call record is well bracketed and an
    /// active interaction always has an adapter.
    pub closed spec fn well_formed(&self) -> bool {
        &&& self.next_id >= 1
        &&& bracketing(self.calls@) == Some(self.active is Some)
        &&& (self.active matches Some(a) ==> self.registry.has_adapter(a.invocation.action@))
    }

    /// Every accepted begin is answered by exactly one terminal phase (end
    /// or cancel) before the next begin is handed over; updates and terminal
    /// phases only ever follow an accepted begin; and the last accepted begin
    /// is still open exactly when an interaction is active.
    pub proof fn law_one_terminal_per_accepted_begin(&self)
        requires
            self.well_formed(),
        ensures
            bracketing(self.adapter_calls()) == Some(self.active_spec() is Some),
    {
    }

    pub fn new(registry: Arc<ActionRegistry<A>>) -> (r: Self)
        ensures
            r.active_spec() is None,
            r.next_id_spec() == 1,
            r.adapter_calls() == Seq::<AdapterCall>::empty(),
            r.registry_spec() == *registry,
            r.well_formed(),
    {
        ActionDispatcher { registry, active: None, next_id: 1, calls: Ghost(Seq::empty()) }
    }

    pub fn active_id(&self) -> (r: Option<InteractionId>)
        ensures
            r == self.active_spec(),
    {
        match &self.active {
            Some(a) => Some(a.id),
            None => None,
        }
    }

    fn require_kind(&self, invocation: &ValidatedActionInvocation, expected: ActionKind) -> (r: Result<
        (),
        DispatchError,
    >)
        ensures
            r.is_ok() == self.accepts(invocation.action@, expected),
            r matches Err(e) ==> e == DispatchError::WrongActionKind,
    {
        let catalog: &ActionCatalog = &self.registry.catalog;
        match catalog.descriptor(invocation.action.as_str()) {
            Some(d) => if d.kind == expected {
                Ok(())
            } else {
                Err(DispatchError::WrongActionKind)
            },
            None => Err(DispatchError::WrongActionKind),
        }
    }

    /// Hands `phase` for `invocation` to the action's adapter, records the
    /// call, and turns the answer into the result. Without an adapter nothing
    /// is called or recorded.
    fn call<C, P>(
        &mut self,
        context: &mut C,
        invocation: &ValidatedActionInvocation,
        phase: ActionPhase<P>,
    ) -> (r: Result<ActionFeedback, DispatchError>) where A: ActionAdapter<C, P>
        ensures
            final(self).registry == old(self).registry,
            final(self).active == old(self).active,
            final(self).next_id == old(self).next_id,
            !old(self).registry_spec().has_adapter(invocation.action@) ==> r == Err::<
                ActionFeedback,
                DispatchError,
            >(DispatchError::MissingAdapter(invocation.action)) && final(self).adapter_calls()
                == old(self).adapter_calls(),
            old(self).registry_spec().has_adapter(invocation.action@) ==> final(self).adapter_calls()
                == old(self).adapter_calls().push(handed(invocation.action@, phase, r is Ok)),
            old(self).registry_spec().has_adapter(invocation.action@) ==> exists|
                answer: Result<Option<String>, String>,
            | r == #[trigger] adapter_outcome(invocation.action, phase_kind(phase), answer),
    {
        let kind = kind_of(&phase);
        let ghost record = handed(invocation.action@, phase, true);
        let answer = match self.registry.adapter(&invocation.action) {
            Some(adapter) => adapter.call(context, invocation, phase),
            None => {
                return Err(DispatchError::MissingAdapter(invocation.action.clone()));
            },
        };
        let r = feedback_of(&invocation.action, kind, answer);
        proof {
            let accepted = r is Ok;
            self.calls = Ghost(self.calls@.push(AdapterCall { accepted, ..record }));
            assert(r == adapter_outcome(invocation.action, phase_kind(phase), answer));
        }
        r
    }

    /// Runs an instant action once.
    pub fn invoke<C, P>(
        &mut self,
        context: &mut C,
        invocation: &ValidatedActionInvocation,
        payload: P,
    ) -> (r: Result<ActionFeedback, DispatchError>) where A: ActionAdapter<C, P>
        requires
            old(self).well_formed(),
        ensures
            final(self).well_formed(),
            final(self).active_spec() == old(self).active_spec(),
            final(self).next_id_spec() == old(self).next_id_spec(),
            final(self).registry_spec() == old(self).registry_spec(),
            !old(self).accepts(invocation.action@, ActionKind::Instant) ==> r == Err::<
                ActionFeedback,
                DispatchError,
            >(DispatchError::WrongActionKind) && final(self).adapter_calls() == old(self).adapter_calls(),
            old(self).accepts(invocation.action@, ActionKind::Instant) && !old(self).registry_spec().has_adapter(invocation.action@) ==> r == Err::<
                ActionFeedback,
                DispatchError,
            >(DispatchError::MissingAdapter(invocation.action)) && final(self).adapter_calls()
                == old(self).adapter_calls(),
            old(self).accepts(invocation.action@, ActionKind::Instant) && old(self).registry_spec().has_adapter(invocation.action@) ==> {
                &&& final(self).adapter_calls() == old(self).adapter_calls().push(
                    (AdapterCall {
                        kind: ActionFeedbackKind::Invoked,
                        action: invocation.action@,
                        reason: None,
                        accepted: r is Ok,
                    }),
                )
                &&& exists|answer: Result<Option<String>, String>|
                    r == #[trigger] adapter_outcome(
                        invocation.action,
                        ActionFeedbackKind::Invoked,
                        answer,
                    )
            },
    {
        self.require_kind(invocation, ActionKind::Instant)?;
        let r = self.call(context, invocation, ActionPhase::Invoke(payload));
        proof {
            let c = self.calls@;
            if c.len() > 0 && c != old(self).calls@ {
                assert(c.drop_last() =~= old(self).calls@);
            }
        }
        r
    }

    /// Starts a continuous interaction; at most one can be active.
    pub fn begin<C, P>(
        &mut self,
        context: &mut C,
        invocation: ValidatedActionInvocation,
        payload: P,
    ) -> (r: Result<(InteractionId, ActionFeedback), DispatchError>) where A: ActionAdapter<C, P>
        requires
            old(self).well_formed(),
        ensures
            final(self).well_formed(),
            final(self).registry_spec() == old(self).registry_spec(),
            !old(self).accepts(invocation.action@, ActionKind::Continuous) ==> r == Err::<
                (InteractionId, ActionFeedback),
                DispatchError,
            >(DispatchError::WrongActionKind),
            old(self).accepts(invocation.action@, ActionKind::Continuous) && old(self).active_spec() is Some ==> r == Err::<(InteractionId, ActionFeedback), DispatchError>(
                DispatchError::InteractionBusy,
            ),
            old(self).accepts(invocation.action@, ActionKind::Continuous) && old(self).active_spec() is None && !old(self).registry_spec().has_adapter(invocation.action@)
                ==> r == Err::<(InteractionId, ActionFeedback), DispatchError>(
                DispatchError::MissingAdapter(invocation.action),
            ),
            !(old(self).accepts(invocation.action@, ActionKind::Continuous) && old(self).active_spec() is None && old(self).registry_spec().has_adapter(invocation.action@))
                ==> final(self).adapter_calls() == old(self).adapter_calls(),
            old(self).accepts(invocation.action@, ActionKind::Continuous) && old(self).active_spec() is None && old(self).registry_spec().has_adapter(invocation.action@)
                ==> {
                &&& final(self).adapter_calls() == old(self).adapter_calls().push(
                    (AdapterCall {
                        kind: ActionFeedbackKind::Began,
                        action: invocation.action@,
                        reason: None,
                        accepted: r is Ok,
                    }),
                )
                &&& exists|answer: Result<Option<String>, String>|
                    #[trigger] adapter_outcome(invocation.action, ActionFeedbackKind::Began, answer)
                        == match r {
                        Ok((_, f)) => Ok::<ActionFeedback, DispatchError>(f),
                        Err(e) => Err(e),
                    }
            },
            r is Err ==> final(self).active_spec() == old(self).active_spec()
                && final(self).next_id_spec() == old(self).next_id_spec(),
            r matches Ok((id, f)) ==> {
                &&& old(self).active_spec() is None
                &&& id.value() == old(self).next_id_spec()
                &&& final(self).active_spec() == Some(id)
                &&& final(self).active_action() == invocation.action
                &&& final(self).next_id_spec() == (if old(self).next_id_spec() == u64::MAX {
                    u64::MAX
                } else {
                    (old(self).next_id_spec() + 1) as u64
                })
            },
    {
        self.require_kind(&invocation, ActionKind::Continuous)?;
        if self.active.is_some() {
            return Err(DispatchError::InteractionBusy);
        }
        let result = self.call(context, &invocation, ActionPhase::Begin(payload));
        proof {
            let c = self.calls@;
            if c.len() > 0 && c != old(self).calls@ {
                assert(c.drop_last() =~= old(self).calls@);
            }
        }
        let feedback = match result {
            Ok(feedback) => feedback,
            Err(e) => {
                return Err(e);
            },
        };
        let id = InteractionId(self.next_id);
        self.next_id = if self.next_id == u64::MAX {
            u64::MAX
        } else {
            self.next_id + 1
        };
        self.active = Some(ActiveInteraction { id, invocation });
        Ok((id, feedback))
    }

    /// Sends an update to the active interaction. If the adapter fails, the
    /// interaction is cancelled before the error is returned.
    pub fn update<C, P>(&mut self, context: &mut C, id: InteractionId, payload: P) -> (r: Result<
        ActionFeedback,
        DispatchError,
    >) where A: ActionAdapter<C, P>
        requires
            old(self).well_formed(),
        ensures
            final(self).well_formed(),
            final(self).registry_spec() == old(self).registry_spec(),
            final(self).next_id_spec() == old(self).next_id_spec(),
            old(self).active_spec() != Some(id) ==> r == Err::<ActionFeedback, DispatchError>(
                DispatchError::StaleInteraction,
            ) && final(self).active_spec() == old(self).active_spec()
                && final(self).adapter_calls() == old(self).adapter_calls(),
            old(self).active_spec() == Some(id) ==> {
                let handed_update = AdapterCall {
                    kind: ActionFeedbackKind::Updated,
                    action: old(self).active_action()@,
                    reason: None,
                    accepted: r is Ok,
                };
                &&& exists|answer: Result<Option<String>, String>|
                    r == #[trigger] adapter_outcome(
                        old(self).active_action(),
                        ActionFeedbackKind::Updated,
                        answer,
                    )
                &&& r is Ok ==> final(self).active_spec() == Some(id) && final(self).active_action()
                    == old(self).active_action() && final(self).adapter_calls() == old(self).adapter_calls().push(handed_update)
                &&& r is Err ==> final(self).active_spec() is None && final(self).adapter_calls().len()
                    == old(self).adapter_calls().len() + 2 && final(self).adapter_calls().drop_last()
                    == old(self).adapter_calls().push(handed_update) && final(self).adapter_calls().last().kind == ActionFeedbackKind::Cancelled && final(self).adapter_calls().last().action == old(self).active_action()@ && final(self).adapter_calls().last().reason == Some(TerminalReason::CancelledByInput)
            },
    {
        let invocation = match &self.active {
            Some(active) => {
                if active.id != id {
                    return Err(DispatchError::StaleInteraction);
                }
                active.invocation.clone()
            },
            None => {
                return Err(DispatchError::StaleInteraction);
            },
        };
        let result = self.call(context, &invocation, ActionPhase::Update(payload));
        proof {
            assert(self.calls@.drop_last() =~= old(self).calls@);
        }
        let ghost after_update = self.calls@;
        match result {
            Ok(feedback) => Ok(feedback),
            Err(error) => {
                let _ = self.cancel::<C, P>(context, TerminalReason::CancelledByInput);
                proof {
                    assert(self.calls@.drop_last() =~= after_update);
                }
                Err(error)
            },
        }
    }

    /// Ends the active interaction with `id`.
    pub fn end<C, P>(&mut self, context: &mut C, id: InteractionId) -> (r: Result<
        ActionFeedback,
        DispatchError,
    >) where A: ActionAdapter<C, P>
        requires
            old(self).well_formed(),
        ensures
            final(self).well_formed(),
            final(self).registry_spec() == old(self).registry_spec(),
            final(self).next_id_spec() == old(self).next_id_spec(),
            old(self).active_spec() != Some(id) ==> r == Err::<ActionFeedback, DispatchError>(
                DispatchError::StaleInteraction,
            ) && final(self).active_spec() == old(self).active_spec()
                && final(self).adapter_calls() == old(self).adapter_calls(),
            old(self).active_spec() == Some(id) ==> {
                &&& final(self).active_spec() is None
                &&& final(self).adapter_calls() == old(self).adapter_calls().push(
                    (AdapterCall {
                        kind: ActionFeedbackKind::Ended,
                        action: old(self).active_action()@,
                        reason: None,
                        accepted: r is Ok,
                    }),
                )
                &&& exists|answer: Result<Option<String>, String>|
                    r == #[trigger] adapter_outcome(
                        old(self).active_action(),
                        ActionFeedbackKind::Ended,
                        answer,
                    )
            },
    {
        let matches = match &self.active {
            Some(active) => active.id == id,
            None => false,
        };
        if !matches {
            return Err(DispatchError::StaleInteraction);
        }
        let mut taken: Option<ActiveInteraction> = None;
        std::mem::swap(&mut taken, &mut self.active);
        let active = match taken {
            Some(active) => active,
            None => {
                return Err(DispatchError::StaleInteraction);
            },
        };
        let r = self.call::<C, P>(context, &active.invocation, ActionPhase::End);
        proof {
            assert(self.calls@.drop_last() =~= old(self).calls@);
        }
        r
    }

    /// Cancels the active interaction, if any.
    pub fn cancel<C, P>(&mut self, context: &mut C, reason: TerminalReason) -> (r: Result<
        Option<ActionFeedback>,
        DispatchError,
    >) where A: ActionAdapter<C, P>
        requires
            old(self).well_formed(),
        ensures
            final(self).well_formed(),
            final(self).registry_spec() == old(self).registry_spec(),
            final(self).next_id_spec() == old(self).next_id_spec(),
            final(self).active_spec() is None,
            old(self).active_spec() is None ==> r == Ok::<Option<ActionFeedback>, DispatchError>(
                None,
            ) && final(self).adapter_calls() == old(self).adapter_calls(),
            old(self).active_spec() is Some ==> {
                &&& final(self).adapter_calls() == old(self).adapter_calls().push(
                    (AdapterCall {
                        kind: ActionFeedbackKind::Cancelled,
                        action: old(self).active_action()@,
                        reason: Some(reason),
                        accepted: r is Ok,
                    }),
                )
                &&& exists|answer: Result<Option<String>, String>|
                    #[trigger] adapter_outcome(
                        old(self).active_action(),
                        ActionFeedbackKind::Cancelled,
                        answer,
                    ) == match r {
                        Ok(Some(f)) => Ok::<ActionFeedback, DispatchError>(f),
                        Ok(None) => Err(DispatchError::StaleInteraction),
                        Err(e) => Err(e),
                    }
            },
    {
        let mut taken: Option<ActiveInteraction> = None;
        std::mem::swap(&mut taken, &mut self.active);
        let active = match taken {
            Some(active) => active,
            None => {
                return Ok(None);
            },
        };
        let result = self.call::<C, P>(context, &active.invocation, ActionPhase::Cancel(reason));
        proof {
            assert(self.calls@.drop_last() =~= old(self).calls@);
        }
        match result {
            Ok(feedback) => Ok(Some(feedback)),
            Err(e) => Err(e),
        }
    }
}

} // verus!
