//! Action catalog, invocations and the host environment.

use vstd::prelude::*;

use crate::action::trigger::DeviceClass;
use crate::action::values::{
    descriptor_valid, schema_accepts, ActionArgument, ActionDescriptor, ActionId, ActionValue,
};
use crate::strings::{debug_quote_text, debug_quoted, StrMap, StrSet};

verus! {

pub const MAX_ACTIONS: usize = 512;

/// Runtime capabilities are declarative so unavailable actions remain discoverable.
#[derive(Debug)]
pub struct ActionEnvironment {
    pub capabilities: StrSet,
    pub devices: Vec<DeviceClass>,
}

impl View for ActionEnvironment {
    /// The capabilities and the device classes present.
    type V = (Set<Seq<char>>, Set<DeviceClass>);

    open spec fn view(&self) -> (Set<Seq<char>>, Set<DeviceClass>) {
        (self.capabilities.view_set(), self.devices@.to_set())
    }
}

impl Default for ActionEnvironment {
    /// No capability and no device.
    fn default() -> (r: Self)
        ensures
            r@ == (Set::<Seq<char>>::empty(), Set::<DeviceClass>::empty()),
    {
        let r = ActionEnvironment::new();
        proof {
            assert forall|c: Seq<char>| !r@.0.contains(c) by {
                assert(!r.has_capability(c));
            }
            assert forall|d: DeviceClass| !r@.1.contains(d) by {
                assert(!r.has_device(d));
            }
            assert(r@.0 =~= Set::<Seq<char>>::empty());
            assert(r@.1 =~= Set::<DeviceClass>::empty());
        }
        r
    }
}

impl Clone for ActionEnvironment {
    fn clone(&self) -> (r: Self)
        ensures
            r@ == self@,
            r.capabilities.item_seq() == self.capabilities.item_seq(),
            r.devices@ == self.devices@,
    {
        let mut devices: Vec<DeviceClass> = Vec::new();
        let mut i: usize = 0;
        while i < self.devices.len()
            invariant
                i <= self.devices@.len(),
                devices@ == self.devices@.take(i as int),
            decreases self.devices@.len() - i,
        {
            devices.push(self.devices[i]);
            i = i + 1;
            proof {
                assert(devices@ =~= self.devices@.take(i as int));
            }
        }
        proof {
            assert(devices@ =~= self.devices@);
        }
        ActionEnvironment { capabilities: self.capabilities.clone(), devices }
    }
}

/// Over an environment's view, `with_device` is a union with the one
/// device and leaves the capabilities as they were, so the order in which
/// devices are added does not matter.
pub proof fn law_with_device_union_commutes(env: (Set<Seq<char>>, Set<DeviceClass>), a: DeviceClass, b: DeviceClass)
    ensures
        (env.0, env.1.insert(a).insert(b)) == (env.0, env.1.insert(b).insert(a)),
        env.1.insert(a) == env.1.union(set![a]),
{
    assert(env.1.insert(a).insert(b) =~= env.1.insert(b).insert(a));
    assert(env.1.insert(a) =~= env.1.union(set![a]));
}

impl ActionEnvironment {
    pub open spec fn has_device(&self, d: DeviceClass) -> bool {
        self.devices@.contains(d)
    }

    pub open spec fn has_capability(&self, c: Seq<char>) -> bool {
        self.capabilities.view_set().contains(c)
    }

    /// An environment with no capability and no device.
    pub fn new() -> (r: Self)
        ensures
            forall|c: Seq<char>| !#[trigger] r.has_capability(c),
            forall|d: DeviceClass| !#[trigger] r.has_device(d),
    {
        ActionEnvironment { capabilities: StrSet::new(), devices: Vec::new() }
    }

    pub fn with_capability(self, capability: &str) -> (r: Self)
        ensures
            r@ == (self@.0.insert(capability@), self@.1),
            r.capabilities.view_set() == self.capabilities.view_set().insert(capability@),
            r.devices@ == self.devices@,
    {
        let mut this = self;
        this.capabilities.insert(String::from_str(capability));
        this
    }

    pub fn with_device(self, device: DeviceClass) -> (r: Self)
        ensures
            r@ == (self@.0, self@.1.insert(device)),
            r.capabilities == self.capabilities,
            forall|d: DeviceClass| #[trigger] r.has_device(d) == (self.has_device(d) || d == device),
    {
        let mut this = self;
        if !contains_device(&this.devices, device) {
            this.devices.push(device);
        }
        proof {
            assert forall|d: DeviceClass| #[trigger] this.has_device(d) == (self.has_device(d) || d
                == device) by {
                if this.has_device(d) && !self.has_device(d) {
                    let i = choose|i: int| 0 <= i < this.devices@.len() && this.devices@[i] == d;
                    if i < self.devices@.len() {
                        assert(self.devices@[i] == d);
                    }
                }
                if self.has_device(d) {
                    let i = choose|i: int| 0 <= i < self.devices@.len() && self.devices@[i] == d;
                    assert(this.devices@[i] == d);
                }
                if d == device && !self.has_device(d) {
                    assert(this.devices@[this.devices@.len() - 1] == d);
                }
            }
            assert forall|d: DeviceClass| #[trigger] this.devices@.to_set().contains(d)
                == self.devices@.to_set().insert(device).contains(d) by {
                assert(this.has_device(d) == (self.has_device(d) || d == device));
            }
            assert(this.devices@.to_set() =~= self.devices@.to_set().insert(device));
        }
        this
    }

    /// Every required capability is present.
    pub open spec fn supports_action_spec(&self, d: ActionDescriptor) -> bool {
        forall|c: Seq<char>|
            #[trigger] d.required_capabilities.view_set().contains(c) ==> self.has_capability(c)
    }

    /// A device class is present; any-pointer is satisfied by any pointer.
    pub open spec fn supports_device_spec(&self, device: DeviceClass) -> bool {
        if device == DeviceClass::AnyPointer {
            self.has_device(DeviceClass::Mouse) || self.has_device(DeviceClass::Touchpad)
                || self.has_device(DeviceClass::AnyPointer)
        } else {
            self.has_device(device)
        }
    }

    pub fn supports_action(&self, descriptor: &ActionDescriptor) -> (r: bool)
        ensures
            r == self.supports_action_spec(*descriptor),
    {
        let n = descriptor.required_capabilities.len();
        let mut i: usize = 0;
        while i < n
            invariant
                n == descriptor.required_capabilities.item_seq().len(),
                i <= n,
                forall|j: int|
                    0 <= j < i ==> self.has_capability(
                        #[trigger] descriptor.required_capabilities.item_seq()[j],
                    ),
            decreases n - i,
        {
            let capability = descriptor.required_capabilities.item_at(i);
            if !self.capabilities.contains(capability.as_str()) {
                proof {
                    assert(descriptor.required_capabilities.view_set().contains(capability@));
                }
                return false;
            }
            i = i + 1;
        }
        proof {
            assert forall|c: Seq<char>|
                #[trigger] descriptor.required_capabilities.view_set().contains(c) implies self.has_capability(
                c,
            ) by {
                let j = choose|j: int|
                    0 <= j < n && descriptor.required_capabilities.item_seq()[j] == c;
                assert(self.has_capability(descriptor.required_capabilities.item_seq()[j]));
            }
        }
        true
    }

    pub fn supports_device(&self, device: DeviceClass) -> (r: bool)
        ensures
            r == self.supports_device_spec(device),
    {
        if device == DeviceClass::AnyPointer {
            contains_device(&self.devices, DeviceClass::Mouse) || contains_device(
                &self.devices,
                DeviceClass::Touchpad,
            ) || contains_device(&self.devices, DeviceClass::AnyPointer)
        } else {
            contains_device(&self.devices, device)
        }
    }
}

fn contains_device(devices: &Vec<DeviceClass>, device: DeviceClass) -> (r: bool)
    ensures
        r == devices@.contains(device),
{
    let mut i: usize = 0;
    while i < devices.len()
        invariant
            i <= devices@.len(),
            forall|j: int| 0 <= j < i ==> devices@[j] != device,
        decreases devices@.len() - i,
    {
        if devices[i] == device {
            return true;
        }
        i = i + 1;
    }
    false
}

/// A request to run an action with named arguments.
#[derive(Debug)]
pub struct ActionInvocation {
    pub action: String,
    pub arguments: StrMap<ActionValue>,
}

impl ActionInvocation {
    pub fn new(action: &str) -> (r: Self)
        ensures
            r.action@ == action@,
            forall|k: Seq<char>| !#[trigger] r.arguments.has(k),
            r.arguments.key_seq().len() == 0,
            r.arguments.value_seq().len() == 0,
    {
        let arguments = StrMap::new();
        proof {
            use_type_invariant(&arguments);
            arguments.lemma_shape();
        }
        ActionInvocation { action: String::from_str(action), arguments }
    }

    pub fn with_argument(self, name: &str, value: ActionValue) -> (r: Self)
        ensures
            r.action == self.action,
            r.arguments.get_spec(name@) == Some(value),
            forall|k: Seq<char>| k != name@ ==> #[trigger] r.arguments.get_spec(k) == self.arguments.get_spec(k),
            self.arguments.key_seq().len() == 0 ==> r.arguments.key_seq() == seq![name@]
                && r.arguments.value_seq() == seq![value],
    {
        let ghost v = value;
        let mut this = self;
        this.arguments.insert(String::from_str(name), value);
        proof {
            use_type_invariant(&this.arguments);
            this.arguments.lemma_shape();
            if self.arguments.key_seq().len() == 0 {
                this.arguments.lemma_has_index(name@);
                assert(this.arguments.key_seq() =~= seq![name@]);
                assert(this.arguments.value_seq() =~= seq![v]);
            }
        }
        this
    }
}

impl Clone for ActionInvocation {
    fn clone(&self) -> (r: Self)
        ensures
            r.action == self.action,
            r.arguments.key_seq() == self.arguments.key_seq(),
            r.arguments.value_seq() == self.arguments.value_seq(),
    {
        let arguments = self.arguments.clone();
        proof {
            assert(arguments.value_seq() =~= self.arguments.value_seq());
        }
        ActionInvocation { action: self.action.clone(), arguments }
    }
}

/// An invocation whose action exists and whose arguments were checked.
#[derive(Debug, PartialEq)]
pub struct ValidatedActionInvocation {
    pub action: ActionId,
    pub arguments: StrMap<ActionValue>,
}

impl ValidatedActionInvocation {
    pub fn string(&self, name: &str) -> (r: Option<&str>)
        ensures
            match self.arguments.get_spec(name@) {
                Some(ActionValue::String(s)) => r matches Some(t) && t@ == s@,
                _ => r is None,
            },
    {
        match self.arguments.get(name) {
            Some(value) => value.as_str(),
            None => None,
        }
    }

    pub fn integer(&self, name: &str) -> (r: Option<i64>)
        ensures
            match self.arguments.get_spec(name@) {
                Some(ActionValue::Integer(i)) => r == Some(i),
                _ => r is None,
            },
    {
        match self.arguments.get(name) {
            Some(value) => value.as_i64(),
            None => None,
        }
    }
}

impl Clone for ValidatedActionInvocation {
    fn clone(&self) -> (r: Self)
        ensures
            r.action == self.action,
            r.arguments.key_seq() == self.arguments.key_seq(),
            r.arguments.value_seq() == self.arguments.value_seq(),
    {
        let arguments = self.arguments.clone();
        proof {
            assert(arguments.value_seq() =~= self.arguments.value_seq());
        }
        ValidatedActionInvocation { action: self.action.clone(), arguments }
    }
}

/// The value an argument takes in an invocation: the supplied one, else its
/// default.
pub open spec fn resolved_argument(
    argument: ActionArgument,
    keys: Seq<Seq<char>>,
    values: Seq<ActionValue>,
    name: Seq<char>,
) -> Option<ActionValue> {
    if keys.contains(name) {
        Some(values[keys.index_of(name)])
    } else {
        argument.default
    }
}

/// No unknown argument is supplied; each declared argument resolves to a
/// value its schema accepts, or is absent and optional.
pub open spec fn invocation_valid_for(
    d: ActionDescriptor,
    keys: Seq<Seq<char>>,
    values: Seq<ActionValue>,
) -> bool {
    &&& forall|k: Seq<char>| #[trigger] keys.contains(k) ==> d.arguments.has(k)
    &&& forall|k: Seq<char>|
        #[trigger] d.arguments.has(k) ==> match resolved_argument(
            d.arguments.lookup(k),
            keys,
            values,
            k,
        ) {
            Some(v) => schema_accepts(d.arguments.lookup(k).schema@, v@),
            None => !d.arguments.lookup(k).required,
        }
}

/// Declared argument `j` of `d` resolves acceptably for the supplied keys and values.
pub open spec fn argument_ok(d: ActionDescriptor, keys: Seq<Seq<char>>, values: Seq<ActionValue>, j: int) -> bool {
    let k = d.arguments.key_seq()[j];
    let a = d.arguments.value_seq()[j];
    match resolved_argument(a, keys, values, k) {
        Some(v) => schema_accepts(a.schema@, v@),
        None => !a.required,
    }
}

/// The first supplied key from position `i` on that `d` does not declare.
pub open spec fn first_unknown_argument(d: ActionDescriptor, keys: Seq<Seq<char>>, i: int) -> Option<int>
    decreases keys.len() - i,
{
    if i < 0 || i >= keys.len() {
        None
    } else if !d.arguments.has(keys[i]) {
        Some(i)
    } else {
        first_unknown_argument(d, keys, i + 1)
    }
}

/// The first declared argument from position `i` on that does not resolve acceptably.
pub open spec fn first_failing_argument(
    d: ActionDescriptor,
    keys: Seq<Seq<char>>,
    values: Seq<ActionValue>,
    i: int,
) -> Option<int>
    decreases d.arguments.key_seq().len() - i,
{
    if i < 0 || i >= d.arguments.key_seq().len() {
        None
    } else if !argument_ok(d, keys, values, i) {
        Some(i)
    } else {
        first_failing_argument(d, keys, values, i + 1)
    }
}

/// The message that refuses an invocation of `d`: the first unknown argument,
/// else the first declared argument that is missing or refused by its schema.
pub open spec fn invocation_error(d: ActionDescriptor, keys: Seq<Seq<char>>, values: Seq<ActionValue>) -> Seq<char> {
    match first_unknown_argument(d, keys, 0) {
        Some(s) => "unknown argument "@ + debug_quoted(keys[s]) + " for action "@ + d.id@,
        None => match first_failing_argument(d, keys, values, 0) {
            Some(j) => {
                let name = d.arguments.key_seq()[j];
                let a = d.arguments.value_seq()[j];
                if resolved_argument(a, keys, values, name) is None {
                    "missing required argument "@ + debug_quoted(name) + " for action "@ + d.id@
                } else {
                    "invalid argument "@ + d.id@ + "."@ + name + ": "@
                        + "value does not satisfy the argument schema"@
                }
            },
            None => Seq::empty(),
        },
    }
}

proof fn lemma_first_unknown_skip(d: ActionDescriptor, keys: Seq<Seq<char>>, i: int, s: int)
    requires
        0 <= i <= s <= keys.len(),
        forall|j: int| i <= j < s ==> d.arguments.has(#[trigger] keys[j]),
    ensures
        first_unknown_argument(d, keys, i) == first_unknown_argument(d, keys, s),
    decreases s - i,
{
    if i < s {
        lemma_first_unknown_skip(d, keys, i + 1, s);
    }
}

proof fn lemma_first_failing_skip(
    d: ActionDescriptor,
    keys: Seq<Seq<char>>,
    values: Seq<ActionValue>,
    i: int,
    s: int,
)
    requires
        0 <= i <= s <= d.arguments.key_seq().len(),
        forall|j: int| i <= j < s ==> #[trigger] argument_ok(d, keys, values, j),
    ensures
        first_failing_argument(d, keys, values, i) == first_failing_argument(d, keys, values, s),
    decreases s - i,
{
    if i < s {
        assert(argument_ok(d, keys, values, i));
        lemma_first_failing_skip(d, keys, values, i + 1, s);
    }
}

/// Read-only action metadata and validation shared by every consumer.
#[derive(Debug)]
pub struct ActionCatalog {
    actions: StrMap<ActionDescriptor>,
}

impl ActionCatalog {
    pub closed spec fn table(&self) -> StrMap<ActionDescriptor> {
        self.actions
    }

    #[verifier::type_invariant]
    pub closed spec fn well_formed(&self) -> bool {
        &&& self.actions.key_seq().len() <= MAX_ACTIONS
        &&& forall|k: Seq<char>| #[trigger]
            self.actions.has(k) ==> self.actions.lookup(k).id@ == k && descriptor_valid(
                self.actions.lookup(k),
            )
    }

    pub open spec fn has_action(&self, id: Seq<char>) -> bool {
        self.table().has(id)
    }

    pub open spec fn action(&self, id: Seq<char>) -> ActionDescriptor {
        self.table().lookup(id)
    }

    pub open spec fn size(&self) -> nat {
        self.table().key_seq().len()
    }

    pub proof fn lemma_well_formed(&self)
        requires
            self.well_formed(),
        ensures
            self.size() <= MAX_ACTIONS,
            forall|k: Seq<char>| #[trigger]
                self.has_action(k) ==> self.action(k).id@ == k && descriptor_valid(self.action(k)),
    {
    }

    pub fn new() -> (r: Self)
        ensures
            r.size() == 0,
            forall|k: Seq<char>| !#[trigger] r.has_action(k),
    {
        ActionCatalog { actions: StrMap::new() }
    }

    /// Adds a valid descriptor under a new id, within the catalog limit.
    pub fn register(&mut self, descriptor: ActionDescriptor) -> (r: Result<(), String>)
        ensures
            r.is_ok() == (descriptor_valid(descriptor) && old(self).size() < MAX_ACTIONS
                && !old(self).has_action(descriptor.id@)),
            r.is_ok() ==> final(self).has_action(descriptor.id@) && final(self).action(descriptor.id@)
                == descriptor && final(self).size() == old(self).size() + 1 && forall|k: Seq<char>|
                k != descriptor.id@ ==> #[trigger] final(self).table().get_spec(k) == old(self).table().get_spec(k),
            r.is_err() ==> *final(self) == *old(self),
    {
        proof {
            use_type_invariant(&*self);
        }
        descriptor.validate()?;
        if self.actions.len() >= MAX_ACTIONS {
            return Err(String::from_str("action catalog exceeds 512 entries"));
        }
        if self.actions.contains_key(descriptor.id.as_str()) {
            let mut message = String::from_str("duplicate action ");
            message.append(descriptor.id.as_str());
            return Err(message);
        }
        let ghost old_actions = self.actions;
        let ghost id = descriptor.id@;
        let key = String::from_str(descriptor.id.as_str());
        let mut actions = StrMap::new();
        std::mem::swap(&mut actions, &mut self.actions);
        let _ = actions.insert_new(key, descriptor);
        proof {
            assert forall|k: Seq<char>| #[trigger] actions.has(k) implies actions.lookup(k).id@ == k
                && descriptor_valid(actions.lookup(k)) by {
                if k != id {
                    assert(actions.get_spec(k) == old_actions.get_spec(k));
                    assert(old_actions.has(k));
                }
            }
        }
        self.actions = actions;
        Ok(())
    }

    pub fn descriptor(&self, id: &str) -> (r: Option<&ActionDescriptor>)
        ensures
            r.is_some() == self.has_action(id@),
            r matches Some(d) ==> *d == self.action(id@),
    {
        self.actions.get(id)
    }

    /// All descriptors in ascending id order.
    pub fn descriptors(&self) -> (r: Vec<&ActionDescriptor>)
        ensures
            r@.len() == self.size(),
            forall|i: int| 0 <= i < r@.len() ==> *#[trigger] r@[i] == self.table().value_seq()[i],
    {
        let n = self.actions.len();
        let mut r: Vec<&ActionDescriptor> = Vec::new();
        let mut i: usize = 0;
        while i < n
            invariant
                n == self.actions.key_seq().len(),
                i <= n,
                r@.len() == i,
                forall|j: int| 0 <= j < i ==> *#[trigger] r@[j] == self.actions.value_seq()[j],
            decreases n - i,
        {
            r.push(self.actions.value_at(i));
            i = i + 1;
        }
        r
    }

    /// Checks an invocation against its descriptor and fills in defaults.
    pub fn validate_invocation(&self, invocation: &ActionInvocation) -> (r: Result<
        ValidatedActionInvocation,
        String,
    >)
        ensures
            r.is_ok() == (self.has_action(invocation.action@) && invocation_valid_for(
                self.action(invocation.action@),
                invocation.arguments.key_seq(),
                invocation.arguments.value_seq(),
            )),
            r matches Err(m) ==> m@ == if !self.has_action(invocation.action@) {
                "unknown action "@ + debug_quoted(invocation.action@)
            } else {
                invocation_error(
                    self.action(invocation.action@),
                    invocation.arguments.key_seq(),
                    invocation.arguments.value_seq(),
                )
            },
            r matches Ok(v) ==> v.action@ == invocation.action@ && forall|k: Seq<char>|
                #[trigger] v.arguments.get_spec(k) == (if self.action(invocation.action@).arguments.has(
                    k,
                ) {
                    resolved_argument(
                        self.action(invocation.action@).arguments.lookup(k),
                        invocation.arguments.key_seq(),
                        invocation.arguments.value_seq(),
                        k,
                    )
                } else {
                    None
                }),
    {
        proof {
            use_type_invariant(self);
        }
        let descriptor = match self.descriptor(invocation.action.as_str()) {
            Some(d) => d,
            None => {
                let mut message = String::from_str("unknown action ");
                let quoted = debug_quote_text(invocation.action.as_str());
                message.append(quoted.as_str());
                return Err(message);
            },
        };
        proof {
            use_type_invariant(&invocation.arguments);
            use_type_invariant(&descriptor.arguments);
            invocation.arguments.lemma_shape();
            descriptor.arguments.lemma_shape();
        }
        let supplied_count = invocation.arguments.len();
        let mut s: usize = 0;
        while s < supplied_count
            invariant
                self.has_action(invocation.action@),
                *descriptor == self.action(invocation.action@),
                supplied_count == invocation.arguments.key_seq().len(),
                s <= supplied_count,
                forall|j: int|
                    0 <= j < s ==> descriptor.arguments.has(#[trigger] invocation.arguments.key_seq()[j]),
            decreases supplied_count - s,
        {
            let supplied = invocation.arguments.key_at(s);
            if !descriptor.arguments.contains_key(supplied.as_str()) {
                proof {
                    assert(invocation.arguments.key_seq().contains(supplied@));
                    assert(invocation.arguments.has(supplied@));
                    lemma_first_unknown_skip(*descriptor, invocation.arguments.key_seq(), 0, s as int);
                }
                let mut message = String::from_str("unknown argument ");
                let quoted = debug_quote_text(supplied.as_str());
                message.append(quoted.as_str());
                message.append(" for action ");
                message.append(descriptor.id.as_str());
                return Err(message);
            }
            s = s + 1;
        }
        proof {
            lemma_first_unknown_skip(*descriptor, invocation.arguments.key_seq(), 0, s as int);
        }
        let n = descriptor.arguments.len();
        let mut arguments: StrMap<ActionValue> = StrMap::new();
        let mut i: usize = 0;
        while i < n
            invariant
                self.has_action(invocation.action@),
                *descriptor == self.action(invocation.action@),
                n == descriptor.arguments.key_seq().len(),
                n == descriptor.arguments.value_seq().len(),
                descriptor.arguments.sorted(),
                i <= n,
                forall|j: int| 0 <= j < i ==> #[trigger] argument_ok_in(*descriptor, *invocation, j),
                first_unknown_argument(*descriptor, invocation.arguments.key_seq(), 0) is None,
                forall|k: Seq<char>| #[trigger]
                    arguments.get_spec(k) == (if descriptor.arguments.key_seq().take(i as int).contains(
                        k,
                    ) {
                        resolved_argument(descriptor.arguments.lookup(k), invocation.arguments.key_seq(), invocation.arguments.value_seq(), k)
                    } else {
                        None
                    }),
            decreases n - i,
        {
            let name = descriptor.arguments.key_at(i);
            let argument = descriptor.arguments.value_at(i);
            proof {
                descriptor.arguments.lemma_index_of_at(i as int);
            }
            let value = match invocation.arguments.get(name.as_str()) {
                Some(v) => Some(v.clone()),
                None => match &argument.default {
                    Some(d) => Some(d.clone()),
                    None => None,
                },
            };
            assert(value == resolved_argument(*argument, invocation.arguments.key_seq(), invocation.arguments.value_seq(), name@));
            let ghost take_before = descriptor.arguments.key_seq().take(i as int);
            let ghost before = arguments;
            match value {
                None => {
                    if argument.required {
                        proof {
                            assert forall|j: int| 0 <= j < i implies #[trigger] argument_ok(*descriptor, invocation.arguments.key_seq(), invocation.arguments.value_seq(), j) by {
                                assert(argument_ok_in(*descriptor, *invocation, j));
                            }
                            lemma_first_failing_skip(*descriptor, invocation.arguments.key_seq(), invocation.arguments.value_seq(), 0, i as int);
                        }
                        let mut message = String::from_str("missing required argument ");
                        let quoted = debug_quote_text(name.as_str());
                        message.append(quoted.as_str());
                        message.append(" for action ");
                        message.append(descriptor.id.as_str());
                        return Err(message);
                    }
                },
                Some(v) => {
                    if let Err(error) = argument.schema.validate(&v) {
                        proof {
                            assert forall|j: int| 0 <= j < i implies #[trigger] argument_ok(*descriptor, invocation.arguments.key_seq(), invocation.arguments.value_seq(), j) by {
                                assert(argument_ok_in(*descriptor, *invocation, j));
                            }
                            lemma_first_failing_skip(*descriptor, invocation.arguments.key_seq(), invocation.arguments.value_seq(), 0, i as int);
                        }
                        let mut message = String::from_str("invalid argument ");
                        message.append(descriptor.id.as_str());
                        message.append(".");
                        message.append(name.as_str());
                        message.append(": ");
                        message.append(error.as_str());
                        return Err(message);
                    }
                    arguments.insert(name.clone(), v);
                },
            }
            proof {
                let take_after = descriptor.arguments.key_seq().take(i + 1);
                assert(take_after =~= take_before.push(name@));
                assert(!take_before.contains(name@)) by {
                    if take_before.contains(name@) {
                        let j = choose|j: int| 0 <= j < take_before.len() && take_before[j] == name@;
                        descriptor.arguments.lemma_shape();
                        lemma_text_lt_irreflexive_at(descriptor.arguments.key_seq(), j, i as int);
                    }
                }
                assert forall|k: Seq<char>| #[trigger]
                    arguments.get_spec(k) == (if take_after.contains(k) {
                        resolved_argument(descriptor.arguments.lookup(k), invocation.arguments.key_seq(), invocation.arguments.value_seq(), k)
                    } else {
                        None
                    }) by {
                    if k != name@ {
                        assert(arguments.get_spec(k) == before.get_spec(k));
                        assert(take_after.contains(k) == take_before.contains(k)) by {
                            if take_after.contains(k) {
                                let j = choose|j: int| 0 <= j < take_after.len() && take_after[j] == k;
                                assert(take_before[j] == k);
                            }
                        }
                    } else {
                        assert(take_after[i as int] == k);
                    }
                }
                assert(argument_ok_in(*descriptor, *invocation, i as int));
            }
            i = i + 1;
        }
        proof {
            assert(descriptor.arguments.key_seq().take(n as int) =~= descriptor.arguments.key_seq());
            assert forall|k: Seq<char>| #[trigger] invocation.arguments.key_seq().contains(k) implies descriptor.arguments.has(
                k,
            ) by {
                invocation.arguments.lemma_has_index(k);
                let j = invocation.arguments.index_of_key(k);
                assert(descriptor.arguments.has(invocation.arguments.key_seq()[j]));
            }
            assert forall|k: Seq<char>| #[trigger] descriptor.arguments.has(k) implies match resolved_argument(
                descriptor.arguments.lookup(k),
                invocation.arguments.key_seq(),
                invocation.arguments.value_seq(),
                k,
            ) {
                Some(v) => schema_accepts(descriptor.arguments.lookup(k).schema@, v@),
                None => !descriptor.arguments.lookup(k).required,
            } by {
                descriptor.arguments.lemma_has_index(k);
                let j = descriptor.arguments.index_of_key(k);
                assert(argument_ok_in(*descriptor, *invocation, j));
            }
            assert forall|k: Seq<char>| #[trigger]
                arguments.get_spec(k) == (if descriptor.arguments.has(k) {
                    resolved_argument(descriptor.arguments.lookup(k), invocation.arguments.key_seq(), invocation.arguments.value_seq(), k)
                } else {
                    None
                }) by {
                assert(descriptor.arguments.key_seq().take(n as int).contains(k)
                    == descriptor.arguments.has(k));
            }
        }
        Ok(ValidatedActionInvocation { action: descriptor.id.clone(), arguments })
    }
}

/// The declared argument at index `j` is satisfied by the invocation.
pub open spec fn argument_ok_in(d: ActionDescriptor, inv: ActionInvocation, j: int) -> bool {
    let k = d.arguments.key_seq()[j];
    let a = d.arguments.value_seq()[j];
    match resolved_argument(a, inv.arguments.key_seq(), inv.arguments.value_seq(), k) {
        Some(v) => schema_accepts(a.schema@, v@),
        None => !a.required,
    }
}

proof fn lemma_text_lt_irreflexive_at(keys: Seq<Seq<char>>, j: int, i: int)
    requires
        crate::strings::strictly_sorted(keys),
        0 <= j < i < keys.len(),
    ensures
        keys[j] != keys[i],
{
    crate::strings::lemma_text_lt_irreflexive(keys[j]);
}

} // verus!
