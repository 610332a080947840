//! Action identifiers, argument values, schemas and descriptors.

use vstd::prelude::*;
use vstd::utf8::encode_utf8;

use crate::action::ident::{valid_identifier, validate_identifier, MAX_IDENTIFIER_BYTES};
use crate::strings::{byte_len, debug_quote_text, trim_text, trimmed, StrMap, StrSet};

verus! {

pub const MAX_ARGUMENTS: usize = 32;
pub const MAX_DOCUMENT_BYTES: usize = 1_048_576;
pub const MAX_DESCRIPTION_BYTES: usize = 4096;
pub const MAX_CHOICES: usize = 256;

/// Stable identifier used by configuration, Settings and the dispatcher.
#[derive(Debug, PartialEq, Eq, Hash)]
pub struct ActionId(String);

impl View for ActionId {
    type V = Seq<char>;

    open spec fn view(&self) -> Seq<char> {
        self.text()
    }
}

impl ActionId {
    pub closed spec fn text(&self) -> Seq<char> {
        self.0@
    }

    #[verifier::type_invariant]
    pub closed spec fn well_formed(&self) -> bool {
        valid_identifier(self.0@)
    }

    pub fn new(value: &str) -> (r: Result<Self, String>)
        ensures
            r.is_ok() == valid_identifier(value@),
            r matches Ok(id) ==> id@ == value@,
    {
        match validate_identifier("action", value) {
            Ok(()) => Ok(ActionId(String::from_str(value))),
            Err(e) => Err(e),
        }
    }

    pub fn as_str(&self) -> (r: &str)
        ensures
            r@ == self@,
    {
        self.0.as_str()
    }
}

impl Clone for ActionId {
    fn clone(&self) -> (r: Self)
        ensures
            r == *self,
    {
        proof {
            use_type_invariant(self);
        }
        ActionId(self.0.clone())
    }
}

/// Scalar values accepted by the action grammar. No variant can contain code.
#[derive(Debug, PartialEq)]
pub enum ActionValue {
    Boolean(bool),
    Integer(i64),
    String(String),
}

/// The mathematical content of an [`ActionValue`].
pub enum ValueV {
    Boolean(bool),
    Integer(i64),
    Text(Seq<char>),
}

impl View for ActionValue {
    type V = ValueV;

    open spec fn view(&self) -> ValueV {
        match self {
            ActionValue::Boolean(b) => ValueV::Boolean(*b),
            ActionValue::Integer(i) => ValueV::Integer(*i),
            ActionValue::String(s) => ValueV::Text(s@),
        }
    }
}

impl Clone for ActionValue {
    fn clone(&self) -> (r: Self)
        ensures
            r == *self,
    {
        match self {
            ActionValue::Boolean(b) => ActionValue::Boolean(*b),
            ActionValue::Integer(i) => ActionValue::Integer(*i),
            ActionValue::String(s) => ActionValue::String(s.clone()),
        }
    }
}

impl ActionValue {
    pub fn as_str(&self) -> (r: Option<&str>)
        ensures
            match self@ {
                ValueV::Text(t) => r matches Some(s) && s@ == t,
                _ => r is None,
            },
    {
        match self {
            ActionValue::String(value) => Some(value.as_str()),
            _ => None,
        }
    }

    pub fn as_i64(&self) -> (r: Option<i64>)
        ensures
            match self@ {
                ValueV::Integer(i) => r == Some(i),
                _ => r is None,
            },
    {
        match self {
            ActionValue::Integer(value) => Some(*value),
            _ => None,
        }
    }
}

/// Closed validation schema for one configured action argument.
#[derive(Debug, PartialEq)]
pub enum ActionValueSchema {
    Boolean,
    Integer { minimum: i64, maximum: i64 },
    String { maximum_bytes: usize },
    Choice { values: Vec<String> },
}

pub enum SchemaV {
    Boolean,
    Integer { minimum: i64, maximum: i64 },
    Text { maximum_bytes: usize },
    Choice { values: Seq<Seq<char>> },
}

impl View for ActionValueSchema {
    type V = SchemaV;

    open spec fn view(&self) -> SchemaV {
        match self {
            ActionValueSchema::Boolean => SchemaV::Boolean,
            ActionValueSchema::Integer { minimum, maximum } => SchemaV::Integer {
                minimum: *minimum,
                maximum: *maximum,
            },
            ActionValueSchema::String { maximum_bytes } => SchemaV::Text {
                maximum_bytes: *maximum_bytes,
            },
            ActionValueSchema::Choice { values } => SchemaV::Choice {
                values: values@.map_values(|v: String| v@),
            },
        }
    }
}

/// Whether `value` satisfies `schema`.
pub open spec fn schema_accepts(schema: SchemaV, value: ValueV) -> bool {
    match (schema, value) {
        (SchemaV::Boolean, ValueV::Boolean(_)) => true,
        (SchemaV::Integer { minimum, maximum }, ValueV::Integer(v)) => minimum <= v <= maximum,
        (SchemaV::Text { maximum_bytes }, ValueV::Text(t)) => encode_utf8(t).len() <= maximum_bytes,
        (SchemaV::Choice { values }, ValueV::Text(t)) => values.contains(t),
        _ => false,
    }
}

/// Whether a schema is itself well defined.
pub open spec fn schema_definition_valid(schema: SchemaV) -> bool {
    match schema {
        SchemaV::Integer { minimum, maximum } => minimum <= maximum,
        SchemaV::Text { maximum_bytes } => 0 < maximum_bytes <= MAX_DOCUMENT_BYTES,
        SchemaV::Choice { values } => {
            &&& 1 <= values.len() <= MAX_CHOICES
            &&& values.no_duplicates()
            &&& forall|i: int|
                0 <= i < values.len() ==> #[trigger] values[i].len() > 0 && encode_utf8(values[i]).len()
                    <= MAX_IDENTIFIER_BYTES
        },
        _ => true,
    }
}

fn text_in(values: &Vec<String>, value: &String) -> (r: bool)
    ensures
        r == values@.map_values(|v: String| v@).contains(value@),
{
    let ghost vs = values@.map_values(|v: String| v@);
    let mut i: usize = 0;
    while i < values.len()
        invariant
            i <= values@.len(),
            vs == values@.map_values(|v: String| v@),
            forall|j: int| 0 <= j < i ==> vs[j] != value@,
        decreases values@.len() - i,
    {
        if values[i].eq(value) {
            assert(vs[i as int] == value@);
            return true;
        }
        i = i + 1;
    }
    false
}

impl Clone for ActionValueSchema {
    fn clone(&self) -> (r: Self)
        ensures
            r@ == self@,
    {
        match self {
            ActionValueSchema::Boolean => ActionValueSchema::Boolean,
            ActionValueSchema::Integer { minimum, maximum } => ActionValueSchema::Integer {
                minimum: *minimum,
                maximum: *maximum,
            },
            ActionValueSchema::String { maximum_bytes } => ActionValueSchema::String {
                maximum_bytes: *maximum_bytes,
            },
            ActionValueSchema::Choice { values } => {
                let rv = values.clone();
                proof {
                    assert(rv@.map_values(|v: String| v@) =~= values@.map_values(|v: String| v@)) by {
                        assert forall|i: int| 0 <= i < rv@.len() implies rv@[i] == values@[i] by {
                            assert(cloned(values@[i], rv@[i]));
                        }
                    }
                }
                ActionValueSchema::Choice { values: rv }
            },
        }
    }
}

impl ActionValueSchema {
    pub fn validate(&self, value: &ActionValue) -> (r: Result<(), String>)
        ensures
            r.is_ok() == schema_accepts(self@, value@),
            r matches Err(m) ==> m@ == "value does not satisfy the argument schema"@,
    {
        let ok = match (self, value) {
            (ActionValueSchema::Boolean, ActionValue::Boolean(_)) => true,
            (ActionValueSchema::Integer { minimum, maximum }, ActionValue::Integer(v)) => *minimum
                <= *v && *v <= *maximum,
            (ActionValueSchema::String { maximum_bytes }, ActionValue::String(v)) => byte_len(
                v.as_str(),
            ) <= *maximum_bytes,
            (ActionValueSchema::Choice { values }, ActionValue::String(v)) => text_in(values, v),
            _ => false,
        };
        if ok {
            Ok(())
        } else {
            Err(String::from_str("value does not satisfy the argument schema"))
        }
    }

    pub fn validate_definition(&self) -> (r: Result<(), String>)
        ensures
            r.is_ok() == schema_definition_valid(self@),
    {
        match self {
            ActionValueSchema::Integer { minimum, maximum } => {
                if *minimum > *maximum {
                    return Err(String::from_str("integer minimum exceeds maximum"));
                }
                Ok(())
            },
            ActionValueSchema::String { maximum_bytes } => {
                if *maximum_bytes == 0 {
                    return Err(String::from_str("string maximum_bytes must be positive"));
                }
                if *maximum_bytes > MAX_DOCUMENT_BYTES {
                    return Err(String::from_str("string maximum_bytes must not exceed 1048576"));
                }
                Ok(())
            },
            ActionValueSchema::Choice { values } => {
                let ghost vs = values@.map_values(|v: String| v@);
                assert(self@ == SchemaV::Choice { values: vs });
                if values.len() == 0 || values.len() > MAX_CHOICES {
                    return Err(String::from_str("choice values must contain 1..=256 entries"));
                }
                let n = values.len();
                let mut i: usize = 0;
                while i < n
                    invariant
                        n == values@.len(),
                        vs == values@.map_values(|v: String| v@),
                        self@ == (SchemaV::Choice { values: vs }),
                        i <= n,
                        forall|a: int, b: int| 0 <= a < b < i ==> vs[a] != vs[b],
                        forall|a: int|
                            0 <= a < i ==> #[trigger] vs[a].len() > 0 && encode_utf8(vs[a]).len()
                                <= MAX_IDENTIFIER_BYTES,
                    decreases n - i,
                {
                    let len = byte_len(values[i].as_str());
                    if values[i].as_str().is_empty() || len > MAX_IDENTIFIER_BYTES {
                        proof {
                            assert(vs[i as int] == values@[i as int]@);
                            assert(vs[i as int].len() == 0 || encode_utf8(vs[i as int]).len()
                                > MAX_IDENTIFIER_BYTES);
                            assert(!(forall|k: int|
                                0 <= k < vs.len() ==> #[trigger] vs[k].len() > 0 && encode_utf8(
                                    vs[k],
                                ).len() <= MAX_IDENTIFIER_BYTES));
                        }
                        return Err(
                            String::from_str("choice values must be bounded, non-empty and unique"),
                        );
                    }
                    let mut j: usize = 0;
                    while j < i
                        invariant
                            n == values@.len(),
                            vs == values@.map_values(|v: String| v@),
                            self@ == (SchemaV::Choice { values: vs }),
                            i < n,
                            j <= i,
                            forall|a: int| 0 <= a < j ==> vs[a] != vs[i as int],
                        decreases i - j,
                    {
                        if values[j].eq(&values[i]) {
                            proof {
                                assert(vs[j as int] == vs[i as int]);
                                assert(!vs.no_duplicates());
                            }
                            return Err(
                                String::from_str(
                                    "choice values must be bounded, non-empty and unique",
                                ),
                            );
                        }
                        j = j + 1;
                    }
                    i = i + 1;
                }
                proof {
                    assert(vs.no_duplicates()) by {
                        assert forall|a: int, b: int|
                            0 <= a < vs.len() && 0 <= b < vs.len() && a != b implies vs[a]
                            != vs[b] by {
                            if a > b {
                            }
                        }
                    }
                }
                Ok(())
            },
            _ => Ok(()),
        }
    }
}

/// One configured argument of an action.
#[derive(Debug, PartialEq)]
pub struct ActionArgument {
    pub description: String,
    pub schema: ActionValueSchema,
    pub required: bool,
    pub default: Option<ActionValue>,
}

/// A valid argument: bounded schema, not both required and defaulted, and a
/// default that satisfies the schema.
pub open spec fn argument_valid(a: ActionArgument) -> bool {
    &&& schema_definition_valid(a.schema@)
    &&& !(a.required && a.default.is_some())
    &&& (a.default matches Some(d) ==> schema_accepts(a.schema@, d@))
}

impl Clone for ActionArgument {
    fn clone(&self) -> (r: Self)
        ensures
            r.description@ == self.description@,
            r.schema@ == self.schema@,
            r.required == self.required,
            r.default == self.default,
    {
        ActionArgument {
            description: self.description.clone(),
            schema: self.schema.clone(),
            required: self.required,
            default: match &self.default {
                Some(v) => Some(v.clone()),
                None => None,
            },
        }
    }
}

fn check_argument(owner: &str, name: &str, argument: &ActionArgument) -> (r: Result<(), String>)
    ensures
        r.is_ok() == (valid_identifier(name@) && argument_valid(*argument)),
{
    validate_identifier("argument", name)?;
    argument.schema.validate_definition()?;
    if argument.required && argument.default.is_some() {
        let mut message = String::from_str("required argument ");
        let quoted = debug_quote_text(name);
        message.append(quoted.as_str());
        message.append(" on ");
        message.append(owner);
        message.append(" cannot also have a default");
        return Err(message);
    }
    if let Some(default) = &argument.default {
        if let Err(error) = argument.schema.validate(default) {
            let mut message = String::from_str("invalid default for ");
            message.append(owner);
            message.append(".");
            message.append(name);
            message.append(": ");
            message.append(error.as_str());
            return Err(message);
        }
    }
    Ok(())
}

#[derive(Debug, Clone, Copy, PartialEq, Eq, Structural, Hash)]
pub enum ActionKind {
    Instant,
    Continuous,
}

/// Public metadata used equally by bindings, Settings and the `/` grammar.
#[derive(Debug)]
pub struct ActionDescriptor {
    pub id: ActionId,
    pub description: String,
    pub kind: ActionKind,
    pub arguments: StrMap<ActionArgument>,
    pub required_capabilities: StrSet,
}

pub open spec fn argument_ok_at(m: StrMap<ActionArgument>, j: int) -> bool {
    valid_identifier(m.key_seq()[j]) && argument_valid(m.value_seq()[j])
}

/// Every argument name is an identifier and every argument is valid.
pub open spec fn arguments_valid(m: StrMap<ActionArgument>) -> bool {
    forall|k: Seq<char>| #[trigger] m.has(k) ==> valid_identifier(k) && argument_valid(m.lookup(k))
}

/// Every required capability is an identifier.
pub open spec fn capabilities_valid(s: StrSet) -> bool {
    forall|k: Seq<char>| #[trigger] s.view_set().contains(k) ==> valid_identifier(k)
}

/// A descriptor whose description, arguments and capabilities are valid.
pub open spec fn descriptor_valid(d: ActionDescriptor) -> bool {
    &&& trimmed(d.description@).len() > 0
    &&& encode_utf8(d.description@).len() <= MAX_DESCRIPTION_BYTES
    &&& d.arguments.key_seq().len() <= MAX_ARGUMENTS
    &&& arguments_valid(d.arguments)
    &&& capabilities_valid(d.required_capabilities)
}

impl ActionDescriptor {
    pub fn new(id: &str, description: &str, kind: ActionKind) -> (r: Result<Self, String>)
        ensures
            r.is_ok() == (valid_identifier(id@) && trimmed(description@).len() > 0 && encode_utf8(
                description@,
            ).len() <= MAX_DESCRIPTION_BYTES),
            r matches Ok(d) ==> d.id@ == id@ && d.description@ == description@ && d.kind == kind
                && d.arguments.key_seq().len() == 0 && d.required_capabilities.item_seq().len() == 0
                && descriptor_valid(d),
    {
        let id = ActionId::new(id)?;
        let descriptor = ActionDescriptor {
            id,
            description: String::from_str(description),
            kind,
            arguments: StrMap::new(),
            required_capabilities: StrSet::new(),
        };
        descriptor.validate()?;
        Ok(descriptor)
    }

    /// Adds one argument; fails on an invalid name, a duplicate name or an
    /// argument that makes the descriptor invalid.
    pub fn with_argument(self, name: &str, argument: ActionArgument) -> (r: Result<Self, String>)
        ensures
            r.is_ok() == (valid_identifier(name@) && !self.arguments.has(name@) && descriptor_valid(
                self,
            ) && self.arguments.key_seq().len() < MAX_ARGUMENTS && argument_valid(argument)),
            r matches Ok(d) ==> d.id == self.id && d.description == self.description && d.kind
                == self.kind && d.arguments.has(name@) && d.arguments.lookup(name@) == argument
                && d.required_capabilities == self.required_capabilities && descriptor_valid(d)
                && d.arguments.key_seq().len() == self.arguments.key_seq().len() + 1
                && forall|k: Seq<char>|
                k != name@ ==> #[trigger] d.arguments.get_spec(k) == self.arguments.get_spec(k),
    {
        let ghost original = self;
        let mut this = self;
        validate_identifier("argument", name)?;
        if !this.arguments.insert_new(String::from_str(name), argument) {
            let mut message = String::from_str("duplicate argument ");
            let quoted = debug_quote_text(name);
            message.append(quoted.as_str());
            return Err(message);
        }
        proof {
            // validity of the extended map is validity of the old map plus the new entry
            assert(arguments_valid(this.arguments) == (arguments_valid(original.arguments)
                && argument_valid(argument))) by {
                if arguments_valid(this.arguments) {
                    assert(this.arguments.has(name@));
                    assert forall|k: Seq<char>| #[trigger] original.arguments.has(k) implies valid_identifier(k)
                        && argument_valid(original.arguments.lookup(k)) by {
                        assert(k != name@);
                        assert(this.arguments.get_spec(k) == original.arguments.get_spec(k));
                        assert(this.arguments.has(k));
                    }
                }
                if arguments_valid(original.arguments) && argument_valid(argument) {
                    assert forall|k: Seq<char>| #[trigger] this.arguments.has(k) implies valid_identifier(k)
                        && argument_valid(this.arguments.lookup(k)) by {
                        if k != name@ {
                            assert(this.arguments.get_spec(k) == original.arguments.get_spec(k));
                            assert(original.arguments.has(k));
                        }
                    }
                }
            }
        }
        this.validate()?;
        Ok(this)
    }

    pub fn requiring(self, capability: &str) -> (r: Result<Self, String>)
        ensures
            r.is_ok() == valid_identifier(capability@),
            r matches Ok(d) ==> d.id == self.id && d.description == self.description && d.kind
                == self.kind && d.arguments == self.arguments
                && d.required_capabilities.view_set() == self.required_capabilities.view_set().insert(
                capability@,
            ) && d.required_capabilities.item_seq().len() <= self.required_capabilities.item_seq().len() + 1
                && (descriptor_valid(self) ==> descriptor_valid(d)),
    {
        let mut this = self;
        validate_identifier("capability", capability)?;
        let ghost before = this.required_capabilities.view_set();
        this.required_capabilities.insert(String::from_str(capability));
        proof {
            let after = this.required_capabilities.view_set();
            if capabilities_valid(self.required_capabilities) {
                assert forall|k: Seq<char>| #[trigger] after.contains(k) implies valid_identifier(k) by {
                    if k != capability@ {
                        assert(before.contains(k));
                    }
                }
            }
        }
        Ok(this)
    }

    pub fn validate(&self) -> (r: Result<(), String>)
        ensures
            r.is_ok() == descriptor_valid(*self),
    {
        let description = trim_text(self.description.as_str());
        if description.is_empty() || byte_len(self.description.as_str()) > MAX_DESCRIPTION_BYTES {
            let mut message = String::from_str("action ");
            message.append(self.id.as_str());
            message.append(" needs a description");
            return Err(message);
        }
        if self.arguments.len() > MAX_ARGUMENTS {
            let mut message = String::from_str("action ");
            message.append(self.id.as_str());
            message.append(" has too many arguments");
            return Err(message);
        }
        proof {
            use_type_invariant(&self.arguments);
            use_type_invariant(&self.required_capabilities);
            self.arguments.lemma_shape();
        }
        let n = self.arguments.len();
        let mut i: usize = 0;
        while i < n
            invariant
                n == self.arguments.key_seq().len(),
                n == self.arguments.value_seq().len(),
                self.arguments.sorted(),
                i <= n,
                forall|j: int| 0 <= j < i ==> #[trigger] argument_ok_at(self.arguments, j),
            decreases n - i,
        {
            proof {
                self.arguments.lemma_index_of_at(i as int);
            }
            let name = self.arguments.key_at(i);
            let argument = self.arguments.value_at(i);
            match check_argument(self.id.as_str(), name.as_str(), argument) {
                Ok(()) => {},
                Err(e) => {
                    return Err(e);
                },
            }
            assert(argument_ok_at(self.arguments, i as int));
            i = i + 1;
        }
        proof {
            assert forall|k: Seq<char>| #[trigger] self.arguments.has(k) implies valid_identifier(k)
                && argument_valid(self.arguments.lookup(k)) by {
                self.arguments.lemma_has_index(k);
                assert(argument_ok_at(self.arguments, self.arguments.index_of_key(k)));
            }
        }
        let m = self.required_capabilities.len();
        let mut c: usize = 0;
        while c < m
            invariant
                m == self.required_capabilities.item_seq().len(),
                c <= m,
                forall|j: int|
                    0 <= j < c ==> valid_identifier(#[trigger] self.required_capabilities.item_seq()[j]),
            decreases m - c,
        {
            let capability = self.required_capabilities.item_at(c);
            proof {
                assert(self.required_capabilities.view_set().contains(capability@));
            }
            validate_identifier("capability", capability.as_str())?;
            c = c + 1;
        }
        proof {
            assert forall|k: Seq<char>| #[trigger] self.required_capabilities.view_set().contains(
                k,
            ) implies valid_identifier(k) by {
                let j = choose|j: int|
                    0 <= j < self.required_capabilities.item_seq().len()
                        && self.required_capabilities.item_seq()[j] == k;
                assert(valid_identifier(self.required_capabilities.item_seq()[j]));
            }
        }
        Ok(())
    }
}

} // verus!
