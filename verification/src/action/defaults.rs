//! Built-in compositor actions and the canonical default bindings.

use std::sync::Arc;

use vstd::prelude::*;
use vstd::utf8::{encode_utf8, is_ascii_chars, is_ascii_chars_encode_utf8};

use crate::action::catalog::ActionCatalog;
use crate::action::ident::{is_identifier_char, is_separator, valid_identifier};
use crate::action::values::{
    argument_valid, descriptor_valid, schema_definition_valid, ActionArgument, ActionDescriptor,
    ActionKind, ActionValueSchema, SchemaV, MAX_DESCRIPTION_BYTES,
};
use crate::strings::{is_ascii_alphanumeric, lemma_trimmed_nonempty, trimmed};

verus! {

pub proof fn lemma_ascii_identifier(s: Seq<char>)
    requires
        0 < s.len() <= 128,
        forall|i: int| 0 <= i < s.len() ==> is_identifier_char(#[trigger] s[i]),
        !is_separator(s[0]),
        !is_separator(s[s.len() - 1]),
        forall|i: int| 0 < i < s.len() ==> !(is_separator(s[i - 1]) && is_separator(#[trigger] s[i])),
    ensures
        valid_identifier(s),
{
    assert(is_ascii_chars(s));
    is_ascii_chars_encode_utf8(s);
}

/// A short ASCII description that starts with a letter.
pub open spec fn plain_description(s: Seq<char>) -> bool {
    &&& 0 < s.len() <= MAX_DESCRIPTION_BYTES
    &&& is_ascii_chars(s)
    &&& is_ascii_alphanumeric(s[0])
}

proof fn lemma_plain_description(s: Seq<char>)
    requires
        plain_description(s),
    ensures
        encode_utf8(s).len() <= MAX_DESCRIPTION_BYTES,
        trimmed(s).len() > 0,
{
    is_ascii_chars_encode_utf8(s);
    lemma_trimmed_nonempty(s, 0);
}

/// The ids of the built-in actions, in registration order.
pub open spec fn builtin_ids() -> Seq<Seq<char>> {
    seq![
        "canvas.window.close"@,
        "canvas.window.cycle-focus"@,
        "canvas.overview.toggle"@,
        "canvas.overview.exit"@,
        "canvas.window.move"@,
        "canvas.window.resize"@,
        "canvas.viewport.pan"@,
        "canvas.viewport.pinch"@,
        "canvas.viewport.pan-step"@,
        "canvas.window.move-step"@,
        "canvas.window.resize-step"@,
        "canvas.workspace.switch"@,
        "canvas.mark.jump"@,
        "canvas.mark.set"@,
        "session.vt.switch"@,
    ]
}

/// The descriptions of the built-in actions, in registration order.
pub open spec fn builtin_descriptions() -> Seq<Seq<char>> {
    seq![
        "Close the focused window"@,
        "Cycle window focus"@,
        "Toggle canvas overview"@,
        "Leave canvas overview"@,
        "Move a window continuously"@,
        "Resize a window continuously"@,
        "Pan the canvas continuously"@,
        "Pan and zoom the canvas continuously"@,
        "Pan the canvas by one step"@,
        "Move the focused window by one grid step"@,
        "Resize the focused window by one grid step"@,
        "Switch the locally active output group to a numbered workspace"@,
        "Jump to a canvas mark"@,
        "Set a canvas mark"@,
        "Switch to a Linux virtual terminal"@,
    ]
}

/// The description of the single argument of built-in action `i`.
pub open spec fn builtin_argument_description(i: int) -> Seq<char> {
    if 8 <= i < 11 {
        "Cardinal direction"@
    } else if i == 11 {
        "Global workspace number"@
    } else if i == 12 || i == 13 {
        "Canvas mark index"@
    } else {
        "Virtual terminal number"@
    }
}

/// The kind of built-in action `i`: the four pointer and gesture actions
/// are continuous, the rest instant.
pub open spec fn builtin_kind(i: int) -> ActionKind {
    if 4 <= i < 8 {
        ActionKind::Continuous
    } else {
        ActionKind::Instant
    }
}

pub open spec fn direction_values() -> Seq<Seq<char>> {
    seq!["left"@, "right"@, "up"@, "down"@]
}

/// The single required argument of built-in action `i`, if it has one.
pub open spec fn builtin_argument(i: int) -> Option<(Seq<char>, SchemaV)> {
    if 8 <= i < 11 {
        Some(("direction"@, SchemaV::Choice { values: direction_values() }))
    } else if i == 11 {
        Some(("workspace"@, SchemaV::Integer { minimum: 1, maximum: 10 }))
    } else if i == 12 || i == 13 {
        Some(("index"@, SchemaV::Integer { minimum: 0, maximum: 9 }))
    } else if i == 14 {
        Some(("vt"@, SchemaV::Integer { minimum: 1, maximum: 12 }))
    } else {
        None
    }
}

/// Built-in action `i` as registered: its id, kind, single required argument
/// (if any) and the `tty-vt` capability for virtual-terminal switching.
pub open spec fn builtin_matches(d: ActionDescriptor, i: int) -> bool {
    &&& d.id@ == builtin_ids()[i]
    &&& d.description@ == builtin_descriptions()[i]
    &&& d.kind == builtin_kind(i)
    &&& descriptor_valid(d)
    &&& match builtin_argument(i) {
        None => forall|k: Seq<char>| !#[trigger] d.arguments.has(k),
        Some((name, schema)) => {
            &&& forall|k: Seq<char>| #[trigger] d.arguments.has(k) == (k == name)
            &&& d.arguments.lookup(name).schema@ == schema
            &&& d.arguments.lookup(name).description@ == builtin_argument_description(i)
            &&& d.arguments.lookup(name).required
            &&& d.arguments.lookup(name).default is None
        },
    }
    &&& forall|c: Seq<char>| #[trigger]
        d.required_capabilities.view_set().contains(c) == (i == 14 && c == "tty-vt"@)
}

proof fn lemma_builtin_ids_distinct()
    ensures
        builtin_ids().no_duplicates(),
        builtin_ids().len() == 15,
{
    reveal_strlit("canvas.window.close");
    reveal_strlit("canvas.window.cycle-focus");
    reveal_strlit("canvas.overview.toggle");
    reveal_strlit("canvas.overview.exit");
    reveal_strlit("canvas.window.move");
    reveal_strlit("canvas.window.resize");
    reveal_strlit("canvas.viewport.pan");
    reveal_strlit("canvas.viewport.pinch");
    reveal_strlit("canvas.viewport.pan-step");
    reveal_strlit("canvas.window.move-step");
    reveal_strlit("canvas.window.resize-step");
    reveal_strlit("canvas.workspace.switch");
    reveal_strlit("canvas.mark.jump");
    reveal_strlit("canvas.mark.set");
    reveal_strlit("session.vt.switch");
    let ids = builtin_ids();
    assert forall|i: int, j: int| 0 <= i < ids.len() && 0 <= j < ids.len() && i != j implies ids[i]
        != ids[j] by {
        if ids[i] == ids[j] {
            assert(ids[i].len() == ids[j].len());
            assert(ids[i][7] == ids[j][7]);
            assert(ids[i][8] == ids[j][8]);
            assert(ids[i][10] == ids[j][10]);
            assert(ids[i][14] == ids[j][14]);
            assert(ids[i][16] == ids[j][16]);
            assert(ids[i][ids[i].len() - 2] == ids[j][ids[j].len() - 2]);
            assert(ids[i][ids[i].len() - 3] == ids[j][ids[j].len() - 3]);
        }
    }
}

fn plain_descriptor(id: &str, description: &str, kind: ActionKind) -> (d: ActionDescriptor)
    requires
        valid_identifier(id@),
        plain_description(description@),
    ensures
        d.id@ == id@,
        d.description@ == description@,
        d.kind == kind,
        descriptor_valid(d),
        d.arguments.key_seq().len() == 0,
        forall|k: Seq<char>| !#[trigger] d.arguments.has(k),
        forall|c: Seq<char>| !#[trigger] d.required_capabilities.view_set().contains(c),
{
    proof {
        lemma_plain_description(description@);
    }
    let d = ActionDescriptor::new(id, description, kind).unwrap();
    proof {
        assert forall|k: Seq<char>| !#[trigger] d.arguments.has(k) by {}
        assert forall|c: Seq<char>| !#[trigger] d.required_capabilities.view_set().contains(c) by {
            if d.required_capabilities.view_set().contains(c) {
                assert(d.required_capabilities.item_seq().contains(c));
            }
        }
    }
    d
}

fn descriptor_with(
    id: &str,
    description: &str,
    kind: ActionKind,
    argument_name: &str,
    argument: ActionArgument,
) -> (d: ActionDescriptor)
    requires
        valid_identifier(id@),
        plain_description(description@),
        valid_identifier(argument_name@),
        argument_valid(argument),
    ensures
        d.id@ == id@,
        d.description@ == description@,
        d.kind == kind,
        descriptor_valid(d),
        forall|k: Seq<char>| #[trigger] d.arguments.has(k) == (k == argument_name@),
        d.arguments.lookup(argument_name@) == argument,
        forall|c: Seq<char>| !#[trigger] d.required_capabilities.view_set().contains(c),
{
    let base = plain_descriptor(id, description, kind);
    let d = base.with_argument(argument_name, argument).unwrap();
    proof {
        assert forall|k: Seq<char>| #[trigger] d.arguments.has(k) == (k == argument_name@) by {
            if k != argument_name@ {
                assert(d.arguments.get_spec(k) == base.arguments.get_spec(k));
            }
        }
    }
    d
}

fn direction_argument() -> (a: ActionArgument)
    ensures
        argument_valid(a),
        a.schema@ == (SchemaV::Choice { values: direction_values() }),
        a.description@ == "Cardinal direction"@,
        a.required,
        a.default is None,
{
    let mut values: Vec<String> = Vec::new();
    values.push(String::from_str("left"));
    values.push(String::from_str("right"));
    values.push(String::from_str("up"));
    values.push(String::from_str("down"));
    let a = ActionArgument {
        description: String::from_str("Cardinal direction"),
        schema: ActionValueSchema::Choice { values },
        required: true,
        default: None,
    };
    proof {
        reveal_strlit("left");
        reveal_strlit("right");
        reveal_strlit("up");
        reveal_strlit("down");
        let vs = values@.map_values(|v: String| v@);
        assert(vs =~= direction_values());
        assert(vs.no_duplicates()) by {
            assert forall|i: int, j: int| 0 <= i < vs.len() && 0 <= j < vs.len() && i != j implies vs[i]
                != vs[j] by {
                if vs[i] == vs[j] {
                    assert(vs[i].len() == vs[j].len());
                    assert(vs[i][0] == vs[j][0]);
                }
            }
        }
        assert forall|i: int| 0 <= i < vs.len() implies #[trigger] vs[i].len() > 0 && encode_utf8(
            vs[i],
        ).len() <= 128 by {
            assert(is_ascii_chars(vs[i]));
            is_ascii_chars_encode_utf8(vs[i]);
        }
        assert(schema_definition_valid(a.schema@));
    }
    a
}

fn integer_argument(description: &str, minimum: i64, maximum: i64) -> (a: ActionArgument)
    requires
        minimum <= maximum,
    ensures
        argument_valid(a),
        a.schema@ == (SchemaV::Integer { minimum, maximum }),
        a.description@ == description@,
        a.required,
        a.default is None,
{
    ActionArgument {
        description: String::from_str(description),
        schema: ActionValueSchema::Integer { minimum, maximum },
        required: true,
        default: None,
    }
}

/// The built-in descriptors, in registration order.
pub fn built_in_descriptors() -> (r: Vec<ActionDescriptor>)
    ensures
        r@.len() == builtin_ids().len(),
        forall|i: int| 0 <= i < r@.len() ==> builtin_matches(#[trigger] r@[i], i),
{
    let mut r: Vec<ActionDescriptor> = Vec::new();
    proof {
        reveal_strlit("canvas.window.close");
        reveal_strlit("canvas.window.cycle-focus");
        reveal_strlit("canvas.overview.toggle");
        reveal_strlit("canvas.overview.exit");
        reveal_strlit("canvas.window.move");
        reveal_strlit("canvas.window.resize");
        reveal_strlit("canvas.viewport.pan");
        reveal_strlit("canvas.viewport.pinch");
        reveal_strlit("canvas.viewport.pan-step");
        reveal_strlit("canvas.window.move-step");
        reveal_strlit("canvas.window.resize-step");
        reveal_strlit("canvas.workspace.switch");
        reveal_strlit("canvas.mark.jump");
        reveal_strlit("canvas.mark.set");
        reveal_strlit("session.vt.switch");
        reveal_strlit("direction");
        reveal_strlit("workspace");
        reveal_strlit("index");
        reveal_strlit("vt");
        reveal_strlit("tty-vt");
        reveal_strlit("Close the focused window");
        reveal_strlit("Cycle window focus");
        reveal_strlit("Toggle canvas overview");
        reveal_strlit("Leave canvas overview");
        reveal_strlit("Move a window continuously");
        reveal_strlit("Resize a window continuously");
        reveal_strlit("Pan the canvas continuously");
        reveal_strlit("Pan and zoom the canvas continuously");
        reveal_strlit("Pan the canvas by one step");
        reveal_strlit("Move the focused window by one grid step");
        reveal_strlit("Resize the focused window by one grid step");
        reveal_strlit("Switch the locally active output group to a numbered workspace");
        reveal_strlit("Jump to a canvas mark");
        reveal_strlit("Set a canvas mark");
        reveal_strlit("Switch to a Linux virtual terminal");
        lemma_ascii_identifier("canvas.window.close"@);
        lemma_ascii_identifier("canvas.window.cycle-focus"@);
        lemma_ascii_identifier("canvas.overview.toggle"@);
        lemma_ascii_identifier("canvas.overview.exit"@);
        lemma_ascii_identifier("canvas.window.move"@);
        lemma_ascii_identifier("canvas.window.resize"@);
        lemma_ascii_identifier("canvas.viewport.pan"@);
        lemma_ascii_identifier("canvas.viewport.pinch"@);
        lemma_ascii_identifier("canvas.viewport.pan-step"@);
        lemma_ascii_identifier("canvas.window.move-step"@);
        lemma_ascii_identifier("canvas.window.resize-step"@);
        lemma_ascii_identifier("canvas.workspace.switch"@);
        lemma_ascii_identifier("canvas.mark.jump"@);
        lemma_ascii_identifier("canvas.mark.set"@);
        lemma_ascii_identifier("session.vt.switch"@);
        lemma_ascii_identifier("direction"@);
        lemma_ascii_identifier("workspace"@);
        lemma_ascii_identifier("index"@);
        lemma_ascii_identifier("vt"@);
        lemma_ascii_identifier("tty-vt"@);
    }
    r.push(plain_descriptor("canvas.window.close", "Close the focused window", ActionKind::Instant));
    r.push(plain_descriptor("canvas.window.cycle-focus", "Cycle window focus", ActionKind::Instant));
    r.push(plain_descriptor("canvas.overview.toggle", "Toggle canvas overview", ActionKind::Instant));
    r.push(plain_descriptor("canvas.overview.exit", "Leave canvas overview", ActionKind::Instant));
    r.push(
        plain_descriptor("canvas.window.move", "Move a window continuously", ActionKind::Continuous),
    );
    r.push(
        plain_descriptor(
            "canvas.window.resize",
            "Resize a window continuously",
            ActionKind::Continuous,
        ),
    );
    r.push(
        plain_descriptor(
            "canvas.viewport.pan",
            "Pan the canvas continuously",
            ActionKind::Continuous,
        ),
    );
    r.push(
        plain_descriptor(
            "canvas.viewport.pinch",
            "Pan and zoom the canvas continuously",
            ActionKind::Continuous,
        ),
    );
    r.push(
        descriptor_with(
            "canvas.viewport.pan-step",
            "Pan the canvas by one step",
            ActionKind::Instant,
            "direction",
            direction_argument(),
        ),
    );
    r.push(
        descriptor_with(
            "canvas.window.move-step",
            "Move the focused window by one grid step",
            ActionKind::Instant,
            "direction",
            direction_argument(),
        ),
    );
    r.push(
        descriptor_with(
            "canvas.window.resize-step",
            "Resize the focused window by one grid step",
            ActionKind::Instant,
            "direction",
            direction_argument(),
        ),
    );
    r.push(
        descriptor_with(
            "canvas.workspace.switch",
            "Switch the locally active output group to a numbered workspace",
            ActionKind::Instant,
            "workspace",
            integer_argument("Global workspace number", 1, 10),
        ),
    );
    r.push(
        descriptor_with(
            "canvas.mark.jump",
            "Jump to a canvas mark",
            ActionKind::Instant,
            "index",
            integer_argument("Canvas mark index", 0, 9),
        ),
    );
    r.push(
        descriptor_with(
            "canvas.mark.set",
            "Set a canvas mark",
            ActionKind::Instant,
            "index",
            integer_argument("Canvas mark index", 0, 9),
        ),
    );
    let vt = descriptor_with(
        "session.vt.switch",
        "Switch to a Linux virtual terminal",
        ActionKind::Instant,
        "vt",
        integer_argument("Virtual terminal number", 1, 12),
    );
    let vt = vt.requiring("tty-vt").unwrap();
    r.push(vt);
    proof {
        assert forall|c: Seq<char>| #[trigger] vt.required_capabilities.view_set().contains(c) == (c
            == "tty-vt"@) by {}
        assert forall|i: int| 0 <= i < r@.len() implies builtin_matches(#[trigger] r@[i], i) by {
            if i == 14 {
                assert(builtin_matches(r@[i], i));
            }
        }
    }
    r
}

/// Canonical built-in compositor metadata. Hosts attach implementations separately.
pub fn built_in_compositor_catalog() -> (r: Arc<ActionCatalog>)
    ensures
        r.size() == builtin_ids().len(),
        forall|k: Seq<char>| #[trigger] r.has_action(k) == builtin_ids().contains(k),
        forall|i: int|
            0 <= i < builtin_ids().len() ==> builtin_matches(r.action(#[trigger] builtin_ids()[i]), i),
{
    let descriptors = built_in_descriptors();
    proof {
        lemma_builtin_ids_distinct();
    }
    let mut catalog = ActionCatalog::new();
    let mut remaining = descriptors;
    let mut taken: Vec<ActionDescriptor> = Vec::new();
    let n = remaining.len();
    let ghost all = remaining@;
    // register in order: reverse once so that `pop` yields the first descriptor
    let mut ordered: Vec<ActionDescriptor> = Vec::new();
    while remaining.len() > 0
        invariant
            remaining@.len() + ordered@.len() == n,
            n == all.len(),
            all.len() == builtin_ids().len(),
            remaining@ == all.take(remaining@.len() as int),
            forall|j: int| 0 <= j < ordered@.len() ==> #[trigger] ordered@[j] == all[n - 1 - j],
        decreases remaining@.len(),
    {
        let d = remaining.pop().unwrap();
        proof {
            assert(remaining@ =~= all.take(remaining@.len() as int));
        }
        ordered.push(d);
    }
    let mut i: usize = 0;
    while i < n
        invariant
            n == all.len(),
            n == builtin_ids().len(),
            builtin_ids().no_duplicates(),
            ordered@.len() == n - i,
            i <= n,
            forall|j: int| 0 <= j < ordered@.len() ==> #[trigger] ordered@[j] == all[n - 1 - j],
            forall|j: int| 0 <= j < n ==> builtin_matches(#[trigger] all[j], j),
            catalog.size() == i,
            forall|k: Seq<char>| #[trigger]
                catalog.has_action(k) == builtin_ids().take(i as int).contains(k),
            forall|j: int|
                0 <= j < i ==> catalog.action(#[trigger] builtin_ids()[j]) == all[j],
        decreases n - i,
    {
        let d = ordered.pop().unwrap();
        proof {
            assert(d == all[i as int]);
            assert(builtin_matches(d, i as int));
            assert(!catalog.has_action(d.id@)) by {
                if builtin_ids().take(i as int).contains(d.id@) {
                    let j = choose|j: int| 0 <= j < i && builtin_ids().take(i as int)[j] == d.id@;
                    assert(builtin_ids()[j] == builtin_ids()[i as int]);
                }
            }
        }
        let ghost before = catalog;
        let ghost di = d;
        let result = catalog.register(d);
        proof {
            assert(result.is_ok());
            assert(builtin_ids().take(i + 1) =~= builtin_ids().take(i as int).push(di.id@));
            assert forall|k: Seq<char>| #[trigger] catalog.has_action(k) == builtin_ids().take(
                i + 1,
            ).contains(k) by {
                let next = builtin_ids().take(i + 1);
                let prev = builtin_ids().take(i as int);
                if k == di.id@ {
                    assert(next[i as int] == k);
                    assert(next.contains(k));
                    assert(catalog.has_action(k));
                } else {
                    assert(catalog.table().get_spec(k) == before.table().get_spec(k));
                    assert(catalog.has_action(k) == before.has_action(k));
                    assert(before.has_action(k) == prev.contains(k));
                    if next.contains(k) {
                        let j = choose|j: int| 0 <= j < next.len() && next[j] == k;
                        assert(j < i);
                        assert(prev[j] == k);
                    }
                    if prev.contains(k) {
                        let j = choose|j: int| 0 <= j < prev.len() && prev[j] == k;
                        assert(next[j] == k);
                    }
                }
            }
            assert forall|j: int| 0 <= j < i + 1 implies catalog.action(#[trigger] builtin_ids()[j])
                == all[j] by {
                if j < i {
                    assert(builtin_ids()[j] != di.id@);
                    assert(catalog.table().get_spec(builtin_ids()[j]) == before.table().get_spec(
                        builtin_ids()[j],
                    ));
                    assert(before.has_action(builtin_ids()[j])) by {
                        assert(builtin_ids().take(i as int)[j] == builtin_ids()[j]);
                    }
                }
            }
        }
        i = i + 1;
    }
    proof {
        assert(builtin_ids().take(n as int) =~= builtin_ids());
    }
    Arc::new(catalog)
}

} // verus!
