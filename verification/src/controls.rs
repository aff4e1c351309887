//! Controls as the mapper edits, binds and stores them.

use crate::binding::{Bound, BoundView};
use crate::model::{Param, ParamKind, ParamView};
use crate::parser;
use crate::sidecar::{ControlDef, ControlDefView};
use crate::text;
use vstd::prelude::*;

verus! {

// ---------------------------------------------------------------------------
// Kinds
// ---------------------------------------------------------------------------

/// What a kind of control is called.
pub open spec fn label_of_kind(k: ParamKind) -> Seq<char> {
    match k {
        ParamKind::Text => "Text"@,
        ParamKind::FilePath => "File picker"@,
        ParamKind::FolderPath => "Folder picker"@,
        ParamKind::Number => "Number"@,
        ParamKind::Bool => "Checkbox"@,
        ParamKind::Choice => "Dropdown"@,
    }
}

/// The tag of a kind in a sidecar.
pub open spec fn tag_of_kind(k: ParamKind) -> Seq<char> {
    match k {
        ParamKind::Text => "text"@,
        ParamKind::FilePath => "file"@,
        ParamKind::FolderPath => "folder"@,
        ParamKind::Number => "number"@,
        ParamKind::Bool => "bool"@,
        ParamKind::Choice => "choice"@,
    }
}

/// The kind that a tag stands for. A tag that is not known stands for text.
pub open spec fn kind_of_tag(s: Seq<char>) -> ParamKind {
    if s == "file"@ {
        ParamKind::FilePath
    } else if s == "folder"@ {
        ParamKind::FolderPath
    } else if s == "number"@ {
        ParamKind::Number
    } else if s == "bool"@ {
        ParamKind::Bool
    } else if s == "choice"@ {
        ParamKind::Choice
    } else {
        ParamKind::Text
    }
}

/// What the kind is called in the mapper.
pub fn kind_label(k: ParamKind) -> (r: &'static str)
    ensures
        r@ == label_of_kind(k),
{
    match k {
        ParamKind::Text => "Text",
        ParamKind::FilePath => "File picker",
        ParamKind::FolderPath => "Folder picker",
        ParamKind::Number => "Number",
        ParamKind::Bool => "Checkbox",
        ParamKind::Choice => "Dropdown",
    }
}

/// The tag that stands for the kind in a sidecar.
pub fn kind_to_str(k: ParamKind) -> (r: &'static str)
    ensures
        r@ == tag_of_kind(k),
{
    match k {
        ParamKind::Text => "text",
        ParamKind::FilePath => "file",
        ParamKind::FolderPath => "folder",
        ParamKind::Number => "number",
        ParamKind::Bool => "bool",
        ParamKind::Choice => "choice",
    }
}

/// The kind that the tag stands for.
pub fn kind_from_str(s: &str) -> (r: ParamKind)
    ensures
        r == kind_of_tag(s@),
{
    if text::same(s, "file") {
        ParamKind::FilePath
    } else if text::same(s, "folder") {
        ParamKind::FolderPath
    } else if text::same(s, "number") {
        ParamKind::Number
    } else if text::same(s, "bool") {
        ParamKind::Bool
    } else if text::same(s, "choice") {
        ParamKind::Choice
    } else {
        ParamKind::Text
    }
}

/// The kinds, in the order in which the mapper offers them.
pub open spec fn offered_kinds() -> Seq<ParamKind> {
    seq![
        ParamKind::Text,
        ParamKind::FolderPath,
        ParamKind::FilePath,
        ParamKind::Number,
        ParamKind::Bool,
        ParamKind::Choice,
    ]
}

/// The kinds that the mapper offers for a control.
pub fn kind_options() -> (r: Vec<ParamKind>)
    ensures
        r@ == offered_kinds(),
{
    let r = vec![
        ParamKind::Text,
        ParamKind::FolderPath,
        ParamKind::FilePath,
        ParamKind::Number,
        ParamKind::Bool,
        ParamKind::Choice,
    ];
    assert(r@ =~= offered_kinds());
    r
}

/// Gives the control the kind that was picked in the mapper. A checkbox is then
/// passed as a switch.
pub fn set_kind(p: &mut Param, k: ParamKind)
    ensures
        final(p)@ == (ParamView { kind: k, is_switch: k == ParamKind::Bool, ..old(p)@ }),
        final(p)@.kind == k,
        final(p)@.is_switch <==> k == ParamKind::Bool,
        final(p)@.name == old(p)@.name,
        final(p)@.label == old(p)@.label,
        final(p)@.value == old(p)@.value,
        final(p)@.bool_value == old(p)@.bool_value,
        final(p)@.choices == old(p)@.choices,
        final(p)@.required == old(p)@.required,
{
    p.kind = k;
    p.is_switch = k == ParamKind::Bool;
}

proof fn lemma_tags_differ()
    ensures
        "text"@ != "file"@,
        "text"@ != "folder"@,
        "text"@ != "number"@,
        "text"@ != "bool"@,
        "text"@ != "choice"@,
        "file"@ != "folder"@,
        "file"@ != "number"@,
        "file"@ != "bool"@,
        "file"@ != "choice"@,
        "folder"@ != "number"@,
        "folder"@ != "bool"@,
        "folder"@ != "choice"@,
        "number"@ != "bool"@,
        "number"@ != "choice"@,
        "bool"@ != "choice"@,
{
    reveal_strlit("text");
    reveal_strlit("file");
    reveal_strlit("folder");
    reveal_strlit("number");
    reveal_strlit("bool");
    reveal_strlit("choice");
    assert("text"@[0] == 't' && "file"@[0] == 'f' && "folder"@[0] == 'f');
    assert("number"@[0] == 'n' && "bool"@[0] == 'b' && "choice"@[0] == 'c');
    assert("file"@.len() == 4 && "folder"@.len() == 6);
}

/// The tag of a kind stands for that kind, so what is stored is read back.
pub proof fn kinds_round_trip(k: ParamKind)
    ensures
        kind_of_tag(tag_of_kind(k)) == k,
{
    lemma_tags_differ();
}

/// Every kind is offered.
pub proof fn every_kind_is_offered(k: ParamKind)
    ensures
        offered_kinds().contains(k),
{
    let all = offered_kinds();
    assert(all[0] == ParamKind::Text && all[1] == ParamKind::FolderPath);
    assert(all[2] == ParamKind::FilePath && all[3] == ParamKind::Number);
    assert(all[4] == ParamKind::Bool && all[5] == ParamKind::Choice);
}

// ---------------------------------------------------------------------------
// Stored controls
// ---------------------------------------------------------------------------

/// A boolean as text.
pub open spec fn bool_text(b: bool) -> Seq<char> {
    if b {
        "true"@
    } else {
        "false"@
    }
}

/// The text of a boolean.
pub fn bool_to_str(b: bool) -> (r: &'static str)
    ensures
        r@ == bool_text(b),
{
    if b {
        "true"
    } else {
        "false"
    }
}

/// How a control is stored.
pub open spec fn stored(p: ParamView) -> ControlDefView {
    ControlDefView {
        name: p.name,
        label: p.label,
        kind: tag_of_kind(p.kind),
        required: p.required,
        default: if p.kind == ParamKind::Bool {
            bool_text(p.bool_value)
        } else {
            p.value
        },
        choices: p.choices,
        position: p.position,
        custom: p.custom,
        as_env: p.as_env,
    }
}

/// The control that a stored one becomes.
pub open spec fn restored(d: ControlDefView) -> ParamView {
    let kind = kind_of_tag(d.kind);
    ParamView {
        name: d.name,
        label: d.label,
        kind,
        required: d.required,
        is_switch: kind == ParamKind::Bool,
        choices: d.choices,
        value: if kind == ParamKind::Bool {
            Seq::empty()
        } else {
            d.default
        },
        bool_value: text::ascii_lowered(d.default) == text::ascii_lowered("true"@),
        position: d.position,
        custom: d.custom,
        as_env: d.as_env,
    }
}

/// Turn a control into a definition to be stored.
pub fn param_to_def(p: &Param) -> (r: ControlDef)
    ensures
        r@ == stored(p@),
{
    let mut kind = String::new();
    kind.append(kind_to_str(p.kind));
    assert(kind@ =~= tag_of_kind(p.kind));
    let default = if p.kind == ParamKind::Bool {
        let mut s = String::new();
        s.append(bool_to_str(p.bool_value));
        assert(s@ =~= bool_text(p.bool_value));
        s
    } else {
        p.value.clone()
    };
    ControlDef {
        name: p.name.clone(),
        label: p.label.clone(),
        kind,
        required: p.required,
        default,
        choices: text::copy_strings(&p.choices),
        position: p.position,
        custom: p.custom,
        as_env: p.as_env,
    }
}

/// Turn a stored definition into a control.
pub fn def_to_param(d: &ControlDef) -> (r: Param)
    ensures
        r@ == restored(d@),
{
    let kind = kind_from_str(d.kind.as_str());
    let value = if kind == ParamKind::Bool {
        String::new()
    } else {
        d.default.clone()
    };
    Param {
        name: d.name.clone(),
        label: d.label.clone(),
        kind,
        required: d.required,
        is_switch: kind == ParamKind::Bool,
        choices: text::copy_strings(&d.choices),
        value,
        bool_value: text::same_ignoring_ascii_case(d.default.as_str(), "true"),
        position: d.position,
        custom: d.custom,
        as_env: d.as_env,
    }
}

/// What storing keeps of a control: all but what the mapper decides anew. A
/// checkbox comes back as a switch with no text, and a control that is none
/// comes back on exactly when its text is `true`.
pub open spec fn settled(p: ParamView) -> ParamView {
    ParamView {
        is_switch: p.kind == ParamKind::Bool,
        value: if p.kind == ParamKind::Bool {
            Seq::empty()
        } else {
            p.value
        },
        bool_value: if p.kind == ParamKind::Bool {
            p.bool_value
        } else {
            text::ascii_lowered(p.value) == text::ascii_lowered("true"@)
        },
        ..p
    }
}

proof fn lemma_bool_text(b: bool)
    ensures
        (text::ascii_lowered(bool_text(b)) == text::ascii_lowered("true"@)) == b,
{
    reveal_strlit("true");
    reveal_strlit("false");
    assert(text::ascii_lowered("true"@).len() == 4);
    assert(text::ascii_lowered("false"@).len() == 5);
}

/// A control that is stored and read back is the same control, settled.
pub proof fn stored_controls_come_back(p: ParamView)
    ensures
        restored(stored(p)) == settled(p),
{
    kinds_round_trip(p.kind);
    lemma_bool_text(p.bool_value);
}

/// Storing a control that was read back changes nothing any more.
pub proof fn storing_is_stable(p: ParamView)
    ensures
        restored(stored(settled(p))) == settled(p),
        stored(settled(p)) == stored(p),
{
    stored_controls_come_back(settled(p));
}

// ---------------------------------------------------------------------------
// Custom controls and bindings
// ---------------------------------------------------------------------------

/// The control that the mapper adds as the `n`th.
pub open spec fn custom_control(n: nat) -> ParamView {
    ParamView {
        name: "Custom"@ + text::decimal(n),
        label: "Custom "@ + text::decimal(n),
        kind: ParamKind::Text,
        required: false,
        is_switch: false,
        choices: Seq::empty(),
        value: Seq::empty(),
        bool_value: false,
        position: None,
        custom: true,
        as_env: false,
    }
}

/// A fresh control for the mapper to add as the `n`th.
pub fn custom_param(n: usize) -> (r: Param)
    ensures
        r@ == custom_control(n as nat),
{
    let mut name = String::new();
    name.append("Custom");
    text::push_decimal(&mut name, n as u64);
    let mut label = String::new();
    label.append("Custom ");
    text::push_decimal(&mut label, n as u64);
    let choices: Vec<String> = Vec::new();
    assert(text::texts(choices@) =~= Seq::empty());
    assert(name@ =~= "Custom"@ + text::decimal(n as nat));
    assert(label@ =~= "Custom "@ + text::decimal(n as nat));
    Param {
        name,
        label,
        kind: ParamKind::Text,
        required: false,
        is_switch: false,
        choices,
        value: String::new(),
        bool_value: false,
        position: None,
        custom: true,
        as_env: false,
    }
}

/// The control, bound to `b`.
pub open spec fn bound_to(p: ParamView, b: BoundView) -> ParamView {
    match b {
        BoundView::Positional(n) => ParamView {
            position: Some(n),
            as_env: false,
            name: "arg"@ + text::decimal(n as nat),
            ..p
        },
        BoundView::Named(name) => ParamView { position: None, as_env: false, name, ..p },
        BoundView::Env(name) => ParamView { position: None, as_env: true, name, ..p },
    }
}

/// Binds the control to what was picked.
pub fn apply_binding(p: &mut Param, b: Bound)
    ensures
        final(p)@ == bound_to(old(p)@, b@),
{
    match b {
        Bound::Positional(n) => {
            p.position = Some(n);
            p.as_env = false;
            p.name = parser::argument_name(n);
        },
        Bound::Named(name) => {
            p.position = None;
            p.as_env = false;
            p.name = name;
        },
        Bound::Env(name) => {
            p.position = None;
            p.as_env = true;
            p.name = name;
        },
    }
}

/// The label for what a control is bound to.
pub open spec fn label_of_binding(p: ParamView) -> Seq<char> {
    match p.position {
        Some(n) => "→ %"@ + text::decimal(n as nat),
        None => if p.as_env {
            "→ $env:"@ + p.name
        } else {
            "→ -"@ + p.name
        },
    }
}

/// Short label for a control's current binding (shown on the mapper row).
pub fn binding_label(p: &Param) -> (r: String)
    ensures
        r@ == label_of_binding(p@),
{
    let mut s = String::new();
    match p.position {
        Some(n) => {
            s.append("→ %");
            text::push_decimal(&mut s, n as u64);
        },
        None => {
            if p.as_env {
                s.append("→ $env:");
            } else {
                s.append("→ -");
            }
            s.append(p.name.as_str());
        },
    }
    assert(s@ =~= label_of_binding(p@));
    s
}

/// A control shows what it was last bound to, and keeps its kind, its label and
/// its value whatever it is bound to.
pub proof fn binding_is_shown(p: ParamView, b: BoundView)
    ensures
        label_of_binding(bound_to(p, b)) == (match b {
            BoundView::Positional(n) => "→ %"@ + text::decimal(n as nat),
            BoundView::Named(name) => "→ -"@ + name,
            BoundView::Env(name) => "→ $env:"@ + name,
        }),
        bound_to(p, b) == (ParamView {
            name: bound_to(p, b).name,
            position: bound_to(p, b).position,
            as_env: bound_to(p, b).as_env,
            ..p
        }),
{
}

/// The caption of a control: a required one is marked.
pub open spec fn caption_of(p: ParamView) -> Seq<char> {
    if p.required {
        p.label + " *"@
    } else {
        p.label
    }
}

/// The caption that is shown next to a control.
pub fn caption(p: &Param) -> (r: String)
    ensures
        r@ == caption_of(p@),
{
    let mut s = p.label.clone();
    if p.required {
        s.append(" *");
    }
    s
}

// ---------------------------------------------------------------------------
// What storing and binding promise
// ---------------------------------------------------------------------------

/// Only the tags of the kinds stand for a kind of their own, letter by letter; every
/// other tag stands for a text field.
pub proof fn unknown_tags_stand_for_text(s: Seq<char>)
    ensures
        kind_of_tag(s) == ParamKind::FilePath <==> s == "file"@,
        kind_of_tag(s) == ParamKind::FolderPath <==> s == "folder"@,
        kind_of_tag(s) == ParamKind::Number <==> s == "number"@,
        kind_of_tag(s) == ParamKind::Bool <==> s == "bool"@,
        kind_of_tag(s) == ParamKind::Choice <==> s == "choice"@,
        kind_of_tag(s) == ParamKind::Text <==> s != "file"@ && s != "folder"@ && s != "number"@ && s
            != "bool"@ && s != "choice"@,
{
    lemma_tags_differ();
}

/// A stored definition becomes a control with what it says: the same name, label,
/// options and binding, the kind that its tag stands for, and its default as the
/// value, or for a checkbox as its state. A default switches on exactly when it says
/// `true`, in any case of ASCII letters.
pub proof fn definitions_become_controls(d: ControlDefView)
    ensures
        ({
            let p = restored(d);
            &&& p.name == d.name
            &&& p.label == d.label
            &&& p.kind == kind_of_tag(d.kind)
            &&& p.required == d.required
            &&& p.choices == d.choices
            &&& p.position == d.position
            &&& p.custom == d.custom
            &&& p.as_env == d.as_env
            &&& p.is_switch <==> d.kind == "bool"@
            &&& d.kind != "bool"@ ==> p.value == d.default
            &&& d.kind == "bool"@ ==> p.value.len() == 0
            &&& p.bool_value <==> text::ascii_lowered(d.default) == seq!['t', 'r', 'u', 'e']
        }),
{
    unknown_tags_stand_for_text(d.kind);
    reveal_strlit("true");
    assert(text::ascii_lowered("true"@) =~= seq!['t', 'r', 'u', 'e']);
}

/// A control is stored with what it is: the same name, label, options and binding, the
/// tag of its kind, and its value, or for a checkbox its state, as the default.
pub proof fn controls_become_definitions(p: ParamView)
    ensures
        ({
            let d = stored(p);
            &&& d.name == p.name
            &&& d.label == p.label
            &&& kind_of_tag(d.kind) == p.kind
            &&& d.required == p.required
            &&& d.choices == p.choices
            &&& d.position == p.position
            &&& d.custom == p.custom
            &&& d.as_env == p.as_env
            &&& p.kind != ParamKind::Bool ==> d.default == p.value
            &&& p.kind == ParamKind::Bool && p.bool_value ==> d.default == seq!['t', 'r', 'u', 'e']
            &&& p.kind == ParamKind::Bool && !p.bool_value ==> d.default == seq![
                'f',
                'a',
                'l',
                's',
                'e',
            ]
        }),
{
    kinds_round_trip(p.kind);
    reveal_strlit("true");
    reveal_strlit("false");
    assert("true"@ =~= seq!['t', 'r', 'u', 'e']);
    assert("false"@ =~= seq!['f', 'a', 'l', 's', 'e']);
}

/// A custom control is an empty text field that is marked as the user's, bound to
/// nothing and not required, and different numbers give different names and labels.
pub proof fn custom_controls_are_told_apart(m: nat, n: nat)
    requires
        m != n,
    ensures
        ({
            let p = custom_control(n);
            &&& p.custom
            &&& p.kind == ParamKind::Text
            &&& p.name == "Custom"@ + text::decimal(n)
            &&& p.label == "Custom "@ + text::decimal(n)
            &&& p.value.len() == 0
            &&& p.choices.len() == 0
            &&& p.position is None
            &&& !p.required
            &&& !p.is_switch
            &&& !p.bool_value
            &&& !p.as_env
            &&& custom_control(m).name != p.name
            &&& custom_control(m).label != p.label
        }),
{
    text::decimals_differ(m, n);
    let a = "Custom"@;
    let b = "Custom "@;
    if a + text::decimal(m) == a + text::decimal(n) {
        assert((a + text::decimal(m)).subrange(a.len() as int, (a + text::decimal(m)).len() as int)
            =~= text::decimal(m));
        assert((a + text::decimal(n)).subrange(a.len() as int, (a + text::decimal(n)).len() as int)
            =~= text::decimal(n));
    }
    if b + text::decimal(m) == b + text::decimal(n) {
        assert((b + text::decimal(m)).subrange(b.len() as int, (b + text::decimal(m)).len() as int)
            =~= text::decimal(m));
        assert((b + text::decimal(n)).subrange(b.len() as int, (b + text::decimal(n)).len() as int)
            =~= text::decimal(n));
    }
}

/// Binding a control makes it a positional argument, a named one or an environment
/// variable, and none of the others any more, whatever it was before.
pub proof fn the_last_binding_counts(p: ParamView, b: BoundView, first: BoundView)
    ensures
        b matches BoundView::Positional(n) ==> bound_to(p, b).position == Some(n) && !bound_to(
            p,
            b,
        ).as_env && bound_to(p, b).name == "arg"@ + text::decimal(n as nat),
        b matches BoundView::Named(name) ==> bound_to(p, b).position is None && !bound_to(
            p,
            b,
        ).as_env && bound_to(p, b).name == name,
        b matches BoundView::Env(name) ==> bound_to(p, b).position is None && bound_to(p, b).as_env
            && bound_to(p, b).name == name,
        bound_to(bound_to(p, first), b) == bound_to(p, b),
        bound_to(p, b).kind == p.kind && bound_to(p, b).value == p.value && bound_to(
            p,
            b,
        ).bool_value == p.bool_value && bound_to(p, b).label == p.label && bound_to(p, b).required
            == p.required && bound_to(p, b).choices == p.choices && bound_to(p, b).custom
            == p.custom && bound_to(p, b).is_switch == p.is_switch,
{
}

/// A control shows the position that it is bound to, or else the environment variable,
/// or else the parameter.
pub proof fn bindings_are_labelled(p: ParamView)
    ensures
        p.position matches Some(n) ==> label_of_binding(p) == "→ %"@ + text::decimal(n as nat),
        p.position is None && p.as_env ==> label_of_binding(p) == "→ $env:"@ + p.name,
        p.position is None && !p.as_env ==> label_of_binding(p) == "→ -"@ + p.name,
{
}

/// A required control is marked with a star behind its label, and no other is.
pub proof fn required_controls_are_starred(p: ParamView)
    ensures
        p.required ==> caption_of(p) == p.label + seq![' ', '*'],
        !p.required ==> caption_of(p) == p.label,
{
    reveal_strlit(" *");
    assert(" *"@ =~= seq![' ', '*']);
}

} // verus!
