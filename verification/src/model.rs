//! Data model: a script parameter and the value that its control holds.

use crate::text;
use vstd::prelude::*;

verus! {

/// Which control a parameter gets.
#[derive(Clone, Copy, Debug, PartialEq, Eq, Structural)]
pub enum ParamKind {
    Text,
    FilePath,
    FolderPath,
    Number,
    Bool,
    Choice,
}

/// One parameter of a script, and so one control.
#[derive(Debug)]
pub struct Param {
    /// PowerShell parameter name without the leading `$` (e.g. "InputFolder").
    pub name: String,
    /// Human-friendly label derived from the name (e.g. "Input Folder").
    pub label: String,
    pub kind: ParamKind,
    pub required: bool,
    /// `[switch]` (presence = true) vs `[bool]` (needs `-Name:$true`).
    pub is_switch: bool,
    /// Allowed values for a `[ValidateSet(...)]` parameter.
    pub choices: Vec<String>,
    /// Current value for Text / FilePath / FolderPath / Number / Choice.
    pub value: String,
    /// Current value for Bool.
    pub bool_value: bool,
    /// Batch positional argument index (None for PowerShell named params).
    pub position: Option<u32>,
    /// True if added/edited by the user via the mapper (not auto-detected).
    pub custom: bool,
    /// Inject the value as an environment variable (`$env:name`) before running.
    pub as_env: bool,
}

/// What a `Param` holds.
#[verifier::ext_equal]
pub struct ParamView {
    pub name: Seq<char>,
    pub label: Seq<char>,
    pub kind: ParamKind,
    pub required: bool,
    pub is_switch: bool,
    pub choices: Seq<Seq<char>>,
    pub value: Seq<char>,
    pub bool_value: bool,
    pub position: Option<u32>,
    pub custom: bool,
    pub as_env: bool,
}

impl View for Param {
    type V = ParamView;

    open spec fn view(&self) -> ParamView {
        ParamView {
            name: self.name@,
            label: self.label@,
            kind: self.kind,
            required: self.required,
            is_switch: self.is_switch,
            choices: text::texts(self.choices@),
            value: self.value@,
            bool_value: self.bool_value,
            position: self.position,
            custom: self.custom,
            as_env: self.as_env,
        }
    }
}

/// What a list of parameters holds.
pub open spec fn params_view(v: Seq<Param>) -> Seq<ParamView> {
    v.map_values(|p: Param| p@)
}

impl Clone for Param {
    fn clone(&self) -> (r: Self)
        ensures
            r@ == self@,
    {
        Param {
            name: self.name.clone(),
            label: self.label.clone(),
            kind: self.kind,
            required: self.required,
            is_switch: self.is_switch,
            choices: text::copy_strings(&self.choices),
            value: self.value.clone(),
            bool_value: self.bool_value,
            position: self.position,
            custom: self.custom,
            as_env: self.as_env,
        }
    }
}

/// What is said of a control is said of its fields, and of a list of controls of each of
/// them, in their order.
pub proof fn controls_are_their_fields(p: Param, v: Seq<Param>, i: int)
    ensures
        p@.name == p.name@,
        p@.label == p.label@,
        p@.kind == p.kind,
        p@.required == p.required,
        p@.is_switch == p.is_switch,
        p@.choices.len() == p.choices@.len(),
        0 <= i < p.choices@.len() ==> p@.choices[i] == p.choices@[i]@,
        p@.value == p.value@,
        p@.bool_value == p.bool_value,
        p@.position == p.position,
        p@.custom == p.custom,
        p@.as_env == p.as_env,
        params_view(v).len() == v.len(),
        0 <= i < v.len() ==> params_view(v)[i] == v[i]@,
{
}

} // verus!
