//! Per-script sidecar (`<script>.disbatch.json`) stored next to the script.
//!
//! Holds team-shareable extras and remembered state: usage hints, mapper
//! control definitions, and the last-used input values. Commit the sidecar
//! alongside the `.ps1`/`.bat` and your team gets the hints + custom controls
//! when they open it.

use crate::text;
use crate::values::ValueMap;
use vstd::prelude::*;

verus! {

/// What the name of a sidecar adds to the name of its script.
pub const SUFFIX: &'static str = ".disbatch.json";

/// A control as defined/overridden by the user in the mapper.
pub struct ControlDef {
    pub name: String,
    pub label: String,
    /// text | file | folder | number | bool | choice
    pub kind: String,
    pub required: bool,
    pub default: String,
    pub choices: Vec<String>,
    pub position: Option<u32>,
    pub custom: bool,
    pub as_env: bool,
}

/// What a `ControlDef` holds.
#[verifier::ext_equal]
pub struct ControlDefView {
    pub name: Seq<char>,
    pub label: Seq<char>,
    pub kind: Seq<char>,
    pub required: bool,
    pub default: Seq<char>,
    pub choices: Seq<Seq<char>>,
    pub position: Option<u32>,
    pub custom: bool,
    pub as_env: bool,
}

impl View for ControlDef {
    type V = ControlDefView;

    open spec fn view(&self) -> ControlDefView {
        ControlDefView {
            name: self.name@,
            label: self.label@,
            kind: self.kind@,
            required: self.required,
            default: self.default@,
            choices: text::texts(self.choices@),
            position: self.position,
            custom: self.custom,
            as_env: self.as_env,
        }
    }
}

/// The definition with all fields empty.
pub open spec fn empty_def() -> ControlDefView {
    ControlDefView {
        name: Seq::empty(),
        label: Seq::empty(),
        kind: Seq::empty(),
        required: false,
        default: Seq::empty(),
        choices: Seq::empty(),
        position: None,
        custom: false,
        as_env: false,
    }
}

impl Default for ControlDef {
    fn default() -> (r: Self)
        ensures
            r@ == empty_def(),
    {
        let choices: Vec<String> = Vec::new();
        assert(text::texts(choices@) =~= Seq::empty());
        ControlDef {
            name: String::new(),
            label: String::new(),
            kind: String::new(),
            required: false,
            default: String::new(),
            choices,
            position: None,
            custom: false,
            as_env: false,
        }
    }
}

impl Clone for ControlDef {
    fn clone(&self) -> (r: Self)
        ensures
            r@ == self@,
    {
        ControlDef {
            name: self.name.clone(),
            label: self.label.clone(),
            kind: self.kind.clone(),
            required: self.required,
            default: self.default.clone(),
            choices: text::copy_strings(&self.choices),
            position: self.position,
            custom: self.custom,
            as_env: self.as_env,
        }
    }
}

/// What a list of control definitions holds.
pub open spec fn defs_view(v: Seq<ControlDef>) -> Seq<ControlDefView> {
    v.map_values(|d: ControlDef| d@)
}

/// What is remembered of a script.
pub struct Sidecar {
    /// Free-text notes on how to use the script.
    pub hints: String,
    /// Mapper controls. If non-empty, they replace auto-detection on open.
    pub controls: Vec<ControlDef>,
    /// Remembered text/number/choice/path values, keyed by control name.
    pub values: ValueMap<String>,
    /// Remembered checkbox values, keyed by control name.
    pub bool_values: ValueMap<bool>,
}

/// What a `Sidecar` holds.
#[verifier::ext_equal]
pub struct SidecarView {
    pub hints: Seq<char>,
    pub controls: Seq<ControlDefView>,
    pub values: Map<Seq<char>, Seq<char>>,
    pub bool_values: Map<Seq<char>, bool>,
}

impl View for Sidecar {
    type V = SidecarView;

    open spec fn view(&self) -> SidecarView {
        SidecarView {
            hints: self.hints@,
            controls: defs_view(self.controls@),
            values: self.values@,
            bool_values: self.bool_values@,
        }
    }
}

/// The sidecar that remembers nothing.
pub open spec fn empty_sidecar() -> SidecarView {
    SidecarView {
        hints: Seq::empty(),
        controls: Seq::empty(),
        values: Map::empty(),
        bool_values: Map::empty(),
    }
}

impl Default for Sidecar {
    fn default() -> (r: Self)
        ensures
            r@ == empty_sidecar(),
    {
        let controls: Vec<ControlDef> = Vec::new();
        assert(defs_view(controls@) =~= Seq::empty());
        Sidecar {
            hints: String::new(),
            controls,
            values: ValueMap::new(),
            bool_values: ValueMap::new(),
        }
    }
}

impl Clone for Sidecar {
    fn clone(&self) -> (r: Self)
        ensures
            r@ == self@,
    {
        let mut controls: Vec<ControlDef> = Vec::new();
        let mut i: usize = 0;
        while i < self.controls.len()
            invariant
                i <= self.controls.len(),
                controls.len() == i,
                forall|k: int| 0 <= k < i ==> (#[trigger] controls@[k])@ == self.controls@[k]@,
            decreases self.controls.len() - i,
        {
            controls.push(self.controls[i].clone());
            i += 1;
        }
        assert(defs_view(controls@) =~= defs_view(self.controls@));
        Sidecar {
            hints: self.hints.clone(),
            controls,
            values: self.values.clone(),
            bool_values: self.bool_values.clone(),
        }
    }
}

/// The path of the sidecar of a script.
pub open spec fn sidecar_path(script: Seq<char>) -> Seq<char> {
    script + SUFFIX@
}

impl Sidecar {
    /// `<script>.disbatch.json` next to the script.
    pub fn path_for(script: &str) -> (r: String)
        ensures
            r@ == sidecar_path(script@),
    {
        let mut s = String::new();
        s.append(script);
        s.append(SUFFIX);
        assert(s@ =~= sidecar_path(script@));
        s
    }

    /// The sidecar of a script from what its file holds, or a default if it is
    /// missing/unreadable.
    pub fn load(stored: Option<Sidecar>) -> (r: Sidecar)
        ensures
            r@ == (match stored {
                Some(s) => s@,
                None => empty_sidecar(),
            }),
    {
        match stored {
            Some(s) => s,
            None => Sidecar::default(),
        }
    }
}

/// No two scripts share a sidecar, and no sidecar has the path of its script.
pub proof fn sidecar_paths_are_distinct(a: Seq<char>, b: Seq<char>)
    ensures
        sidecar_path(a) == sidecar_path(b) ==> a == b,
        sidecar_path(a) != a,
{
    reveal_strlit(".disbatch.json");
    if sidecar_path(a) == sidecar_path(b) {
        assert(sidecar_path(a).len() == a.len() + SUFFIX@.len());
        assert(sidecar_path(b).len() == b.len() + SUFFIX@.len());
        assert(a =~= sidecar_path(a).subrange(0, a.len() as int));
        assert(b =~= sidecar_path(b).subrange(0, b.len() as int));
    }
    assert(sidecar_path(a).len() > a.len());
}

/// The sidecar of a script lies next to it: its path is that of the script with the
/// suffix behind it.
pub proof fn sidecars_lie_next_to_their_scripts(script: Seq<char>)
    ensures
        sidecar_path(script) == script + ".disbatch.json"@,
        empty_sidecar().hints.len() == 0,
        empty_sidecar().controls.len() == 0,
        forall|name: Seq<char>| !#[trigger] empty_sidecar().values.dom().contains(name),
        forall|name: Seq<char>| !#[trigger] empty_sidecar().bool_values.dom().contains(name),
{
}

/// What is said of a sidecar and its definitions is said of their fields, and of a list of
/// definitions of each of them, in their order.
pub proof fn sidecars_are_their_fields(s: Sidecar, d: ControlDef, v: Seq<ControlDef>, i: int)
    ensures
        s@.hints == s.hints@,
        s@.controls == defs_view(s.controls@),
        s@.values == s.values@,
        s@.bool_values == s.bool_values@,
        d@.name == d.name@,
        d@.label == d.label@,
        d@.kind == d.kind@,
        d@.required == d.required,
        d@.default == d.default@,
        d@.choices.len() == d.choices@.len(),
        0 <= i < d.choices@.len() ==> d@.choices[i] == d.choices@[i]@,
        d@.position == d.position,
        d@.custom == d.custom,
        d@.as_env == d.as_env,
        defs_view(v).len() == v.len(),
        0 <= i < v.len() ==> defs_view(v)[i] == v[i]@,
{
}

} // verus!
