//! The state of the program and what each action of the user makes of it.
//!
//! Reading and writing files, asking PowerShell for a script's parameters and
//! drawing are left to the program around this library; it hands in what it
//! read, and takes out what is to be shown, sent and stored.

use crate::analyzer;
use crate::analyzer::{Finding, FindingView, Rules, Severity};
use crate::binding::{Bound, BoundView};
use crate::command;
use crate::controls;
use crate::model;
use crate::model::{Param, ParamKind, ParamView};
use crate::parser;
use crate::pattern;
use crate::psparse;
use crate::psparse::Ps1Parser;
use crate::sidecar;
use crate::sidecar::{ControlDef, ControlDefView, Sidecar, SidecarView};
use crate::text;
use crate::unicode;
use std::collections::HashMap;
use vstd::prelude::*;

verus! {

/// Which tab is shown.
#[derive(PartialEq, Eq, Clone, Copy, Debug, Structural)]
pub enum Tab {
    Script,
    Controls,
}

/// How a script takes its arguments.
#[derive(PartialEq, Eq, Clone, Copy, Debug, Structural)]
pub enum ScriptType {
    PowerShell,
    Batch,
    Other,
}

/// The type of script that an extension, in lower case, stands for.
pub open spec fn type_of_extension(ext: Seq<char>) -> ScriptType {
    if ext == "ps1"@ {
        ScriptType::PowerShell
    } else if ext == "bat"@ || ext == "cmd"@ {
        ScriptType::Batch
    } else {
        ScriptType::Other
    }
}

/// The type of script that an extension, in any case, stands for.
pub fn script_type(ext: &str) -> (r: ScriptType)
    ensures
        r == type_of_extension(unicode::lowercase(ext@)),
{
    let e = unicode::to_lowercase(ext);
    lower_script_type(e.as_str())
}

/// The type of script that an extension, in lower case, stands for.
fn lower_script_type(e: &str) -> (r: ScriptType)
    ensures
        r == type_of_extension(e@),
{
    if text::same(e, "ps1") {
        ScriptType::PowerShell
    } else if text::same(e, "bat") || text::same(e, "cmd") {
        ScriptType::Batch
    } else {
        ScriptType::Other
    }
}

/// The state of the program.
pub struct DisbatchApp {
    pub tab: Tab,
    /// The open script.
    pub script_path: Option<String>,
    /// The extension of the open script, in lower case.
    pub extension: String,
    pub source: String,
    pub editable: bool,
    pub params: Vec<Param>,
    pub note: String,
    pub findings: Vec<Finding>,
    pub risk_ack: bool,
    /// Line (1-based) to highlight in the preview, set by clicking a finding.
    pub highlight_line: Option<usize>,
    /// One-shot flag: scroll the highlighted line into view next frame.
    pub scroll_pending: bool,
    /// When set, only findings of this severity are shown.
    pub severity_filter: Option<Severity>,
    /// Per-script hints/notes, persisted to `<script>.disbatch.json`.
    pub sidecar: Sidecar,
    /// Mapper "edit controls" mode toggle.
    pub mapping_mode: bool,
    /// When set, clicking a preview line binds that control (by index) to it.
    pub picking_for: Option<usize>,
    /// The rules of the risk analyzer.
    pub rules: Rules,
}

/// What a `DisbatchApp` holds.
#[verifier::ext_equal]
pub struct AppView {
    pub tab: Tab,
    pub script_path: Option<Seq<char>>,
    pub extension: Seq<char>,
    pub source: Seq<char>,
    pub editable: bool,
    pub params: Seq<ParamView>,
    pub note: Seq<char>,
    pub findings: Seq<FindingView>,
    pub risk_ack: bool,
    pub highlight_line: Option<usize>,
    pub scroll_pending: bool,
    pub severity_filter: Option<Severity>,
    pub sidecar: SidecarView,
    pub mapping_mode: bool,
    pub picking_for: Option<usize>,
}

impl View for DisbatchApp {
    type V = AppView;

    open spec fn view(&self) -> AppView {
        AppView {
            tab: self.tab,
            script_path: parser::text_option(self.script_path),
            extension: self.extension@,
            source: self.source@,
            editable: self.editable,
            params: model::params_view(self.params@),
            note: self.note@,
            findings: analyzer::findings_view(self.findings@),
            risk_ack: self.risk_ack,
            highlight_line: self.highlight_line,
            scroll_pending: self.scroll_pending,
            severity_filter: self.severity_filter,
            sidecar: self.sidecar@,
            mapping_mode: self.mapping_mode,
            picking_for: self.picking_for,
        }
    }
}

/// The state before any script is opened.
pub open spec fn initial() -> AppView {
    AppView {
        tab: Tab::Script,
        script_path: None,
        extension: Seq::empty(),
        source: Seq::empty(),
        editable: false,
        params: Seq::empty(),
        note: "Open a PowerShell (.ps1) script to begin."@,
        findings: Seq::empty(),
        risk_ack: false,
        highlight_line: None,
        scroll_pending: false,
        severity_filter: None,
        sidecar: sidecar::empty_sidecar(),
        mapping_mode: false,
        picking_for: None,
    }
}

impl Default for DisbatchApp {
    fn default() -> (r: Self)
        ensures
            r@ == initial(),
    {
        let mut note = String::new();
        note.append("Open a PowerShell (.ps1) script to begin.");
        let params: Vec<Param> = Vec::new();
        let findings: Vec<Finding> = Vec::new();
        assert(note@ =~= initial().note);
        assert(model::params_view(params@) =~= Seq::empty());
        assert(analyzer::findings_view(findings@) =~= Seq::empty());
        DisbatchApp {
            tab: Tab::Script,
            script_path: None,
            extension: String::new(),
            source: String::new(),
            editable: false,
            params,
            note,
            findings,
            risk_ack: false,
            highlight_line: None,
            scroll_pending: false,
            severity_filter: None,
            sidecar: Sidecar::default(),
            mapping_mode: false,
            picking_for: None,
            rules: Rules::new(),
        }
    }
}

// ---------------------------------------------------------------------------
// Detection
// ---------------------------------------------------------------------------

/// The controls that are detected in a script with the extension, in lower
/// case. `ast` is what PowerShell's parser reported.
pub open spec fn detected_params(
    ext: Seq<char>,
    source: Seq<char>,
    ast: Option<Seq<ParamView>>,
) -> Seq<ParamView> {
    match type_of_extension(ext) {
        ScriptType::PowerShell => psparse::detected(source, ast).0,
        ScriptType::Batch => parser::batch_params(source),
        ScriptType::Other => Seq::empty(),
    }
}

/// What the user is told of the detection.
pub open spec fn detection_note(
    ext: Seq<char>,
    source: Seq<char>,
    ast: Option<Seq<ParamView>>,
) -> Seq<char> {
    let n = detected_params(ext, source, ast).len();
    match type_of_extension(ext) {
        ScriptType::PowerShell => "Detected "@ + text::decimal(n) + " parameter(s)."@ + if ast is None {
            " (regex fallback)"@
        } else {
            Seq::empty()
        },
        ScriptType::Batch => "Detected "@ + text::decimal(n)
            + " positional argument(s) (%1, %2, …), passed in order."@,
        ScriptType::Other => "'."@ + ext
            + "' isn't auto-detected — preview and risk analysis still work."@,
    }
}

/// Detect the controls of a script, and say what was detected.
fn detect(ext: &str, source: &str, ast: Option<Vec<Param>>) -> (r: (Vec<Param>, String))
    ensures
        model::params_view(r.0@) == detected_params(ext@, source@, psparse::params_option(ast)),
        r.1@ == detection_note(ext@, source@, psparse::params_option(ast)),
{
    let ghost given = psparse::params_option(ast);
    let mut note = String::new();
    match lower_script_type(ext) {
        ScriptType::PowerShell => {
            let (params, which) = psparse::detect_ps1_params(source, ast);
            note.append("Detected ");
            text::push_decimal(&mut note, params.len() as u64);
            note.append(" parameter(s).");
            if which == Ps1Parser::Regex {
                note.append(" (regex fallback)");
            }
            assert(model::params_view(params@).len() == params.len());
            assert(note@ =~= detection_note(ext@, source@, given));
            (params, note)
        },
        ScriptType::Batch => {
            let params = parser::parse_batch(source);
            note.append("Detected ");
            text::push_decimal(&mut note, params.len() as u64);
            note.append(" positional argument(s) (%1, %2, …), passed in order.");
            assert(model::params_view(params@).len() == params.len());
            assert(note@ =~= detection_note(ext@, source@, given));
            (params, note)
        },
        ScriptType::Other => {
            let params: Vec<Param> = Vec::new();
            assert(model::params_view(params@) =~= Seq::empty());
            note.append("'.");
            note.append(ext);
            note.append("' isn't auto-detected — preview and risk analysis still work.");
            assert(note@ =~= detection_note(ext@, source@, given));
            (params, note)
        },
    }
}

// ---------------------------------------------------------------------------
// Remembered values
// ---------------------------------------------------------------------------

/// The sidecar with the values of the controls entered under their names.
pub open spec fn remembered(s: SidecarView, params: Seq<ParamView>) -> SidecarView
    decreases params.len(),
{
    if params.len() == 0 {
        s
    } else {
        let before = remembered(s, params.drop_last());
        let p = params.last();
        SidecarView {
            values: before.values.insert(p.name, p.value),
            bool_values: before.bool_values.insert(p.name, p.bool_value),
            ..before
        }
    }
}

/// The control with the values that the sidecar has for its name.
pub open spec fn recalled(s: SidecarView, p: ParamView) -> ParamView {
    ParamView {
        value: if s.values.dom().contains(p.name) {
            s.values[p.name]
        } else {
            p.value
        },
        bool_value: if s.bool_values.dom().contains(p.name) {
            s.bool_values[p.name]
        } else {
            p.bool_value
        },
        ..p
    }
}

/// The controls with the values that the sidecar has for their names.
pub open spec fn all_recalled(s: SidecarView, params: Seq<ParamView>) -> Seq<ParamView> {
    params.map_values(|p: ParamView| recalled(s, p))
}

/// The controls with the values that the sidecar has for their names.
fn recall(s: &Sidecar, params: &Vec<Param>) -> (r: Vec<Param>)
    ensures
        model::params_view(r@) == all_recalled(s@, model::params_view(params@)),
{
    let mut out: Vec<Param> = Vec::new();
    let mut i: usize = 0;
    while i < params.len()
        invariant
            i <= params.len(),
            out.len() == i,
            forall|k: int| 0 <= k < i ==> (#[trigger] out@[k])@ == recalled(s@, params@[k]@),
        decreases params.len() - i,
    {
        let mut p = params[i].clone();
        if let Some(v) = s.values.get(params[i].name.as_str()) {
            p.value = v.clone();
        }
        if let Some(b) = s.bool_values.get(params[i].name.as_str()) {
            p.bool_value = *b;
        }
        assert(p@ == recalled(s@, params@[i as int]@));
        out.push(p);
        i += 1;
    }
    assert(model::params_view(out@) =~= all_recalled(s@, model::params_view(params@)));
    out
}

/// The controls that stored definitions become.
pub open spec fn all_restored(defs: Seq<ControlDefView>) -> Seq<ParamView> {
    defs.map_values(|d: ControlDefView| controls::restored(d))
}

/// How controls are stored.
pub open spec fn all_stored(params: Seq<ParamView>) -> Seq<ControlDefView> {
    params.map_values(|p: ParamView| controls::stored(p))
}

/// The controls that stored definitions become.
fn restore(defs: &Vec<ControlDef>) -> (r: Vec<Param>)
    ensures
        model::params_view(r@) == all_restored(sidecar::defs_view(defs@)),
{
    let mut out: Vec<Param> = Vec::new();
    let mut i: usize = 0;
    while i < defs.len()
        invariant
            i <= defs.len(),
            out.len() == i,
            forall|k: int| 0 <= k < i ==> (#[trigger] out@[k])@ == controls::restored(defs@[k]@),
        decreases defs.len() - i,
    {
        out.push(controls::def_to_param(&defs[i]));
        i += 1;
    }
    assert(model::params_view(out@) =~= all_restored(sidecar::defs_view(defs@)));
    out
}

/// How controls are stored.
fn store(params: &Vec<Param>) -> (r: Vec<ControlDef>)
    ensures
        sidecar::defs_view(r@) == all_stored(model::params_view(params@)),
{
    let mut out: Vec<ControlDef> = Vec::new();
    let mut i: usize = 0;
    while i < params.len()
        invariant
            i <= params.len(),
            out.len() == i,
            forall|k: int| 0 <= k < i ==> (#[trigger] out@[k])@ == controls::stored(params@[k]@),
        decreases params.len() - i,
    {
        out.push(controls::param_to_def(&params[i]));
        i += 1;
    }
    assert(sidecar::defs_view(out@) =~= all_stored(model::params_view(params@)));
    out
}

// ---------------------------------------------------------------------------
// What actions make of the state
// ---------------------------------------------------------------------------

/// The state after a script was read. `ext` is its extension, in lower case,
/// `ast` what PowerShell's parser reported, and `stored` what its sidecar
/// holds. Stored controls take the place of detected ones; remembered values
/// are filled in either way.
pub open spec fn opened(
    app: AppView,
    path: Seq<char>,
    ext: Seq<char>,
    source: Seq<char>,
    ast: Option<Seq<ParamView>>,
    stored: SidecarView,
) -> AppView {
    AppView {
        script_path: Some(path),
        extension: ext,
        source,
        params: all_recalled(
            stored,
            if stored.controls.len() > 0 {
                all_restored(stored.controls)
            } else {
                detected_params(ext, source, ast)
            },
        ),
        note: detection_note(ext, source, ast),
        findings: analyzer::analysis(analyzer::rule_table(), source),
        risk_ack: false,
        editable: false,
        highlight_line: None,
        scroll_pending: false,
        severity_filter: None,
        sidecar: stored,
        ..app
    }
}

/// The state after the edited script was analyzed again.
pub open spec fn reanalyzed(app: AppView, ast: Option<Seq<ParamView>>) -> AppView {
    AppView {
        params: psparse::detected(app.source, ast).0,
        findings: analyzer::analysis(analyzer::rule_table(), app.source),
        risk_ack: false,
        highlight_line: None,
        severity_filter: None,
        ..app
    }
}

/// The state after the controls were detected again.
pub open spec fn redetected(app: AppView, ast: Option<Seq<ParamView>>) -> AppView {
    AppView {
        params: all_recalled(app.sidecar, detected_params(app.extension, app.source, ast)),
        ..app
    }
}

/// The state after the values of the controls were remembered.
pub open spec fn saved(app: AppView) -> AppView {
    AppView { sidecar: remembered(app.sidecar, app.params), ..app }
}

/// The state after the controls were stored.
pub open spec fn mapping_saved(app: AppView) -> AppView {
    saved(
        AppView {
            sidecar: SidecarView { controls: all_stored(app.params), ..app.sidecar },
            ..app
        },
    )
}

/// The command that runs the open script.
pub open spec fn command_of(app: AppView) -> Seq<char> {
    command::command(
        match app.script_path {
            Some(path) => path,
            None => Seq::empty(),
        },
        app.script_path is Some && type_of_extension(app.extension) == ScriptType::Batch,
        app.params,
    )
}

/// Whether the Run button waits for the risk to be acknowledged.
pub open spec fn is_gated(app: AppView) -> bool {
    analyzer::any_warning(app.findings) && !app.risk_ack
}

/// Whether the Run button is enabled: every required value is set, and either no
/// warning was found or the user has acknowledged the risk.
pub open spec fn is_runnable(app: AppView) -> bool {
    command::missing_labels(app.params).len() == 0 && !is_gated(app)
}

/// What keeps the Run button disabled.
#[derive(Debug)]
pub enum RunGate {
    /// Nothing: it is enabled.
    Ready,
    /// Required values are missing; the text says which.
    Missing(String),
    /// The risk is not acknowledged.
    Unacknowledged,
}

/// What a `RunGate` holds.
pub enum RunGateView {
    Ready,
    Missing(Seq<char>),
    Unacknowledged,
}

impl View for RunGate {
    type V = RunGateView;

    open spec fn view(&self) -> RunGateView {
        match self {
            RunGate::Ready => RunGateView::Ready,
            RunGate::Missing(t) => RunGateView::Missing(t@),
            RunGate::Unacknowledged => RunGateView::Unacknowledged,
        }
    }
}

/// `parts`, one after the other, with `separator` between them.
pub open spec fn joined(parts: Seq<Seq<char>>, separator: Seq<char>) -> Seq<char>
    decreases parts.len(),
{
    if parts.len() == 0 {
        Seq::empty()
    } else if parts.len() == 1 {
        parts[0]
    } else {
        joined(parts.drop_last(), separator) + separator + parts.last()
    }
}

/// What keeps the Run button disabled.
pub open spec fn gate_of(app: AppView) -> RunGateView {
    let missing = command::missing_labels(app.params);
    if missing.len() > 0 {
        RunGateView::Missing("Required: "@ + joined(missing, ", "@))
    } else if is_gated(app) {
        RunGateView::Unacknowledged
    } else {
        RunGateView::Ready
    }
}

/// `parts`, one after the other, with `separator` between them.
fn join(parts: &Vec<String>, separator: &str) -> (r: String)
    ensures
        r@ == joined(text::texts(parts@), separator@),
{
    let ghost views = text::texts(parts@);
    let mut out = String::new();
    let mut i: usize = 0;
    assert(views.subrange(0, 0) =~= Seq::empty());
    assert(out@ =~= Seq::empty());
    while i < parts.len()
        invariant
            i <= parts.len(),
            views == text::texts(parts@),
            out@ == joined(views.subrange(0, i as int), separator@),
        decreases parts.len() - i,
    {
        let ghost now = views.subrange(0, i + 1);
        assert(now.drop_last() =~= views.subrange(0, i as int));
        assert(now.last() == parts@[i as int]@);
        let ghost so_far = out@;
        if i > 0 {
            out.append(separator);
        }
        out.append(parts[i].as_str());
        if i > 0 {
            assert(out@ =~= joined(now, separator@));
        } else {
            assert(so_far =~= Seq::empty());
            assert(out@ =~= now[0]);
        }
        i += 1;
    }
    assert(views.subrange(0, i as int) =~= views);
    out
}

/// What the analysis panel says of a script.
#[derive(Clone, Copy, Debug, PartialEq, Eq, Structural)]
pub struct Metrics {
    pub lines: usize,
    pub parameters: usize,
    pub required: usize,
    pub needs_admin: bool,
}

/// How many of the controls are required.
pub open spec fn required_among(params: Seq<ParamView>) -> nat
    decreases params.len(),
{
    if params.len() == 0 {
        0
    } else {
        required_among(params.drop_last()) + if params.last().required {
            1nat
        } else {
            0nat
        }
    }
}

proof fn lemma_required_among(params: Seq<ParamView>)
    ensures
        required_among(params) <= params.len(),
        required_among(params) == params.len() <==> forall|i: int|
            0 <= i < params.len() ==> (#[trigger] params[i]).required,
        required_among(params) == 0 <==> forall|i: int|
            0 <= i < params.len() ==> !(#[trigger] params[i]).required,
    decreases params.len(),
{
    if params.len() > 0 {
        let front = params.drop_last();
        let n = params.len() - 1;
        lemma_required_among(front);
        assert(forall|i: int| 0 <= i < n ==> #[trigger] front[i] == params[i]);
        if forall|i: int| 0 <= i < params.len() ==> (#[trigger] params[i]).required {
            assert(params[n].required);
        }
        if forall|i: int| 0 <= i < params.len() ==> !(#[trigger] params[i]).required {
            assert(!params[n].required);
        }
        if params[n].required && forall|i: int| 0 <= i < n ==> (#[trigger] front[i]).required {
            assert forall|i: int| 0 <= i < params.len() implies (#[trigger] params[i]).required by {
                if i < n {
                    assert(front[i].required);
                }
            }
        }
        if !params[n].required && forall|i: int| 0 <= i < n ==> !(#[trigger] front[i]).required {
            assert forall|i: int| 0 <= i < params.len() implies !(#[trigger] params[i]).required by {
                if i < n {
                    assert(!front[i].required);
                }
            }
        }
    }
}

/// Whether a script asks for administrator rights.
pub open spec fn asks_for_admin(source: Seq<char>) -> bool {
    let s = unicode::lowercase(source);
    text::occurs(s, "runasadministrator"@) || text::occurs(s, "-verb runas"@)
}

/// How a line of the preview is tinted.
#[derive(Clone, Copy, Debug, PartialEq, Eq, Structural)]
pub enum LineTint {
    Plain,
    Highlighted,
    Risky(Severity),
}

/// The tint of a line: the highlight wins over the severity of its findings.
pub open spec fn tint_of(
    highlight: Option<usize>,
    risky: Map<usize, Severity>,
    line: usize,
) -> LineTint {
    if highlight == Some(line) {
        LineTint::Highlighted
    } else if risky.dom().contains(line) {
        LineTint::Risky(risky[line])
    } else {
        LineTint::Plain
    }
}

/// How a line of the preview is tinted, by the highlighted line and the lines
/// with findings.
pub fn line_tint(highlight: Option<usize>, risky: &HashMap<usize, Severity>, line: usize) -> (r:
    LineTint)
    ensures
        r == tint_of(highlight, risky@, line),
{
    broadcast use vstd::std_specs::hash::group_hash_axioms;

    if let Some(h) = highlight {
        if h == line {
            return LineTint::Highlighted;
        }
    }
    match risky.get(&line) {
        Some(s) => LineTint::Risky(*s),
        None => LineTint::Plain,
    }
}

/// The filter after its chip for `s` was clicked.
pub open spec fn toggled(filter: Option<Severity>, s: Severity) -> Option<Severity> {
    if filter == Some(s) {
        None
    } else {
        Some(s)
    }
}

/// The command that makes the terminal follow a script's folder.
pub open spec fn location_command(dir: Seq<char>) -> Seq<char> {
    "Set-Location -LiteralPath "@ + command::quoted(dir)
}

/// The command that makes the terminal follow a script's folder.
pub fn follow_command(dir: &str) -> (r: String)
    ensures
        r@ == location_command(dir@),
{
    let q = command::ps_quote(dir);
    let mut s = String::new();
    s.append("Set-Location -LiteralPath ");
    s.append(q.as_str());
    assert(s@ =~= location_command(dir@));
    s
}

impl DisbatchApp {
    /// Take in a script that was read: its path, its extension, its text, what
    /// PowerShell's parser reported of it (`None` when it could not be asked,
    /// was not to be asked, or the script is none of PowerShell's), and what its
    /// sidecar holds.
    pub fn open_script(
        &mut self,
        path: String,
        ext: &str,
        source: String,
        ast: Option<Vec<Param>>,
        stored: Option<Sidecar>,
    )
        ensures
            final(self)@ == opened(
                old(self)@,
                path@,
                unicode::lowercase(ext@),
                source@,
                psparse::params_option(ast),
                match stored {
                    Some(s) => s@,
                    None => sidecar::empty_sidecar(),
                },
            ),
    {
        let ext = unicode::to_lowercase(ext);
        let (params, note) = detect(ext.as_str(), source.as_str(), ast);
        self.findings = self.rules.analyze(source.as_str());
        self.source = source;
        self.note = note;
        self.risk_ack = false;
        self.editable = false;
        self.highlight_line = None;
        self.scroll_pending = false;
        self.severity_filter = None;
        self.sidecar = Sidecar::load(stored);
        assert(self.sidecar@.controls.len() == self.sidecar.controls.len());
        self.params = if self.sidecar.controls.len() > 0 {
            restore(&self.sidecar.controls)
        } else {
            params
        };
        self.apply_saved_values();
        self.script_path = Some(path);
        self.extension = ext;
    }

    /// Tell the user that a script could not be read.
    pub fn read_failed(&mut self, error: &str)
        ensures
            final(self)@ == (AppView { note: "Couldn't read file: "@ + error@, ..old(self)@ }),
            final(self)@.note == "Couldn't read file: "@ + error@,
            final(self)@.script_path == old(self)@.script_path,
            final(self)@.source == old(self)@.source,
            final(self)@.params == old(self)@.params,
            final(self)@.findings == old(self)@.findings,
            final(self)@.risk_ack == old(self)@.risk_ack,
    {
        let mut note = String::new();
        note.append("Couldn't read file: ");
        note.append(error);
        assert(note@ =~= "Couldn't read file: "@ + error@);
        self.note = note;
    }

    /// Detect controls and risks anew after the script was edited.
    pub fn reanalyze(&mut self, ast: Option<Vec<Param>>)
        ensures
            final(self)@ == reanalyzed(old(self)@, psparse::params_option(ast)),
    {
        let (params, _) = psparse::detect_ps1_params(self.source.as_str(), ast);
        self.params = params;
        self.findings = self.rules.analyze(self.source.as_str());
        self.risk_ack = false;
        self.highlight_line = None;
        self.severity_filter = None;
    }

    /// Re-run auto-detection from the current script, discarding mapper overrides.
    pub fn redetect(&mut self, ast: Option<Vec<Param>>)
        ensures
            final(self)@ == redetected(old(self)@, psparse::params_option(ast)),
    {
        let (params, _) = detect(self.extension.as_str(), self.source.as_str(), ast);
        self.params = params;
        self.apply_saved_values();
    }

    /// Forget the stored controls and detect the script's own again.
    pub fn discard_mapping(&mut self, ast: Option<Vec<Param>>)
        ensures
            final(self)@ == redetected(
                AppView {
                    sidecar: SidecarView { controls: Seq::empty(), ..old(self)@.sidecar },
                    ..old(self)@
                },
                psparse::params_option(ast),
            ),
            final(self)@.sidecar.controls.len() == 0,
            final(self)@.sidecar.hints == old(self)@.sidecar.hints,
            final(self)@.sidecar.values == old(self)@.sidecar.values,
            final(self)@.sidecar.bool_values == old(self)@.sidecar.bool_values,
            final(self)@.findings == old(self)@.findings,
            final(self)@.risk_ack == old(self)@.risk_ack,
    {
        self.sidecar.controls = Vec::new();
        assert(sidecar::defs_view(self.sidecar.controls@) =~= Seq::empty());
        self.redetect(ast);
    }

    /// Whether the open script is a batch file.
    pub fn is_batch(&self) -> (r: bool)
        ensures
            r == (self@.script_path is Some && type_of_extension(self@.extension)
                == ScriptType::Batch),
            r <==> self@.script_path is Some && (self@.extension == "bat"@ || self@.extension
                == "cmd"@),
    {
        proof {
            extensions_tell_scripts_apart(self.extension@);
        }
        self.script_path.is_some() && lower_script_type(self.extension.as_str())
            == ScriptType::Batch
    }

    /// The command that runs the script with the values of its controls.
    pub fn compose_command(&self) -> (r: String)
        ensures
            r@ == command_of(self@),
    {
        let is_batch = self.is_batch();
        match &self.script_path {
            Some(path) => command::compose(path.as_str(), is_batch, &self.params),
            None => {
                let none = String::new();
                assert(none@ =~= Seq::empty());
                command::compose(none.as_str(), is_batch, &self.params)
            },
        }
    }

    /// The labels of the controls that still lack a required value.
    pub fn missing_required(&self) -> (r: Vec<String>)
        ensures
            text::texts(r@) == command::missing_labels(self@.params),
    {
        command::missing(&self.params)
    }

    /// The command to send to the terminal for a run. The values of the controls
    /// are remembered.
    pub fn run(&mut self) -> (r: String)
        ensures
            r@ == command_of(old(self)@),
            final(self)@ == saved(old(self)@),
            final(self)@.params == old(self)@.params,
            final(self)@.findings == old(self)@.findings,
            final(self)@.risk_ack == old(self)@.risk_ack,
    {
        let cmd = self.compose_command();
        self.save_sidecar();
        cmd
    }

    /// Enter the currently-typed input values into the sidecar. Says whether
    /// there is an open script to store it next to.
    pub fn save_sidecar(&mut self) -> (r: bool)
        ensures
            final(self)@ == saved(old(self)@),
            r == old(self)@.script_path is Some,
    {
        let ghost views = model::params_view(self.params@);
        let ghost before = self.sidecar@;
        let ghost start = self@;
        let mut i: usize = 0;
        assert(views.subrange(0, 0) =~= Seq::empty());
        while i < self.params.len()
            invariant
                i <= self.params.len(),
                views == model::params_view(self.params@),
                self.sidecar@ == remembered(before, views.subrange(0, i as int)),
                self@ == (AppView { sidecar: self.sidecar@, ..start }),
            decreases self.params.len() - i,
        {
            assert(views.subrange(0, i + 1).drop_last() =~= views.subrange(0, i as int));
            assert(views.subrange(0, i + 1).last() == self.params@[i as int]@);
            let name = self.params[i].name.clone();
            let value = self.params[i].value.clone();
            let on = self.params[i].bool_value;
            self.sidecar.values.insert(name.clone(), value);
            self.sidecar.bool_values.insert(name, on);
            i += 1;
        }
        assert(views.subrange(0, i as int) =~= views);
        self.script_path.is_some()
    }

    /// Restore remembered input values from the sidecar into the current controls.
    pub fn apply_saved_values(&mut self)
        ensures
            final(self)@ == (AppView {
                params: all_recalled(old(self)@.sidecar, old(self)@.params),
                ..old(self)@
            }),
    {
        self.params = recall(&self.sidecar, &self.params);
    }

    /// Store the controls in the sidecar, with their values. Says whether there
    /// is an open script to store it next to.
    pub fn save_mapping(&mut self) -> (r: bool)
        ensures
            final(self)@ == mapping_saved(old(self)@),
            r == old(self)@.script_path is Some,
    {
        self.sidecar.controls = store(&self.params);
        self.save_sidecar()
    }

    /// Whether the Run button is enabled.
    pub fn can_run(&self) -> (r: bool)
        ensures
            r == is_runnable(self@),
    {
        let missing = self.missing_required();
        assert(text::texts(missing@).len() == missing.len());
        missing.len() == 0 && (!analyzer::has_warning(self.findings.as_slice()) || self.risk_ack)
    }

    /// What keeps the Run button disabled.
    pub fn run_gate(&self) -> (r: RunGate)
        ensures
            r@ == gate_of(self@),
    {
        let missing = self.missing_required();
        assert(text::texts(missing@).len() == missing.len());
        if missing.len() > 0 {
            let labels = join(&missing, ", ");
            let mut s = String::new();
            s.append("Required: ");
            s.append(labels.as_str());
            assert(s@ =~= "Required: "@ + labels@);
            RunGate::Missing(s)
        } else if analyzer::has_warning(self.findings.as_slice()) && !self.risk_ack {
            RunGate::Unacknowledged
        } else {
            RunGate::Ready
        }
    }

    /// What the analysis panel says of the script.
    pub fn metrics(&self) -> (r: Metrics)
        ensures
            r.lines == text::lines_of(self@.source).len(),
            r.parameters == self@.params.len(),
            r.required == required_among(self@.params),
            r.needs_admin == asks_for_admin(self@.source),
            r.required <= r.parameters,
            r.required == r.parameters <==> forall|i: int|
                0 <= i < self@.params.len() ==> (#[trigger] self@.params[i]).required,
            r.required == 0 <==> forall|i: int|
                0 <= i < self@.params.len() ==> !(#[trigger] self@.params[i]).required,
    {
        proof {
            lemma_required_among(self@.params);
        }
        let ghost views = model::params_view(self.params@);
        let mut required: usize = 0;
        let mut i: usize = 0;
        assert(views.subrange(0, 0) =~= Seq::empty());
        while i < self.params.len()
            invariant
                i <= self.params.len(),
                required <= i,
                views == model::params_view(self.params@),
                required == required_among(views.subrange(0, i as int)),
            decreases self.params.len() - i,
        {
            assert(views.subrange(0, i + 1).drop_last() =~= views.subrange(0, i as int));
            assert(views.subrange(0, i + 1).last() == self.params@[i as int]@);
            if self.params[i].required {
                required += 1;
            }
            i += 1;
        }
        assert(views.subrange(0, i as int) =~= views);
        let lines = text::lines(self.source.as_str());
        assert(text::texts(lines@).len() == lines.len());
        let s = unicode::to_lowercase(self.source.as_str());
        let needs_admin = text::contains(s.as_str(), "runasadministrator") || text::contains(
            s.as_str(),
            "-verb runas",
        );
        Metrics { lines: lines.len(), parameters: self.params.len(), required, needs_admin }
    }

    /// The chip for a severity was clicked: show only its findings, or all again.
    pub fn toggle_filter(&mut self, s: Severity)
        ensures
            final(self)@ == (AppView {
                severity_filter: toggled(old(self)@.severity_filter, s),
                ..old(self)@
            }),
            old(self)@.severity_filter == Some(s) ==> final(self)@.severity_filter is None,
            old(self)@.severity_filter != Some(s) ==> final(self)@.severity_filter == Some(s),
            final(self)@.findings == old(self)@.findings,
    {
        let on = match self.severity_filter {
            Some(f) => f == s,
            None => false,
        };
        self.severity_filter = if on {
            None
        } else {
            Some(s)
        };
    }

    /// Whether the filter lets a finding through.
    pub fn is_shown(&self, f: &Finding) -> (r: bool)
        ensures
            r == (self@.severity_filter is None || self@.severity_filter == Some(f.severity)),
            self@.severity_filter is None ==> r,
            self@.severity_filter == Some(Severity::Warning) ==> (r <==> f@.severity
                == Severity::Warning),
            self@.severity_filter == Some(Severity::Caution) ==> (r <==> f@.severity
                == Severity::Caution),
    {
        match self.severity_filter {
            Some(s) => f.severity == s,
            None => true,
        }
    }

    /// A finding was clicked: jump to its line in the read-only preview.
    pub fn select_finding(&mut self, line: usize)
        ensures
            final(self)@ == (AppView {
                highlight_line: Some(line),
                scroll_pending: true,
                editable: false,
                ..old(self)@
            }),
            final(self)@.highlight_line == Some(line),
            final(self)@.scroll_pending,
            !final(self)@.editable,
            final(self)@.findings == old(self)@.findings,
            final(self)@.severity_filter == old(self)@.severity_filter,
            final(self)@.risk_ack == old(self)@.risk_ack,
    {
        self.highlight_line = Some(line);
        self.scroll_pending = true;
        self.editable = false;
    }

    /// Add a custom control, and go to the script to pick what it is bound to.
    pub fn add_control(&mut self)
        requires
            old(self).params.len() < usize::MAX,
        ensures
            final(self)@ == (AppView {
                params: old(self)@.params.push(
                    controls::custom_control(old(self)@.params.len() + 1),
                ),
                picking_for: Some(old(self).params.len()),
                tab: Tab::Script,
                ..old(self)@
            }),
            final(self)@.params.len() == old(self)@.params.len() + 1,
            forall|k: int|
                0 <= k < old(self)@.params.len() ==> #[trigger] final(self)@.params[k] == old(
                    self,
                )@.params[k],
            final(self)@.params[old(self)@.params.len() as int].custom,
            final(self)@.params[old(self)@.params.len() as int].kind == ParamKind::Text,
            final(self)@.params[old(self)@.params.len() as int].name == "Custom"@ + text::decimal(
                old(self)@.params.len() + 1,
            ),
            final(self)@.picking_for == Some(old(self).params.len()),
            final(self)@.tab == Tab::Script,
    {
        let n: usize = self.params.len();
        assert(self@.params.len() == n);
        let added = controls::custom_param(n + 1);
        let ghost so_far = self.params@;
        self.params.push(added);
        assert(model::params_view(self.params@) =~= model::params_view(so_far).push(added@));
        self.picking_for = Some(n);
        self.tab = Tab::Script;
    }

    /// Remove the control at `i`.
    pub fn remove_control(&mut self, i: usize)
        requires
            i < old(self).params.len(),
        ensures
            final(self)@ == (AppView {
                params: old(self)@.params.remove(i as int),
                ..old(self)@
            }),
            final(self)@.params.len() == old(self)@.params.len() - 1,
            forall|k: int|
                0 <= k < i ==> #[trigger] final(self)@.params[k] == old(self)@.params[k],
            forall|k: int|
                i <= k < final(self)@.params.len() ==> #[trigger] final(self)@.params[k] == old(
                    self,
                )@.params[k + 1],
            final(self)@.sidecar == old(self)@.sidecar,
    {
        let ghost so_far = self.params@;
        self.params.remove(i);
        assert(model::params_view(self.params@) =~= model::params_view(so_far).remove(i as int));
    }

    /// Go to the script to pick what the control at `i` is bound to.
    pub fn start_pick(&mut self, i: usize)
        ensures
            final(self)@ == (AppView { picking_for: Some(i), tab: Tab::Script, ..old(self)@ }),
            final(self)@.picking_for == Some(i),
            final(self)@.tab == Tab::Script,
            final(self)@.params == old(self)@.params,
    {
        self.picking_for = Some(i);
        self.tab = Tab::Script;
    }

    /// Stop picking.
    pub fn cancel_pick(&mut self)
        ensures
            final(self)@ == (AppView { picking_for: None, ..old(self)@ }),
            final(self)@.picking_for is None,
            final(self)@.tab == old(self)@.tab,
            final(self)@.params == old(self)@.params,
    {
        self.picking_for = None;
    }

    /// The label of the control that a binding is picked for.
    pub fn pick_label(&self) -> (r: String)
        ensures
            r@ == (match self@.picking_for {
                Some(i) => if i < self@.params.len() {
                    self@.params[i as int].label
                } else {
                    Seq::empty()
                },
                None => Seq::empty(),
            }),
            self@.picking_for matches Some(i) && i < self@.params.len() ==> r@
                == self@.params[self@.picking_for->Some_0 as int].label,
            self@.picking_for is None ==> r@.len() == 0,
    {
        assert(self@.params.len() == self.params.len());
        if let Some(i) = self.picking_for {
            if i < self.params.len() {
                return self.params[i].label.clone();
            }
        }
        let none = String::new();
        assert(none@ =~= Seq::empty());
        none
    }

    /// A token was clicked: bind the control at `i` to it, if there is one, and
    /// go back to the controls.
    pub fn bind(&mut self, i: usize, b: Bound)
        ensures
            final(self)@ == (AppView {
                params: if i < old(self)@.params.len() {
                    old(self)@.params.update(
                        i as int,
                        controls::bound_to(old(self)@.params[i as int], b@),
                    )
                } else {
                    old(self)@.params
                },
                picking_for: None,
                tab: Tab::Controls,
                ..old(self)@
            }),
            final(self)@.params.len() == old(self)@.params.len(),
            forall|k: int|
                0 <= k < old(self)@.params.len() && k != i ==> #[trigger] final(self)@.params[k]
                    == old(self)@.params[k],
            i < old(self)@.params.len() ==> match b@ {
                BoundView::Positional(n) => final(self)@.params[i as int].position == Some(n)
                    && !final(self)@.params[i as int].as_env,
                BoundView::Named(name) => final(self)@.params[i as int].position is None && !final(self)@.params[i as int].as_env && final(self)@.params[i as int].name == name,
                BoundView::Env(name) => final(self)@.params[i as int].position is None && final(self)@.params[i as int].as_env && final(self)@.params[i as int].name == name,
            },
            i < old(self)@.params.len() ==> final(self)@.params[i as int].value == old(
                self,
            )@.params[i as int].value,
            final(self)@.picking_for is None,
            final(self)@.tab == Tab::Controls,
    {
        assert(self@.params.len() == self.params.len());
        if i < self.params.len() {
            let ghost so_far = self.params@;
            let mut p = self.params[i].clone();
            controls::apply_binding(&mut p, b);
            self.params.set(i, p);
            assert(model::params_view(self.params@) =~= model::params_view(so_far).update(
                i as int,
                p@,
            ));
        }
        self.picking_for = None;
        self.tab = Tab::Controls;
    }

    /// Add an empty option to the dropdown at `i`, if there is one.
    pub fn add_choice(&mut self, i: usize)
        ensures
            final(self)@ == (AppView {
                params: if i < old(self)@.params.len() {
                    old(self)@.params.update(
                        i as int,
                        ParamView {
                            choices: old(self)@.params[i as int].choices.push(Seq::empty()),
                            ..old(self)@.params[i as int]
                        },
                    )
                } else {
                    old(self)@.params
                },
                ..old(self)@
            }),
            final(self)@.params.len() == old(self)@.params.len(),
            forall|k: int|
                0 <= k < old(self)@.params.len() && k != i ==> #[trigger] final(self)@.params[k]
                    == old(self)@.params[k],
            i < old(self)@.params.len() ==> final(self)@.params[i as int].choices == old(
                self,
            )@.params[i as int].choices + seq![Seq::empty()],
            i < old(self)@.params.len() ==> final(self)@.params[i as int].value == old(
                self,
            )@.params[i as int].value,
    {
        assert(self@.params.len() == self.params.len());
        if i < self.params.len() {
            let ghost so_far = self.params@;
            let mut p = self.params[i].clone();
            let mut choices = text::copy_strings(&p.choices);
            let option = String::new();
            let ghost options = choices@;
            assert(option@ =~= Seq::empty());
            choices.push(option);
            assert(text::texts(choices@) =~= text::texts(options).push(Seq::empty()));
            p.choices = choices;
            self.params.set(i, p);
            assert(model::params_view(self.params@) =~= model::params_view(so_far).update(
                i as int,
                p@,
            ));
        }
    }

    /// Remove the option at `c` of the dropdown at `i`, if there is one.
    pub fn remove_choice(&mut self, i: usize, c: usize)
        ensures
            final(self)@ == (AppView {
                params: if i < old(self)@.params.len() && c < old(
                    self,
                )@.params[i as int].choices.len() {
                    old(self)@.params.update(
                        i as int,
                        ParamView {
                            choices: old(self)@.params[i as int].choices.remove(c as int),
                            ..old(self)@.params[i as int]
                        },
                    )
                } else {
                    old(self)@.params
                },
                ..old(self)@
            }),
            final(self)@.params.len() == old(self)@.params.len(),
            forall|k: int|
                0 <= k < old(self)@.params.len() && k != i ==> #[trigger] final(self)@.params[k]
                    == old(self)@.params[k],
            i < old(self)@.params.len() && c < old(self)@.params[i as int].choices.len() ==> final(self)@.params[i as int].choices == old(self)@.params[i as int].choices.subrange(
                0,
                c as int,
            ) + old(self)@.params[i as int].choices.subrange(
                c + 1,
                old(self)@.params[i as int].choices.len() as int,
            ),
            i < old(self)@.params.len() && c >= old(self)@.params[i as int].choices.len()
                ==> final(self)@.params[i as int] == old(self)@.params[i as int],
    {
        assert(self@.params.len() == self.params.len());
        if i < self.params.len() {
            assert(self@.params[i as int].choices.len() == self.params@[i as int].choices.len());
            if c < self.params[i].choices.len() {
                let ghost so_far = self.params@;
                let mut p = self.params[i].clone();
                let mut choices = text::copy_strings(&p.choices);
                let ghost options = choices@;
                assert(text::texts(options).len() == options.len());
                choices.remove(c);
                assert(text::texts(choices@) =~= text::texts(options).remove(c as int));
                p.choices = choices;
                self.params.set(i, p);
                assert(model::params_view(self.params@) =~= model::params_view(so_far).update(
                    i as int,
                    p@,
                ));
            }
        }
    }
}

// ---------------------------------------------------------------------------
// What holds of the program as a whole
// ---------------------------------------------------------------------------

/// The Run button is enabled exactly when nothing keeps it disabled, and then
/// every required value is set and every warning is acknowledged.
pub proof fn run_is_gated(app: AppView)
    ensures
        is_runnable(app) <==> gate_of(app) is Ready,
        is_runnable(app) <==> {
            &&& forall|i: int| 0 <= i < app.params.len() ==> !command::is_missing(
                #[trigger] app.params[i],
            )
            &&& (app.risk_ack || forall|i: int|
                0 <= i < app.findings.len() ==> (#[trigger] app.findings[i]).severity
                    != Severity::Warning)
        },
{
    command::nothing_is_missing(app.params);
}

/// Opening a script and analyzing it again both take back the acknowledgement,
/// so a script with a warning is not run before the user has seen it.
pub proof fn warnings_are_acknowledged_anew(
    app: AppView,
    path: Seq<char>,
    ext: Seq<char>,
    source: Seq<char>,
    ast: Option<Seq<ParamView>>,
    stored: SidecarView,
)
    ensures
        !opened(app, path, ext, source, ast, stored).risk_ack,
        !reanalyzed(app, ast).risk_ack,
        analyzer::any_warning(analyzer::analysis(analyzer::rule_table(), source)) ==> !is_runnable(
            opened(app, path, ext, source, ast, stored),
        ),
        analyzer::any_warning(analyzer::analysis(analyzer::rule_table(), app.source))
            ==> !is_runnable(reanalyzed(app, ast)),
{
}

/// Whether controls that share a name hold the same values.
pub open spec fn names_agree(params: Seq<ParamView>) -> bool {
    forall|i: int, j: int|
        0 <= i < params.len() && 0 <= j < params.len() && (#[trigger] params[i]).name == (
        #[trigger] params[j]).name ==> params[i].value == params[j].value && params[i].bool_value
            == params[j].bool_value
}

proof fn lemma_remembered(s: SidecarView, params: Seq<ParamView>, i: int)
    requires
        names_agree(params),
        0 <= i < params.len(),
    ensures
        remembered(s, params).values.dom().contains(params[i].name),
        remembered(s, params).values[params[i].name] == params[i].value,
        remembered(s, params).bool_values.dom().contains(params[i].name),
        remembered(s, params).bool_values[params[i].name] == params[i].bool_value,
    decreases params.len(),
{
    let front = params.drop_last();
    assert(params[params.len() - 1] == params.last());
    if i < front.len() {
        assert(forall|k: int| 0 <= k < front.len() ==> #[trigger] front[k] == params[k]);
        assert(names_agree(front));
        lemma_remembered(s, front, i);
        assert(front[i] == params[i]);
        if params[i].name == params.last().name {
            assert(params[i].value == params[params.len() - 1].value);
        }
    }
}

proof fn lemma_remembering_keeps_texts(s: SidecarView, params: Seq<ParamView>)
    ensures
        remembered(s, params).hints == s.hints,
        remembered(s, params).controls == s.controls,
    decreases params.len(),
{
    if params.len() > 0 {
        lemma_remembering_keeps_texts(s, params.drop_last());
    }
}

proof fn lemma_remembering_keeps_others(s: SidecarView, params: Seq<ParamView>, name: Seq<char>)
    requires
        forall|i: int| 0 <= i < params.len() ==> (#[trigger] params[i]).name != name,
    ensures
        remembered(s, params).values.dom().contains(name) == s.values.dom().contains(name),
        remembered(s, params).values[name] == s.values[name],
        remembered(s, params).bool_values.dom().contains(name) == s.bool_values.dom().contains(
            name,
        ),
        remembered(s, params).bool_values[name] == s.bool_values[name],
    decreases params.len(),
{
    if params.len() > 0 {
        let front = params.drop_last();
        assert forall|i: int| 0 <= i < front.len() implies (#[trigger] front[i]).name != name by {
            assert(front[i] == params[i]);
        }
        assert(params[params.len() - 1].name != name);
        lemma_remembering_keeps_others(s, front, name);
    }
}

/// Values that are remembered are recalled: filling in the values that were just
/// saved changes no control.
pub proof fn saved_values_come_back(app: AppView)
    requires
        names_agree(app.params),
    ensures
        all_recalled(saved(app).sidecar, saved(app).params) == app.params,
{
    let s = remembered(app.sidecar, app.params);
    assert forall|i: int| 0 <= i < app.params.len() implies recalled(s, #[trigger] app.params[i])
        == app.params[i] by {
        lemma_remembered(app.sidecar, app.params, i);
    }
    assert(all_recalled(s, app.params) =~= app.params);
}

/// Saving touches only remembered values: hints, stored controls and everything
/// but the sidecar stay.
pub proof fn saving_keeps_the_rest(app: AppView)
    ensures
        saved(app) == (AppView { sidecar: saved(app).sidecar, ..app }),
        saved(app).sidecar.hints == app.sidecar.hints,
        saved(app).sidecar.controls == app.sidecar.controls,
{
    lemma_remembering_keeps_texts(app.sidecar, app.params);
}

/// Saving keeps what is remembered for names that no current control has.
pub proof fn saving_keeps_other_values(app: AppView, name: Seq<char>)
    requires
        forall|i: int| 0 <= i < app.params.len() ==> (#[trigger] app.params[i]).name != name,
    ensures
        saved(app).sidecar.values.dom().contains(name) == app.sidecar.values.dom().contains(name),
        saved(app).sidecar.values[name] == app.sidecar.values[name],
        saved(app).sidecar.bool_values.dom().contains(name)
            == app.sidecar.bool_values.dom().contains(name),
        saved(app).sidecar.bool_values[name] == app.sidecar.bool_values[name],
{
    lemma_remembering_keeps_others(app.sidecar, app.params, name);
}

/// The control with its checkbox passed as a switch.
pub open spec fn with_switch(p: ParamView) -> ParamView {
    ParamView { is_switch: p.kind == ParamKind::Bool, ..p }
}

/// A saved mapping survives: whoever opens the script with the saved sidecar
/// gets the same controls with the same values, whatever detection says of the
/// script. Only a checkbox that was not passed as a switch now is.
pub proof fn mapping_survives_reopening(
    app: AppView,
    later: AppView,
    path: Seq<char>,
    ext: Seq<char>,
    source: Seq<char>,
    ast: Option<Seq<ParamView>>,
)
    requires
        names_agree(app.params),
        app.params.len() > 0,
    ensures
        opened(later, path, ext, source, ast, mapping_saved(app).sidecar).params
            == app.params.map_values(|p: ParamView| with_switch(p)),
{
    let s = SidecarView { controls: all_stored(app.params), ..app.sidecar };
    let kept = remembered(s, app.params);
    lemma_remembering_keeps_texts(s, app.params);
    let restored = all_restored(kept.controls);
    let reopened = opened(later, path, ext, source, ast, kept).params;
    assert(kept.controls.len() == app.params.len());
    assert forall|i: int| 0 <= i < app.params.len() implies #[trigger] reopened[i] == with_switch(
        app.params[i],
    ) by {
        lemma_remembered(s, app.params, i);
        controls::stored_controls_come_back(app.params[i]);
        assert(kept.controls[i] == controls::stored(app.params[i]));
        assert(restored[i] == controls::settled(app.params[i]));
        assert(reopened[i] == recalled(kept, restored[i]));
    }
    assert(reopened =~= app.params.map_values(|p: ParamView| with_switch(p)));
}

/// Discarding the mapping of a script leaves the controls that opening it
/// without a mapping would have shown.
pub proof fn discarding_undoes_the_mapping(
    app: AppView,
    path: Seq<char>,
    ext: Seq<char>,
    source: Seq<char>,
    ast: Option<Seq<ParamView>>,
    stored: SidecarView,
)
    ensures
        ({
            let bare = SidecarView { controls: Seq::empty(), ..stored };
            redetected(
                AppView { sidecar: bare, ..opened(app, path, ext, source, ast, stored) },
                ast,
            ) == opened(app, path, ext, source, ast, bare)
        }),
{
}

/// Clicking the chip of a severity twice shows all findings again.
pub proof fn filter_toggles(s: Severity)
    ensures
        toggled(None, s) == Some(s),
        toggled(toggled(None, s), s) is None,
{
}

// ---------------------------------------------------------------------------
// What each action promises
// ---------------------------------------------------------------------------

/// Whether the findings are what the rules show on the lines of a script that hold
/// more than white space: each with its severity, be it a warning or a caution, and
/// no others.
pub open spec fn tells_all_risks(findings: Seq<FindingView>, source: Seq<char>) -> bool {
    let lines = text::lines_of(source);
    let rules = analyzer::rule_table();
    &&& forall|n: int, k: int|
        0 <= n < lines.len() && 0 <= k < rules.len() && (exists|c: int|
            0 <= c < lines[n].len() && !text::is_space(#[trigger] lines[n][c]))
            && pattern::rx_is_match((#[trigger] rules[k]).pattern, #[trigger] lines[n])
            ==> findings.contains(analyzer::finding_at(rules[k], lines[n], n))
    &&& forall|f: FindingView| #[trigger]
        findings.contains(f) ==> exists|n: int, k: int|
            0 <= n < lines.len() && 0 <= k < rules.len() && (exists|c: int|
                0 <= c < lines[n].len() && !text::is_space(#[trigger] lines[n][c]))
                && pattern::rx_is_match((#[trigger] rules[k]).pattern, #[trigger] lines[n]) && f
                == analyzer::finding_at(rules[k], lines[n], n)
}

/// Opening a script, or analyzing it again, shows what every rule finds on every line
/// of it, cautions as well as warnings, the most severe first, whatever was shown
/// before and whatever the sidecar holds.
pub proof fn opening_shows_all_risks(
    app: AppView,
    path: Seq<char>,
    ext: Seq<char>,
    source: Seq<char>,
    ast: Option<Seq<ParamView>>,
    stored: SidecarView,
)
    requires
        text::lines_of(source).len() <= usize::MAX,
        text::lines_of(app.source).len() <= usize::MAX,
    ensures
        tells_all_risks(opened(app, path, ext, source, ast, stored).findings, source),
        tells_all_risks(reanalyzed(app, ast).findings, app.source),
        analyzer::is_ordered(opened(app, path, ext, source, ast, stored).findings),
        analyzer::is_ordered(reanalyzed(app, ast).findings),
        opened(app, path, ext, source, ast, stored).findings == analyzer::analysis(
            analyzer::rule_table(),
            source,
        ),
        reanalyzed(app, ast).findings == analyzer::analysis(analyzer::rule_table(), app.source),
{
    let rules = analyzer::rule_table();
    analyzer::findings_show_rules_on_lines(rules, source);
    analyzer::findings_show_rules_on_lines(rules, app.source);
    analyzer::findings_are_ordered(rules, source);
    analyzer::findings_are_ordered(rules, app.source);
}

/// Opening a script shows that script from the start: its path, its extension and its
/// text are the new ones, and no line of it is highlighted, no finding is hidden, it
/// is not editable and nothing is acknowledged. What is no part of a script stays.
pub proof fn opening_starts_afresh(
    app: AppView,
    path: Seq<char>,
    ext: Seq<char>,
    source: Seq<char>,
    ast: Option<Seq<ParamView>>,
    stored: SidecarView,
)
    ensures
        ({
            let after = opened(app, path, ext, source, ast, stored);
            &&& after.script_path == Some(path)
            &&& after.extension == ext
            &&& after.source == source
            &&& after.sidecar == stored
            &&& !after.risk_ack
            &&& !after.editable
            &&& !after.scroll_pending
            &&& after.highlight_line is None
            &&& after.severity_filter is None
            &&& after.tab == app.tab
            &&& after.mapping_mode == app.mapping_mode
            &&& after.picking_for == app.picking_for
        }),
{
}

/// Opening a script whose sidecar stores controls shows those, one for each and in
/// their order, each with what was stored of it, and with the value that is remembered
/// for its name, if there is one, and else the stored default.
pub proof fn stored_controls_are_shown(
    app: AppView,
    path: Seq<char>,
    ext: Seq<char>,
    source: Seq<char>,
    ast: Option<Seq<ParamView>>,
    stored: SidecarView,
    i: int,
)
    requires
        0 <= i < stored.controls.len(),
    ensures
        ({
            let after = opened(app, path, ext, source, ast, stored);
            let d = stored.controls[i];
            let p = after.params[i];
            &&& after.params.len() == stored.controls.len()
            &&& p.name == d.name
            &&& p.label == d.label
            &&& p.kind == controls::kind_of_tag(d.kind)
            &&& p.required == d.required
            &&& p.choices == d.choices
            &&& p.position == d.position
            &&& p.custom == d.custom
            &&& p.as_env == d.as_env
            &&& p.is_switch == (p.kind == ParamKind::Bool)
            &&& stored.values.dom().contains(d.name) ==> p.value == stored.values[d.name]
            &&& !stored.values.dom().contains(d.name) && p.kind != ParamKind::Bool ==> p.value
                == d.default
            &&& !stored.values.dom().contains(d.name) && p.kind == ParamKind::Bool
                ==> p.value.len() == 0
            &&& stored.bool_values.dom().contains(d.name) ==> p.bool_value
                == stored.bool_values[d.name]
            &&& !stored.bool_values.dom().contains(d.name) ==> (p.bool_value <==>
                text::ascii_lowered(d.default) == seq!['t', 'r', 'u', 'e'])
        }),
{
    reveal_strlit("true");
    assert(text::ascii_lowered("true"@) =~= seq!['t', 'r', 'u', 'e']);
}

/// Opening a script whose sidecar stores no controls shows those that its type calls
/// for, one for each and in their order, with the remembered values filled in: for a
/// PowerShell script what PowerShell reported, or without a report what the text
/// declares; for a batch file its positional arguments; and else none. Detecting again
/// shows the same.
pub proof fn detected_controls_are_shown(
    app: AppView,
    path: Seq<char>,
    ext: Seq<char>,
    source: Seq<char>,
    ast: Option<Seq<ParamView>>,
    stored: SidecarView,
    i: int,
)
    requires
        stored.controls.len() == 0,
    ensures
        ({
            let found = if ext == "ps1"@ {
                match ast {
                    Some(reported) => reported,
                    None => parser::powershell_params(source),
                }
            } else if ext == "bat"@ || ext == "cmd"@ {
                parser::batch_params(source)
            } else {
                Seq::empty()
            };
            let after = opened(app, path, ext, source, ast, stored);
            &&& after.params.len() == found.len()
            &&& redetected(after, ast).params == after.params
            &&& 0 <= i < found.len() ==> after.params[i] == (ParamView {
                value: if stored.values.dom().contains(found[i].name) {
                    stored.values[found[i].name]
                } else {
                    found[i].value
                },
                bool_value: if stored.bool_values.dom().contains(found[i].name) {
                    stored.bool_values[found[i].name]
                } else {
                    found[i].bool_value
                },
                ..found[i]
            })
        }),
{
    extensions_tell_scripts_apart(ext);
}

proof fn lemma_extensions_differ()
    ensures
        "ps1"@ != "bat"@,
        "ps1"@ != "cmd"@,
        "bat"@ != "cmd"@,
{
    reveal_strlit("ps1");
    reveal_strlit("bat");
    reveal_strlit("cmd");
    assert("ps1"@[0] == 'p' && "bat"@[0] == 'b' && "cmd"@[0] == 'c');
}

/// Scripts with the extension `ps1` are PowerShell's, those with `bat` or `cmd` are
/// batch files, and all others are neither.
pub proof fn extensions_tell_scripts_apart(ext: Seq<char>)
    ensures
        type_of_extension(ext) == ScriptType::PowerShell <==> ext == "ps1"@,
        type_of_extension(ext) == ScriptType::Batch <==> ext == "bat"@ || ext == "cmd"@,
        type_of_extension(ext) == ScriptType::Other <==> ext != "ps1"@ && ext != "bat"@ && ext
            != "cmd"@,
{
    lemma_extensions_differ();
}

/// The user is told how many controls were detected, whether PowerShell could not be
/// asked, and of a script of another type that none are looked for.
pub proof fn users_are_told_what_was_detected(
    ext: Seq<char>,
    source: Seq<char>,
    ast: Option<Seq<ParamView>>,
)
    ensures
        ({
            let note = detection_note(ext, source, ast);
            let n = text::decimal(detected_params(ext, source, ast).len());
            &&& ext == "ps1"@ && ast is Some ==> note == "Detected "@ + n + " parameter(s)."@
            &&& ext == "ps1"@ && ast is None ==> note == "Detected "@ + n
                + " parameter(s). (regex fallback)"@
            &&& ext == "bat"@ || ext == "cmd"@ ==> note == "Detected "@ + n
                + " positional argument(s) (%1, %2, …), passed in order."@
            &&& ext != "ps1"@ && ext != "bat"@ && ext != "cmd"@ ==> note == "'."@ + ext
                + "' isn't auto-detected — preview and risk analysis still work."@
        }),
{
    let n = text::decimal(detected_params(ext, source, ast).len());
    lemma_extensions_differ();
    reveal_strlit(" parameter(s).");
    reveal_strlit(" (regex fallback)");
    reveal_strlit(" parameter(s). (regex fallback)");
    assert("Detected "@ + n + " parameter(s)."@ + Seq::<char>::empty() =~= "Detected "@ + n
        + " parameter(s)."@);
    assert(" parameter(s)."@ + " (regex fallback)"@ =~= " parameter(s). (regex fallback)"@);
    assert("Detected "@ + n + " parameter(s)."@ + " (regex fallback)"@ =~= "Detected "@ + n + (
    " parameter(s)."@ + " (regex fallback)"@));
}

/// Opening a script tells the user what was detected in it.
pub proof fn opening_tells_what_was_detected(
    app: AppView,
    path: Seq<char>,
    ext: Seq<char>,
    source: Seq<char>,
    ast: Option<Seq<ParamView>>,
    stored: SidecarView,
)
    ensures
        opened(app, path, ext, source, ast, stored).note == detection_note(ext, source, ast),
{
}

/// Analyzing a script again reads it as PowerShell's, whatever its extension, takes
/// back the acknowledgement and shows all findings again. Detecting controls again
/// changes nothing but the controls. Both leave the script and its sidecar alone.
pub proof fn detecting_again_keeps_the_script(app: AppView, ast: Option<Seq<ParamView>>)
    ensures
        ({
            let after = reanalyzed(app, ast);
            &&& after.params == (match ast {
                Some(reported) => reported,
                None => parser::powershell_params(app.source),
            })
            &&& !after.risk_ack
            &&& after.highlight_line is None
            &&& after.severity_filter is None
            &&& after == (AppView {
                params: after.params,
                findings: after.findings,
                risk_ack: false,
                highlight_line: None,
                severity_filter: None,
                ..app
            })
        }),
        redetected(app, ast) == (AppView { params: redetected(app, ast).params, ..app }),
{
}

/// A control takes over the values that are remembered for its name and keeps
/// everything else; without a remembered value it keeps its own.
pub proof fn remembered_values_are_filled_in(s: SidecarView, p: ParamView)
    ensures
        s.values.dom().contains(p.name) ==> recalled(s, p).value == s.values[p.name],
        !s.values.dom().contains(p.name) ==> recalled(s, p).value == p.value,
        s.bool_values.dom().contains(p.name) ==> recalled(s, p).bool_value == s.bool_values[p.name],
        !s.bool_values.dom().contains(p.name) ==> recalled(s, p).bool_value == p.bool_value,
        recalled(s, p) == (ParamView {
            value: recalled(s, p).value,
            bool_value: recalled(s, p).bool_value,
            ..p
        }),
{
}

/// Saving remembers the values of every control under its name, in whatever way it is
/// bound and whatever it holds; of several with one name the last.
pub proof fn saving_remembers_every_value(app: AppView, i: int)
    requires
        0 <= i < app.params.len(),
        forall|k: int| i < k < app.params.len() ==> (#[trigger] app.params[k]).name
            != app.params[i].name,
    ensures
        ({
            let kept = saved(app).sidecar;
            let p = app.params[i];
            &&& kept.values.dom().contains(p.name)
            &&& kept.values[p.name] == p.value
            &&& kept.bool_values.dom().contains(p.name)
            &&& kept.bool_values[p.name] == p.bool_value
        }),
{
    lemma_last_is_remembered(app.sidecar, app.params, i);
}

proof fn lemma_last_is_remembered(s: SidecarView, params: Seq<ParamView>, i: int)
    requires
        0 <= i < params.len(),
        forall|k: int| i < k < params.len() ==> (#[trigger] params[k]).name != params[i].name,
    ensures
        remembered(s, params).values.dom().contains(params[i].name),
        remembered(s, params).values[params[i].name] == params[i].value,
        remembered(s, params).bool_values.dom().contains(params[i].name),
        remembered(s, params).bool_values[params[i].name] == params[i].bool_value,
    decreases params.len(),
{
    let front = params.drop_last();
    if i < front.len() {
        assert forall|k: int| i < k < front.len() implies (#[trigger] front[k]).name
            != front[i].name by {
            assert(params[k].name != params[i].name);
        }
        lemma_last_is_remembered(s, front, i);
        assert(params[params.len() - 1].name != params[i].name);
    }
}

/// Saving the mapping stores every control, in their order, as it is, and keeps the
/// hints; the values are remembered as well.
pub proof fn saving_the_mapping_stores_every_control(app: AppView, i: int)
    requires
        0 <= i < app.params.len(),
    ensures
        ({
            let after = mapping_saved(app);
            let p = app.params[i];
            let d = after.sidecar.controls[i];
            &&& after.sidecar.controls.len() == app.params.len()
            &&& after.sidecar.hints == app.sidecar.hints
            &&& after.sidecar.values == saved(app).sidecar.values
            &&& after.sidecar.bool_values == saved(app).sidecar.bool_values
            &&& after == (AppView { sidecar: after.sidecar, ..app })
            &&& d.name == p.name
            &&& d.label == p.label
            &&& d.kind == controls::tag_of_kind(p.kind)
            &&& d.required == p.required
            &&& d.choices == p.choices
            &&& d.position == p.position
            &&& d.custom == p.custom
            &&& d.as_env == p.as_env
            &&& p.kind != ParamKind::Bool ==> d.default == p.value
            &&& p.kind == ParamKind::Bool && p.bool_value ==> d.default == "true"@
            &&& p.kind == ParamKind::Bool && !p.bool_value ==> d.default == "false"@
        }),
{
    let s = SidecarView { controls: all_stored(app.params), ..app.sidecar };
    lemma_remembering_keeps_texts(s, app.params);
    lemma_remembering_same_values(s, app.sidecar, app.params);
}

proof fn lemma_remembering_same_values(a: SidecarView, b: SidecarView, params: Seq<ParamView>)
    requires
        a.values == b.values,
        a.bool_values == b.bool_values,
    ensures
        remembered(a, params).values == remembered(b, params).values,
        remembered(a, params).bool_values == remembered(b, params).bool_values,
    decreases params.len(),
{
    if params.len() > 0 {
        lemma_remembering_same_values(a, b, params.drop_last());
    }
}

/// Run is enabled exactly when every required control for a text, a file, a folder, a
/// number or a choice holds more than white space, and no finding is a warning unless
/// the user has acknowledged the risk.
pub proof fn run_waits_for_values_and_consent(app: AppView)
    ensures
        is_runnable(app) <==> {
            &&& forall|i: int|
                0 <= i < app.params.len() && (#[trigger] app.params[i]).required && (
                app.params[i].kind == ParamKind::Text || app.params[i].kind == ParamKind::FilePath
                    || app.params[i].kind == ParamKind::FolderPath || app.params[i].kind
                    == ParamKind::Number || app.params[i].kind == ParamKind::Choice) ==> exists|
                    k: int,
                |
                    0 <= k < app.params[i].value.len() && !text::is_space(
                        #[trigger] app.params[i].value[k],
                    )
            &&& (app.risk_ack || forall|i: int|
                0 <= i < app.findings.len() ==> (#[trigger] app.findings[i]).severity
                    != Severity::Warning)
        },
{
    command::required_values_are_filled_in(app.params);
}

/// While values are missing, Run names them, whatever the risk is; once they are set it
/// waits for the risk to be acknowledged, and is ready only then.
pub proof fn missing_values_come_before_the_risk(app: AppView)
    ensures
        ({
            let missing = command::missing_labels(app.params);
            let risky = exists|i: int|
                0 <= i < app.findings.len() && (#[trigger] app.findings[i]).severity
                    == Severity::Warning;
            &&& missing.len() > 0 ==> gate_of(app) == RunGateView::Missing(
                "Required: "@ + joined(missing, ", "@),
            )
            &&& missing.len() == 0 && risky && !app.risk_ack ==> gate_of(app)
                == RunGateView::Unacknowledged
            &&& missing.len() == 0 && (!risky || app.risk_ack) ==> gate_of(app)
                == RunGateView::Ready
        }),
{
}

/// Texts are joined in their order, with the separator between each two of them and
/// nowhere else.
pub proof fn texts_are_joined_in_order(
    parts: Seq<Seq<char>>,
    part: Seq<char>,
    separator: Seq<char>,
)
    ensures
        joined(Seq::empty(), separator).len() == 0,
        joined(seq![part], separator) == part,
        parts.len() > 0 ==> joined(parts.push(part), separator) == joined(parts, separator)
            + separator + part,
{
    assert(parts.push(part).drop_last() =~= parts);
}

/// The command of a run is that of the open script with its controls: a batch file's
/// where its extension says so.
pub proof fn runs_use_the_open_script(app: AppView)
    ensures
        app.script_path matches Some(path) ==> command_of(app) == command::command(
            path,
            app.extension == "bat"@ || app.extension == "cmd"@,
            app.params,
        ),
        app.script_path is None ==> command_of(app) == command::command(
            Seq::empty(),
            false,
            app.params,
        ),
{
    extensions_tell_scripts_apart(app.extension);
}

/// Every required control is counted, once.
pub proof fn required_controls_are_counted(params: Seq<ParamView>, p: ParamView)
    ensures
        required_among(Seq::empty()) == 0,
        required_among(params.push(p)) == required_among(params) + (if p.required {
            1int
        } else {
            0
        }),
{
    assert(params.push(p).drop_last() =~= params);
}

/// A script asks for administrator rights exactly when it requires them or starts
/// something with them, in any case of letters.
pub proof fn administrator_rights_are_noticed(source: Seq<char>)
    ensures
        asks_for_admin(source) <==> text::occurs(
            unicode::lowercase(source),
            "runasadministrator"@,
        ) || text::occurs(unicode::lowercase(source), "-verb runas"@),
{
}

/// The highlighted line is shown as such, even where something was found on it; any
/// other line with a finding has the tint of its severity, and the rest have none.
pub proof fn tints_follow_findings(
    highlight: Option<usize>,
    risky: Map<usize, Severity>,
    line: usize,
)
    ensures
        highlight == Some(line) ==> tint_of(highlight, risky, line) == LineTint::Highlighted,
        highlight != Some(line) && risky.dom().contains(line) ==> tint_of(highlight, risky, line)
            == LineTint::Risky(risky[line]),
        highlight != Some(line) && !risky.dom().contains(line) ==> tint_of(highlight, risky, line)
            == LineTint::Plain,
{
}

/// Clicking the chip of a severity shows only its findings, whatever was shown before,
/// and clicking it once more shows all.
pub proof fn chips_switch_the_filter(filter: Option<Severity>, s: Severity)
    ensures
        filter != Some(s) ==> toggled(filter, s) == Some(s),
        filter == Some(s) ==> toggled(filter, s) is None,
        toggled(toggled(filter, s), s) == (if filter == Some(s) {
            Some(s)
        } else {
            None
        }),
{
}

/// The terminal is sent to the very folder, whatever characters its path holds.
pub proof fn terminals_follow_to_the_folder(dir: Seq<char>)
    ensures
        location_command(dir) == "Set-Location -LiteralPath "@ + command::quoted(dir),
{
}

/// The program starts without a script, and nothing keeps the user from opening one.
pub proof fn the_start_is_empty()
    ensures
        initial().script_path is None,
        initial().source.len() == 0,
        initial().extension.len() == 0,
        initial().params.len() == 0,
        initial().findings.len() == 0,
        initial().tab == Tab::Script,
        initial().note == "Open a PowerShell (.ps1) script to begin."@,
        !initial().risk_ack && !initial().editable && !initial().mapping_mode
            && !initial().scroll_pending,
        initial().highlight_line is None && initial().severity_filter is None
            && initial().picking_for is None,
        initial().sidecar == sidecar::empty_sidecar(),
{
}

/// What is said of the program's state is said of its fields.
pub proof fn the_state_is_its_fields(app: DisbatchApp, gate: RunGate)
    ensures
        app@.tab == app.tab,
        app.script_path matches Some(path) ==> app@.script_path == Some(path@),
        app.script_path is None ==> app@.script_path is None,
        app@.extension == app.extension@,
        app@.source == app.source@,
        app@.editable == app.editable,
        app@.params == model::params_view(app.params@),
        app@.note == app.note@,
        app@.findings == analyzer::findings_view(app.findings@),
        app@.risk_ack == app.risk_ack,
        app@.highlight_line == app.highlight_line,
        app@.scroll_pending == app.scroll_pending,
        app@.severity_filter == app.severity_filter,
        app@.sidecar == app.sidecar@,
        app@.mapping_mode == app.mapping_mode,
        app@.picking_for == app.picking_for,
        gate is Ready <==> gate@ is Ready,
        gate is Unacknowledged <==> gate@ is Unacknowledged,
        gate matches RunGate::Missing(t) ==> gate@ == RunGateView::Missing(t@),
{
}

} // verus!
