use disbatch::analyzer::Severity;
use disbatch::binding::Bound;
use disbatch::controls::{custom_param, param_to_def};
use disbatch::model::ParamKind;
use disbatch::session::{
    follow_command, line_tint, script_type, DisbatchApp, LineTint, Metrics, RunGate, ScriptType,
    Tab,
};
use disbatch::sidecar::Sidecar;
use std::collections::HashMap;

const SCRIPT: &str = "param(\n  [Parameter(Mandatory)][string]$Name,\n  [switch]$Force\n)\n";

fn open(ext: &str, source: &str) -> DisbatchApp {
    let mut app = DisbatchApp::default();
    app.open_script(format!("C:\\s.{ext}"), ext, source.to_string(), None, None);
    app
}

#[test]
fn the_program_starts_empty() {
    let app = DisbatchApp::default();
    assert_eq!(app.note, "Open a PowerShell (.ps1) script to begin.");
    assert_eq!(app.tab, Tab::Script);
    assert!(app.script_path.is_none() && app.source.is_empty());
    assert!(app.params.is_empty() && app.findings.is_empty());
    assert_eq!(app.compose_command(), "& ''");
    assert!(!app.is_batch());
    assert!(app.can_run());
}

#[test]
fn powershell_scripts_are_opened() {
    let app = open("PS1", SCRIPT);
    assert_eq!(app.params.len(), 2);
    assert_eq!(app.note, "Detected 2 parameter(s). (regex fallback)");
    assert_eq!(app.script_path, Some("C:\\s.PS1".to_string()));
    assert_eq!(app.extension, "ps1");
    assert!(!app.is_batch());
    let mut app = DisbatchApp::default();
    app.open_script("s.ps1".to_string(), "ps1", SCRIPT.to_string(), Some(vec![]), None);
    assert_eq!(app.params.len(), 0);
    assert_eq!(app.note, "Detected 0 parameter(s).");
}

#[test]
fn batch_files_are_opened() {
    let app = open("cmd", "copy %2 %1");
    assert_eq!(app.params.len(), 2);
    assert_eq!(app.note, "Detected 2 positional argument(s) (%1, %2, …), passed in order.");
    assert!(app.is_batch());
    assert_eq!(app.compose_command(), "& 'C:\\s.cmd' '' ''");
}

#[test]
fn other_scripts_are_only_shown() {
    let app = open("Py", "iex");
    assert_eq!(app.params.len(), 0);
    assert_eq!(
        app.note,
        "'.py' isn't auto-detected — preview and risk analysis still work."
    );
    assert_eq!(app.findings.len(), 1);
}

#[test]
fn unreadable_files_are_reported() {
    let mut app = open("ps1", SCRIPT);
    app.read_failed("no such file");
    assert_eq!(app.note, "Couldn't read file: no such file");
    assert_eq!(app.params.len(), 2);
}

#[test]
fn opening_resets_what_belongs_to_a_script() {
    let mut app = open("ps1", "iex $x");
    app.risk_ack = true;
    app.editable = true;
    app.mapping_mode = true;
    app.select_finding(1);
    app.toggle_filter(Severity::Warning);
    assert!(app.can_run());
    app.open_script("t.ps1".to_string(), "ps1", "iex $y".to_string(), None, None);
    assert!(!app.risk_ack && !app.editable && !app.scroll_pending);
    assert!(app.highlight_line.is_none() && app.severity_filter.is_none());
    assert!(app.mapping_mode);
    assert!(!app.can_run());
}

#[test]
fn warnings_gate_the_run_button() {
    let mut app = open("ps1", "param([Parameter(Mandatory)]$A, [Parameter(Mandatory)]$B)\niex $A");
    assert!(!app.can_run());
    assert!(matches!(app.run_gate(), RunGate::Missing(t) if t == "Required: A, B"));
    assert_eq!(app.missing_required(), vec!["A", "B"]);
    app.params[0].value = "x".to_string();
    assert!(matches!(app.run_gate(), RunGate::Missing(t) if t == "Required: B"));
    app.params[1].value = "y".to_string();
    assert!(matches!(app.run_gate(), RunGate::Unacknowledged));
    assert!(!app.can_run());
    app.risk_ack = true;
    assert!(matches!(app.run_gate(), RunGate::Ready));
    assert!(app.can_run());
    app.reanalyze(None);
    assert!(!app.can_run());
}

#[test]
fn running_remembers_the_values() {
    let mut app = open("ps1", SCRIPT);
    app.params[0].value = "bob".to_string();
    app.params[1].bool_value = true;
    assert_eq!(app.run(), "& 'C:\\s.ps1' -Name 'bob' -Force");
    assert_eq!(app.sidecar.values.get("Name"), Some(&"bob".to_string()));
    assert_eq!(app.sidecar.bool_values.get("Force"), Some(&true));
    // Detecting again keeps what was typed.
    app.redetect(None);
    assert_eq!(app.params[0].value, "bob");
    assert!(app.params[1].bool_value);
    assert!(app.save_sidecar());
    assert!(!DisbatchApp::default().save_sidecar());
}

#[test]
fn saved_values_are_filled_in() {
    let mut stored = Sidecar::default();
    stored.values.insert("Name".to_string(), "ann".to_string());
    stored.values.insert("Other".to_string(), "x".to_string());
    stored.bool_values.insert("Force".to_string(), true);
    let mut app = DisbatchApp::default();
    app.open_script("s.ps1".to_string(), "ps1", SCRIPT.to_string(), None, Some(stored));
    assert_eq!(app.params[0].value, "ann");
    assert!(app.params[1].bool_value);
    app.params[0].value = "eve".to_string();
    app.save_sidecar();
    assert_eq!(app.sidecar.values.get("Other"), Some(&"x".to_string()));
    app.params[0].value = String::new();
    app.apply_saved_values();
    assert_eq!(app.params[0].value, "eve");
}

#[test]
fn saved_mappings_replace_detection() {
    let mut app = open("ps1", SCRIPT);
    app.params[0].label = "Who".to_string();
    app.params[0].value = "bob".to_string();
    app.params[1].bool_value = true;
    app.add_control();
    assert!(app.save_mapping());
    let stored = app.sidecar;
    assert_eq!(stored.controls.len(), 3);
    let mut later = DisbatchApp::default();
    later.open_script("s.ps1".to_string(), "ps1", "nothing".to_string(), None, Some(stored));
    assert_eq!(later.note, "Detected 0 parameter(s). (regex fallback)");
    assert_eq!(later.params.len(), 3);
    assert_eq!(later.params[0].label, "Who");
    assert_eq!(later.params[0].value, "bob");
    assert!(later.params[0].required);
    assert!(later.params[1].bool_value && later.params[1].is_switch);
    assert!(later.params[2].custom);
    later.discard_mapping(None);
    assert_eq!(later.params.len(), 0);
    assert_eq!(later.sidecar.controls.len(), 0);
}

#[test]
fn booleans_come_back_as_switches() {
    let mut app = open("ps1", "param([bool]$On = $true)");
    assert_eq!(app.compose_command(), "& 'C:\\s.ps1' -On:$true");
    app.save_mapping();
    let stored = app.sidecar;
    let mut later = DisbatchApp::default();
    later.open_script("s.ps1".to_string(), "ps1", String::new(), None, Some(stored));
    assert_eq!(later.compose_command(), "& 's.ps1' -On");
}

#[test]
fn edited_scripts_are_analyzed_again() {
    let mut app = open("bat", "echo %1");
    app.source = "param($A)\niwr u".to_string();
    app.scroll_pending = true;
    app.reanalyze(None);
    assert_eq!(app.params.len(), 1);
    assert_eq!(app.params[0].name, "A");
    assert_eq!(app.findings.len(), 1);
    assert!(app.scroll_pending);
    app.redetect(None);
    assert_eq!(app.params.len(), 0);
    app.reanalyze(Some(vec![custom_param(7)]));
    assert_eq!(app.params[0].name, "Custom7");
}

#[test]
fn controls_are_added_bound_and_removed() {
    let mut app = open("ps1", SCRIPT);
    app.tab = Tab::Controls;
    app.add_control();
    assert_eq!(app.params[2].name, "Custom3");
    assert_eq!(app.picking_for, Some(2));
    assert_eq!(app.tab, Tab::Script);
    assert_eq!(app.pick_label(), "Custom 3");
    app.bind(2, Bound::Env("HOME".to_string()));
    assert_eq!(app.params[2].name, "HOME");
    assert_eq!(app.picking_for, None);
    assert_eq!(app.tab, Tab::Controls);
    app.start_pick(0);
    assert_eq!((app.picking_for, app.tab), (Some(0), Tab::Script));
    app.cancel_pick();
    assert_eq!((app.picking_for, app.tab), (None, Tab::Script));
    assert_eq!(app.pick_label(), "");
    app.bind(99, Bound::Positional(1));
    assert_eq!(app.params.len(), 3);
    app.picking_for = Some(99);
    assert_eq!(app.pick_label(), "");
    app.remove_control(0);
    assert_eq!(app.params.len(), 2);
    assert_eq!(app.params[0].name, "Force");
}

#[test]
fn dropdown_options_are_edited() {
    let mut app = open("ps1", "param([ValidateSet('a','b')]$X)");
    app.add_choice(0);
    assert_eq!(app.params[0].choices, vec!["a", "b", ""]);
    app.remove_choice(0, 0);
    assert_eq!(app.params[0].choices, vec!["b", ""]);
    app.remove_choice(0, 2);
    app.remove_choice(1, 0);
    app.add_choice(1);
    assert_eq!(app.params[0].choices, vec!["b", ""]);
    assert_eq!(app.params[0].kind, ParamKind::Choice);
}

#[test]
fn findings_are_filtered_and_selected() {
    let mut app = open("ps1", "iex (iwr u)");
    assert_eq!(app.findings.len(), 2);
    assert!(app.is_shown(&app.findings[0]) && app.is_shown(&app.findings[1]));
    app.toggle_filter(Severity::Caution);
    assert!(!app.is_shown(&app.findings[0]) && app.is_shown(&app.findings[1]));
    app.toggle_filter(Severity::Warning);
    assert_eq!(app.severity_filter, Some(Severity::Warning));
    app.toggle_filter(Severity::Warning);
    assert_eq!(app.severity_filter, None);
    app.editable = true;
    app.select_finding(4);
    assert_eq!(app.highlight_line, Some(4));
    assert!(app.scroll_pending && !app.editable);
}

#[test]
fn metrics_describe_the_script() {
    let app = open("ps1", &format!("#Requires -RunAsAdministrator\n{SCRIPT}"));
    assert_eq!(
        app.metrics(),
        Metrics { lines: 5, parameters: 2, required: 1, needs_admin: true }
    );
    let app = open("ps1", "start x -VERB RunAs");
    assert!(app.metrics().needs_admin);
    let app = open("ps1", "");
    assert_eq!(
        app.metrics(),
        Metrics { lines: 0, parameters: 0, required: 0, needs_admin: false }
    );
}

#[test]
fn lines_are_tinted() {
    let mut risky = HashMap::new();
    risky.insert(2, Severity::Warning);
    assert_eq!(line_tint(Some(2), &risky, 2), LineTint::Highlighted);
    assert_eq!(line_tint(Some(1), &risky, 2), LineTint::Risky(Severity::Warning));
    assert_eq!(line_tint(None, &risky, 3), LineTint::Plain);
}

#[test]
fn extensions_tell_scripts_apart() {
    assert_eq!(script_type("PS1"), ScriptType::PowerShell);
    assert_eq!(script_type("bat"), ScriptType::Batch);
    assert_eq!(script_type("CMD"), ScriptType::Batch);
    assert_eq!(script_type(""), ScriptType::Other);
    assert_eq!(script_type("txt"), ScriptType::Other);
}

#[test]
fn the_terminal_follows_the_script() {
    assert_eq!(follow_command("C:\\it's"), "Set-Location -LiteralPath 'C:\\it''s'");
    assert_eq!(param_to_def(&custom_param(1)).name, "Custom1");
}

#[test]
fn discarding_a_mapping_shows_the_detected_controls() {
    let mut stored = Sidecar::default();
    stored.values.insert("Name".to_string(), "ann".to_string());
    stored.controls.push(param_to_def(&custom_param(1)));
    let mut app = DisbatchApp::default();
    app.open_script("s.ps1".to_string(), "ps1", SCRIPT.to_string(), None, Some(stored));
    assert_eq!(app.params.len(), 1);
    app.discard_mapping(None);
    let names: Vec<&str> = app.params.iter().map(|p| p.name.as_str()).collect();
    assert_eq!(names, vec!["Name", "Force"]);
    assert_eq!(app.params[0].value, "ann");
}

#[test]
fn of_controls_with_one_name_the_last_is_remembered() {
    let mut app = open("ps1", "param($A, $A)");
    app.params[0].value = "1".to_string();
    app.params[1].value = "2".to_string();
    app.save_sidecar();
    app.apply_saved_values();
    assert_eq!(app.params[0].value, "2");
    assert_eq!(app.params[1].value, "2");
}
