use disbatch::binding::Bound;
use disbatch::controls::{
    apply_binding, binding_label, bool_to_str, caption, custom_param, def_to_param, kind_from_str,
    kind_label, kind_options, kind_to_str, param_to_def, set_kind,
};
use disbatch::model::ParamKind;
use disbatch::sidecar::ControlDef;

#[test]
fn kinds_have_labels_and_tags() {
    let table = [
        (ParamKind::Text, "Text", "text"),
        (ParamKind::FilePath, "File picker", "file"),
        (ParamKind::FolderPath, "Folder picker", "folder"),
        (ParamKind::Number, "Number", "number"),
        (ParamKind::Bool, "Checkbox", "bool"),
        (ParamKind::Choice, "Dropdown", "choice"),
    ];
    for (kind, label, tag) in table {
        assert_eq!(kind_label(kind), label);
        assert_eq!(kind_to_str(kind), tag);
        assert_eq!(kind_from_str(tag), kind);
        assert!(kind_options().contains(&kind));
    }
    assert_eq!(kind_from_str("slider"), ParamKind::Text);
    assert_eq!(kind_from_str("File"), ParamKind::Text);
    assert_eq!(kind_options()[1], ParamKind::FolderPath);
    assert_eq!(kind_options().len(), 6);
}

#[test]
fn picking_a_kind_makes_checkboxes_switches() {
    let mut p = custom_param(1);
    set_kind(&mut p, ParamKind::Bool);
    assert_eq!(p.kind, ParamKind::Bool);
    assert!(p.is_switch);
    set_kind(&mut p, ParamKind::Number);
    assert!(!p.is_switch);
    assert_eq!(p.name, "Custom1");
}

#[test]
fn custom_controls_are_numbered() {
    let p = custom_param(12);
    assert_eq!(p.name, "Custom12");
    assert_eq!(p.label, "Custom 12");
    assert_eq!(p.kind, ParamKind::Text);
    assert!(p.custom && !p.required && !p.as_env && !p.is_switch && !p.bool_value);
    assert!(p.value.is_empty() && p.choices.is_empty() && p.position.is_none());
}

#[test]
fn controls_are_stored_and_restored() {
    let mut p = custom_param(1);
    p.kind = ParamKind::Choice;
    p.choices = vec!["a".to_string(), "b".to_string()];
    p.value = "b".to_string();
    p.required = true;
    p.position = Some(4);
    p.as_env = true;
    let d = param_to_def(&p);
    assert_eq!(d.kind, "choice");
    assert_eq!(d.default, "b");
    let q = def_to_param(&d);
    assert_eq!((q.name, q.label), (p.name, p.label));
    assert_eq!((q.kind, q.required, q.is_switch), (p.kind, true, false));
    assert_eq!((q.choices, q.value), (p.choices, p.value));
    assert_eq!((q.position, q.custom, q.as_env), (Some(4), true, true));
    assert!(!q.bool_value);
}

#[test]
fn checkboxes_are_stored_by_their_state() {
    let mut p = custom_param(1);
    p.kind = ParamKind::Bool;
    p.bool_value = true;
    p.value = "ignored".to_string();
    let d = param_to_def(&p);
    assert_eq!(d.default, "true");
    let q = def_to_param(&d);
    assert!(q.bool_value && q.is_switch);
    assert_eq!(q.value, "");
    p.bool_value = false;
    assert_eq!(param_to_def(&p).default, "false");
    assert_eq!(bool_to_str(true), "true");
}

#[test]
fn stored_texts_that_say_true_switch_on() {
    let d = ControlDef {
        name: "n".to_string(),
        label: "l".to_string(),
        kind: "unknown".to_string(),
        required: false,
        default: "TRUE".to_string(),
        choices: vec![],
        position: None,
        custom: false,
        as_env: false,
    };
    let p = def_to_param(&d);
    assert_eq!(p.kind, ParamKind::Text);
    assert_eq!(p.value, "TRUE");
    assert!(p.bool_value && !p.is_switch);
}

#[test]
fn bindings_are_applied_and_shown() {
    let mut p = custom_param(1);
    p.value = "kept".to_string();
    assert_eq!(binding_label(&p), "→ -Custom1");
    apply_binding(&mut p, Bound::Positional(3));
    assert_eq!((p.name.as_str(), p.position, p.as_env), ("arg3", Some(3), false));
    assert_eq!(binding_label(&p), "→ %3");
    apply_binding(&mut p, Bound::Env("PATH".to_string()));
    assert_eq!((p.name.as_str(), p.position, p.as_env), ("PATH", None, true));
    assert_eq!(binding_label(&p), "→ $env:PATH");
    apply_binding(&mut p, Bound::Named("Name".to_string()));
    assert_eq!((p.name.as_str(), p.position, p.as_env), ("Name", None, false));
    assert_eq!(binding_label(&p), "→ -Name");
    assert_eq!(p.value, "kept");
    assert_eq!(p.label, "Custom 1");
}

#[test]
fn required_controls_are_marked() {
    let mut p = custom_param(1);
    assert_eq!(caption(&p), "Custom 1");
    p.required = true;
    assert_eq!(caption(&p), "Custom 1 *");
}
