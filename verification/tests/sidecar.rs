use disbatch::sidecar::{ControlDef, Sidecar, SUFFIX};
use disbatch::values::ValueMap;

#[test]
fn sidecars_stand_next_to_their_scripts() {
    assert_eq!(Sidecar::path_for("C:\\x\\run.ps1"), "C:\\x\\run.ps1.disbatch.json");
    assert_eq!(Sidecar::path_for(""), SUFFIX);
    assert_ne!(Sidecar::path_for("a.ps1"), Sidecar::path_for("a.bat"));
}

#[test]
fn missing_sidecars_are_empty() {
    let s = Sidecar::load(None);
    assert_eq!(s.hints, "");
    assert_eq!(s.controls.len(), 0);
    assert_eq!(s.values.len(), 0);
    assert_eq!(s.bool_values.len(), 0);
    let mut stored = Sidecar::default();
    stored.hints = "use me".to_string();
    stored.values.insert("a".to_string(), "1".to_string());
    let s = Sidecar::load(Some(stored));
    assert_eq!(s.hints, "use me");
    assert_eq!(s.values.get("a"), Some(&"1".to_string()));
}

#[test]
fn values_are_kept_by_name() {
    let mut m: ValueMap<String> = ValueMap::new();
    assert_eq!(m.get("a"), None);
    m.insert("a".to_string(), "1".to_string());
    m.insert("b".to_string(), "2".to_string());
    m.insert("a".to_string(), "3".to_string());
    assert_eq!(m.len(), 2);
    assert_eq!(m.get("a"), Some(&"3".to_string()));
    assert_eq!(m.get("b"), Some(&"2".to_string()));
    assert_eq!(m.get("A"), None);
    assert_eq!(m.entry(0), (&"a".to_string(), &"3".to_string()));
    assert_eq!(m.entry(1), (&"b".to_string(), &"2".to_string()));
    let mut flags: ValueMap<bool> = ValueMap::new();
    flags.insert("x".to_string(), true);
    assert_eq!(flags.get("x"), Some(&true));
}

#[test]
fn sidecars_are_copied() {
    let mut d = ControlDef::default();
    assert_eq!((d.name.as_str(), d.label.as_str(), d.kind.as_str()), ("", "", ""));
    assert_eq!((d.default.as_str(), d.choices.len(), d.position), ("", 0, None));
    assert!(!d.required && !d.custom && !d.as_env);
    d.name = "n".to_string();
    d.choices = vec!["a".to_string()];
    d.position = Some(2);
    let mut s = Sidecar::default();
    s.hints = "h".to_string();
    s.controls.push(d.clone());
    s.values.insert("x".to_string(), "1".to_string());
    s.bool_values.insert("y".to_string(), true);
    let c = s.clone();
    s.values.insert("x".to_string(), "2".to_string());
    assert_eq!(c.hints, "h");
    assert_eq!((c.controls[0].name.as_str(), c.controls[0].position), ("n", Some(2)));
    assert_eq!(c.controls[0].choices, vec!["a"]);
    assert_eq!((c.values.len(), c.values.get("x")), (1, Some(&"1".to_string())));
    assert_eq!(c.bool_values.get("y"), Some(&true));
}
