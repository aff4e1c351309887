use disbatch::binding::Bound;
use disbatch::command::{compose, missing, ps_quote};
use disbatch::controls::{apply_binding, custom_param};
use disbatch::model::{Param, ParamKind};

fn param(name: &str, kind: ParamKind, value: &str) -> Param {
    Param {
        name: name.to_string(),
        label: name.to_string(),
        kind,
        required: false,
        is_switch: false,
        choices: vec![],
        value: value.to_string(),
        bool_value: false,
        position: None,
        custom: false,
        as_env: false,
    }
}

fn flag(name: &str, is_switch: bool, on: bool) -> Param {
    let mut p = param(name, ParamKind::Bool, "");
    p.is_switch = is_switch;
    p.bool_value = on;
    p
}

fn positional(n: u32, value: &str) -> Param {
    let mut p = param("arg", ParamKind::Text, value);
    p.position = Some(n);
    p
}

fn env(mut p: Param) -> Param {
    p.as_env = true;
    p
}

#[test]
fn values_are_quoted() {
    assert_eq!(ps_quote("a b"), "'a b'");
    assert_eq!(ps_quote(""), "''");
    assert_eq!(ps_quote("it's"), "'it''s'");
    assert_eq!(ps_quote("''"), "''''''");
    assert_eq!(ps_quote("$x; ä"), "'$x; ä'");
}

#[test]
fn quoted_values_are_read_back() {
    for value in ["", "plain", "it's", "'", "''x'", "a\nb"] {
        let quoted = ps_quote(value);
        let inner = &quoted[1..quoted.len() - 1];
        assert_eq!(inner.replace("''", "'"), value);
        assert_eq!(inner.replace("''", "").contains('\''), false);
    }
}

#[test]
fn named_arguments_are_composed() {
    let params = vec![
        param("InputFolder", ParamKind::FolderPath, " C:\\a b "),
        param("Empty", ParamKind::Text, "   "),
        param("Count", ParamKind::Number, "3"),
        flag("Force", true, true),
        flag("Quiet", true, false),
        flag("On", false, true),
        flag("Off", false, false),
    ];
    assert_eq!(
        compose("C:\\it's.ps1", false, &params),
        "& 'C:\\it''s.ps1' -InputFolder 'C:\\a b' -Count '3' -Force -On:$true -Off:$false"
    );
}

#[test]
fn environment_comes_first() {
    let params = vec![
        env(param("USER", ParamKind::Text, " bob ")),
        env(param("NONE", ParamKind::Text, " ")),
        env(flag("FLAG", true, false)),
        param("Name", ParamKind::Text, "x"),
    ];
    assert_eq!(
        compose("s.ps1", false, &params),
        "$env:USER = 'bob'; $env:FLAG = 'false'; & 's.ps1' -Name 'x'"
    );
    assert_eq!(
        compose("s.bat", true, &params),
        "$env:USER = 'bob'; $env:FLAG = 'false'; & 's.bat'"
    );
}

#[test]
fn batch_arguments_are_ordered_by_position() {
    let params = vec![
        positional(10, "ten"),
        positional(2, "two"),
        positional(1, ""),
        param("Named", ParamKind::Text, "not passed"),
        env(positional(3, "three")),
        positional(2, "again"),
    ];
    assert_eq!(
        compose("s.bat", true, &params),
        "$env:arg = 'three'; & 's.bat' '' 'two' 'again' 'ten'"
    );
    // A PowerShell script gets no positional arguments.
    assert_eq!(
        compose("s.ps1", false, &params),
        "$env:arg = 'three'; & 's.ps1' -Named 'not passed'"
    );
}

#[test]
fn scripts_without_controls_are_just_called() {
    assert_eq!(compose("s.ps1", false, &vec![]), "& 's.ps1'");
    assert_eq!(compose("s.bat", true, &vec![]), "& 's.bat'");
    assert_eq!(compose("s.ps1", false, &vec![flag("Quiet", true, false)]), "& 's.ps1'");
}

#[test]
fn missing_values_are_named() {
    let mut a = param("A", ParamKind::Text, " ");
    a.required = true;
    a.label = "First".to_string();
    let mut b = param("B", ParamKind::Text, "x");
    b.required = true;
    let mut c = flag("C", true, false);
    c.required = true;
    let d = param("D", ParamKind::Text, "");
    assert_eq!(missing(&vec![a, b, c, d]), vec!["First"]);
    assert_eq!(missing(&vec![]), Vec::<String>::new());
}

#[test]
fn bound_controls_reach_the_command() {
    let mut p = custom_param(1);
    p.value = "v".to_string();
    apply_binding(&mut p, Bound::Positional(2));
    assert_eq!(compose("s.bat", true, &vec![p.clone()]), "& 's.bat' 'v'");
    apply_binding(&mut p, Bound::Env("X".to_string()));
    assert_eq!(compose("s.bat", true, &vec![p.clone()]), "$env:X = 'v'; & 's.bat'");
    apply_binding(&mut p, Bound::Named("Y".to_string()));
    assert_eq!(compose("s.ps1", false, &vec![p.clone()]), "& 's.ps1' -Y 'v'");
}

#[test]
fn order_of_batch_controls_does_not_count() {
    let one = vec![
        positional(2, "b"),
        env(param("A", ParamKind::Text, "x")),
        positional(1, "a"),
        positional(2, " b "),
    ];
    let other = vec![
        positional(2, " b "),
        positional(1, "a"),
        positional(2, "b"),
        env(param("A", ParamKind::Text, "x")),
    ];
    let expected = "$env:A = 'x'; & 's.bat' 'a' 'b' 'b'";
    assert_eq!(compose("s.bat", true, &one), expected);
    assert_eq!(compose("s.bat", true, &other), expected);
}
