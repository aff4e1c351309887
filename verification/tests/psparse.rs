use disbatch::model::{Param, ParamKind};
use disbatch::parser::parse_powershell;
use disbatch::psparse::{
    detect_ps1_params, json_payload, json_to_param, params_from_json, ParamJson, Ps1Parser,
};

fn json(name: &str, ty: &str) -> ParamJson {
    ParamJson {
        name: name.to_string(),
        static_type: ty.to_string(),
        mandatory: false,
        validate_set: vec![],
        default: None,
    }
}

fn assert_same(a: &Param, b: &Param) {
    assert_eq!(a.name, b.name);
    assert_eq!(a.label, b.label);
    assert_eq!(a.kind, b.kind);
    assert_eq!(a.required, b.required);
    assert_eq!(a.is_switch, b.is_switch);
    assert_eq!(a.choices, b.choices);
    assert_eq!(a.value, b.value);
    assert_eq!(a.bool_value, b.bool_value);
}

#[test]
fn descriptions_become_controls() {
    let mut quality = json("Quality", "String");
    quality.validate_set = vec!["Low".to_string(), "High".to_string()];
    quality.default = Some("\"High\"".to_string());
    let mut folder = json("InputFolder", "String");
    folder.mandatory = true;
    let mut count = json("Count", "Int32");
    count.default = Some(" 3 ".to_string());
    let mut flag = json("Flag", "Boolean");
    flag.default = Some("$true".to_string());
    let p = params_from_json(vec![quality, folder, count, json("Force", "SwitchParameter"), flag]);
    assert_eq!(p.len(), 5);
    assert_eq!(p[0].kind, ParamKind::Choice);
    assert_eq!(p[0].choices, vec!["Low", "High"]);
    assert_eq!(p[0].value, "High");
    assert_eq!(p[1].kind, ParamKind::FolderPath);
    assert!(p[1].required);
    assert_eq!(p[2].kind, ParamKind::Number);
    assert_eq!(p[2].value, "3");
    assert!(p[3].is_switch);
    assert_eq!(p[3].kind, ParamKind::Bool);
    assert!(p[4].bool_value && !p[4].is_switch);
}

#[test]
fn first_choice_is_the_default_of_a_dropdown() {
    let mut pick = json("Pick", "String");
    pick.validate_set = vec!["a".to_string(), "b".to_string()];
    assert_eq!(json_to_param(pick).value, "a");
    assert_eq!(json_to_param(json("Obj", "Object")).kind, ParamKind::Text);
}

/// On blocks that both can read, the fallback makes the controls that
/// PowerShell's description makes.
#[test]
fn fallback_makes_the_same_controls() {
    let mut folder = json("InputFolder", "String");
    folder.mandatory = true;
    let mut count = json("Count", "Int32");
    count.default = Some("3".to_string());
    let mut quality = json("Quality", "String");
    quality.validate_set = vec!["Low".to_string(), "High".to_string()];
    quality.default = Some("\"Low\"".to_string());
    let mut name = json("Name", "String");
    name.default = Some("\"bob\"".to_string());
    let mut flag = json("Flag", "Boolean");
    flag.default = Some("$false".to_string());
    let corpus = vec![
        (
            r#"param([Parameter(Mandatory = $true)][string]$InputFolder, [int]$Count = 3)"#,
            vec![folder, count],
        ),
        (
            r#"param([ValidateSet("Low","High")][string]$Quality = "Low", [switch]$Force)"#,
            vec![quality, json("Force", "SwitchParameter")],
        ),
        (
            r#"param([string]$Name = "bob", [string]$LogFile, [bool]$Flag = $false)"#,
            vec![name, json("LogFile", "String"), flag],
        ),
    ];
    for (src, described) in corpus {
        let ast = params_from_json(described);
        let rgx = parse_powershell(src);
        assert_eq!(ast.len(), rgx.len());
        for (a, r) in ast.iter().zip(rgx.iter()) {
            assert_same(a, r);
        }
    }
}

/// Where the fallback cannot see the structure, the description wins.
#[test]
fn bracketed_values_are_lost_to_the_fallback() {
    let src = r#"param([ValidateSet("[1] Fast", "[2] Thorough")][string]$Mode = "[1] Fast")"#;
    let rgx = parse_powershell(src);
    assert_eq!(rgx.len(), 1);
    assert_ne!(rgx[0].kind, ParamKind::Choice);
    let mut mode = json("Mode", "String");
    mode.validate_set = vec!["[1] Fast".to_string(), "[2] Thorough".to_string()];
    mode.default = Some("\"[1] Fast\"".to_string());
    let p = json_to_param(mode);
    assert_eq!(p.kind, ParamKind::Choice);
    assert_eq!(p.value, "[1] Fast");
}

#[test]
fn detection_prefers_the_description() {
    let src = "param([int]$A)";
    let (p, which) = detect_ps1_params(src, Some(vec![]));
    assert_eq!(p.len(), 0);
    assert_eq!(which, Ps1Parser::Ast);
    let (p, which) = detect_ps1_params(src, None);
    assert_eq!(p.len(), 1);
    assert_eq!(which, Ps1Parser::Regex);
}

#[test]
fn process_output_is_taken_or_turned_down() {
    assert_eq!(json_payload(true, b"  [] \r\n"), Some("[]".to_string()));
    assert_eq!(json_payload(false, b"[]"), None);
    assert_eq!(json_payload(true, b" \n"), None);
    assert_eq!(json_payload(true, b""), None);
    assert_eq!(json_payload(true, b"[\xff]"), Some("[\u{fffd}]".to_string()));
    assert_eq!(json_payload(true, "[\"ä\"]".as_bytes()), Some("[\"ä\"]".to_string()));
}
