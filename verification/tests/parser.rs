use disbatch::model::ParamKind;
use disbatch::parser::{
    argument_param, collect_numbers, control, declared_param, extract_param_block, humanize,
    kind_from_name, parse_batch, parse_one, parse_powershell, strip_block_comments, strip_quotes,
    Declaration,
};
use disbatch::pattern::{Capture, Group};
use disbatch::scan::{enclosed_text, split_top_level};

/// The fallback must not panic on adversarial input: release builds abort on
/// panic. What it returns there is not asserted; survival is.
#[test]
fn regex_parser_never_panics_on_adversarial_input() {
    let gnarly = r##"Function Foo {
[CmdletBinding()]
param (
  # This is a comment (and this part is in parentheses)
  [Parameter(Mandatory,
    ValueFromPipeline
  )][ValidateScript({
$false
}
)]
 [string]$Bar = ("`'())$($PWD.Trim()))`'")
) #end block (and some unbalanced parentheses(and sub-parenthetical stuff with a mismatched bracket, too!‽])

# Some comment (with
# parentheses)

}"##;
    // Must return without panicking; the result may be empty or wrong.
    let _ = parse_powershell(gnarly);
    let _ = parse_powershell("");
    let _ = parse_powershell("param(");
    let _ = parse_powershell("param(   \n  ");
    let _ = parse_powershell("param($a,, $b, [int],)");
    let _ = parse_powershell("param([ValidateSet(]$x = \"unterminated");
    let _ = parse_powershell(&"param(".repeat(2000));
    let _ = parse_powershell("param([string]$x = '日本語‽')");
}

/// The fallback must also be *correct* on a realistic block, not just
/// non-crashing.
#[test]
fn regex_parser_is_correct_on_a_realistic_block() {
    let src = r#"
            param(
                [Parameter(Mandatory = $true)][string]$InputFolder,
                [ValidateSet("Low", "High")][string]$Quality = "Low",
                [int]$Count = 3,
                [switch]$Force
            )
        "#;
    let p = parse_powershell(src);
    assert_eq!(p.len(), 4);
    let by = |n: &str| p.iter().find(|x| x.name == n).unwrap();
    assert!(by("InputFolder").required);
    assert_eq!(by("InputFolder").kind, ParamKind::FolderPath);
    assert_eq!(by("Quality").kind, ParamKind::Choice);
    assert_eq!(by("Quality").choices, vec!["Low", "High"]);
    assert_eq!(by("Quality").value, "Low");
    assert_eq!(by("Count").kind, ParamKind::Number);
    assert_eq!(by("Count").value, "3");
    assert!(by("Force").is_switch);
    assert!(!by("InputFolder").is_switch);
}

#[test]
fn strip_quotes_handles_edges() {
    assert_eq!(strip_quotes("\"x\""), "x");
    assert_eq!(strip_quotes("'x'"), "x");
    assert_eq!(strip_quotes("x"), "x");
    assert_eq!(strip_quotes("\""), "\""); // one quote: too short to strip
    assert_eq!(strip_quotes("\"\""), ""); // empty quoted string
    assert_eq!(strip_quotes("\"unbalanced"), "\"unbalanced");
    assert_eq!(strip_quotes("\"x'"), "\"x'"); // mismatched quote chars
    assert_eq!(strip_quotes("'日本語'"), "日本語"); // multibyte between ASCII quotes
    assert_eq!(strip_quotes("  \"x\"  "), "x"); // trims before stripping
}

#[test]
fn kind_from_name_picks_the_right_picker() {
    assert_eq!(kind_from_name("InputFolder"), ParamKind::FolderPath);
    assert_eq!(kind_from_name("WorkDir"), ParamKind::FolderPath);
    assert_eq!(kind_from_name("LogFile"), ParamKind::FilePath);
    assert_eq!(kind_from_name("ConfigPath"), ParamKind::FilePath);
    assert_eq!(kind_from_name("UserName"), ParamKind::Text);
}

#[test]
fn humanize_splits_camel_case_and_separators() {
    assert_eq!(humanize("InputFolder"), "Input Folder");
    assert_eq!(humanize("OutFile"), "Out File");
    assert_eq!(humanize("log_path"), "Log path");
}

#[test]
fn parse_batch_finds_ordered_positional_args() {
    let p = parse_batch("@echo off\ncopy %1 %2\necho %~dpnx3 and %1 again\n");
    let names: Vec<&str> = p.iter().map(|x| x.name.as_str()).collect();
    assert_eq!(names, vec!["arg1", "arg2", "arg3"]); // de-duped, in order
    assert_eq!(p[0].position, Some(1));
    assert!(p.iter().all(|x| x.kind == ParamKind::Text));
}

#[test]
fn humanize_beyond_ascii_and_edges() {
    assert_eq!(humanize(""), "");
    assert_eq!(humanize("_x"), " x");
    assert_eq!(humanize("HTTPPort"), "HTTPPort");
    assert_eq!(humanize("Port2Use"), "Port2 Use");
    assert_eq!(humanize("a-b"), "A b");
    assert_eq!(humanize("ähnlichÄpfel"), "Ähnlich Äpfel");
    assert_eq!(humanize("ßtraße"), "SStraße");
    assert_eq!(humanize("x½Y"), "X½ Y");
}

#[test]
fn kind_from_name_ignores_case_and_prefers_folders() {
    assert_eq!(kind_from_name("FOLDERFILE"), ParamKind::FolderPath);
    assert_eq!(kind_from_name("Directory"), ParamKind::FolderPath);
    assert_eq!(kind_from_name("PATH"), ParamKind::FilePath);
    assert_eq!(kind_from_name(""), ParamKind::Text);
    assert_eq!(kind_from_name("ÄFILE"), ParamKind::FilePath);
}

#[test]
fn block_comments_are_replaced_by_a_space() {
    assert_eq!(strip_block_comments("a<# x\ny #>b<##>c"), "a b c");
    assert_eq!(strip_block_comments("a <# open"), "a <# open");
}

#[test]
fn param_block_is_cut_out() {
    assert_eq!(extract_param_block("x PARAM  ( $a = ')' ) y"), Some(" $a = ')' ".to_string()));
    assert_eq!(extract_param_block("param($a # )\n)"), Some("$a # )\n".to_string()));
    assert_eq!(
        extract_param_block("param($a = \"`\")\", @(1, 2))"),
        Some("$a = \"`\")\", @(1, 2)".to_string())
    );
    assert_eq!(extract_param_block("# ä€\nparam(\"ü\") ö"), Some("\"ü\"".to_string()));
    assert_eq!(extract_param_block("params($a)"), None);
    assert_eq!(extract_param_block("param($a"), None);
}

#[test]
fn enclosed_text_ends_at_the_closing_bracket() {
    assert_eq!(enclosed_text("a(b)c)d"), Some("a(b)c".to_string()));
    assert_eq!(enclosed_text(")"), Some(String::new()));
    assert_eq!(enclosed_text("a(b"), None);
    // Any closing bracket closes the enclosing one.
    assert_eq!(enclosed_text("a]b"), Some("a".to_string()));
    assert_eq!(enclosed_text("'it)' \"x)\" # )\n)"), Some("'it)' \"x)\" # )\n".to_string()));
}

#[test]
fn declarations_are_split_at_top_level_commas() {
    assert_eq!(
        split_top_level("$a = @(1, 2), # note, with comma\n $b = 'x,y' , , $c"),
        vec!["$a = @(1, 2)", "$b = 'x,y'", "$c"]
    );
    assert_eq!(split_top_level("  "), Vec::<String>::new());
    assert_eq!(split_top_level("$a = \"p`\",q\", $b"), vec!["$a = \"p`\",q\"", "$b"]);
    // A stray closing bracket takes the commas behind it out of the top level.
    assert_eq!(split_top_level("$a), $b"), vec!["$a), $b"]);
}

#[test]
fn declarations_stay_in_one_piece() {
    let block = " # a, b\n$a = @(1, 2) # c\n, [string]$b = \"x`\", y\", $c = '#,' , $d = 1), $e";
    let parts = split_top_level(block);
    assert_eq!(parts, vec!["$a = @(1, 2)", "[string]$b = \"x`\", y\"", "$c = '#,'", "$d = 1), $e"]);
    for part in &parts {
        assert_eq!(split_top_level(part), vec![part.clone()]);
    }
}

#[test]
fn declarations_become_controls() {
    let p = parse_one("[Parameter(Mandatory=$false)][string] $LogFile = 'a.txt'").unwrap();
    assert_eq!(p.name, "LogFile");
    assert_eq!(p.label, "Log File");
    assert_eq!(p.kind, ParamKind::FilePath);
    assert!(!p.required);
    assert_eq!(p.value, "a.txt");
    assert_eq!(p.position, None);
    assert!(!p.custom && !p.as_env && !p.is_switch && !p.bool_value);

    let p = parse_one("[Parameter(Mandatory)] $Name").unwrap();
    assert!(p.required);
    assert_eq!(p.kind, ParamKind::Text);

    let p = parse_one("[System.Boolean]$On = $TRUE").unwrap();
    assert_eq!(p.kind, ParamKind::Bool);
    assert!(p.bool_value && !p.is_switch);
    assert_eq!(p.value, "");

    let p = parse_one("[ VALIDATESET( 'a', \"b\" ) ]$Pick").unwrap();
    assert_eq!(p.kind, ParamKind::Choice);
    assert_eq!(p.choices, vec!["a", "b"]);
    assert_eq!(p.value, "a");

    // Of several lists the last one counts.
    let p = parse_one("[ValidateSet('a')][ValidateSet('b','c')]$Pick = 'c'").unwrap();
    assert_eq!(p.choices, vec!["b", "c"]);
    assert_eq!(p.value, "c");

    assert!(parse_one("[int]").is_none());
    assert!(parse_one("nothing here").is_none());
}

#[test]
fn mandatory_is_read_out_of_attributes() {
    let required = |attr: &str| {
        declared_param("X".to_string(), &vec![attr.to_string()], vec![], None).required
    };
    assert!(required("Parameter(Mandatory)"));
    assert!(required("Parameter(mandatory = $true)"));
    assert!(!required("Parameter(Mandatory = $false)"));
    assert!(!required("Parameter(Mandatory==  $FALSE)"));
    assert!(!required("Parameter(Position = 1)"));
    // Only the first mention counts.
    assert!(!required("mandatory $false mandatory"));
}

#[test]
fn every_number_type_gets_a_number_field() {
    for t in [
        "int", "Int16", "int32", "INT64", "long", "double", "single", "float", "decimal", "byte",
        "uint16", "uint32", "uint64",
    ] {
        let p = declared_param("Threads".to_string(), &vec![t.to_string()], vec![], None);
        assert_eq!(p.kind, ParamKind::Number, "{t}");
    }
    let p = declared_param("Threads".to_string(), &vec!["string".to_string()], vec![], None);
    assert_eq!(p.kind, ParamKind::Text);
}

fn declaration(name: &str) -> Declaration {
    Declaration {
        name: name.to_string(),
        is_switch: false,
        is_bool: false,
        is_number: false,
        required: false,
        choices: vec![],
        default: None,
    }
}

#[test]
fn kinds_have_a_precedence() {
    let mut d = declaration("LogFile");
    d.is_switch = true;
    d.is_number = true;
    d.choices = vec!["a".to_string()];
    assert_eq!(control(d).kind, ParamKind::Bool);
    let mut d = declaration("LogFile");
    d.is_number = true;
    d.choices = vec!["a".to_string()];
    assert_eq!(control(d).kind, ParamKind::Choice);
    let mut d = declaration("LogFile");
    d.is_number = true;
    assert_eq!(control(d).kind, ParamKind::Number);
    assert_eq!(control(declaration("LogFile")).kind, ParamKind::FilePath);
}

#[test]
fn defaults_fill_the_controls() {
    let mut d = declaration("On");
    d.is_bool = true;
    d.default = Some(" True ".to_string());
    assert!(control(d).bool_value);
    let mut d = declaration("On");
    d.is_bool = true;
    d.default = Some("1".to_string());
    assert!(!control(d).bool_value);
    let mut d = declaration("Pick");
    d.choices = vec!["a".to_string(), "b".to_string()];
    d.default = Some("''".to_string());
    assert_eq!(control(d).value, "a");
}

#[test]
fn no_block_means_no_parameters() {
    assert_eq!(parse_powershell("Write-Host 'hi'").len(), 0);
    assert_eq!(parse_powershell("<# param($x) #>").len(), 0);
    assert_eq!(parse_powershell("param($x").len(), 0);
    assert_eq!(parse_powershell("param()").len(), 0);
}

#[test]
fn batch_arguments_have_all_their_parts() {
    let p = parse_batch("%9 %~1 %%2 %x %0");
    let positions: Vec<u32> = p.iter().map(|x| x.position.unwrap()).collect();
    assert_eq!(positions, vec![1, 2, 9]);
    assert_eq!(p[2].name, "arg9");
    assert_eq!(p[2].label, "Argument 9");
    assert!(!p[2].required && !p[2].custom && !p[2].as_env && !p[2].is_switch);
    assert!(p[2].value.is_empty() && p[2].choices.is_empty());
    assert_eq!(parse_batch("echo hi").len(), 0);
    assert_eq!(argument_param(12).name, "arg12");
}

#[test]
fn numbers_are_collected_once_and_in_order() {
    let capture = |t: &str| Capture {
        start: 0,
        end: 0,
        group: Some(Group { start: 0, end: 0, text: t.to_string() }),
    };
    let none = Capture { start: 0, end: 0, group: None };
    let found =
        vec![capture("5"), capture("40"), capture("x"), capture("5"), none, capture("1")];
    assert_eq!(collect_numbers(&found), vec![1, 5, 40]);
}

/// The table of the documentation.
#[test]
fn parameters_map_to_controls_as_documented() {
    let p = parse_powershell(
        r#"param(
            [switch]$Recurse,
            [ValidateSet("A","B")][string]$X,
            [int]$Threads = 4,
            [string]$InputFolder,
            [string]$LogFile,
            [string]$OutPath,
            [Parameter(Mandatory)][string]$Name
        )"#,
    );
    let kinds: Vec<ParamKind> = p.iter().map(|x| x.kind).collect();
    assert_eq!(
        kinds,
        vec![
            ParamKind::Bool,
            ParamKind::Choice,
            ParamKind::Number,
            ParamKind::FolderPath,
            ParamKind::FilePath,
            ParamKind::FilePath,
            ParamKind::Text,
        ]
    );
    assert!(p[0].is_switch);
    assert_eq!(p[1].choices, vec!["A", "B"]);
    assert_eq!(p[2].value, "4");
    let required: Vec<bool> = p.iter().map(|x| x.required).collect();
    assert_eq!(required, vec![false, false, false, false, false, false, true]);
    // Nothing that is detected is the user's.
    assert!(p.iter().all(|x| !x.custom && !x.as_env && x.position.is_none()));
}

#[test]
fn comments_are_taken_out_once_and_for_all() {
    for s in [
        "a<#x#>b",
        "<<##>#>",
        "<#>x#>y",
        "<#<#a#>#>",
        "<# a #><# b",
        "<<#x#>#y#>",
        "#><#",
        "<##><##>",
        "<#\n#>",
    ] {
        let once = strip_block_comments(s);
        assert_eq!(strip_block_comments(&once), once, "{s}");
    }
    assert_eq!(strip_block_comments("<<##>#>"), "< #>");
    assert_eq!(strip_block_comments("<#>x#>y"), " y");
    assert_eq!(strip_block_comments("<#<#a#>#>"), " #>");
    assert_eq!(strip_block_comments("<<#x#>#y#>"), "< #y#>");
}

#[test]
fn comments_do_not_declare() {
    let src = "<# param($no) #>param(<# [int] #>$a, <# , $b #> $c = 1)";
    let with = parse_powershell(src);
    let without = parse_powershell(&strip_block_comments(src));
    let names = |p: &Vec<disbatch::model::Param>| {
        p.iter().map(|x| (x.name.clone(), x.kind, x.value.clone())).collect::<Vec<_>>()
    };
    assert_eq!(names(&with), names(&without));
    assert_eq!(with.len(), 2);
}

#[test]
fn batch_arguments_are_found_wherever_they_stand() {
    let of = |s: &str| parse_batch(s).iter().map(|p| p.position.unwrap()).collect::<Vec<u32>>();
    assert_eq!(of("%~1"), vec![1]);
    assert_eq!(of("%~dpnX2x"), vec![2]);
    assert_eq!(of("%%3"), vec![3]);
    assert_eq!(of("%~%4"), vec![4]);
    assert_eq!(of("%a5 %~-6 %~~7 %0 %~0"), Vec::<u32>::new());
    assert_eq!(of("%89"), vec![8]);
    assert_eq!(of("%"), Vec::<u32>::new());
    assert_eq!(of("%~"), Vec::<u32>::new());
    assert_eq!(of("%~ab"), Vec::<u32>::new());
    assert_eq!(of("%~ä1 %٣"), Vec::<u32>::new());
}

#[test]
fn joined_batch_texts_share_their_positions() {
    let of = |s: &str| parse_batch(s).iter().map(|p| p.position.unwrap()).collect::<Vec<u32>>();
    for (a, b) in [("%1 %3", "%2 %3"), ("%~d", "1"), ("%", "5"), ("", "%9"), ("%~", "~2")] {
        let mut union = of(a);
        union.extend(of(b));
        union.sort();
        union.dedup();
        assert_eq!(of(&format!("{a}\n{b}")), union);
        assert_eq!(of(&format!("{b}\n{a}")), union);
    }
}
