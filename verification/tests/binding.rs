use disbatch::binding::{resolve_spans, token_from, token_spans, Bound, TokenKind};
use disbatch::pattern::{Capture, Group};
use disbatch::preview::{line_segments, pick_segments};
use disbatch::span::slice_text;

fn shown(line: &str, is_batch: bool) -> Vec<(String, String)> {
    token_spans(line, is_batch)
        .iter()
        .map(|(s, e, b)| (line[*s..*e].to_string(), format!("{b:?}")))
        .collect()
}

fn pair(a: &str, b: &str) -> (String, String) {
    (a.to_string(), b.to_string())
}

#[test]
fn powershell_tokens() {
    assert_eq!(
        shown("$a = $Env:TEMP + $True + $b_2", false),
        vec![
            pair("$a", "Named(\"a\")"),
            pair("$Env:TEMP", "Env(\"TEMP\")"),
            pair("$b_2", "Named(\"b_2\")"),
        ]
    );
    // The constants are none, whatever their case.
    assert_eq!(shown("$true $FALSE $Null", false), vec![]);
}

#[test]
fn batch_tokens() {
    assert_eq!(
        shown("set /p NAME=%1 %~dp2 %PATH%", true),
        vec![
            pair("NAME", "Env(\"NAME\")"),
            pair("%1", "Positional(1)"),
            pair("%~dp2", "Positional(2)"),
            pair("%PATH%", "Env(\"PATH\")"),
        ]
    );
    assert_eq!(shown("SET \"X = 5", true), vec![pair("X", "Env(\"X\")")]);
    assert_eq!(shown("echo %0 %x", true), vec![]);
}

#[test]
fn overlapping_tokens_are_resolved() {
    // `%1` starts inside `%a%`'s closing percent sign and is left out there.
    assert_eq!(shown("%ab%1", true), vec![pair("%ab%", "Env(\"ab\")")]);
    let spans = vec![
        (4, 6, Bound::Positional(1)),
        (0, 3, Bound::Positional(2)),
        (0, 5, Bound::Positional(3)),
        (5, 7, Bound::Positional(4)),
        (5, 7, Bound::Positional(5)),
    ];
    let kept: Vec<(usize, usize, String)> =
        resolve_spans(&spans).iter().map(|(s, e, b)| (*s, *e, format!("{b:?}"))).collect();
    assert_eq!(
        kept,
        vec![(0, 5, "Positional(3)".to_string()), (5, 7, "Positional(4)".to_string())]
    );
    assert_eq!(resolve_spans(&vec![]).len(), 0);
}

#[test]
fn segments_cover_the_line() {
    let line = "ä $a=日$b!";
    let parts = pick_segments(line, false);
    let texts: Vec<&str> = parts.iter().map(|p| p.text.as_str()).collect();
    assert_eq!(texts, vec!["ä ", "$a", "=日", "$b", "!"]);
    let clickable: Vec<bool> = parts.iter().map(|p| p.bound.is_some()).collect();
    assert_eq!(clickable, vec![false, true, false, true, false]);
    let starts: Vec<usize> = parts.iter().map(|p| p.start).collect();
    assert_eq!(starts, vec![0, 3, 5, 9, 11]);
    assert_eq!(texts.concat(), line);
}

#[test]
fn lines_without_tokens_are_one_segment() {
    let parts = pick_segments("plain", true);
    assert_eq!(parts.len(), 1);
    assert_eq!(parts[0].text, "plain");
    assert_eq!(pick_segments("", false).len(), 0);
    let only = line_segments("$x", &vec![(0, 2, Bound::Named("x".to_string()))]);
    assert_eq!(only.len(), 1);
    assert_eq!(only[0].text, "$x");
}

#[test]
fn slices_are_by_bytes() {
    assert_eq!(slice_text("aäb", 1, 3), "ä");
    assert_eq!(slice_text("aäb", 0, 0), "");
    assert_eq!(slice_text("aäb", 3, 4), "b");
}

#[test]
fn matches_become_tokens() {
    let capture = |t: &str| Capture {
        start: 3,
        end: 9,
        group: Some(Group { start: 5, end: 8, text: t.to_string() }),
    };
    let of = |t: &str, kind| token_from(&capture(t), kind).map(|(s, e, b)| (s, e, format!("{b:?}")));
    assert_eq!(of("4", TokenKind::Argument), Some((3, 9, "Positional(4)".to_string())));
    assert_eq!(of("x", TokenKind::Argument), None);
    assert_eq!(of("x", TokenKind::Variable), Some((3, 9, "Env(\"x\")".to_string())));
    assert_eq!(of("x", TokenKind::Assignment), Some((5, 8, "Env(\"x\")".to_string())));
    assert_eq!(of("x", TokenKind::Named), Some((3, 9, "Named(\"x\")".to_string())));
    assert_eq!(of("NULL", TokenKind::Named), None);
    let none = Capture { start: 0, end: 1, group: None };
    assert!(token_from(&none, TokenKind::Variable).is_none());
}

#[test]
fn tokens_are_not_empty_and_arguments_are_numbered() {
    for line in ["%1%~dp9 %0 %A% set B=1", "$a$env:B $_ ${c} $1", "%~%2 set x=", "ä$ö $Ä1"] {
        for is_batch in [true, false] {
            for (start, end, bound) in token_spans(line, is_batch) {
                assert!(start < end);
                if let Bound::Positional(n) = bound {
                    assert!(1 <= n && n <= 9);
                }
            }
        }
    }
}
