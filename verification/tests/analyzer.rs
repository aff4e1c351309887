use disbatch::analyzer::{
    analyze, analyze_with, build_rules, counts, finding_title, findings_on, has_warning,
    line_severities, rank, Rules, Severity,
};

#[test]
fn severities_are_ranked_and_labelled() {
    assert_eq!(Severity::Warning.rank(), 1);
    assert_eq!(Severity::Caution.rank(), 0);
    assert_eq!(Severity::Warning.label(), "WARNING");
    assert_eq!(Severity::Caution.label(), "CAUTION");
}

#[test]
fn every_rule_finds_its_pattern() {
    let (caution, warning) = (Severity::Caution, Severity::Warning);
    let cases = [
        (warning, "Downloads code straight into memory", "(x).DownloadString('u')"),
        (caution, "Downloads a file from the internet", "Start-BitsTransfer -Source u"),
        (caution, "Makes an HTTP request", "iwr u"),
        (caution, "Uses the .NET WebClient", "New-Object Net.WebClient"),
        (warning, "certutil used to download/decode", "certutil.exe -urlcache u"),
        (warning, "bitsadmin file transfer", "bitsadmin /transfer j u"),
        (warning, "Executes a string as code (Invoke-Expression)", "iex $x"),
        (warning, "Runs a Base64-encoded command (-EncodedCommand)", "powershell -enc AAAA"),
        (caution, "Decodes Base64 data", "[Convert]::FromBase64String($x)"),
        (warning, "Contains an AMSI-bypass marker", "AmsiInitFailed"),
        (caution, "Loads a .NET assembly reflectively", "[Reflection.Assembly]::Load($x)"),
        (warning, "Keyboard hook / keystroke capture API", "GetAsyncKeyState(1)"),
        (caution, "Compiles or loads inline native code (Add-Type)", "Add-Type $x"),
        (caution, "Imports a native Win32 API (P/Invoke)", "[DllImport(x)]"),
        (caution, "Reads the foreground/active window", "GetForegroundWindow()"),
        (warning, "Registry Run-key autostart", "HKCU:\\Software\\CurrentVersion\\Run"),
        (caution, "Modifies the registry", "reg.exe add k"),
        (warning, "Creates a scheduled task", "schtasks /create /tn t"),
        (warning, "Writes to the Startup folder", "C:\\Start Menu\\Programs\\Startup"),
        (warning, "Deletes volume shadow copies", "vssadmin delete shadows"),
        (warning, "Wipes free disk space (cipher /w)", "cipher /w:c"),
        (warning, "Formats a drive", "format d:"),
        (caution, "Recursive force delete", "Remove-Item x -Recurse -Force"),
        (caution, "Edits boot configuration (bcdedit)", "bcdedit"),
        (caution, "Runs with a hidden window", "p -WindowStyle Hidden"),
        (
            caution,
            "Indirect execution (rundll32/mshta/regsvr32/wscript/cscript)",
            "mshta u",
        ),
        (caution, "Hides files (attrib +h)", "attrib +h f"),
        (warning, "Credential-dumping tooling or keywords", "mimikatz"),
        (caution, "Handles credentials in plaintext", "Get-Credential"),
        (caution, "Reads the clipboard", "Get-Clipboard"),
        (caution, "Requests administrator elevation", "#Requires -RunAsAdministrator"),
        (caution, "Weakens the PowerShell execution policy", "Set-ExecutionPolicy Bypass"),
        (warning, "Disables Defender or the firewall", "netsh advfirewall set x"),
    ];
    let rules = build_rules();
    assert_eq!(rules.len(), cases.len());
    for (k, (severity, title, line)) in cases.iter().enumerate() {
        assert_eq!(rules[k].severity, *severity, "{title}");
        assert_eq!(rules[k].title, *title);
        let found = analyze_with(&rules, line);
        assert!(found.iter().any(|f| f.title == *title && f.severity == *severity), "{line}");
        let capitals = analyze_with(&rules, &line.to_ascii_uppercase());
        let told = |v: &Vec<disbatch::analyzer::Finding>| {
            v.iter().map(|f| (f.severity, f.category, f.title, f.line)).collect::<Vec<_>>()
        };
        assert_eq!(told(&found), told(&capitals), "{line}");
    }
    assert_eq!(rules[0].category, "Download & execute");
    assert_eq!(rules[32].category, "Defense evasion");
}

#[test]
fn harmless_scripts_have_no_findings() {
    assert_eq!(analyze("Write-Host 'hello'\n\nGet-ChildItem\n").len(), 0);
    assert_eq!(analyze("").len(), 0);
}

#[test]
fn findings_are_ordered_by_severity_and_line() {
    let src = "iwr u\n\n   iex $x\r\nAdd-Type $y\niex (iwr u)\n";
    let f = analyze(src);
    let got: Vec<(Severity, usize)> = f.iter().map(|f| (f.severity, f.line)).collect();
    assert_eq!(
        got,
        vec![
            (Severity::Warning, 3),
            (Severity::Warning, 5),
            (Severity::Caution, 1),
            (Severity::Caution, 4),
            (Severity::Caution, 5),
        ]
    );
    assert_eq!(f[0].snippet, "iex $x");
    assert_eq!(f[0].category, "Code execution");
    assert!(has_warning(&f));
    assert_eq!(counts(&f), (2, 3));
    let again = Rules::new().analyze(src);
    assert_eq!(again.len(), f.len());
}

#[test]
fn snippets_are_shortened() {
    let line = format!("  iex {}", "ä".repeat(300));
    let f = analyze(&line);
    assert_eq!(f.len(), 1);
    assert_eq!(f[0].snippet.chars().count(), 160);
    assert!(f[0].snippet.starts_with("iex ää"));
}

#[test]
fn cautions_do_not_gate() {
    let f = analyze("Get-Clipboard");
    assert!(!has_warning(&f));
    assert_eq!(counts(&f), (0, 1));
    assert!(!has_warning(&[]));
    assert_eq!(counts(&[]), (0, 0));
}

#[test]
fn lines_are_tinted_by_their_worst_finding() {
    let f = analyze("iex (iwr u)\nGet-Clipboard\nok");
    let risky = line_severities(&f);
    assert_eq!(risky.get(&1), Some(&Severity::Warning));
    assert_eq!(risky.get(&2), Some(&Severity::Caution));
    assert_eq!(risky.get(&3), None);
    // Whatever order they come in.
    let mut reversed = f;
    reversed.reverse();
    assert_eq!(line_severities(&reversed).get(&1), Some(&Severity::Warning));
}

#[test]
fn findings_have_a_heading() {
    let f = analyze("\niex $x");
    assert_eq!(
        finding_title(&f[0]),
        "[WARNING] Code execution · line 2 · Executes a string as code (Invoke-Expression)"
    );
}

#[test]
fn matches_become_findings() {
    let rules = build_rules();
    let mut matched = vec![false; rules.len()];
    matched[1] = true;
    matched[0] = true;
    let f = findings_on(&rules, &matched, "  any line  ", 7);
    assert_eq!(f.len(), 2);
    assert_eq!(f[0].title, "Downloads code straight into memory");
    assert_eq!((f[0].severity, f[0].line, f[0].snippet.as_str()), (Severity::Warning, 7, "any line"));
    assert_eq!(f[1].title, "Downloads a file from the internet");
}

#[test]
fn ranking_reorders_findings() {
    let rules = build_rules();
    let mut matched = vec![false; rules.len()];
    matched[1] = true;
    matched[6] = true;
    let mut found = findings_on(&rules, &matched, "x", 1);
    found.extend(findings_on(&rules, &matched, "y", 2));
    let ranked: Vec<(Severity, usize)> =
        rank(&found).iter().map(|f| (f.severity, f.line)).collect();
    assert_eq!(
        ranked,
        vec![
            (Severity::Warning, 1),
            (Severity::Warning, 2),
            (Severity::Caution, 1),
            (Severity::Caution, 2),
        ]
    );
}

#[test]
fn letter_case_does_not_count() {
    let src = "iwr u\r\n\n  Iex $x \nget-clipboard\nAdd-TYPE ä\n";
    let (a, b) = (analyze(src), analyze(&src.to_ascii_uppercase()));
    assert_eq!(a.len(), 4);
    assert_eq!(a.len(), b.len());
    for (x, y) in a.iter().zip(b.iter()) {
        assert_eq!((x.severity, x.category, x.title, x.line), (y.severity, y.category, y.title, y.line));
    }
    assert_eq!(b[0].snippet, "IEX $X");
}

#[test]
fn findings_of_a_line_are_its_own() {
    let source = "reg add k; mimikatz; iex $x\r\n\nGet-Clipboard\n  mimikatz | iwr u \nvssadmin delete shadows";
    let all = analyze(source);
    for (i, line) in source.lines().enumerate() {
        let here: Vec<_> = all
            .iter()
            .filter(|f| f.line == i + 1)
            .map(|f| (f.severity, f.title, f.snippet.clone()))
            .collect();
        let alone = analyze(line);
        assert!(alone.iter().all(|f| f.line == 1));
        let alone: Vec<_> =
            alone.into_iter().map(|f| (f.severity, f.title, f.snippet)).collect();
        assert_eq!(here, alone);
        assert_eq!(here.is_empty(), line.is_empty());
    }
}
