//! Local, offline heuristic risk analyzer for .ps1 / .bat scripts.
//!
//! This is NOT antivirus. It performs a static, pattern-based scan and surfaces
//! risky *capabilities* (download-and-run, encoded commands, keyboard hooks,
//! persistence, shadow-copy deletion, etc.) so the user can make an informed
//! choice before running a script. It catches obvious and lightly-obfuscated
//! patterns; determined obfuscation can evade it, and it will produce false
//! positives (plenty of legitimate scripts download files or touch the registry).

use crate::pattern;
use crate::pattern::Pattern;
use crate::patterns;
use crate::text;
use std::collections::HashMap;
use vstd::prelude::*;

verus! {

/// How much a finding weighs.
#[derive(Clone, Copy, PartialEq, Eq, Debug, Structural)]
pub enum Severity {
    Caution,
    Warning,
}

/// The rank of a severity: the higher, the more severe.
pub open spec fn rank_of(s: Severity) -> u8 {
    match s {
        Severity::Warning => 1,
        Severity::Caution => 0,
    }
}

/// The word for a severity.
pub open spec fn label_for(s: Severity) -> Seq<char> {
    match s {
        Severity::Warning => "WARNING"@,
        Severity::Caution => "CAUTION"@,
    }
}

impl Severity {
    /// The rank: the higher, the more severe.
    pub fn rank(self) -> (r: u8)
        ensures
            r == rank_of(self),
    {
        match self {
            Severity::Warning => 1,
            Severity::Caution => 0,
        }
    }

    /// The word that is shown for the severity.
    pub fn label(self) -> (r: &'static str)
        ensures
            r@ == label_for(self),
    {
        match self {
            Severity::Warning => "WARNING",
            Severity::Caution => "CAUTION",
        }
    }
}

/// A risky capability that a line of a script shows.
#[derive(Debug)]
pub struct Finding {
    pub severity: Severity,
    pub category: &'static str,
    pub title: &'static str,
    /// The line, counted from one.
    pub line: usize,
    /// The line's text, trimmed and shortened.
    pub snippet: String,
}

/// What a `Finding` holds.
#[verifier::ext_equal]
pub struct FindingView {
    pub severity: Severity,
    pub category: Seq<char>,
    pub title: Seq<char>,
    pub line: usize,
    pub snippet: Seq<char>,
}

impl View for Finding {
    type V = FindingView;

    open spec fn view(&self) -> FindingView {
        FindingView {
            severity: self.severity,
            category: self.category@,
            title: self.title@,
            line: self.line,
            snippet: self.snippet@,
        }
    }
}

impl Clone for Finding {
    fn clone(&self) -> (r: Self)
        ensures
            r@ == self@,
    {
        Finding {
            severity: self.severity,
            category: self.category,
            title: self.title,
            line: self.line,
            snippet: self.snippet.clone(),
        }
    }
}

/// What a list of findings holds.
pub open spec fn findings_view(v: Seq<Finding>) -> Seq<FindingView> {
    v.map_values(|f: Finding| f@)
}

// ---------------------------------------------------------------------------
// Rules
// ---------------------------------------------------------------------------

/// A capability, and the pattern that shows it.
pub struct Rule {
    pub severity: Severity,
    pub category: &'static str,
    pub title: &'static str,
    pub pattern: Pattern,
}

/// What a `Rule` holds.
#[verifier::ext_equal]
pub struct RuleView {
    pub severity: Severity,
    pub category: Seq<char>,
    pub title: Seq<char>,
    pub pattern: Seq<char>,
}

impl View for Rule {
    type V = RuleView;

    open spec fn view(&self) -> RuleView {
        RuleView {
            severity: self.severity,
            category: self.category@,
            title: self.title@,
            pattern: self.pattern@,
        }
    }
}

/// What a list of rules holds.
pub open spec fn rules_view(v: Seq<Rule>) -> Seq<RuleView> {
    v.map_values(|r: Rule| r@)
}

/// A rule.
pub open spec fn rule_of(
    severity: Severity,
    category: Seq<char>,
    title: Seq<char>,
    pattern: Seq<char>,
) -> RuleView {
    RuleView { severity, category, title, pattern }
}

/// The rules.
pub open spec fn rule_table() -> Seq<RuleView> {
    seq![
        rule_of(
            Severity::Warning,
            "Download & execute"@,
            "Downloads code straight into memory"@,
            patterns::RISK_DOWNLOAD_CODE@,
        ),
        rule_of(
            Severity::Caution,
            "Network"@,
            "Downloads a file from the internet"@,
            patterns::RISK_DOWNLOAD_FILE@,
        ),
        rule_of(
            Severity::Caution,
            "Network"@,
            "Makes an HTTP request"@,
            patterns::RISK_HTTP_REQUEST@,
        ),
        rule_of(
            Severity::Caution,
            "Network"@,
            "Uses the .NET WebClient"@,
            patterns::RISK_WEB_CLIENT@,
        ),
        rule_of(
            Severity::Warning,
            "LOLBin"@,
            "certutil used to download/decode"@,
            patterns::RISK_CERTUTIL@,
        ),
        rule_of(
            Severity::Warning,
            "LOLBin"@,
            "bitsadmin file transfer"@,
            patterns::RISK_BITSADMIN@,
        ),
        rule_of(
            Severity::Warning,
            "Code execution"@,
            "Executes a string as code (Invoke-Expression)"@,
            patterns::RISK_INVOKE_EXPRESSION@,
        ),
        rule_of(
            Severity::Warning,
            "Obfuscation"@,
            "Runs a Base64-encoded command (-EncodedCommand)"@,
            patterns::RISK_ENCODED_COMMAND@,
        ),
        rule_of(
            Severity::Caution,
            "Obfuscation"@,
            "Decodes Base64 data"@,
            patterns::RISK_BASE64@,
        ),
        rule_of(
            Severity::Warning,
            "Defense evasion"@,
            "Contains an AMSI-bypass marker"@,
            patterns::RISK_AMSI@,
        ),
        rule_of(
            Severity::Caution,
            "Reflection"@,
            "Loads a .NET assembly reflectively"@,
            patterns::RISK_REFLECTION@,
        ),
        rule_of(
            Severity::Warning,
            "Keylogger"@,
            "Keyboard hook / keystroke capture API"@,
            patterns::RISK_KEYBOARD@,
        ),
        rule_of(
            Severity::Caution,
            "Native code"@,
            "Compiles or loads inline native code (Add-Type)"@,
            patterns::RISK_ADD_TYPE@,
        ),
        rule_of(
            Severity::Caution,
            "Native code"@,
            "Imports a native Win32 API (P/Invoke)"@,
            patterns::RISK_DLL_IMPORT@,
        ),
        rule_of(
            Severity::Caution,
            "Window"@,
            "Reads the foreground/active window"@,
            patterns::RISK_FOREGROUND@,
        ),
        rule_of(
            Severity::Warning,
            "Persistence"@,
            "Registry Run-key autostart"@,
            patterns::RISK_RUN_KEY@,
        ),
        rule_of(
            Severity::Caution,
            "Registry"@,
            "Modifies the registry"@,
            patterns::RISK_REGISTRY@,
        ),
        rule_of(
            Severity::Warning,
            "Persistence"@,
            "Creates a scheduled task"@,
            patterns::RISK_SCHEDULED_TASK@,
        ),
        rule_of(
            Severity::Warning,
            "Persistence"@,
            "Writes to the Startup folder"@,
            patterns::RISK_STARTUP_FOLDER@,
        ),
        rule_of(
            Severity::Warning,
            "Ransomware"@,
            "Deletes volume shadow copies"@,
            patterns::RISK_SHADOW_COPIES@,
        ),
        rule_of(
            Severity::Warning,
            "Anti-forensics"@,
            "Wipes free disk space (cipher /w)"@,
            patterns::RISK_CIPHER_WIPE@,
        ),
        rule_of(
            Severity::Warning,
            "Destructive"@,
            "Formats a drive"@,
            patterns::RISK_FORMAT@,
        ),
        rule_of(
            Severity::Caution,
            "Destructive"@,
            "Recursive force delete"@,
            patterns::RISK_FORCE_DELETE@,
        ),
        rule_of(
            Severity::Caution,
            "Boot"@,
            "Edits boot configuration (bcdedit)"@,
            patterns::RISK_BOOT@,
        ),
        rule_of(
            Severity::Caution,
            "Stealth"@,
            "Runs with a hidden window"@,
            patterns::RISK_HIDDEN_WINDOW@,
        ),
        rule_of(
            Severity::Caution,
            "LOLBin"@,
            "Indirect execution (rundll32/mshta/regsvr32/wscript/cscript)"@,
            patterns::RISK_INDIRECT_EXECUTION@,
        ),
        rule_of(
            Severity::Caution,
            "Stealth"@,
            "Hides files (attrib +h)"@,
            patterns::RISK_HIDDEN_FILES@,
        ),
        rule_of(
            Severity::Warning,
            "Credential theft"@,
            "Credential-dumping tooling or keywords"@,
            patterns::RISK_CREDENTIAL_DUMP@,
        ),
        rule_of(
            Severity::Caution,
            "Credentials"@,
            "Handles credentials in plaintext"@,
            patterns::RISK_PLAINTEXT_CREDENTIALS@,
        ),
        rule_of(
            Severity::Caution,
            "Clipboard"@,
            "Reads the clipboard"@,
            patterns::RISK_CLIPBOARD@,
        ),
        rule_of(
            Severity::Caution,
            "Elevation"@,
            "Requests administrator elevation"@,
            patterns::RISK_ELEVATION@,
        ),
        rule_of(
            Severity::Caution,
            "Policy"@,
            "Weakens the PowerShell execution policy"@,
            patterns::RISK_EXECUTION_POLICY@,
        ),
        rule_of(
            Severity::Warning,
            "Defense evasion"@,
            "Disables Defender or the firewall"@,
            patterns::RISK_DEFENDER@,
        ),
    ]
}

/// Make a rule.
fn rule(
    severity: Severity,
    category: &'static str,
    title: &'static str,
    pattern: &'static str,
) -> (r: Rule)
    requires
        patterns::is_risk_pattern(pattern@),
    ensures
        r@ == rule_of(severity, category@, title@, pattern@),
{
    Rule { severity, category, title, pattern: pattern::compile(pattern) }
}

/// Make the rules.
pub fn build_rules() -> (r: Vec<Rule>)
    ensures
        rules_view(r@) == rule_table(),
{
    let rules = vec![
        rule(
            Severity::Warning,
            "Download & execute",
            "Downloads code straight into memory",
            patterns::RISK_DOWNLOAD_CODE,
        ),
        rule(
            Severity::Caution,
            "Network",
            "Downloads a file from the internet",
            patterns::RISK_DOWNLOAD_FILE,
        ),
        rule(
            Severity::Caution,
            "Network",
            "Makes an HTTP request",
            patterns::RISK_HTTP_REQUEST,
        ),
        rule(
            Severity::Caution,
            "Network",
            "Uses the .NET WebClient",
            patterns::RISK_WEB_CLIENT,
        ),
        rule(
            Severity::Warning,
            "LOLBin",
            "certutil used to download/decode",
            patterns::RISK_CERTUTIL,
        ),
        rule(
            Severity::Warning,
            "LOLBin",
            "bitsadmin file transfer",
            patterns::RISK_BITSADMIN,
        ),
        rule(
            Severity::Warning,
            "Code execution",
            "Executes a string as code (Invoke-Expression)",
            patterns::RISK_INVOKE_EXPRESSION,
        ),
        rule(
            Severity::Warning,
            "Obfuscation",
            "Runs a Base64-encoded command (-EncodedCommand)",
            patterns::RISK_ENCODED_COMMAND,
        ),
        rule(
            Severity::Caution,
            "Obfuscation",
            "Decodes Base64 data",
            patterns::RISK_BASE64,
        ),
        rule(
            Severity::Warning,
            "Defense evasion",
            "Contains an AMSI-bypass marker",
            patterns::RISK_AMSI,
        ),
        rule(
            Severity::Caution,
            "Reflection",
            "Loads a .NET assembly reflectively",
            patterns::RISK_REFLECTION,
        ),
        rule(
            Severity::Warning,
            "Keylogger",
            "Keyboard hook / keystroke capture API",
            patterns::RISK_KEYBOARD,
        ),
        rule(
            Severity::Caution,
            "Native code",
            "Compiles or loads inline native code (Add-Type)",
            patterns::RISK_ADD_TYPE,
        ),
        rule(
            Severity::Caution,
            "Native code",
            "Imports a native Win32 API (P/Invoke)",
            patterns::RISK_DLL_IMPORT,
        ),
        rule(
            Severity::Caution,
            "Window",
            "Reads the foreground/active window",
            patterns::RISK_FOREGROUND,
        ),
        rule(
            Severity::Warning,
            "Persistence",
            "Registry Run-key autostart",
            patterns::RISK_RUN_KEY,
        ),
        rule(
            Severity::Caution,
            "Registry",
            "Modifies the registry",
            patterns::RISK_REGISTRY,
        ),
        rule(
            Severity::Warning,
            "Persistence",
            "Creates a scheduled task",
            patterns::RISK_SCHEDULED_TASK,
        ),
        rule(
            Severity::Warning,
            "Persistence",
            "Writes to the Startup folder",
            patterns::RISK_STARTUP_FOLDER,
        ),
        rule(
            Severity::Warning,
            "Ransomware",
            "Deletes volume shadow copies",
            patterns::RISK_SHADOW_COPIES,
        ),
        rule(
            Severity::Warning,
            "Anti-forensics",
            "Wipes free disk space (cipher /w)",
            patterns::RISK_CIPHER_WIPE,
        ),
        rule(
            Severity::Warning,
            "Destructive",
            "Formats a drive",
            patterns::RISK_FORMAT,
        ),
        rule(
            Severity::Caution,
            "Destructive",
            "Recursive force delete",
            patterns::RISK_FORCE_DELETE,
        ),
        rule(
            Severity::Caution,
            "Boot",
            "Edits boot configuration (bcdedit)",
            patterns::RISK_BOOT,
        ),
        rule(
            Severity::Caution,
            "Stealth",
            "Runs with a hidden window",
            patterns::RISK_HIDDEN_WINDOW,
        ),
        rule(
            Severity::Caution,
            "LOLBin",
            "Indirect execution (rundll32/mshta/regsvr32/wscript/cscript)",
            patterns::RISK_INDIRECT_EXECUTION,
        ),
        rule(
            Severity::Caution,
            "Stealth",
            "Hides files (attrib +h)",
            patterns::RISK_HIDDEN_FILES,
        ),
        rule(
            Severity::Warning,
            "Credential theft",
            "Credential-dumping tooling or keywords",
            patterns::RISK_CREDENTIAL_DUMP,
        ),
        rule(
            Severity::Caution,
            "Credentials",
            "Handles credentials in plaintext",
            patterns::RISK_PLAINTEXT_CREDENTIALS,
        ),
        rule(
            Severity::Caution,
            "Clipboard",
            "Reads the clipboard",
            patterns::RISK_CLIPBOARD,
        ),
        rule(
            Severity::Caution,
            "Elevation",
            "Requests administrator elevation",
            patterns::RISK_ELEVATION,
        ),
        rule(
            Severity::Caution,
            "Policy",
            "Weakens the PowerShell execution policy",
            patterns::RISK_EXECUTION_POLICY,
        ),
        rule(
            Severity::Warning,
            "Defense evasion",
            "Disables Defender or the firewall",
            patterns::RISK_DEFENDER,
        ),
    ];
    assert(rules_view(rules@) =~= rule_table());
    rules
}

// ---------------------------------------------------------------------------
// The scan
// ---------------------------------------------------------------------------

/// The first `n` characters of `s`, or all when it has fewer.
pub open spec fn shortened(s: Seq<char>, n: int) -> Seq<char> {
    if s.len() <= n {
        s
    } else {
        s.subrange(0, n)
    }
}

/// The finding of a rule on a line.
pub open spec fn finding_of(rule: RuleView, line: Seq<char>, number: int) -> FindingView {
    FindingView {
        severity: rule.severity,
        category: rule.category,
        title: rule.title,
        line: number as usize,
        snippet: shortened(text::trimmed(line), 160),
    }
}

/// Whether each rule matches a line.
pub open spec fn matches_on(rules: Seq<RuleView>, line: Seq<char>) -> Seq<bool> {
    rules.map_values(|r: RuleView| pattern::rx_is_match(r.pattern, line))
}

/// Whether all rules have one of the patterns for risky capabilities.
pub open spec fn are_risk_rules(rules: Seq<RuleView>) -> bool {
    forall|k: int| 0 <= k < rules.len() ==> patterns::is_risk_pattern((#[trigger] rules[k]).pattern)
}

/// Whether the rules match a line in ASCII capitals as they match the line.
pub open spec fn ignores_case(rules: Seq<RuleView>, line: Seq<char>) -> bool {
    matches_on(rules, text::ascii_uppered(line)) == matches_on(rules, line)
}

/// Whether two findings differ at most in the text that they show.
pub open spec fn agrees(a: FindingView, b: FindingView) -> bool {
    a == (FindingView { snippet: a.snippet, ..b })
}

/// Whether two lists of findings differ at most in the texts that they show.
pub open spec fn all_agree(a: Seq<FindingView>, b: Seq<FindingView>) -> bool {
    a.len() == b.len() && forall|i: int|
        0 <= i < a.len() ==> agrees(#[trigger] a[i], #[trigger] b[i])
}

/// The findings of the rules that match a line, in the rules' order.
pub open spec fn matched_findings(
    rules: Seq<RuleView>,
    matched: Seq<bool>,
    line: Seq<char>,
    number: int,
) -> Seq<FindingView>
    decreases rules.len(),
{
    if rules.len() == 0 {
        Seq::empty()
    } else {
        let before = matched_findings(rules.drop_last(), matched, line, number);
        if matched[rules.len() - 1] {
            before.push(finding_of(rules.last(), line, number))
        } else {
            before
        }
    }
}

/// The findings of the rules on a line, in the rules' order.
pub open spec fn line_findings(rules: Seq<RuleView>, line: Seq<char>, number: int) -> Seq<
    FindingView,
> {
    matched_findings(rules, matches_on(rules, line), line, number)
}

/// The findings of the rules on the first `n` lines that are not blank, line by
/// line.
pub open spec fn findings_before(rules: Seq<RuleView>, lines: Seq<Seq<char>>, n: int) -> Seq<
    FindingView,
>
    decreases n,
{
    if n <= 0 {
        Seq::empty()
    } else {
        let before = findings_before(rules, lines, n - 1);
        if text::is_blank(lines[n - 1]) {
            before
        } else {
            before + line_findings(rules, lines[n - 1], n)
        }
    }
}

/// The findings of one severity, in their order.
pub open spec fn of_severity(findings: Seq<FindingView>, s: Severity) -> Seq<FindingView>
    decreases findings.len(),
{
    if findings.len() == 0 {
        Seq::empty()
    } else {
        let before = of_severity(findings.drop_last(), s);
        if findings.last().severity == s {
            before.push(findings.last())
        } else {
            before
        }
    }
}

/// The findings, the most severe first, and else in their order.
pub open spec fn most_severe_first(findings: Seq<FindingView>) -> Seq<FindingView> {
    of_severity(findings, Severity::Warning) + of_severity(findings, Severity::Caution)
}

/// What the rules find in a script.
pub open spec fn analysis(rules: Seq<RuleView>, source: Seq<char>) -> Seq<FindingView> {
    let lines = text::lines_of(source);
    most_severe_first(findings_before(rules, lines, lines.len() as int))
}

/// The trimmed start of a line.
fn snippet_of(line: &str) -> (r: String)
    ensures
        r@ == shortened(text::trimmed(line@), 160),
{
    let t = text::trim(line);
    let v = text::to_chars(t.as_str());
    if v.len() <= 160 {
        t
    } else {
        text::string_of(&v, 0, 160)
    }
}

/// The findings on a line, where `matched` says of each rule whether it matches
/// the line.
pub fn findings_on(rules: &Vec<Rule>, matched: &Vec<bool>, line: &str, number: usize) -> (r: Vec<
    Finding,
>)
    requires
        matched.len() == rules.len(),
    ensures
        findings_view(r@) == matched_findings(
            rules_view(rules@),
            matched@,
            line@,
            number as int,
        ),
{
    let ghost views = rules_view(rules@);
    let mut out: Vec<Finding> = Vec::new();
    let mut i: usize = 0;
    assert(views.subrange(0, 0) =~= Seq::empty());
    assert(findings_view(out@) =~= Seq::empty());
    while i < rules.len()
        invariant
            i <= rules.len(),
            matched.len() == rules.len(),
            views == rules_view(rules@),
            findings_view(out@) == matched_findings(
                views.subrange(0, i as int),
                matched@,
                line@,
                number as int,
            ),
        decreases rules.len() - i,
    {
        let rule = &rules[i];
        assert(views.subrange(0, i + 1).drop_last() =~= views.subrange(0, i as int));
        assert(views.subrange(0, i + 1).last() == rule@);
        if matched[i] {
            let ghost so_far = out@;
            let found = Finding {
                severity: rule.severity,
                category: rule.category,
                title: rule.title,
                line: number,
                snippet: snippet_of(line),
            };
            assert(found@ == finding_of(rule@, line@, number as int));
            out.push(found);
            assert(findings_view(out@) =~= findings_view(so_far).push(found@));
        }
        i += 1;
    }
    assert(views.subrange(0, i as int) =~= views);
    out
}

/// Whether each rule matches the line.
fn match_rules(rules: &Vec<Rule>, line: &str) -> (r: Vec<bool>)
    ensures
        r@ == matches_on(rules_view(rules@), line@),
        are_risk_rules(rules_view(rules@)) ==> r@ == matches_on(
            rules_view(rules@),
            text::ascii_uppered(line@),
        ),
{
    let ghost upper = text::ascii_uppered(line@);
    let ghost views = rules_view(rules@);
    let mut out: Vec<bool> = Vec::new();
    let mut i: usize = 0;
    while i < rules.len()
        invariant
            i <= rules.len(),
            out.len() == i,
            forall|k: int|
                0 <= k < i ==> #[trigger] out@[k] == pattern::rx_is_match(
                    rules@[k].pattern@,
                    line@,
                ),
            upper == text::ascii_uppered(line@),
            views == rules_view(rules@),
            are_risk_rules(views) ==> forall|k: int|
                0 <= k < i ==> #[trigger] out@[k] == pattern::rx_is_match(
                    rules@[k].pattern@,
                    upper,
                ),
        decreases rules.len() - i,
    {
        assert(views[i as int].pattern == rules@[i as int].pattern@);
        out.push(pattern::is_match(&rules[i].pattern, line));
        i += 1;
    }
    assert(out@ =~= matches_on(views, line@));
    assert(are_risk_rules(views) ==> out@ =~= matches_on(views, upper));
    out
}

/// Adds the findings of the rules on a line.
fn scan_line(rules: &Vec<Rule>, line: &str, number: usize, out: &mut Vec<Finding>)
    ensures
        findings_view(final(out)@) == findings_view(old(out)@) + line_findings(
            rules_view(rules@),
            line@,
            number as int,
        ),
        are_risk_rules(rules_view(rules@)) ==> ignores_case(rules_view(rules@), line@),
{
    let matched = match_rules(rules, line);
    let ghost before = out@;
    let mut found = findings_on(rules, &matched, line, number);
    let ghost here = found@;
    out.append(&mut found);
    assert(findings_view(out@) =~= findings_view(before) + findings_view(here));
}

/// Adds the findings of one severity to `out`.
fn push_severity(findings: &Vec<Finding>, s: Severity, out: &mut Vec<Finding>)
    ensures
        findings_view(final(out)@) == findings_view(old(out)@) + of_severity(
            findings_view(findings@),
            s,
        ),
{
    let ghost views = findings_view(findings@);
    let ghost before = findings_view(out@);
    let mut i: usize = 0;
    assert(views.subrange(0, 0) =~= Seq::empty());
    assert(before + Seq::<FindingView>::empty() =~= before);
    while i < findings.len()
        invariant
            i <= findings.len(),
            views == findings_view(findings@),
            findings_view(out@) == before + of_severity(views.subrange(0, i as int), s),
        decreases findings.len() - i,
    {
        assert(views.subrange(0, i + 1).drop_last() =~= views.subrange(0, i as int));
        assert(views.subrange(0, i + 1).last() == findings@[i as int]@);
        if findings[i].severity == s {
            let ghost so_far = out@;
            let copy = findings[i].clone();
            out.push(copy);
            assert(findings_view(out@) =~= findings_view(so_far).push(copy@));
            assert(findings_view(out@) =~= before + of_severity(views.subrange(0, i + 1), s));
        }
        i += 1;
    }
    assert(views.subrange(0, i as int) =~= views);
}

/// The findings, the most severe first, and else in their order.
pub fn rank(found: &Vec<Finding>) -> (r: Vec<Finding>)
    ensures
        findings_view(r@) == most_severe_first(findings_view(found@)),
{
    let mut out: Vec<Finding> = Vec::new();
    assert(findings_view(out@) =~= Seq::empty());
    push_severity(found, Severity::Warning, &mut out);
    push_severity(found, Severity::Caution, &mut out);
    assert(findings_view(out@) =~= most_severe_first(findings_view(found@)));
    out
}

/// Scan a script with the given rules and return findings, most severe first.
pub fn analyze_with(rules: &Vec<Rule>, source: &str) -> (r: Vec<Finding>)
    ensures
        findings_view(r@) == analysis(rules_view(rules@), source@),
        are_risk_rules(rules_view(rules@)) ==> all_agree(
            findings_view(r@),
            analysis(rules_view(rules@), text::ascii_uppered(source@)),
        ),
{
    let lines = text::lines(source);
    let ghost table = rules_view(rules@);
    let ghost views = text::texts(lines@);
    let mut found: Vec<Finding> = Vec::new();
    let mut i: usize = 0;
    assert(findings_view(found@) =~= Seq::empty());
    while i < lines.len()
        invariant
            i <= lines.len(),
            views == text::texts(lines@),
            table == rules_view(rules@),
            findings_view(found@) == findings_before(table, views, i as int),
            are_risk_rules(table) ==> forall|k: int|
                0 <= k < i ==> text::is_blank(#[trigger] views[k]) || ignores_case(table, views[k]),
        decreases lines.len() - i,
    {
        let line = lines[i].as_str();
        assert(views[i as int] == line@);
        i += 1;
        if !text::blank(line) {
            scan_line(rules, line, i, &mut found);
        }
    }
    proof {
        if are_risk_rules(table) {
            letter_case_does_not_count(table, source@);
        }
    }
    rank(&found)
}

/// The rules, ready to be used.
pub struct Rules {
    rules: Vec<Rule>,
}

impl Rules {
    #[verifier::type_invariant]
    closed spec fn complete(self) -> bool {
        rules_view(self.rules@) == rule_table()
    }

    /// What the rules are.
    pub closed spec fn table(self) -> Seq<RuleView> {
        rules_view(self.rules@)
    }

    /// Compile the rules.
    pub fn new() -> (r: Self)
        ensures
            r.table() == rule_table(),
    {
        Rules { rules: build_rules() }
    }

    /// Scan a script and return findings, most severe first.
    pub fn analyze(&self, source: &str) -> (r: Vec<Finding>)
        ensures
            findings_view(r@) == analysis(rule_table(), source@),
            all_agree(
                findings_view(r@),
                analysis(rule_table(), text::ascii_uppered(source@)),
            ),
    {
        proof {
            use_type_invariant(&*self);
            lemma_table_has_risk_rules();
        }
        analyze_with(&self.rules, source)
    }
}

/// Scan a script and return findings, most severe first. The case of ASCII
/// letters does not count: in capitals, a script has the same findings, apart
/// from the text that they show.
pub fn analyze(source: &str) -> (r: Vec<Finding>)
    ensures
        findings_view(r@) == analysis(rule_table(), source@),
        all_agree(findings_view(r@), analysis(rule_table(), text::ascii_uppered(source@))),
{
    Rules::new().analyze(source)
}

// ---------------------------------------------------------------------------
// Summaries
// ---------------------------------------------------------------------------

/// How many findings have the severity.
pub open spec fn count_of(findings: Seq<FindingView>, s: Severity) -> nat {
    of_severity(findings, s).len()
}

/// Whether any finding is a warning.
pub open spec fn any_warning(findings: Seq<FindingView>) -> bool {
    exists|i: int| 0 <= i < findings.len() && (#[trigger] findings[i]).severity == Severity::Warning
}

/// True if any finding is warning-level (used to gate the Run button).
pub fn has_warning(findings: &[Finding]) -> (r: bool)
    ensures
        r == any_warning(findings_view(findings@)),
{
    let mut i: usize = 0;
    while i < findings.len()
        invariant
            i <= findings.len(),
            forall|k: int|
                0 <= k < i ==> (#[trigger] findings@[k]).severity != Severity::Warning,
        decreases findings.len() - i,
    {
        if findings[i].severity == Severity::Warning {
            assert(findings_view(findings@)[i as int].severity == Severity::Warning);
            return true;
        }
        i += 1;
    }
    false
}

/// (warning, caution) counts.
pub fn counts(findings: &[Finding]) -> (r: (usize, usize))
    ensures
        r.0 == count_of(findings_view(findings@), Severity::Warning),
        r.1 == count_of(findings_view(findings@), Severity::Caution),
{
    let ghost views = findings_view(findings@);
    let mut warnings: usize = 0;
    let mut cautions: usize = 0;
    let mut i: usize = 0;
    assert(views.subrange(0, 0) =~= Seq::empty());
    while i < findings.len()
        invariant
            i <= findings.len(),
            views == findings_view(findings@),
            warnings + cautions == i,
            warnings == count_of(views.subrange(0, i as int), Severity::Warning),
            cautions == count_of(views.subrange(0, i as int), Severity::Caution),
        decreases findings.len() - i,
    {
        assert(views.subrange(0, i + 1).drop_last() =~= views.subrange(0, i as int));
        assert(views.subrange(0, i + 1).last() == findings@[i as int]@);
        match findings[i].severity {
            Severity::Warning => {
                warnings += 1;
            },
            Severity::Caution => {
                cautions += 1;
            },
        }
        i += 1;
    }
    assert(views.subrange(0, i as int) =~= views);
    (warnings, cautions)
}

/// The lines with findings, each with the highest severity found on it.
pub open spec fn worst_by_line(findings: Seq<FindingView>) -> Map<usize, Severity>
    decreases findings.len(),
{
    if findings.len() == 0 {
        Map::empty()
    } else {
        let before = worst_by_line(findings.drop_last());
        let f = findings.last();
        if before.dom().contains(f.line) && rank_of(before[f.line]) >= rank_of(f.severity) {
            before
        } else {
            before.insert(f.line, f.severity)
        }
    }
}

/// Map each line with findings to the highest severity found on it.
pub fn line_severities(findings: &Vec<Finding>) -> (r: HashMap<usize, Severity>)
    ensures
        r@ == worst_by_line(findings_view(findings@)),
{
    broadcast use vstd::std_specs::hash::group_hash_axioms;

    let ghost views = findings_view(findings@);
    let mut risky: HashMap<usize, Severity> = HashMap::new();
    let mut i: usize = 0;
    assert(views.subrange(0, 0) =~= Seq::empty());
    while i < findings.len()
        invariant
            i <= findings.len(),
            views == findings_view(findings@),
            risky@ == worst_by_line(views.subrange(0, i as int)),
        decreases findings.len() - i,
    {
        assert(views.subrange(0, i + 1).drop_last() =~= views.subrange(0, i as int));
        assert(views.subrange(0, i + 1).last() == findings@[i as int]@);
        let line: usize = findings[i].line;
        let severity = findings[i].severity;
        let keep = match risky.get(&line) {
            Some(s) => s.rank() >= severity.rank(),
            None => false,
        };
        if !keep {
            risky.insert(line, severity);
        }
        i += 1;
    }
    assert(views.subrange(0, i as int) =~= views);
    risky
}

/// The heading of a finding in the list of findings.
pub open spec fn title_line(f: FindingView) -> Seq<char> {
    "["@ + label_for(f.severity) + "] "@ + f.category + " · line "@ + text::decimal(f.line as nat)
        + " · "@ + f.title
}

/// The heading that is shown for a finding.
pub fn finding_title(f: &Finding) -> (r: String)
    ensures
        r@ == title_line(f@),
{
    let mut s = String::new();
    s.append("[");
    s.append(f.severity.label());
    s.append("] ");
    s.append(f.category);
    s.append(" · line ");
    text::push_decimal(&mut s, f.line as u64);
    s.append(" · ");
    s.append(f.title);
    assert(s@ =~= title_line(f@));
    s
}

// ---------------------------------------------------------------------------
// What holds of every analysis
// ---------------------------------------------------------------------------

/// Whether a rule shows on a line.
pub open spec fn shows(rule: RuleView, line: Seq<char>) -> bool {
    !text::is_blank(line) && pattern::rx_is_match(rule.pattern, line)
}

/// Whether `f` is what some rule finds on some line.
pub open spec fn is_found(rules: Seq<RuleView>, lines: Seq<Seq<char>>, f: FindingView) -> bool {
    exists|n: int, k: int|
        0 <= n < lines.len() && 0 <= k < rules.len() && shows(#[trigger] rules[k], #[trigger] lines[n])
            && f == finding_of(rules[k], lines[n], n + 1)
}

/// Whether the findings come by descending severity, and by ascending line
/// within a severity.
pub open spec fn is_ordered(findings: Seq<FindingView>) -> bool {
    forall|i: int, j: int|
        0 <= i < j < findings.len() ==> {
            ||| rank_of(findings[i].severity) > rank_of(findings[j].severity)
            ||| findings[i].severity == findings[j].severity && findings[i].line <= findings[j].line
        }
}

/// Whether the findings come by ascending line.
spec fn by_line(findings: Seq<FindingView>) -> bool {
    forall|i: int, j: int| 0 <= i < j < findings.len() ==> findings[i].line <= findings[j].line
}

proof fn lemma_matched_findings(
    rules: Seq<RuleView>,
    matched: Seq<bool>,
    line: Seq<char>,
    number: int,
)
    ensures
        forall|i: int|
            0 <= i < matched_findings(rules, matched, line, number).len() ==> (
            #[trigger] matched_findings(rules, matched, line, number)[i]).line == number as usize,
        forall|f: FindingView| #[trigger]
            matched_findings(rules, matched, line, number).contains(f) <==> exists|k: int|
                0 <= k < rules.len() && matched[k] && f == finding_of(
                    #[trigger] rules[k],
                    line,
                    number,
                ),
    decreases rules.len(),
{
    let all = matched_findings(rules, matched, line, number);
    if rules.len() > 0 {
        let front = rules.drop_last();
        let before = matched_findings(front, matched, line, number);
        lemma_matched_findings(front, matched, line, number);
        assert forall|i: int| 0 <= i < all.len() implies (#[trigger] all[i]).line
            == number as usize by {
            if i < before.len() {
                assert(all[i] == before[i]);
            }
        }
        assert forall|f: FindingView| #[trigger] all.contains(f) <==> exists|k: int|
            0 <= k < rules.len() && matched[k] && f == finding_of(
                #[trigger] rules[k],
                line,
                number,
            ) by {
            if all.contains(f) {
                let i = choose|i: int| 0 <= i < all.len() && all[i] == f;
                if i < before.len() {
                    assert(before[i] == f);
                    assert(before.contains(f));
                    let k = choose|k: int|
                        0 <= k < front.len() && matched[k] && f == finding_of(
                            #[trigger] front[k],
                            line,
                            number,
                        );
                    assert(rules[k] == front[k]);
                } else {
                    assert(rules[rules.len() - 1] == rules.last());
                }
            }
            if exists|k: int|
                0 <= k < rules.len() && matched[k] && f == finding_of(
                    #[trigger] rules[k],
                    line,
                    number,
                ) {
                let k = choose|k: int|
                    0 <= k < rules.len() && matched[k] && f == finding_of(
                        #[trigger] rules[k],
                        line,
                        number,
                    );
                if k < front.len() {
                    assert(front[k] == rules[k]);
                    assert(before.contains(f));
                    let i = choose|i: int| 0 <= i < before.len() && before[i] == f;
                    assert(all[i] == f);
                } else {
                    assert(all[all.len() - 1] == f);
                }
            }
        }
    }
}

proof fn lemma_line_findings(rules: Seq<RuleView>, line: Seq<char>, number: int)
    ensures
        forall|i: int|
            0 <= i < line_findings(rules, line, number).len() ==> (#[trigger] line_findings(
                rules,
                line,
                number,
            )[i]).line == number as usize,
        forall|f: FindingView| #[trigger]
            line_findings(rules, line, number).contains(f) <==> exists|k: int|
                0 <= k < rules.len() && pattern::rx_is_match((#[trigger] rules[k]).pattern, line) && f
                    == finding_of(rules[k], line, number),
{
    let matched = matches_on(rules, line);
    lemma_matched_findings(rules, matched, line, number);
    assert forall|f: FindingView| #[trigger]
        line_findings(rules, line, number).contains(f) <==> exists|k: int|
            0 <= k < rules.len() && pattern::rx_is_match((#[trigger] rules[k]).pattern, line) && f
                == finding_of(rules[k], line, number) by {
        if line_findings(rules, line, number).contains(f) {
            let k = choose|k: int|
                0 <= k < rules.len() && matched[k] && f == finding_of(
                    #[trigger] rules[k],
                    line,
                    number,
                );
            assert(pattern::rx_is_match(rules[k].pattern, line));
        }
        if exists|k: int|
            0 <= k < rules.len() && pattern::rx_is_match((#[trigger] rules[k]).pattern, line) && f
                == finding_of(rules[k], line, number) {
            let k = choose|k: int|
                0 <= k < rules.len() && pattern::rx_is_match((#[trigger] rules[k]).pattern, line)
                    && f == finding_of(rules[k], line, number);
            assert(matched[k]);
        }
    }
}

proof fn lemma_findings_before(rules: Seq<RuleView>, lines: Seq<Seq<char>>, n: int)
    requires
        0 <= n <= lines.len() <= usize::MAX,
    ensures
        by_line(findings_before(rules, lines, n)),
        forall|i: int|
            0 <= i < findings_before(rules, lines, n).len() ==> (#[trigger] findings_before(
                rules,
                lines,
                n,
            )[i]).line <= n,
        forall|f: FindingView| #[trigger]
            findings_before(rules, lines, n).contains(f) <==> is_found(
                rules,
                lines.subrange(0, n),
                f,
            ),
    decreases n,
{
    let all = findings_before(rules, lines, n);
    if n > 0 {
        let before = findings_before(rules, lines, n - 1);
        let line = lines[n - 1];
        let here = line_findings(rules, line, n);
        let seen = lines.subrange(0, n);
        let seen_before = lines.subrange(0, n - 1);
        lemma_findings_before(rules, lines, n - 1);
        lemma_line_findings(rules, line, n);
        if !text::is_blank(line) {
            assert forall|i: int| 0 <= i < all.len() implies (#[trigger] all[i]).line <= n by {
                if i >= before.len() {
                    assert(all[i] == here[i - before.len()]);
                } else {
                    assert(all[i] == before[i]);
                }
            }
            assert forall|i: int, j: int| 0 <= i < j < all.len() implies all[i].line
                <= all[j].line by {
                if j < before.len() {
                    assert(all[i] == before[i] && all[j] == before[j]);
                } else {
                    assert(all[j] == here[j - before.len()]);
                }
            }
        }
        assert forall|f: FindingView| #[trigger] all.contains(f) <==> is_found(rules, seen, f) by {
            if all.contains(f) {
                let i = choose|i: int| 0 <= i < all.len() && all[i] == f;
                if i < before.len() {
                    assert(before[i] == f);
                    assert(before.contains(f));
                    let (m, k) = choose|m: int, k: int|
                        0 <= m < seen_before.len() && 0 <= k < rules.len() && shows(
                            #[trigger] rules[k],
                            #[trigger] seen_before[m],
                        ) && f == finding_of(rules[k], seen_before[m], m + 1);
                    assert(seen[m] == seen_before[m]);
                } else {
                    assert(here[i - before.len()] == f);
                    assert(here.contains(f));
                    let k = choose|k: int|
                        0 <= k < rules.len() && pattern::rx_is_match(
                            (#[trigger] rules[k]).pattern,
                            line,
                        ) && f == finding_of(rules[k], line, n);
                    assert(seen[n - 1] == line);
                    assert(shows(rules[k], seen[n - 1]));
                }
            }
            if is_found(rules, seen, f) {
                let (m, k) = choose|m: int, k: int|
                    0 <= m < seen.len() && 0 <= k < rules.len() && shows(
                        #[trigger] rules[k],
                        #[trigger] seen[m],
                    ) && f == finding_of(rules[k], seen[m], m + 1);
                if m < n - 1 {
                    assert(seen_before[m] == seen[m]);
                    assert(is_found(rules, seen_before, f));
                    assert(before.contains(f));
                    let i = choose|i: int| 0 <= i < before.len() && before[i] == f;
                    assert(all[i] == f);
                } else {
                    assert(seen[m] == line);
                    assert(here.contains(f));
                    let i = choose|i: int| 0 <= i < here.len() && here[i] == f;
                    assert(all[before.len() + i] == f);
                }
            }
        }
    } else {
        assert(lines.subrange(0, n).len() == 0);
    }
}

proof fn lemma_of_severity(findings: Seq<FindingView>, s: Severity)
    ensures
        of_severity(findings, s).len() <= findings.len(),
        by_line(findings) ==> by_line(of_severity(findings, s)),
        forall|i: int|
            0 <= i < of_severity(findings, s).len() ==> (#[trigger] of_severity(
                findings,
                s,
            )[i]).severity == s,
        forall|f: FindingView| #[trigger]
            of_severity(findings, s).contains(f) <==> findings.contains(f) && f.severity == s,
    decreases findings.len(),
{
    let all = of_severity(findings, s);
    if findings.len() > 0 {
        let front = findings.drop_last();
        let before = of_severity(front, s);
        let last = findings.last();
        lemma_of_severity(front, s);
        assert forall|i: int| 0 <= i < all.len() implies (#[trigger] all[i]).severity == s by {
            if i < before.len() {
                assert(all[i] == before[i]);
            }
        }
        assert forall|f: FindingView| #[trigger] all.contains(f) <==> findings.contains(f)
            && f.severity == s by {
            assert(findings.contains(f) <==> front.contains(f) || f == last) by {
                if findings.contains(f) {
                    let i = choose|i: int| 0 <= i < findings.len() && findings[i] == f;
                    assert(i < front.len() ==> front[i] == f);
                }
                if front.contains(f) {
                    let i = choose|i: int| 0 <= i < front.len() && front[i] == f;
                    assert(findings[i] == f);
                }
                assert(findings[findings.len() - 1] == last);
            }
            if last.severity == s {
                assert(all.contains(f) <==> before.contains(f) || f == last) by {
                    if all.contains(f) {
                        let i = choose|i: int| 0 <= i < all.len() && all[i] == f;
                        assert(i < before.len() ==> before[i] == f);
                    }
                    if before.contains(f) {
                        let i = choose|i: int| 0 <= i < before.len() && before[i] == f;
                        assert(all[i] == f);
                    }
                    assert(all[all.len() - 1] == last);
                }
            }
        }
        if by_line(findings) {
            assert(by_line(front));
            assert forall|i: int, j: int| 0 <= i < j < all.len() implies all[i].line
                <= all[j].line by {
                if j < before.len() {
                    assert(all[i] == before[i] && all[j] == before[j]);
                } else {
                    assert(all[i] == before[i]);
                    assert(before.contains(all[i]));
                    let k = choose|k: int| 0 <= k < front.len() && front[k] == all[i];
                    assert(findings[k].line <= findings[findings.len() - 1].line);
                }
            }
        }
    }
}

/// Findings come by descending severity, and by ascending line within a
/// severity.
pub proof fn findings_are_ordered(rules: Seq<RuleView>, source: Seq<char>)
    requires
        text::lines_of(source).len() <= usize::MAX,
    ensures
        is_ordered(analysis(rules, source)),
{
    let lines = text::lines_of(source);
    let found = findings_before(rules, lines, lines.len() as int);
    lemma_findings_before(rules, lines, lines.len() as int);
    lemma_of_severity(found, Severity::Warning);
    lemma_of_severity(found, Severity::Caution);
    let warnings = of_severity(found, Severity::Warning);
    let cautions = of_severity(found, Severity::Caution);
    let all = analysis(rules, source);
    assert forall|i: int, j: int| 0 <= i < j < all.len() implies {
        ||| rank_of(all[i].severity) > rank_of(all[j].severity)
        ||| all[i].severity == all[j].severity && all[i].line <= all[j].line
    } by {
        if j < warnings.len() {
            assert(all[i] == warnings[i] && all[j] == warnings[j]);
        } else {
            assert(all[j] == cautions[j - warnings.len()]);
            if i < warnings.len() {
                assert(all[i] == warnings[i]);
            } else {
                assert(all[i] == cautions[i - warnings.len()]);
            }
        }
    }
}

/// The findings are exactly those that the rules make on the lines that are not
/// blank: none is left out, and none is made up.
pub proof fn findings_are_complete(rules: Seq<RuleView>, source: Seq<char>)
    requires
        text::lines_of(source).len() <= usize::MAX,
    ensures
        forall|f: FindingView| #[trigger]
            analysis(rules, source).contains(f) <==> is_found(rules, text::lines_of(source), f),
{
    let lines = text::lines_of(source);
    let found = findings_before(rules, lines, lines.len() as int);
    let warnings = of_severity(found, Severity::Warning);
    let cautions = of_severity(found, Severity::Caution);
    let all = analysis(rules, source);
    assert(lines.subrange(0, lines.len() as int) =~= lines);
    lemma_findings_before(rules, lines, lines.len() as int);
    lemma_of_severity(found, Severity::Warning);
    lemma_of_severity(found, Severity::Caution);
    assert forall|f: FindingView| #[trigger] all.contains(f) <==> is_found(rules, lines, f) by {
        assert(all.contains(f) <==> warnings.contains(f) || cautions.contains(f)) by {
            if all.contains(f) {
                let i = choose|i: int| 0 <= i < all.len() && all[i] == f;
                if i < warnings.len() {
                    assert(warnings[i] == f);
                } else {
                    assert(cautions[i - warnings.len()] == f);
                }
            }
            if warnings.contains(f) {
                let i = choose|i: int| 0 <= i < warnings.len() && warnings[i] == f;
                assert(all[i] == f);
            }
            if cautions.contains(f) {
                let i = choose|i: int| 0 <= i < cautions.len() && cautions[i] == f;
                assert(all[warnings.len() + i] == f);
            }
        }
        assert(f.severity == Severity::Warning || f.severity == Severity::Caution);
    }
}

/// Ranking the findings only reorders them: each stays as often as it was found.
pub proof fn ranking_only_reorders(findings: Seq<FindingView>)
    ensures
        most_severe_first(findings).to_multiset() == findings.to_multiset(),
    decreases findings.len(),
{
    broadcast use vstd::seq_lib::group_to_multiset_ensures;

    let warnings = of_severity(findings, Severity::Warning);
    let cautions = of_severity(findings, Severity::Caution);
    vstd::seq_lib::lemma_multiset_commutative(warnings, cautions);
    if findings.len() > 0 {
        let front = findings.drop_last();
        ranking_only_reorders(front);
        vstd::seq_lib::lemma_multiset_commutative(
            of_severity(front, Severity::Warning),
            of_severity(front, Severity::Caution),
        );
        assert(front.push(findings.last()) =~= findings);
        assert(most_severe_first(findings).to_multiset() =~= findings.to_multiset());
    } else {
        assert(most_severe_first(findings) =~= findings);
    }
}

/// Every finding is counted once, and there is a warning exactly when the count
/// of warnings is not zero.
pub proof fn counts_cover_findings(findings: Seq<FindingView>)
    ensures
        count_of(findings, Severity::Warning) + count_of(findings, Severity::Caution)
            == findings.len(),
        any_warning(findings) <==> count_of(findings, Severity::Warning) > 0,
    decreases findings.len(),
{
    if findings.len() > 0 {
        let front = findings.drop_last();
        counts_cover_findings(front);
        assert(findings[findings.len() - 1] == findings.last());
        if any_warning(front) {
            let i = choose|i: int|
                0 <= i < front.len() && (#[trigger] front[i]).severity == Severity::Warning;
            assert(findings[i].severity == Severity::Warning);
        }
        if any_warning(findings) {
            let i = choose|i: int|
                0 <= i < findings.len() && (#[trigger] findings[i]).severity == Severity::Warning;
            assert(i < front.len() ==> front[i].severity == Severity::Warning);
        }
    }
}

/// An analysis holds a warning exactly when its first finding is one.
pub proof fn warnings_come_first(rules: Seq<RuleView>, source: Seq<char>)
    requires
        text::lines_of(source).len() <= usize::MAX,
    ensures
        any_warning(analysis(rules, source)) <==> analysis(rules, source).len() > 0 && analysis(
            rules,
            source,
        )[0].severity == Severity::Warning,
{
    let all = analysis(rules, source);
    findings_are_ordered(rules, source);
    if any_warning(all) {
        let i = choose|i: int|
            0 <= i < all.len() && (#[trigger] all[i]).severity == Severity::Warning;
        if i > 0 {
            assert(rank_of(all[0].severity) >= rank_of(all[i].severity));
        }
    }
}

/// A line is tinted exactly when something was found on it, and as a warning
/// exactly when a warning was.
pub proof fn worst_severity_wins(findings: Seq<FindingView>, line: usize)
    ensures
        worst_by_line(findings).dom().contains(line) <==> exists|i: int|
            0 <= i < findings.len() && (#[trigger] findings[i]).line == line,
        worst_by_line(findings).dom().contains(line) ==> (worst_by_line(findings)[line]
            == Severity::Warning <==> exists|i: int|
            0 <= i < findings.len() && (#[trigger] findings[i]).line == line && findings[i].severity
                == Severity::Warning),
    decreases findings.len(),
{
    if findings.len() > 0 {
        let front = findings.drop_last();
        worst_severity_wins(front, line);
        assert(findings[findings.len() - 1] == findings.last());
        assert(forall|i: int| 0 <= i < front.len() ==> #[trigger] front[i] == findings[i]);
        if exists|i: int| 0 <= i < front.len() && (#[trigger] front[i]).line == line {
            let i = choose|i: int| 0 <= i < front.len() && (#[trigger] front[i]).line == line;
            assert(findings[i].line == line);
        }
        if exists|i: int|
            0 <= i < front.len() && (#[trigger] front[i]).line == line && front[i].severity
                == Severity::Warning {
            let i = choose|i: int|
                0 <= i < front.len() && (#[trigger] front[i]).line == line && front[i].severity
                    == Severity::Warning;
            assert(findings[i].line == line);
        }
        if exists|i: int| 0 <= i < findings.len() && (#[trigger] findings[i]).line == line {
            let i = choose|i: int| 0 <= i < findings.len() && (#[trigger] findings[i]).line == line;
            assert(i < front.len() ==> front[i].line == line);
        }
        if exists|i: int|
            0 <= i < findings.len() && (#[trigger] findings[i]).line == line && findings[i].severity
                == Severity::Warning {
            let i = choose|i: int|
                0 <= i < findings.len() && (#[trigger] findings[i]).line == line
                    && findings[i].severity == Severity::Warning;
            assert(i < front.len() ==> front[i].line == line && front[i].severity
                == Severity::Warning);
        }
    }
}

/// A finding names a line of the script, counted from one, and shows at most
/// 160 characters of it.
pub proof fn findings_point_into_the_script(rules: Seq<RuleView>, source: Seq<char>, i: int)
    requires
        text::lines_of(source).len() <= usize::MAX,
        0 <= i < analysis(rules, source).len(),
    ensures
        1 <= analysis(rules, source)[i].line <= text::lines_of(source).len(),
        analysis(rules, source)[i].snippet.len() <= 160,
{
    let lines = text::lines_of(source);
    let f = analysis(rules, source)[i];
    findings_are_complete(rules, source);
    assert(analysis(rules, source).contains(f));
    let (n, k) = choose|n: int, k: int|
        0 <= n < lines.len() && 0 <= k < rules.len() && shows(#[trigger] rules[k], #[trigger] lines[n])
            && f == finding_of(rules[k], lines[n], n + 1);
    assert(f.line == n + 1);
}

proof fn lemma_table_has_risk_rules()
    ensures
        are_risk_rules(rule_table()),
{
}

proof fn lemma_matched_agree(
    rules: Seq<RuleView>,
    matched: Seq<bool>,
    a: Seq<char>,
    b: Seq<char>,
    number: int,
)
    ensures
        all_agree(
            matched_findings(rules, matched, a, number),
            matched_findings(rules, matched, b, number),
        ),
    decreases rules.len(),
{
    if rules.len() > 0 {
        let front = rules.drop_last();
        lemma_matched_agree(front, matched, a, b, number);
        let x = matched_findings(front, matched, a, number);
        let y = matched_findings(front, matched, b, number);
        if matched[rules.len() - 1] {
            let p = finding_of(rules.last(), a, number);
            let q = finding_of(rules.last(), b, number);
            assert forall|i: int| 0 <= i < x.push(p).len() implies agrees(
                #[trigger] x.push(p)[i],
                #[trigger] y.push(q)[i],
            ) by {
                if i < x.len() {
                    assert(agrees(x[i], y[i]));
                }
            }
        }
    }
}

proof fn lemma_joined_agree(
    a: Seq<FindingView>,
    b: Seq<FindingView>,
    c: Seq<FindingView>,
    d: Seq<FindingView>,
)
    requires
        all_agree(a, b),
        all_agree(c, d),
    ensures
        all_agree(a + c, b + d),
{
    assert forall|i: int| 0 <= i < (a + c).len() implies agrees(
        #[trigger] (a + c)[i],
        #[trigger] (b + d)[i],
    ) by {
        if i < a.len() {
            assert(agrees(a[i], b[i]));
        } else {
            assert(agrees(c[i - a.len()], d[i - a.len()]));
        }
    }
}

proof fn lemma_severities_agree(a: Seq<FindingView>, b: Seq<FindingView>, s: Severity)
    requires
        all_agree(a, b),
    ensures
        all_agree(of_severity(a, s), of_severity(b, s)),
    decreases a.len(),
{
    if a.len() > 0 {
        let p = a.drop_last();
        let q = b.drop_last();
        assert forall|i: int| 0 <= i < p.len() implies agrees(#[trigger] p[i], #[trigger] q[i]) by {
            assert(agrees(a[i], b[i]));
        }
        lemma_severities_agree(p, q, s);
        assert(agrees(a[a.len() - 1], b[b.len() - 1]));
        let x = of_severity(p, s);
        let y = of_severity(q, s);
        if a.last().severity == s {
            assert forall|i: int| 0 <= i < x.push(a.last()).len() implies agrees(
                #[trigger] x.push(a.last())[i],
                #[trigger] y.push(b.last())[i],
            ) by {
                if i < x.len() {
                    assert(agrees(x[i], y[i]));
                }
            }
        }
    }
}

proof fn lemma_scans_agree(rules: Seq<RuleView>, lines: Seq<Seq<char>>, n: int)
    requires
        0 <= n <= lines.len(),
        forall|k: int|
            0 <= k < lines.len() ==> text::is_blank(#[trigger] lines[k]) || ignores_case(
                rules,
                lines[k],
            ),
    ensures
        all_agree(
            findings_before(rules, lines, n),
            findings_before(rules, text::all_uppered(lines), n),
        ),
    decreases n,
{
    if n > 0 {
        let upper = text::all_uppered(lines);
        let line = lines[n - 1];
        lemma_scans_agree(rules, lines, n - 1);
        text::trimming_in_capitals(line);
        assert(upper[n - 1] == text::ascii_uppered(line));
        if !text::is_blank(line) {
            assert(ignores_case(rules, line));
            lemma_matched_agree(rules, matches_on(rules, line), line, upper[n - 1], n);
            lemma_joined_agree(
                findings_before(rules, lines, n - 1),
                findings_before(rules, upper, n - 1),
                line_findings(rules, line, n),
                line_findings(rules, upper[n - 1], n),
            );
        }
    }
}

/// Where the rules ignore the case of letters, so does the analysis: a script in
/// ASCII capitals has the same findings on the same lines, in the same order,
/// and only the texts that they show differ.
pub proof fn letter_case_does_not_count(rules: Seq<RuleView>, source: Seq<char>)
    requires
        forall|k: int|
            0 <= k < text::lines_of(source).len() ==> text::is_blank(
                #[trigger] text::lines_of(source)[k],
            ) || ignores_case(rules, text::lines_of(source)[k]),
    ensures
        all_agree(analysis(rules, source), analysis(rules, text::ascii_uppered(source))),
{
    let lines = text::lines_of(source);
    let upper = text::all_uppered(lines);
    let n = lines.len() as int;
    text::lines_in_capitals(source);
    lemma_scans_agree(rules, lines, n);
    let a = findings_before(rules, lines, n);
    let b = findings_before(rules, upper, n);
    lemma_severities_agree(a, b, Severity::Warning);
    lemma_severities_agree(a, b, Severity::Caution);
    lemma_joined_agree(
        of_severity(a, Severity::Warning),
        of_severity(b, Severity::Warning),
        of_severity(a, Severity::Caution),
        of_severity(b, Severity::Caution),
    );
}

/// The findings on one line, in their order.
pub open spec fn on_line(findings: Seq<FindingView>, n: int) -> Seq<FindingView>
    decreases findings.len(),
{
    if findings.len() == 0 {
        Seq::empty()
    } else {
        let before = on_line(findings.drop_last(), n);
        if findings.last().line == n {
            before.push(findings.last())
        } else {
            before
        }
    }
}

/// The findings, as they would be on line `n`.
pub open spec fn moved_to(findings: Seq<FindingView>, n: int) -> Seq<FindingView> {
    findings.map_values(|f: FindingView| FindingView { line: n as usize, ..f })
}

proof fn lemma_on_line_joined(a: Seq<FindingView>, b: Seq<FindingView>, n: int)
    ensures
        on_line(a + b, n) == on_line(a, n) + on_line(b, n),
    decreases b.len(),
{
    if b.len() > 0 {
        lemma_on_line_joined(a, b.drop_last(), n);
        assert((a + b).drop_last() =~= a + b.drop_last());
        assert((a + b).last() == b.last());
        assert(on_line(a + b, n) =~= on_line(a, n) + on_line(b, n));
    } else {
        assert(a + b =~= a);
        assert(on_line(a + b, n) =~= on_line(a, n) + on_line(b, n));
    }
}

proof fn lemma_severity_on_line(findings: Seq<FindingView>, s: Severity, n: int)
    ensures
        on_line(of_severity(findings, s), n) == of_severity(on_line(findings, n), s),
    decreases findings.len(),
{
    if findings.len() > 0 {
        let front = findings.drop_last();
        let f = findings.last();
        lemma_severity_on_line(front, s, n);
        let a = of_severity(front, s);
        let b = on_line(front, n);
        assert(a.push(f).drop_last() =~= a);
        assert(b.push(f).drop_last() =~= b);
    }
}

proof fn lemma_severity_moved(findings: Seq<FindingView>, s: Severity, n: int)
    ensures
        of_severity(moved_to(findings, n), s) == moved_to(of_severity(findings, s), n),
    decreases findings.len(),
{
    let moved = moved_to(findings, n);
    if findings.len() > 0 {
        let front = findings.drop_last();
        lemma_severity_moved(front, s, n);
        assert(moved.drop_last() =~= moved_to(front, n));
        assert(of_severity(moved, s) =~= moved_to(of_severity(findings, s), n));
    } else {
        assert(of_severity(moved, s) =~= moved_to(of_severity(findings, s), n));
    }
}

proof fn lemma_line_findings_moved(
    rules: Seq<RuleView>,
    matched: Seq<bool>,
    line: Seq<char>,
    number: int,
    n: int,
)
    requires
        0 <= number <= usize::MAX,
    ensures
        matched_findings(rules, matched, line, n) == moved_to(
            matched_findings(rules, matched, line, number),
            n,
        ),
        on_line(matched_findings(rules, matched, line, number), n) == (if n == number {
            matched_findings(rules, matched, line, number)
        } else {
            Seq::empty()
        }),
    decreases rules.len(),
{
    let here = matched_findings(rules, matched, line, number);
    if rules.len() > 0 {
        let front = rules.drop_last();
        lemma_line_findings_moved(front, matched, line, number, n);
        let before = matched_findings(front, matched, line, number);
        let f = finding_of(rules.last(), line, number);
        assert(before.push(f).drop_last() =~= before);
    }
    assert(matched_findings(rules, matched, line, n) =~= moved_to(here, n));
}

proof fn lemma_scan_on_line(rules: Seq<RuleView>, lines: Seq<Seq<char>>, m: int, n: int)
    requires
        0 <= m <= lines.len() <= usize::MAX,
        1 <= n <= lines.len(),
    ensures
        on_line(findings_before(rules, lines, m), n) == (if n <= m && !text::is_blank(
            lines[n - 1],
        ) {
            line_findings(rules, lines[n - 1], n)
        } else {
            Seq::empty()
        }),
    decreases m,
{
    if m > 0 {
        lemma_scan_on_line(rules, lines, m - 1, n);
        let line = lines[m - 1];
        if !text::is_blank(line) {
            let before = findings_before(rules, lines, m - 1);
            let here = line_findings(rules, line, m);
            lemma_on_line_joined(before, here, n);
            lemma_line_findings_moved(rules, matches_on(rules, line), line, m, n);
            assert(on_line(before, n) + Seq::<FindingView>::empty() =~= on_line(before, n));
            assert(Seq::<FindingView>::empty() + here =~= here);
        }
    }
}

/// The findings on a line are those of the line alone: what else stands in the
/// script neither adds nor takes away any, nor changes their order.
pub proof fn lines_are_judged_alone(rules: Seq<RuleView>, source: Seq<char>, n: int)
    requires
        text::lines_of(source).len() <= usize::MAX,
        1 <= n <= text::lines_of(source).len(),
    ensures
        on_line(analysis(rules, source), n) == moved_to(
            analysis(rules, text::lines_of(source)[n - 1]),
            n,
        ),
{
    let lines = text::lines_of(source);
    let m = lines.len() as int;
    let found = findings_before(rules, lines, m);
    let line = lines[n - 1];
    let warnings = of_severity(found, Severity::Warning);
    let cautions = of_severity(found, Severity::Caution);
    lemma_on_line_joined(warnings, cautions, n);
    lemma_severity_on_line(found, Severity::Warning, n);
    lemma_severity_on_line(found, Severity::Caution, n);
    lemma_scan_on_line(rules, lines, m, n);

    text::a_line_is_one_line(source, n - 1);
    let alone = text::lines_of(line);
    let k = alone.len() as int;
    let a = findings_before(rules, alone, k);
    if line.len() > 0 {
        reveal_with_fuel(findings_before, 2);
        lemma_line_findings_moved(rules, matches_on(rules, line), line, 1, n);
        assert(Seq::<FindingView>::empty() + line_findings(rules, line, 1) =~= line_findings(
            rules,
            line,
            1,
        ));
    }
    assert(on_line(found, n) =~= moved_to(a, n));
    lemma_severity_moved(a, Severity::Warning, n);
    lemma_severity_moved(a, Severity::Caution, n);
    assert(moved_to(of_severity(a, Severity::Warning), n) + moved_to(
        of_severity(a, Severity::Caution),
        n,
    ) =~= moved_to(most_severe_first(a), n));
}

// ---------------------------------------------------------------------------
// What an analysis promises
// ---------------------------------------------------------------------------

/// The capabilities that are pointed out, each with its severity and the pattern that
/// shows it, in the order in which they are looked for.
pub proof fn risks_are_listed()
    ensures
        rule_table().len() == 33,
        rule_table()[0] == (RuleView {
            severity: Severity::Warning,
            category: "Download & execute"@,
            title: "Downloads code straight into memory"@,
            pattern: r"(?i)downloadstring|downloaddata"@,
        }),
        rule_table()[1] == (RuleView {
            severity: Severity::Caution,
            category: "Network"@,
            title: "Downloads a file from the internet"@,
            pattern: r"(?i)downloadfile|start-bitstransfer"@,
        }),
        rule_table()[2] == (RuleView {
            severity: Severity::Caution,
            category: "Network"@,
            title: "Makes an HTTP request"@,
            pattern: r"(?i)\b(invoke-webrequest|iwr|invoke-restmethod|irm|wget|curl)\b"@,
        }),
        rule_table()[3] == (RuleView {
            severity: Severity::Caution,
            category: "Network"@,
            title: "Uses the .NET WebClient"@,
            pattern: r"(?i)net\.webclient"@,
        }),
        rule_table()[4] == (RuleView {
            severity: Severity::Warning,
            category: "LOLBin"@,
            title: "certutil used to download/decode"@,
            pattern: r"(?i)certutil(\.exe)?.*(-urlcache|-decode|-f\s+http)"@,
        }),
        rule_table()[5] == (RuleView {
            severity: Severity::Warning,
            category: "LOLBin"@,
            title: "bitsadmin file transfer"@,
            pattern: r"(?i)bitsadmin(\.exe)?.*/transfer"@,
        }),
        rule_table()[6] == (RuleView {
            severity: Severity::Warning,
            category: "Code execution"@,
            title: "Executes a string as code (Invoke-Expression)"@,
            pattern: r"(?i)\b(invoke-expression|iex)\b"@,
        }),
        rule_table()[7] == (RuleView {
            severity: Severity::Warning,
            category: "Obfuscation"@,
            title: "Runs a Base64-encoded command (-EncodedCommand)"@,
            pattern: r"(?i)(-encodedcommand|-enc)\b"@,
        }),
        rule_table()[8] == (RuleView {
            severity: Severity::Caution,
            category: "Obfuscation"@,
            title: "Decodes Base64 data"@,
            pattern: r"(?i)frombase64string"@,
        }),
        rule_table()[9] == (RuleView {
            severity: Severity::Warning,
            category: "Defense evasion"@,
            title: "Contains an AMSI-bypass marker"@,
            pattern: r"(?i)amsiutils|amsiinitfailed|amsicontext"@,
        }),
        rule_table()[10] == (RuleView {
            severity: Severity::Caution,
            category: "Reflection"@,
            title: "Loads a .NET assembly reflectively"@,
            pattern: r"(?i)reflection\.assembly"@,
        }),
        rule_table()[11] == (RuleView {
            severity: Severity::Warning,
            category: "Keylogger"@,
            title: "Keyboard hook / keystroke capture API"@,
            pattern: r"(?i)setwindowshookex|wh_keyboard_ll|getasynckeystate|getkeyboardstate|registerrawinputdevices"@,
        }),
        rule_table()[12] == (RuleView {
            severity: Severity::Caution,
            category: "Native code"@,
            title: "Compiles or loads inline native code (Add-Type)"@,
            pattern: r"(?i)add-type"@,
        }),
        rule_table()[13] == (RuleView {
            severity: Severity::Caution,
            category: "Native code"@,
            title: "Imports a native Win32 API (P/Invoke)"@,
            pattern: r"(?i)dllimport|\buser32\.dll|\bkernel32\.dll"@,
        }),
        rule_table()[14] == (RuleView {
            severity: Severity::Caution,
            category: "Window"@,
            title: "Reads the foreground/active window"@,
            pattern: r"(?i)getforegroundwindow|getwindowtext"@,
        }),
        rule_table()[15] == (RuleView {
            severity: Severity::Warning,
            category: "Persistence"@,
            title: "Registry Run-key autostart"@,
            pattern: r"(?i)currentversion\\run"@,
        }),
        rule_table()[16] == (RuleView {
            severity: Severity::Caution,
            category: "Registry"@,
            title: "Modifies the registry"@,
            pattern: r"(?i)\breg(\.exe)?\s+add|new-itemproperty|set-itemproperty"@,
        }),
        rule_table()[17] == (RuleView {
            severity: Severity::Warning,
            category: "Persistence"@,
            title: "Creates a scheduled task"@,
            pattern: r"(?i)schtasks(\.exe)?\s+/create|register-scheduledtask"@,
        }),
        rule_table()[18] == (RuleView {
            severity: Severity::Warning,
            category: "Persistence"@,
            title: "Writes to the Startup folder"@,
            pattern: r"(?i)\\start menu\\programs\\startup"@,
        }),
        rule_table()[19] == (RuleView {
            severity: Severity::Warning,
            category: "Ransomware"@,
            title: "Deletes volume shadow copies"@,
            pattern: r"(?i)vssadmin(\.exe)?\s+delete\s+shadows"@,
        }),
        rule_table()[20] == (RuleView {
            severity: Severity::Warning,
            category: "Anti-forensics"@,
            title: "Wipes free disk space (cipher /w)"@,
            pattern: r"(?i)cipher(\.exe)?\s+/w"@,
        }),
        rule_table()[21] == (RuleView {
            severity: Severity::Warning,
            category: "Destructive"@,
            title: "Formats a drive"@,
            pattern: r"(?i)\bformat\s+[a-z]:"@,
        }),
        rule_table()[22] == (RuleView {
            severity: Severity::Caution,
            category: "Destructive"@,
            title: "Recursive force delete"@,
            pattern: r"(?i)remove-item\b.*-recurse.*-force|\brd\s+/s\s+/q|\bdel\s+/[a-z]"@,
        }),
        rule_table()[23] == (RuleView {
            severity: Severity::Caution,
            category: "Boot"@,
            title: "Edits boot configuration (bcdedit)"@,
            pattern: r"(?i)\bbcdedit\b"@,
        }),
        rule_table()[24] == (RuleView {
            severity: Severity::Caution,
            category: "Stealth"@,
            title: "Runs with a hidden window"@,
            pattern: r"(?i)-windowstyle\s+hidden|\s-w\s+hidden\b"@,
        }),
        rule_table()[25] == (RuleView {
            severity: Severity::Caution,
            category: "LOLBin"@,
            title: "Indirect execution (rundll32/mshta/regsvr32/wscript/cscript)"@,
            pattern: r"(?i)\b(rundll32|mshta|regsvr32|wscript|cscript)\b"@,
        }),
        rule_table()[26] == (RuleView {
            severity: Severity::Caution,
            category: "Stealth"@,
            title: "Hides files (attrib +h)"@,
            pattern: r"(?i)attrib\s+.*\+h"@,
        }),
        rule_table()[27] == (RuleView {
            severity: Severity::Warning,
            category: "Credential theft"@,
            title: "Credential-dumping tooling or keywords"@,
            pattern: r"(?i)\bmimikatz\b|sekurlsa|\blsass\b"@,
        }),
        rule_table()[28] == (RuleView {
            severity: Severity::Caution,
            category: "Credentials"@,
            title: "Handles credentials in plaintext"@,
            pattern: r"(?i)convertto-securestring.*-asplaintext|get-credential"@,
        }),
        rule_table()[29] == (RuleView {
            severity: Severity::Caution,
            category: "Clipboard"@,
            title: "Reads the clipboard"@,
            pattern: r"(?i)get-clipboard"@,
        }),
        rule_table()[30] == (RuleView {
            severity: Severity::Caution,
            category: "Elevation"@,
            title: "Requests administrator elevation"@,
            pattern: r"(?i)#requires\s+-runasadministrator|-verb\s+runas"@,
        }),
        rule_table()[31] == (RuleView {
            severity: Severity::Caution,
            category: "Policy"@,
            title: "Weakens the PowerShell execution policy"@,
            pattern: r"(?i)set-executionpolicy\s+(bypass|unrestricted)"@,
        }),
        rule_table()[32] == (RuleView {
            severity: Severity::Warning,
            category: "Defense evasion"@,
            title: "Disables Defender or the firewall"@,
            pattern: r"(?i)disablerealtimemonitoring|-exclusionpath|netsh\s+(advfirewall|firewall)|set-mppreference"@,
        }),
{
}

/// The findings of a script are what its rules show on its lines: wherever a rule's
/// pattern matches a line that holds more than white space there is a finding, with
/// the rule's severity, category and title, the number of the line counted from one,
/// and the first 160 characters of the line without the white space around it. There
/// are no others.
pub proof fn findings_show_rules_on_lines(rules: Seq<RuleView>, source: Seq<char>)
    requires
        text::lines_of(source).len() <= usize::MAX,
    ensures
        forall|n: int, k: int|
            0 <= n < text::lines_of(source).len() && 0 <= k < rules.len() && (exists|c: int|
                0 <= c < text::lines_of(source)[n].len() && !text::is_space(
                    #[trigger] text::lines_of(source)[n][c],
                )) && pattern::rx_is_match(
                (#[trigger] rules[k]).pattern,
                #[trigger] text::lines_of(source)[n],
            ) ==> analysis(rules, source).contains(
                finding_at(rules[k], text::lines_of(source)[n], n),
            ),
        forall|f: FindingView| #[trigger]
            analysis(rules, source).contains(f) ==> exists|n: int, k: int|
                0 <= n < text::lines_of(source).len() && 0 <= k < rules.len() && (exists|c: int|
                    0 <= c < text::lines_of(source)[n].len() && !text::is_space(
                        #[trigger] text::lines_of(source)[n][c],
                    )) && pattern::rx_is_match(
                    (#[trigger] rules[k]).pattern,
                    #[trigger] text::lines_of(source)[n],
                ) && f == finding_at(rules[k], text::lines_of(source)[n], n),
{
    let lines = text::lines_of(source);
    let all = analysis(rules, source);
    findings_are_complete(rules, source);
    assert forall|n: int, k: int|
        0 <= n < lines.len() && 0 <= k < rules.len() && (exists|c: int|
            0 <= c < lines[n].len() && !text::is_space(#[trigger] lines[n][c]))
            && pattern::rx_is_match(
            (#[trigger] rules[k]).pattern,
            #[trigger] lines[n],
        ) implies all.contains(finding_at(rules[k], lines[n], n)) by {
        text::blank_means_white_space(lines[n]);
        let f = finding_at(rules[k], lines[n], n);
        assert(f == finding_of(rules[k], lines[n], n + 1));
        assert(shows(rules[k], lines[n]));
        assert(is_found(rules, lines, f));
    }
    assert forall|f: FindingView| #[trigger] all.contains(f) implies exists|n: int, k: int|
        0 <= n < lines.len() && 0 <= k < rules.len() && (exists|c: int|
            0 <= c < lines[n].len() && !text::is_space(#[trigger] lines[n][c]))
            && pattern::rx_is_match((#[trigger] rules[k]).pattern, #[trigger] lines[n]) && f
            == finding_at(rules[k], lines[n], n) by {
        assert(is_found(rules, lines, f));
        let (n, k) = choose|n: int, k: int|
            0 <= n < lines.len() && 0 <= k < rules.len() && shows(
                #[trigger] rules[k],
                #[trigger] lines[n],
            ) && f == finding_of(rules[k], lines[n], n + 1);
        text::blank_means_white_space(lines[n]);
        assert(pattern::rx_is_match(rules[k].pattern, lines[n]));
        assert(f == finding_at(rules[k], lines[n], n));
    }
}

/// What a rule says of the line at index `n`.
pub open spec fn finding_at(rule: RuleView, line: Seq<char>, n: int) -> FindingView {
    let t = text::trimmed(line);
    FindingView {
        severity: rule.severity,
        category: rule.category,
        title: rule.title,
        line: (n + 1) as usize,
        snippet: if t.len() <= 160 {
            t
        } else {
            t.subrange(0, 160)
        },
    }
}

/// A finding has the severity, the category and the title of its rule, the number of
/// its line counted from one, and of the trimmed line as much as fits in 160
/// characters.
pub proof fn findings_say_where_and_what(rule: RuleView, line: Seq<char>, n: int)
    requires
        0 <= n < usize::MAX,
    ensures
        finding_at(rule, line, n).severity == rule.severity,
        finding_at(rule, line, n).category == rule.category,
        finding_at(rule, line, n).title == rule.title,
        finding_at(rule, line, n).line == n + 1,
        finding_at(rule, line, n).snippet.len() == (if text::trimmed(line).len() <= 160 {
            text::trimmed(line).len()
        } else {
            160
        }),
        text::stands_at(text::trimmed(line), 0, finding_at(rule, line, n).snippet),
{
    let f = finding_at(rule, line, n);
    assert(text::trimmed(line).subrange(0, f.snippet.len() as int) =~= f.snippet);
}

proof fn lemma_matched_prefix(
    rules: Seq<RuleView>,
    a: Seq<bool>,
    b: Seq<bool>,
    line: Seq<char>,
    number: int,
)
    requires
        forall|k: int| 0 <= k < rules.len() ==> a[k] == b[k],
    ensures
        matched_findings(rules, a, line, number) == matched_findings(rules, b, line, number),
    decreases rules.len(),
{
    if rules.len() > 0 {
        lemma_matched_prefix(rules.drop_last(), a, b, line, number);
    }
}

/// The findings on a line come in the order of the rules, and those of a script line
/// by line, before they are ranked; the ranking keeps the order within a severity and
/// puts the warnings before the cautions.
pub proof fn findings_keep_their_order(
    rules: Seq<RuleView>,
    rule: RuleView,
    line: Seq<char>,
    number: int,
    findings: Seq<FindingView>,
    f: FindingView,
)
    requires
        0 < number <= usize::MAX,
    ensures
        pattern::rx_is_match(rule.pattern, line) ==> line_findings(rules.push(rule), line, number)
            == line_findings(rules, line, number).push(finding_at(rule, line, number - 1)),
        !pattern::rx_is_match(rule.pattern, line) ==> line_findings(rules.push(rule), line, number)
            == line_findings(rules, line, number),
        f.severity == Severity::Caution ==> most_severe_first(findings.push(f))
            == most_severe_first(findings).push(f),
        f.severity == Severity::Warning ==> most_severe_first(findings.push(f))
            == most_severe_first(findings).insert(
            of_severity(findings, Severity::Warning).len() as int,
            f,
        ),
{
    let all = rules.push(rule);
    assert(all.drop_last() =~= rules);
    assert(all.last() == rule);
    lemma_matched_prefix(rules, matches_on(all, line), matches_on(rules, line), line, number);
    assert(matches_on(all, line)[all.len() - 1] == pattern::rx_is_match(rule.pattern, line));
    assert(finding_of(rule, line, number) == finding_at(rule, line, number - 1));
    assert(findings.push(f).drop_last() =~= findings);
    let w = of_severity(findings, Severity::Warning);
    let c = of_severity(findings, Severity::Caution);
    assert((w + c).push(f) =~= w + c.push(f));
    assert((w + c).insert(w.len() as int, f) =~= w.push(f) + c);
}

/// The lines of a script are looked through one after the other; one that is all
/// white space is passed over.
pub proof fn lines_are_looked_through_in_order(
    rules: Seq<RuleView>,
    source: Seq<char>,
    n: int,
)
    requires
        0 <= n < text::lines_of(source).len(),
    ensures
        ({
            let lines = text::lines_of(source);
            &&& analysis(rules, source) == most_severe_first(
                findings_before(rules, lines, lines.len() as int),
            )
            &&& findings_before(rules, lines, 0).len() == 0
            &&& (exists|c: int| 0 <= c < lines[n].len() && !text::is_space(#[trigger] lines[n][c]))
                ==> findings_before(rules, lines, n + 1) == findings_before(rules, lines, n)
                + line_findings(rules, lines[n], n + 1)
            &&& (forall|c: int| 0 <= c < lines[n].len() ==> text::is_space(#[trigger] lines[n][c]))
                ==> findings_before(rules, lines, n + 1) == findings_before(rules, lines, n)
        }),
{
    text::blank_means_white_space(text::lines_of(source)[n]);
}

/// Each finding is counted under its own severity.
pub proof fn findings_are_counted(findings: Seq<FindingView>, f: FindingView, s: Severity)
    ensures
        count_of(Seq::empty(), s) == 0,
        count_of(findings.push(f), s) == count_of(findings, s) + (if f.severity == s {
            1int
        } else {
            0
        }),
{
    assert(findings.push(f).drop_last() =~= findings);
}

/// The heading of a finding names its severity, its category, its line and its title.
pub proof fn headings_name_the_finding(f: FindingView)
    ensures
        f.severity == Severity::Warning ==> title_line(f) == "[WARNING] "@ + f.category
            + " · line "@ + text::decimal(f.line as nat) + " · "@ + f.title,
        f.severity == Severity::Caution ==> title_line(f) == "[CAUTION] "@ + f.category
            + " · line "@ + text::decimal(f.line as nat) + " · "@ + f.title,
{
    reveal_strlit("[");
    reveal_strlit("] ");
    reveal_strlit("WARNING");
    reveal_strlit("CAUTION");
    reveal_strlit("[WARNING] ");
    reveal_strlit("[CAUTION] ");
    assert("["@ + "WARNING"@ + "] "@ =~= "[WARNING] "@);
    assert("["@ + "CAUTION"@ + "] "@ =~= "[CAUTION] "@);
}

/// What is said of a finding is said of its fields, and of a list of findings of each of
/// them, in their order.
pub proof fn findings_are_their_fields(f: Finding, v: Seq<Finding>, i: int)
    ensures
        f@.severity == f.severity,
        f@.category == f.category@,
        f@.title == f.title@,
        f@.line == f.line,
        f@.snippet == f.snippet@,
        findings_view(v).len() == v.len(),
        0 <= i < v.len() ==> findings_view(v)[i] == v[i]@,
{
}

/// What is said of a rule is said of its fields, and of a list of rules of each of them,
/// in their order.
pub proof fn rules_are_their_fields(r: Rule, v: Seq<Rule>, i: int)
    ensures
        r@.severity == r.severity,
        r@.category == r.category@,
        r@.title == r.title@,
        r@.pattern == r.pattern@,
        rules_view(v).len() == v.len(),
        0 <= i < v.len() ==> rules_view(v)[i] == v[i]@,
{
}

} // verus!
