//! The regular expressions that describe scripts, as text.

use vstd::prelude::*;

verus! {

// --- The `param()` block of a PowerShell script ------------------------------

/// A block comment.
pub const BLOCK_COMMENT: &'static str = r"(?s)<#.*?#>";

/// The word `param` and the parenthesis that opens its block.
pub const PARAM_OPEN: &'static str = r"(?i)\bparam\b\s*\(";

/// An attribute in brackets; the group is what the brackets hold.
pub const ATTRIBUTE: &'static str = r"\[([^\]]*)\]";

/// A variable; the group is its name.
pub const VARIABLE: &'static str = r"\$(\w+)";

/// A variable with a default; the group is the default.
pub const DEFAULT_VALUE: &'static str = r"(?s)\$\w+\s*=\s*(.+)";

/// A quoted string; the group is what the quotes hold.
pub const QUOTED: &'static str = r#"["']([^"']*)["']"#;

// --- Batch files -------------------------------------------------------------

/// A positional argument of a batch file; the group is its number.
pub const BATCH_ARGUMENT: &'static str = r"%(?:~[a-zA-Z]*)?([1-9])";

// --- Tokens that a control can be bound to -----------------------------------

/// A positional argument in a batch line; the group is its number.
pub const TOKEN_ARGUMENT: &'static str = r"%~?[a-zA-Z]*([1-9])";

/// A variable read in a batch line; the group is its name.
pub const TOKEN_BATCH_VARIABLE: &'static str = r"%([A-Za-z_]\w*)%";

/// A variable set in a batch line; the group is its name.
pub const TOKEN_BATCH_SET: &'static str = r#"(?i)\bset\s+(?:/p\s+)?"?([A-Za-z_]\w*)\s*="#;

/// An environment variable in a PowerShell line; the group is its name.
pub const TOKEN_ENVIRONMENT: &'static str = r"(?i)\$env:([A-Za-z_]\w*)";

/// A variable in a PowerShell line; the group is its name.
pub const TOKEN_VARIABLE: &'static str = r"\$([A-Za-z_]\w*)";

// --- The progress protocol ---------------------------------------------------

/// A progress report; the group is the percentage.
pub const PROGRESS: &'static str = r"(?i)@progress\s+(\d+(?:\.\d+)?)";

/// A status report; the group is the status.
pub const STATUS: &'static str = r"(?i)@status\s+([^\r\n]*)";

// --- Risky capabilities ------------------------------------------------------

pub const RISK_DOWNLOAD_CODE: &'static str = r"(?i)downloadstring|downloaddata";

pub const RISK_DOWNLOAD_FILE: &'static str = r"(?i)downloadfile|start-bitstransfer";

pub const RISK_HTTP_REQUEST: &'static str =
    r"(?i)\b(invoke-webrequest|iwr|invoke-restmethod|irm|wget|curl)\b";

pub const RISK_WEB_CLIENT: &'static str = r"(?i)net\.webclient";

pub const RISK_CERTUTIL: &'static str = r"(?i)certutil(\.exe)?.*(-urlcache|-decode|-f\s+http)";

pub const RISK_BITSADMIN: &'static str = r"(?i)bitsadmin(\.exe)?.*/transfer";

pub const RISK_INVOKE_EXPRESSION: &'static str = r"(?i)\b(invoke-expression|iex)\b";

pub const RISK_ENCODED_COMMAND: &'static str = r"(?i)(-encodedcommand|-enc)\b";

pub const RISK_BASE64: &'static str = r"(?i)frombase64string";

pub const RISK_AMSI: &'static str = r"(?i)amsiutils|amsiinitfailed|amsicontext";

pub const RISK_REFLECTION: &'static str = r"(?i)reflection\.assembly";

pub const RISK_KEYBOARD: &'static str =
    r"(?i)setwindowshookex|wh_keyboard_ll|getasynckeystate|getkeyboardstate|registerrawinputdevices";

pub const RISK_ADD_TYPE: &'static str = r"(?i)add-type";

pub const RISK_DLL_IMPORT: &'static str = r"(?i)dllimport|\buser32\.dll|\bkernel32\.dll";

pub const RISK_FOREGROUND: &'static str = r"(?i)getforegroundwindow|getwindowtext";

pub const RISK_RUN_KEY: &'static str = r"(?i)currentversion\\run";

pub const RISK_REGISTRY: &'static str = r"(?i)\breg(\.exe)?\s+add|new-itemproperty|set-itemproperty";

pub const RISK_SCHEDULED_TASK: &'static str =
    r"(?i)schtasks(\.exe)?\s+/create|register-scheduledtask";

pub const RISK_STARTUP_FOLDER: &'static str = r"(?i)\\start menu\\programs\\startup";

pub const RISK_SHADOW_COPIES: &'static str = r"(?i)vssadmin(\.exe)?\s+delete\s+shadows";

pub const RISK_CIPHER_WIPE: &'static str = r"(?i)cipher(\.exe)?\s+/w";

pub const RISK_FORMAT: &'static str = r"(?i)\bformat\s+[a-z]:";

pub const RISK_FORCE_DELETE: &'static str =
    r"(?i)remove-item\b.*-recurse.*-force|\brd\s+/s\s+/q|\bdel\s+/[a-z]";

pub const RISK_BOOT: &'static str = r"(?i)\bbcdedit\b";

pub const RISK_HIDDEN_WINDOW: &'static str = r"(?i)-windowstyle\s+hidden|\s-w\s+hidden\b";

pub const RISK_INDIRECT_EXECUTION: &'static str =
    r"(?i)\b(rundll32|mshta|regsvr32|wscript|cscript)\b";

pub const RISK_HIDDEN_FILES: &'static str = r"(?i)attrib\s+.*\+h";

pub const RISK_CREDENTIAL_DUMP: &'static str = r"(?i)\bmimikatz\b|sekurlsa|\blsass\b";

pub const RISK_PLAINTEXT_CREDENTIALS: &'static str =
    r"(?i)convertto-securestring.*-asplaintext|get-credential";

pub const RISK_CLIPBOARD: &'static str = r"(?i)get-clipboard";

pub const RISK_ELEVATION: &'static str = r"(?i)#requires\s+-runasadministrator|-verb\s+runas";

pub const RISK_EXECUTION_POLICY: &'static str = r"(?i)set-executionpolicy\s+(bypass|unrestricted)";

pub const RISK_DEFENDER: &'static str =
    r"(?i)disablerealtimemonitoring|-exclusionpath|netsh\s+(advfirewall|firewall)|set-mppreference";

/// The patterns that read parameters.
pub open spec fn is_parser_pattern(p: Seq<char>) -> bool {
    ||| p == BLOCK_COMMENT@
    ||| p == PARAM_OPEN@
    ||| p == ATTRIBUTE@
    ||| p == VARIABLE@
    ||| p == DEFAULT_VALUE@
    ||| p == QUOTED@
    ||| p == BATCH_ARGUMENT@
}

/// The patterns that find tokens in a line.
pub open spec fn is_token_pattern(p: Seq<char>) -> bool {
    ||| p == TOKEN_ARGUMENT@
    ||| p == TOKEN_BATCH_VARIABLE@
    ||| p == TOKEN_BATCH_SET@
    ||| p == TOKEN_ENVIRONMENT@
    ||| p == TOKEN_VARIABLE@
}

/// The patterns of the progress protocol.
pub open spec fn is_progress_pattern(p: Seq<char>) -> bool {
    ||| p == PROGRESS@
    ||| p == STATUS@
}

/// The patterns of the risk rules.
pub open spec fn is_risk_pattern(p: Seq<char>) -> bool {
    ||| p == RISK_DOWNLOAD_CODE@
    ||| p == RISK_DOWNLOAD_FILE@
    ||| p == RISK_HTTP_REQUEST@
    ||| p == RISK_WEB_CLIENT@
    ||| p == RISK_CERTUTIL@
    ||| p == RISK_BITSADMIN@
    ||| p == RISK_INVOKE_EXPRESSION@
    ||| p == RISK_ENCODED_COMMAND@
    ||| p == RISK_BASE64@
    ||| p == RISK_AMSI@
    ||| p == RISK_REFLECTION@
    ||| p == RISK_KEYBOARD@
    ||| p == RISK_ADD_TYPE@
    ||| p == RISK_DLL_IMPORT@
    ||| p == RISK_FOREGROUND@
    ||| p == RISK_RUN_KEY@
    ||| p == RISK_REGISTRY@
    ||| p == RISK_SCHEDULED_TASK@
    ||| p == RISK_STARTUP_FOLDER@
    ||| p == RISK_SHADOW_COPIES@
    ||| p == RISK_CIPHER_WIPE@
    ||| p == RISK_FORMAT@
    ||| p == RISK_FORCE_DELETE@
    ||| p == RISK_BOOT@
    ||| p == RISK_HIDDEN_WINDOW@
    ||| p == RISK_INDIRECT_EXECUTION@
    ||| p == RISK_HIDDEN_FILES@
    ||| p == RISK_CREDENTIAL_DUMP@
    ||| p == RISK_PLAINTEXT_CREDENTIALS@
    ||| p == RISK_CLIPBOARD@
    ||| p == RISK_ELEVATION@
    ||| p == RISK_EXECUTION_POLICY@
    ||| p == RISK_DEFENDER@
}

/// The patterns above: each is a valid regular expression.
pub open spec fn is_known(p: Seq<char>) -> bool {
    is_parser_pattern(p) || is_token_pattern(p) || is_progress_pattern(p) || is_risk_pattern(p)
}

/// How the patterns for parameters, tokens and reports are written.
pub proof fn patterns_are_written()
    ensures
        BLOCK_COMMENT@ == r"(?s)<#.*?#>"@,
        PARAM_OPEN@ == r"(?i)\bparam\b\s*\("@,
        ATTRIBUTE@ == r"\[([^\]]*)\]"@,
        VARIABLE@ == r"\$(\w+)"@,
        DEFAULT_VALUE@ == r"(?s)\$\w+\s*=\s*(.+)"@,
        QUOTED@ == r#"["']([^"']*)["']"#@,
        BATCH_ARGUMENT@ == r"%(?:~[a-zA-Z]*)?([1-9])"@,
        TOKEN_ARGUMENT@ == r"%~?[a-zA-Z]*([1-9])"@,
        TOKEN_BATCH_VARIABLE@ == r"%([A-Za-z_]\w*)%"@,
        TOKEN_BATCH_SET@ == r#"(?i)\bset\s+(?:/p\s+)?"?([A-Za-z_]\w*)\s*="#@,
        TOKEN_ENVIRONMENT@ == r"(?i)\$env:([A-Za-z_]\w*)"@,
        TOKEN_VARIABLE@ == r"\$([A-Za-z_]\w*)"@,
        PROGRESS@ == r"(?i)@progress\s+(\d+(?:\.\d+)?)"@,
        STATUS@ == r"(?i)@status\s+([^\r\n]*)"@,
{
}

} // verus!
