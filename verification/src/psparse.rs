//! Primary PowerShell `param()` parser: what PowerShell's own parser reports.
//!
//! The program asks PowerShell for the script-level `param()` block as a list of
//! parameter descriptions. Here the output of that process is accepted or
//! turned down, and the descriptions are turned into controls. When there is no
//! usable report, detection falls back to [`crate::parser::parse_powershell`].

use crate::model;
use crate::model::{Param, ParamKind, ParamView};
use crate::parser;
use crate::parser::{Declaration, DeclarationView};
use crate::text;
use crate::unicode;
use vstd::prelude::*;

verus! {

/// One parameter as PowerShell's parser describes it.
pub struct ParamJson {
    pub name: String,
    pub static_type: String,
    pub mandatory: bool,
    pub validate_set: Vec<String>,
    pub default: Option<String>,
}

/// What a `ParamJson` holds.
#[verifier::ext_equal]
pub struct ParamJsonView {
    pub name: Seq<char>,
    pub static_type: Seq<char>,
    pub mandatory: bool,
    pub validate_set: Seq<Seq<char>>,
    pub default: Option<Seq<char>>,
}

impl View for ParamJson {
    type V = ParamJsonView;

    open spec fn view(&self) -> ParamJsonView {
        ParamJsonView {
            name: self.name@,
            static_type: self.static_type@,
            mandatory: self.mandatory,
            validate_set: text::texts(self.validate_set@),
            default: parser::text_option(self.default),
        }
    }
}

/// The declaration that a description stands for.
pub open spec fn described(j: ParamJsonView) -> DeclarationView {
    let t = unicode::lowercase(j.static_type);
    DeclarationView {
        name: j.name,
        is_switch: t == "switchparameter"@,
        is_bool: t == "switchparameter"@ || t == "boolean"@ || t == "bool"@,
        is_number: parser::is_number_type(t),
        required: j.mandatory,
        choices: j.validate_set,
        default: j.default,
    }
}

/// The controls that descriptions become.
pub open spec fn described_params(parsed: Seq<ParamJson>) -> Seq<ParamView> {
    parsed.map_values(|j: ParamJson| parser::control_for(described(j@)))
}

/// Turn a description into a control.
pub fn json_to_param(j: ParamJson) -> (r: Param)
    ensures
        r@ == parser::control_for(described(j@)),
{
    let t = unicode::to_lowercase(j.static_type.as_str());
    let is_switch = text::same(t.as_str(), "switchparameter");
    let is_bool = is_switch || text::same(t.as_str(), "boolean") || text::same(t.as_str(), "bool");
    let is_number = parser::number_type(t.as_str());
    parser::control(
        Declaration {
            name: j.name,
            is_switch,
            is_bool,
            is_number,
            required: j.mandatory,
            choices: j.validate_set,
            default: j.default,
        },
    )
}

/// Turn a report into controls, one for each parameter, in order.
pub fn params_from_json(parsed: Vec<ParamJson>) -> (r: Vec<Param>)
    ensures
        model::params_view(r@) == described_params(parsed@),
{
    let mut out: Vec<Param> = Vec::new();
    for j in it: parsed
        invariant
            it.seq() == parsed@,
            out.len() == it.index(),
            forall|k: int|
                0 <= k < out.len() ==> (#[trigger] out@[k])@ == parser::control_for(
                    described(parsed@[k]@),
                ),
    {
        out.push(json_to_param(j));
    }
    assert(model::params_view(out@) =~= described_params(parsed@));
    out
}

/// The report in the output of the parsing process: none when the process
/// failed or wrote nothing.
pub open spec fn report_of(success: bool, stdout: Seq<u8>) -> Option<Seq<char>> {
    let t = text::trimmed(unicode::lossy(stdout));
    if success && t.len() > 0 {
        Some(t)
    } else {
        None
    }
}

/// Take the report out of what the parsing process wrote.
pub fn json_payload(success: bool, stdout: &[u8]) -> (r: Option<String>)
    ensures
        parser::text_option(r) == report_of(success, stdout@),
{
    if !success {
        return None;
    }
    let json = unicode::from_utf8_lossy(stdout);
    let t = text::trim(json.as_str());
    if t.as_str().is_empty() {
        None
    } else {
        Some(t)
    }
}

// ---------------------------------------------------------------------------
// Which parser is used
// ---------------------------------------------------------------------------

/// The parser that the controls come from.
#[derive(Clone, Copy, Debug, PartialEq, Eq, Structural)]
pub enum Ps1Parser {
    /// PowerShell's own parser.
    Ast,
    /// The pattern-based fallback.
    Regex,
}

/// The controls of a PowerShell script and the parser that they come from: what
/// PowerShell reported, even when it reported no parameter, and else what the
/// fallback finds.
pub open spec fn detected(source: Seq<char>, ast: Option<Seq<ParamView>>) -> (
    Seq<ParamView>,
    Ps1Parser,
) {
    match ast {
        Some(params) => (params, Ps1Parser::Ast),
        None => (parser::powershell_params(source), Ps1Parser::Regex),
    }
}

/// What an optional list of parameters holds.
pub open spec fn params_option(v: Option<Vec<Param>>) -> Option<Seq<ParamView>> {
    match v {
        Some(params) => Some(model::params_view(params@)),
        None => None,
    }
}

/// Detect the controls of a PowerShell script. `ast` is what PowerShell's parser
/// reported; `None` when it could not be asked or was not to be asked.
pub fn detect_ps1_params(source: &str, ast: Option<Vec<Param>>) -> (r: (Vec<Param>, Ps1Parser))
    ensures
        (model::params_view(r.0@), r.1) == detected(source@, params_option(ast)),
{
    match ast {
        Some(params) => (params, Ps1Parser::Ast),
        None => (parser::parse_powershell(source), Ps1Parser::Regex),
    }
}

// ---------------------------------------------------------------------------
// The two parsers agree
// ---------------------------------------------------------------------------

/// Whether two defaults differ at most in the white space around them.
pub open spec fn same_default(a: Option<Seq<char>>, b: Option<Seq<char>>) -> bool {
    match (a, b) {
        (Some(x), Some(y)) => text::trimmed(x) == text::trimmed(y),
        (None, None) => true,
        _ => false,
    }
}

/// White space around a default does not change the control.
pub proof fn defaults_are_trimmed(a: DeclarationView, b: DeclarationView)
    requires
        same_default(a.default, b.default),
        a == (DeclarationView { default: a.default, ..b }),
    ensures
        parser::control_for(a) == parser::control_for(b),
{
}

/// Whether the attributes of a declaration, in lower case, name the type that
/// PowerShell resolved, as far as the choice of a control goes.
pub open spec fn same_type(lower: Seq<Seq<char>>, static_type: Seq<char>) -> bool {
    let t = unicode::lowercase(static_type);
    &&& lower.contains("switch"@) <==> t == "switchparameter"@
    &&& (lower.contains("switch"@) || parser::any_bool_type(lower)) <==> (t == "switchparameter"@
        || t == "boolean"@ || t == "bool"@)
    &&& parser::any_number_type(lower) <==> parser::is_number_type(t)
}

/// Where the text of a declaration and PowerShell's description of it agree on
/// the name, the type, the attributes and the default, both parsers make the
/// same control of it.
pub proof fn parsers_agree(
    name: Seq<char>,
    attrs: Seq<Seq<char>>,
    choices: Seq<Seq<char>>,
    default: Option<Seq<char>>,
    j: ParamJsonView,
)
    requires
        j.name == name,
        same_type(parser::all_lower(attrs), j.static_type),
        j.mandatory == parser::any_mandatory(parser::all_lower(attrs)),
        j.validate_set == choices,
        same_default(j.default, default),
    ensures
        parser::control_for(described(j)) == parser::control_for(
            parser::declared_by(name, attrs, choices, default),
        ),
{
}

// ---------------------------------------------------------------------------
// What a report makes of a script
// ---------------------------------------------------------------------------

/// What PowerShell reports of a parameter decides its control: a switch or a boolean
/// gets a checkbox; else listed values get a dropdown; else a number type gets a
/// number field; else the name decides: a folder picker where it says folder or dir,
/// else a file picker where it says file or path, else a text field. It is required
/// exactly when it is reported as mandatory.
pub proof fn reported_types_decide_the_control(j: ParamJsonView)
    ensures
        ({
            let p = parser::control_for(described(j));
            let t = unicode::lowercase(j.static_type);
            let n = unicode::lowercase(j.name);
            let checkbox = t == "switchparameter"@ || t == "boolean"@ || t == "bool"@;
            let number = t == "int32"@ || t == "int64"@ || t == "int16"@ || t == "long"@ || t
                == "int"@ || t == "double"@ || t == "single"@ || t == "float"@ || t == "decimal"@
                || t == "byte"@ || t == "uint32"@ || t == "uint64"@ || t == "uint16"@;
            let plain = !checkbox && j.validate_set.len() == 0 && !number;
            let folder = text::occurs(n, "folder"@) || text::occurs(n, "dir"@);
            let file = text::occurs(n, "file"@) || text::occurs(n, "path"@);
            &&& p.kind == ParamKind::Bool <==> checkbox
            &&& p.kind == ParamKind::Choice <==> !checkbox && j.validate_set.len() > 0
            &&& p.kind == ParamKind::Number <==> !checkbox && j.validate_set.len() == 0 && number
            &&& p.kind == ParamKind::FolderPath <==> plain && folder
            &&& p.kind == ParamKind::FilePath <==> plain && !folder && file
            &&& p.kind == ParamKind::Text <==> plain && !folder && !file
            &&& p.is_switch <==> t == "switchparameter"@
            &&& p.required == j.mandatory
            &&& p.name == j.name
            &&& p.label == parser::label_of(j.name)
            &&& p.choices == j.validate_set
            &&& p.position is None
            &&& !p.custom
            &&& !p.as_env
        }),
{
}

/// What PowerShell reports as the default fills in the control: a checkbox is ticked
/// exactly where it says `$true` or `true`, in any case of ASCII letters; any other
/// control holds it without the quotes around it, and a dropdown that is left empty
/// by it its first value.
pub proof fn reported_defaults_fill_in_the_control(j: ParamJsonView)
    ensures
        ({
            let p = parser::control_for(described(j));
            let given = match j.default {
                Some(v) => parser::unquoted(v),
                None => Seq::empty(),
            };
            &&& p.kind == ParamKind::Bool ==> p.value.len() == 0
            &&& p.bool_value <==> p.kind == ParamKind::Bool && (j.default matches Some(v) && (
            text::ascii_lowered(text::trimmed(v)) == seq!['$', 't', 'r', 'u', 'e']
                || text::ascii_lowered(text::trimmed(v)) == seq!['t', 'r', 'u', 'e']))
            &&& p.kind != ParamKind::Bool && given.len() > 0 ==> p.value == given
            &&& p.kind == ParamKind::Choice && given.len() == 0 ==> p.value == j.validate_set[0]
            &&& p.kind != ParamKind::Bool && p.kind != ParamKind::Choice && given.len() == 0
                ==> p.value.len() == 0
        }),
{
    parser::defaults_fill_in_the_control(described(j));
}

/// A report becomes one control for each parameter, in the order of the report.
pub proof fn reports_keep_their_order(parsed: Seq<ParamJson>, i: int)
    requires
        0 <= i < parsed.len(),
    ensures
        described_params(parsed).len() == parsed.len(),
        described_params(parsed)[i].name == parsed[i].name@,
        described_params(parsed)[i] == parser::control_for(described(parsed[i]@)),
{
}

/// A process that failed, or that wrote nothing but white space, gives no report;
/// any other gives what it wrote, without the white space around it.
pub proof fn failures_give_no_report(success: bool, stdout: Seq<u8>)
    ensures
        !success ==> report_of(success, stdout) is None,
        (forall|k: int|
            0 <= k < unicode::lossy(stdout).len() ==> text::is_space(
                #[trigger] unicode::lossy(stdout)[k],
            )) ==> report_of(success, stdout) is None,
        success && (exists|k: int|
            0 <= k < unicode::lossy(stdout).len() && !text::is_space(
                #[trigger] unicode::lossy(stdout)[k],
            )) ==> report_of(success, stdout) == Some(text::trimmed(unicode::lossy(stdout))),
{
    text::blank_means_white_space(unicode::lossy(stdout));
}

/// A report is taken as it is, even one without parameters, and only where there is
/// none is the text of the script read.
pub proof fn reports_come_first(source: Seq<char>, reported: Seq<ParamView>)
    ensures
        detected(source, Some(reported)) == (reported, Ps1Parser::Ast),
        detected(source, None) == (parser::powershell_params(source), Ps1Parser::Regex),
{
}

/// What is said of a reported parameter is said of its fields, and of an optional list of
/// controls of the list.
pub proof fn reports_are_their_fields(j: ParamJson, v: Option<Vec<Param>>, i: int)
    ensures
        j@.name == j.name@,
        j@.static_type == j.static_type@,
        j@.mandatory == j.mandatory,
        j@.validate_set.len() == j.validate_set@.len(),
        0 <= i < j.validate_set@.len() ==> j@.validate_set[i] == j.validate_set@[i]@,
        j.default matches Some(d) ==> j@.default == Some(d@),
        j.default is None ==> j@.default is None,
        v matches Some(params) ==> params_option(v) == Some(model::params_view(params@)),
        v is None ==> params_option(v) is None,
{
}

} // verus!
