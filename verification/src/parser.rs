//! Pattern-based parsers and the naming helpers.
//!
//! [`parse_powershell`] is the fallback for `.ps1` scripts; the primary parser
//! is [`crate::psparse`], which reads what PowerShell's own parser reports. Both
//! describe a parameter by a [`Declaration`] and turn it into a control with
//! [`control`], so degrading to the fallback does not surprise the user.
//! [`parse_batch`] handles the positional arguments of `.bat`/`.cmd` files.

use crate::grammar;
use crate::model;
use crate::model::{Param, ParamKind, ParamView};
use crate::pattern;
use crate::pattern::{Capture, CaptureView};
use crate::patterns;
use crate::scan;
use crate::span;
use crate::text;
use crate::unicode;
use vstd::prelude::*;
use vstd::utf8::*;

verus! {

// ---------------------------------------------------------------------------
// Naming
// ---------------------------------------------------------------------------

/// The control that a parameter's name suggests.
pub open spec fn kind_for_name(name: Seq<char>) -> ParamKind {
    let n = unicode::lowercase(name);
    if text::occurs(n, "folder"@) || text::occurs(n, "dir"@) {
        ParamKind::FolderPath
    } else if text::occurs(n, "file"@) || text::occurs(n, "path"@) {
        ParamKind::FilePath
    } else {
        ParamKind::Text
    }
}

/// Guess a path picker from the parameter name when the type is just a string.
pub fn kind_from_name(name: &str) -> (r: ParamKind)
    ensures
        r == kind_for_name(name@),
{
    let n = unicode::to_lowercase(name);
    if text::contains(n.as_str(), "folder") || text::contains(n.as_str(), "dir") {
        ParamKind::FolderPath
    } else if text::contains(n.as_str(), "file") || text::contains(n.as_str(), "path") {
        ParamKind::FilePath
    } else {
        ParamKind::Text
    }
}

/// `s`, trimmed, without the pair of equal quotes that surrounds it.
pub open spec fn unquoted(s: Seq<char>) -> Seq<char> {
    let t = text::trimmed(s);
    if t.len() >= 2 && ((t[0] == '"' && t.last() == '"') || (t[0] == '\'' && t.last() == '\'')) {
        t.subrange(1, t.len() - 1)
    } else {
        t
    }
}

/// Trim `s` and take off the quotes that surround it.
pub fn strip_quotes(s: &str) -> (r: String)
    ensures
        r@ == unquoted(s@),
{
    let t = text::trim(s);
    let v = text::to_chars(t.as_str());
    let n: usize = v.len();
    if n >= 2 && ((v[0] == '"' && v[n - 1] == '"') || (v[0] == '\'' && v[n - 1] == '\'')) {
        text::string_of(&v, 1, n - 1)
    } else {
        t
    }
}

/// Whether a capital at position `i` of a name starts a new word there.
pub open spec fn starts_word(name: Seq<char>, i: int) -> bool {
    unicode::is_upper(name[i]) && i > 0 && (unicode::is_lower(name[i - 1]) || unicode::is_numeral(
        name[i - 1],
    ))
}

/// The name with its words apart: a space in place of each underscore and
/// hyphen, and one before each capital that starts a word.
pub open spec fn spaced(name: Seq<char>) -> Seq<char>
    decreases name.len(),
{
    if name.len() == 0 {
        Seq::empty()
    } else {
        let before = spaced(name.drop_last());
        if name.last() == '_' || name.last() == '-' {
            before.push(' ')
        } else if starts_word(name, name.len() - 1) {
            before.push(' ').push(name.last())
        } else {
            before.push(name.last())
        }
    }
}

/// `s` with its first character in upper case.
pub open spec fn capitalized(s: Seq<char>) -> Seq<char> {
    if s.len() == 0 {
        s
    } else {
        unicode::uppercase(s[0]) + s.drop_first()
    }
}

/// The label for a name.
pub open spec fn label_of(name: Seq<char>) -> Seq<char> {
    capitalized(spaced(name))
}

/// "InputFolder" -> "Input Folder", "OutFile" -> "Out File", "log_path" -> "Log path".
pub fn humanize(name: &str) -> (r: String)
    ensures
        r@ == label_of(name@),
{
    let v = text::to_chars(name);
    let mut out: Vec<char> = Vec::new();
    let mut prev_lower_or_digit = false;
    let mut i: usize = 0;
    assert(v@.subrange(0, 0) =~= Seq::empty());
    while i < v.len()
        invariant
            i <= v.len(),
            out@ == spaced(v@.subrange(0, i as int)),
            prev_lower_or_digit == (i > 0 && (unicode::is_lower(v@[i - 1])
                || unicode::is_numeral(v@[i - 1]))),
        decreases v.len() - i,
    {
        let c: char = v[i];
        let ghost done = v@.subrange(0, i + 1);
        assert(done.drop_last() =~= v@.subrange(0, i as int));
        assert(done.last() == c);
        assert(i > 0 ==> done[i - 1] == v@[i - 1]);
        if c == '_' || c == '-' {
            out.push(' ');
            prev_lower_or_digit = false;
        } else {
            if c.is_uppercase() && prev_lower_or_digit {
                out.push(' ');
            }
            out.push(c);
            prev_lower_or_digit = c.is_lowercase() || c.is_numeric();
        }
        i += 1;
    }
    assert(v@.subrange(0, i as int) =~= v@);
    if out.len() == 0 {
        return String::new();
    }
    let mut label = unicode::to_uppercase(out[0]);
    let rest = text::string_of(&out, 1, out.len());
    label.append(rest.as_str());
    assert(rest@ =~= out@.drop_first());
    label
}

// ---------------------------------------------------------------------------
// From a declaration to a control
// ---------------------------------------------------------------------------

/// What a script declares of one parameter.
pub struct Declaration {
    pub name: String,
    pub is_switch: bool,
    pub is_bool: bool,
    pub is_number: bool,
    pub required: bool,
    pub choices: Vec<String>,
    pub default: Option<String>,
}

/// What a `Declaration` holds.
#[verifier::ext_equal]
pub struct DeclarationView {
    pub name: Seq<char>,
    pub is_switch: bool,
    pub is_bool: bool,
    pub is_number: bool,
    pub required: bool,
    pub choices: Seq<Seq<char>>,
    pub default: Option<Seq<char>>,
}

/// The characters of an optional string.
pub open spec fn text_option(s: Option<String>) -> Option<Seq<char>> {
    match s {
        Some(t) => Some(t@),
        None => None,
    }
}

impl View for Declaration {
    type V = DeclarationView;

    open spec fn view(&self) -> DeclarationView {
        DeclarationView {
            name: self.name@,
            is_switch: self.is_switch,
            is_bool: self.is_bool,
            is_number: self.is_number,
            required: self.required,
            choices: text::texts(self.choices@),
            default: text_option(self.default),
        }
    }
}

/// The control for a declaration: a checkbox for switches and booleans, then a
/// dropdown where values are listed, then a number field, and else what the
/// name suggests.
pub open spec fn kind_for(d: DeclarationView) -> ParamKind {
    if d.is_switch || d.is_bool {
        ParamKind::Bool
    } else if d.choices.len() > 0 {
        ParamKind::Choice
    } else if d.is_number {
        ParamKind::Number
    } else {
        kind_for_name(d.name)
    }
}

/// Whether a default switches a checkbox on.
pub open spec fn is_true_literal(s: Seq<char>) -> bool {
    let t = text::ascii_lowered(text::trimmed(s));
    t == text::ascii_lowered("$true"@) || t == text::ascii_lowered("true"@)
}

/// The value that a control other than a checkbox starts with: the default
/// without its quotes, or else the first choice of a dropdown.
pub open spec fn initial_value(d: DeclarationView) -> Seq<char> {
    let given = match d.default {
        Some(v) => unquoted(v),
        None => Seq::empty(),
    };
    if kind_for(d) == ParamKind::Bool {
        Seq::empty()
    } else if kind_for(d) == ParamKind::Choice && given.len() == 0 {
        d.choices[0]
    } else {
        given
    }
}

/// The control that a declaration becomes.
pub open spec fn control_for(d: DeclarationView) -> ParamView {
    ParamView {
        name: d.name,
        label: label_of(d.name),
        kind: kind_for(d),
        required: d.required,
        is_switch: d.is_switch,
        choices: d.choices,
        value: initial_value(d),
        bool_value: kind_for(d) == ParamKind::Bool && match d.default {
            Some(v) => is_true_literal(v),
            None => false,
        },
        position: None,
        custom: false,
        as_env: false,
    }
}

/// Whether the text is `$true` or `true`, in any case.
fn true_literal(s: &str) -> (r: bool)
    ensures
        r == is_true_literal(s@),
{
    let t = text::trim(s);
    text::same_ignoring_ascii_case(t.as_str(), "$true") || text::same_ignoring_ascii_case(
        t.as_str(),
        "true",
    )
}

/// Turn a declaration into a control.
pub fn control(d: Declaration) -> (r: Param)
    ensures
        r@ == control_for(d@),
{
    let kind: ParamKind = if d.is_switch || d.is_bool {
        ParamKind::Bool
    } else if d.choices.len() > 0 {
        ParamKind::Choice
    } else if d.is_number {
        ParamKind::Number
    } else {
        kind_from_name(d.name.as_str())
    };
    let mut value = String::new();
    let mut bool_value = false;
    if let Some(v) = &d.default {
        if kind == ParamKind::Bool {
            bool_value = true_literal(v.as_str());
        } else {
            value = strip_quotes(v.as_str());
        }
    }
    if kind == ParamKind::Choice && value.as_str().is_empty() {
        value = d.choices[0].clone();
    }
    let label = humanize(d.name.as_str());
    Param {
        name: d.name,
        label,
        kind,
        required: d.required,
        is_switch: d.is_switch,
        choices: d.choices,
        value,
        bool_value,
        position: None,
        custom: false,
        as_env: false,
    }
}

// ---------------------------------------------------------------------------
// From the text of a declaration
// ---------------------------------------------------------------------------

/// What the first capture groups hold, without the matches in which the group
/// took no part.
pub open spec fn group_texts(captures: Seq<CaptureView>) -> Seq<Seq<char>>
    decreases captures.len(),
{
    if captures.len() == 0 {
        Seq::empty()
    } else {
        let before = group_texts(captures.drop_last());
        match captures.last().group {
            Some(g) => before.push(g.text),
            None => before,
        }
    }
}

/// `texts`, each trimmed.
pub open spec fn all_trimmed(texts: Seq<Seq<char>>) -> Seq<Seq<char>> {
    texts.map_values(|s: Seq<char>| text::trimmed(s))
}

/// `texts`, each in lower case.
pub open spec fn all_lower(texts: Seq<Seq<char>>) -> Seq<Seq<char>> {
    texts.map_values(|s: Seq<char>| unicode::lowercase(s))
}

/// The type names, in lower case, that make a parameter a boolean.
pub open spec fn is_bool_type(t: Seq<char>) -> bool {
    t == "bool"@ || t == "boolean"@ || t == "system.boolean"@
}

/// The type names, in lower case, that make a parameter a number.
pub open spec fn is_number_type(t: Seq<char>) -> bool {
    ||| t == "int"@
    ||| t == "int16"@
    ||| t == "int32"@
    ||| t == "int64"@
    ||| t == "long"@
    ||| t == "double"@
    ||| t == "single"@
    ||| t == "float"@
    ||| t == "decimal"@
    ||| t == "byte"@
    ||| t == "uint16"@
    ||| t == "uint32"@
    ||| t == "uint64"@
}

/// `s` without its leading spaces and equals signs.
pub open spec fn after_equals(s: Seq<char>) -> Seq<char>
    decreases s.len(),
{
    if s.len() > 0 && (s[0] == ' ' || s[0] == '=') {
        after_equals(s.drop_first())
    } else {
        s
    }
}

/// Whether an attribute, in lower case, makes its parameter mandatory: it says
/// so, and does not go on to say `$false`.
pub open spec fn is_mandatory(attr: Seq<char>) -> bool {
    match text::first_from(attr, "mandatory"@, 0) {
        Some(i) => !text::stands_at(
            after_equals(attr.subrange(i + "mandatory"@.len(), attr.len() as int)),
            0,
            "$false"@,
        ),
        None => false,
    }
}

/// Whether an attribute lists the values that its parameter may take.
pub open spec fn lists_values(attr: Seq<char>) -> bool {
    text::stands_at(unicode::lowercase(attr), 0, "validateset"@)
}

/// The values that the last of the attributes that list any lists.
pub open spec fn listed_values(attrs: Seq<Seq<char>>) -> Seq<Seq<char>>
    decreases attrs.len(),
{
    if attrs.len() == 0 {
        Seq::empty()
    } else if lists_values(attrs.last()) {
        group_texts(pattern::rx_captures_iter(patterns::QUOTED@, attrs.last()))
    } else {
        listed_values(attrs.drop_last())
    }
}

/// Whether any of `texts` is a boolean type.
pub open spec fn any_bool_type(texts: Seq<Seq<char>>) -> bool {
    exists|i: int| 0 <= i < texts.len() && is_bool_type(#[trigger] texts[i])
}

/// Whether any of `texts` is a number type.
pub open spec fn any_number_type(texts: Seq<Seq<char>>) -> bool {
    exists|i: int| 0 <= i < texts.len() && is_number_type(#[trigger] texts[i])
}

/// Whether any of `texts` makes its parameter mandatory.
pub open spec fn any_mandatory(texts: Seq<Seq<char>>) -> bool {
    exists|i: int| 0 <= i < texts.len() && is_mandatory(#[trigger] texts[i])
}

/// What the parts of a declaration say of its parameter.
pub open spec fn declared_by(
    name: Seq<char>,
    attrs: Seq<Seq<char>>,
    choices: Seq<Seq<char>>,
    default: Option<Seq<char>>,
) -> DeclarationView {
    let lower = all_lower(attrs);
    DeclarationView {
        name,
        is_switch: lower.contains("switch"@),
        is_bool: any_bool_type(lower),
        is_number: any_number_type(lower),
        required: any_mandatory(lower),
        choices,
        default,
    }
}

/// Whether `t` names a boolean type.
fn bool_type(t: &str) -> (r: bool)
    ensures
        r == is_bool_type(t@),
{
    text::same(t, "bool") || text::same(t, "boolean") || text::same(t, "system.boolean")
}

/// Whether `t` names a number type.
pub(crate) fn number_type(t: &str) -> (r: bool)
    ensures
        r == is_number_type(t@),
{
    text::same(t, "int") || text::same(t, "int16") || text::same(t, "int32") || text::same(
        t,
        "int64",
    ) || text::same(t, "long") || text::same(t, "double") || text::same(t, "single") || text::same(
        t,
        "float",
    ) || text::same(t, "decimal") || text::same(t, "byte") || text::same(t, "uint16")
        || text::same(t, "uint32") || text::same(t, "uint64")
}

/// Whether the attribute, in lower case, makes its parameter mandatory.
fn mandatory(attr: &str) -> (r: bool)
    ensures
        r == is_mandatory(attr@),
{
    let v = text::to_chars(attr);
    let word = text::to_chars("mandatory");
    match text::find_chars(&v, &word) {
        Some(i) => {
            let n: usize = v.len();
            let start: usize = i + word.len();
            let mut k: usize = start;
            while k < n && (v[k] == ' ' || v[k] == '=')
                invariant
                    start <= k <= n,
                    n == v.len(),
                    after_equals(v@.subrange(start as int, n as int)) == after_equals(
                        v@.subrange(k as int, n as int),
                    ),
                decreases n - k,
            {
                assert(v@.subrange(k as int, n as int).drop_first() =~= v@.subrange(
                    k + 1,
                    n as int,
                ));
                k += 1;
            }
            let rest = text::string_of(&v, k, n);
            !text::starts_with(rest.as_str(), "$false")
        },
        None => false,
    }
}

/// Turn the parts of a declaration into a control.
pub fn declared_param(
    name: String,
    attrs: &Vec<String>,
    choices: Vec<String>,
    default: Option<String>,
) -> (r: Param)
    ensures
        r@ == control_for(
            declared_by(
                name@,
                text::texts(attrs@),
                text::texts(choices@),
                text_option(default),
            ),
        ),
{
    let ghost lower = all_lower(text::texts(attrs@));
    let mut is_switch = false;
    let mut is_bool = false;
    let mut is_number = false;
    let mut required = false;
    let mut i: usize = 0;
    while i < attrs.len()
        invariant
            i <= attrs.len(),
            lower == all_lower(text::texts(attrs@)),
            is_switch == exists|k: int| 0 <= k < i && #[trigger] lower[k] == "switch"@,
            is_bool == exists|k: int| 0 <= k < i && is_bool_type(#[trigger] lower[k]),
            is_number == exists|k: int| 0 <= k < i && is_number_type(#[trigger] lower[k]),
            required == exists|k: int| 0 <= k < i && is_mandatory(#[trigger] lower[k]),
        decreases attrs.len() - i,
    {
        let a = unicode::to_lowercase(attrs[i].as_str());
        assert(lower[i as int] == a@);
        if text::same(a.as_str(), "switch") {
            is_switch = true;
        }
        if bool_type(a.as_str()) {
            is_bool = true;
        }
        if number_type(a.as_str()) {
            is_number = true;
        }
        if mandatory(a.as_str()) {
            required = true;
        }
        i += 1;
    }
    assert(is_switch == lower.contains("switch"@));
    control(Declaration { name, is_switch, is_bool, is_number, required, choices, default })
}

/// What the groups of the captures hold.
fn texts_of_groups(captures: &Vec<Capture>) -> (r: Vec<String>)
    ensures
        text::texts(r@) == group_texts(pattern::captures_view(captures@)),
{
    let ghost views = pattern::captures_view(captures@);
    let mut out: Vec<String> = Vec::new();
    let mut i: usize = 0;
    assert(views.subrange(0, 0) =~= Seq::empty());
    assert(text::texts(out@) =~= Seq::empty());
    while i < captures.len()
        invariant
            i <= captures.len(),
            views == pattern::captures_view(captures@),
            text::texts(out@) == group_texts(views.subrange(0, i as int)),
        decreases captures.len() - i,
    {
        assert(views.subrange(0, i + 1).drop_last() =~= views.subrange(0, i as int));
        assert(views.subrange(0, i + 1).last() == captures@[i as int]@);
        if let Some(g) = &captures[i].group {
            let ghost before = out@;
            out.push(g.text.clone());
            assert(text::texts(out@) =~= text::texts(before).push(g.text@));
        }
        i += 1;
    }
    assert(views.subrange(0, i as int) =~= views);
    out
}

/// The texts, each trimmed.
fn trim_all(texts: &Vec<String>) -> (r: Vec<String>)
    ensures
        text::texts(r@) == all_trimmed(text::texts(texts@)),
{
    let mut out: Vec<String> = Vec::new();
    let mut i: usize = 0;
    while i < texts.len()
        invariant
            i <= texts.len(),
            out.len() == i,
            forall|k: int| 0 <= k < i ==> (#[trigger] out@[k])@ == text::trimmed(texts@[k]@),
        decreases texts.len() - i,
    {
        out.push(text::trim(texts[i].as_str()));
        i += 1;
    }
    assert(text::texts(out@) =~= all_trimmed(text::texts(texts@)));
    out
}

/// The values that the attributes list.
fn values_listed(attrs: &Vec<String>) -> (r: Vec<String>)
    ensures
        text::texts(r@) == listed_values(text::texts(attrs@)),
{
    let quoted = pattern::compile(patterns::QUOTED);
    let ghost views = text::texts(attrs@);
    let mut choices: Vec<String> = Vec::new();
    let mut i: usize = 0;
    assert(text::texts(choices@) =~= Seq::empty());
    while i < attrs.len()
        invariant
            i <= attrs.len(),
            views == text::texts(attrs@),
            quoted@ == patterns::QUOTED@,
            text::texts(choices@) == listed_values(views.subrange(0, i as int)),
        decreases attrs.len() - i,
    {
        assert(views.subrange(0, i + 1).drop_last() =~= views.subrange(0, i as int));
        assert(views.subrange(0, i + 1).last() == attrs@[i as int]@);
        let lower = unicode::to_lowercase(attrs[i].as_str());
        if text::starts_with(lower.as_str(), "validateset") {
            let found = pattern::captures_all(&quoted, attrs[i].as_str());
            choices = texts_of_groups(&found);
        }
        i += 1;
    }
    assert(views.subrange(0, i as int) =~= views);
    choices
}

/// What the first match's group holds.
pub open spec fn captured(source: Seq<char>, s: Seq<char>) -> Option<Seq<char>> {
    match pattern::rx_captures(source, s) {
        Some(c) => match c.group {
            Some(g) => Some(g.text),
            None => None,
        },
        None => None,
    }
}

/// What the group of the first match of `source` in `s` holds.
fn capture_text(source: &'static str, s: &str) -> (r: Option<String>)
    requires
        patterns::is_known(source@),
    ensures
        text_option(r) == captured(source@, s@),
{
    let p = pattern::compile(source);
    match pattern::captures(&p, s) {
        Some(c) => match c.group {
            Some(g) => Some(g.text),
            None => None,
        },
        None => None,
    }
}

/// The attributes of a declaration.
pub open spec fn attributes_of(decl: Seq<char>) -> Seq<Seq<char>> {
    all_trimmed(group_texts(pattern::rx_captures_iter(patterns::ATTRIBUTE@, decl)))
}

/// The control that the text of a declaration becomes: its attributes are taken
/// out, and the first variable of what is left is the parameter. A text without
/// a variable declares none.
pub open spec fn param_declared(decl: Seq<char>) -> Option<ParamView> {
    let attrs = attributes_of(decl);
    let without = pattern::rx_replace_all(patterns::ATTRIBUTE@, decl, " "@);
    match captured(patterns::VARIABLE@, without) {
        Some(name) => Some(
            control_for(
                declared_by(
                    name,
                    attrs,
                    listed_values(attrs),
                    captured(patterns::DEFAULT_VALUE@, without),
                ),
            ),
        ),
        None => None,
    }
}

/// What an optional parameter holds.
pub open spec fn param_option(p: Option<Param>) -> Option<ParamView> {
    match p {
        Some(p) => Some(p@),
        None => None,
    }
}

/// Parse one parameter declaration, e.g.
/// `[Parameter(Mandatory=$true)][string]$InputFolder = "."`.
pub fn parse_one(decl: &str) -> (r: Option<Param>)
    ensures
        param_option(r) == param_declared(decl@),
{
    let attribute = pattern::compile(patterns::ATTRIBUTE);
    let found = pattern::captures_all(&attribute, decl);
    let inner = texts_of_groups(&found);
    let attrs = trim_all(&inner);
    let without = pattern::replace_all(&attribute, decl, " ");
    match capture_text(patterns::VARIABLE, without.as_str()) {
        Some(name) => {
            let default = capture_text(patterns::DEFAULT_VALUE, without.as_str());
            let choices = values_listed(&attrs);
            Some(declared_param(name, &attrs, choices, default))
        },
        None => None,
    }
}

// ---------------------------------------------------------------------------
// From the text of a script
// ---------------------------------------------------------------------------

/// A script with a space in place of each block comment.
pub open spec fn uncommented(source: Seq<char>) -> Seq<char> {
    grammar::without_comments(source)
}

/// What stands between the parentheses of the first `param ( ... )` in `s`.
pub open spec fn param_block(s: Seq<char>) -> Option<Seq<char>> {
    match pattern::rx_find(patterns::PARAM_OPEN@, s) {
        Some((_, end)) => scan::enclosed(span::slice(s, end, encode_utf8(s).len() as int)),
        None => None,
    }
}

/// The controls of those texts that declare a parameter.
pub open spec fn params_declared(decls: Seq<Seq<char>>) -> Seq<ParamView>
    decreases decls.len(),
{
    if decls.len() == 0 {
        Seq::empty()
    } else {
        let before = params_declared(decls.drop_last());
        match param_declared(decls.last()) {
            Some(p) => before.push(p),
            None => before,
        }
    }
}

/// The controls that a PowerShell script declares.
pub open spec fn powershell_params(source: Seq<char>) -> Seq<ParamView> {
    match param_block(uncommented(source)) {
        Some(inner) => params_declared(scan::declarations(inner)),
        None => Seq::empty(),
    }
}

/// Remove `<# ... #>` block comments so they can't confuse the scanner.
pub fn strip_block_comments(s: &str) -> (r: String)
    ensures
        r@ == uncommented(s@),
{
    let comment = pattern::compile(patterns::BLOCK_COMMENT);
    pattern::replace_all(&comment, s, " ")
}

/// Find `param ( ... )` and return the text between the outermost parens,
/// respecting strings, line comments and nested brackets. The block is a part of
/// the script, after the opening.
pub fn extract_param_block(s: &str) -> (r: Option<String>)
    ensures
        text_option(r) == param_block(s@),
        r matches Some(t) ==> text::occurs(s@, t@) && (pattern::rx_find(
            patterns::PARAM_OPEN@,
            s@,
        ) matches Some((start, end)) && span::is_span(s@, start, end)),
{
    let open = pattern::compile(patterns::PARAM_OPEN);
    match pattern::find(&open, s) {
        Some((_, end)) => {
            let size: usize = s.as_bytes().len();
            proof {
                span::lemma_whole(s@);
            }
            let rest = span::slice_text(s, end, size);
            let r = scan::enclosed_text(rest.as_str());
            proof {
                lemma_block_occurs(s@, end as int);
            }
            r
        },
        None => None,
    }
}

/// The text up to the end of a bracket that was opened before byte `end` of a
/// script is a part of the script.
proof fn lemma_block_occurs(s: Seq<char>, end: int)
    requires
        span::is_span(s, end, end),
    ensures
        scan::enclosed(span::slice(s, end, encode_utf8(s).len() as int)) matches Some(t)
            ==> text::occurs(s, t),
{
    let size = encode_utf8(s).len() as int;
    let rest = span::slice(s, end, size);
    span::lemma_whole(s);
    span::lemma_adjacent(s, 0, end, size);
    let before = span::slice(s, 0, end);
    if let Some(t) = scan::enclosed(rest) {
        scan::enclosed_is_balanced(rest);
        let i = before.len() as int;
        assert(s.subrange(i, i + t.len()) =~= t);
        assert(text::stands_at(s, i, t));
    }
}

/// The controls of those texts that declare a parameter.
fn parse_all(decls: &Vec<String>) -> (r: Vec<Param>)
    ensures
        model::params_view(r@) == params_declared(text::texts(decls@)),
{
    let ghost views = text::texts(decls@);
    let mut out: Vec<Param> = Vec::new();
    let mut i: usize = 0;
    assert(views.subrange(0, 0) =~= Seq::empty());
    assert(model::params_view(out@) =~= Seq::empty());
    while i < decls.len()
        invariant
            i <= decls.len(),
            views == text::texts(decls@),
            model::params_view(out@) == params_declared(views.subrange(0, i as int)),
        decreases decls.len() - i,
    {
        assert(views.subrange(0, i + 1).drop_last() =~= views.subrange(0, i as int));
        assert(views.subrange(0, i + 1).last() == decls@[i as int]@);
        if let Some(p) = parse_one(decls[i].as_str()) {
            let ghost before = out@;
            out.push(p);
            assert(model::params_view(out@) =~= model::params_view(before).push(p@));
        }
        i += 1;
    }
    assert(views.subrange(0, i as int) =~= views);
    out
}

/// Parse the `param(...)` block of a PowerShell script. Returns an empty vec
/// if no block is found.
pub fn parse_powershell(source: &str) -> (r: Vec<Param>)
    ensures
        model::params_view(r@) == powershell_params(source@),
{
    let cleaned = strip_block_comments(source);
    match extract_param_block(cleaned.as_str()) {
        Some(inner) => {
            let decls = scan::split_top_level(inner.as_str());
            parse_all(&decls)
        },
        None => {
            let none: Vec<Param> = Vec::new();
            assert(model::params_view(none@) =~= Seq::empty());
            none
        },
    }
}

/// What holds of every control that a PowerShell script declares: the script
/// alone decides it, so it is neither bound to a position or an environment
/// variable nor marked as the user's; a switch gets a checkbox; a dropdown
/// offers at least one value; and only a checkbox has an on/off state, which is
/// then all it has.
pub open spec fn is_detected_control(p: ParamView) -> bool {
    &&& p.position is None
    &&& !p.custom
    &&& !p.as_env
    &&& p.label == label_of(p.name)
    &&& p.is_switch ==> p.kind == ParamKind::Bool
    &&& p.kind == ParamKind::Choice ==> p.choices.len() > 0
    &&& p.kind != ParamKind::Bool ==> !p.bool_value
    &&& p.kind == ParamKind::Bool ==> p.value.len() == 0
}

/// Every control that a PowerShell script declares is a detected one.
pub proof fn powershell_controls_are_detected(source: Seq<char>)
    ensures
        forall|i: int|
            0 <= i < powershell_params(source).len() ==> is_detected_control(
                #[trigger] powershell_params(source)[i],
            ),
{
    if let Some(inner) = param_block(uncommented(source)) {
        lemma_params_declared(scan::declarations(inner));
    }
}

proof fn lemma_params_declared(decls: Seq<Seq<char>>)
    ensures
        params_declared(decls).len() <= decls.len(),
        forall|i: int|
            0 <= i < params_declared(decls).len() ==> is_detected_control(
                #[trigger] params_declared(decls)[i],
            ),
    decreases decls.len(),
{
    if decls.len() > 0 {
        lemma_params_declared(decls.drop_last());
        let before = params_declared(decls.drop_last());
        assert forall|i: int| 0 <= i < params_declared(decls).len() implies is_detected_control(
            #[trigger] params_declared(decls)[i],
        ) by {
            if i < before.len() {
                assert(params_declared(decls)[i] == before[i]);
            }
        }
    }
}

/// Block comments neither declare nor change a control: the script without them
/// has the same controls.
pub proof fn comments_declare_nothing(source: Seq<char>)
    ensures
        powershell_params(uncommented(source)) == powershell_params(source),
{
    grammar::no_comment_is_left(source);
}

/// A script in which no `param (` stands, or whose block is never closed, has
/// no controls.
pub proof fn no_block_means_no_controls(source: Seq<char>)
    ensures
        param_block(uncommented(source)) is None ==> powershell_params(source).len() == 0,
{
}

// ---------------------------------------------------------------------------
// Batch files
// ---------------------------------------------------------------------------

/// `numbers`, which are in increasing order, with `n` among them.
pub open spec fn with_number(numbers: Seq<u32>, n: u32) -> Seq<u32>
    decreases numbers.len(),
{
    if numbers.len() == 0 || numbers.last() < n {
        numbers.push(n)
    } else if numbers.last() == n {
        numbers
    } else {
        with_number(numbers.drop_last(), n).push(numbers.last())
    }
}

/// The number that the group of a capture writes.
pub open spec fn captured_number(c: CaptureView) -> Option<u32> {
    match c.group {
        Some(g) => text::number_of(g.text),
        None => None,
    }
}

/// The numbers that the captures write, each once, in increasing order.
pub open spec fn argument_numbers(captures: Seq<CaptureView>) -> Seq<u32>
    decreases captures.len(),
{
    if captures.len() == 0 {
        Seq::empty()
    } else {
        let before = argument_numbers(captures.drop_last());
        match captured_number(captures.last()) {
            Some(n) => with_number(before, n),
            None => before,
        }
    }
}

/// The number that a digit writes.
pub open spec fn digit_value(d: char) -> u32 {
    (d as int - 48) as u32
}

/// The numbers that digits write, each once, in increasing order.
pub open spec fn ordered_numbers(digits: Seq<char>) -> Seq<u32>
    decreases digits.len(),
{
    if digits.len() == 0 {
        Seq::empty()
    } else {
        with_number(ordered_numbers(digits.drop_last()), digit_value(digits.last()))
    }
}

/// The positions of the arguments that a batch file mentions, each once, in
/// increasing order.
pub open spec fn batch_positions(source: Seq<char>) -> Seq<u32> {
    ordered_numbers(grammar::argument_digits(source))
}

/// Whether a batch file mentions the argument `n` at position `i`.
pub open spec fn mentions(source: Seq<char>, i: int, n: u32) -> bool {
    match grammar::argument_at(source, i) {
        Some(d) => digit_value(d) == n,
        None => false,
    }
}

/// The control for the positional argument `n`.
pub open spec fn argument_control(n: u32) -> ParamView {
    ParamView {
        name: "arg"@ + text::decimal(n as nat),
        label: "Argument "@ + text::decimal(n as nat),
        kind: ParamKind::Text,
        required: false,
        is_switch: false,
        choices: Seq::empty(),
        value: Seq::empty(),
        bool_value: false,
        position: Some(n),
        custom: false,
        as_env: false,
    }
}

/// The controls for positional arguments.
pub open spec fn argument_controls(numbers: Seq<u32>) -> Seq<ParamView> {
    numbers.map_values(|n: u32| argument_control(n))
}

/// The controls for the positional arguments of a batch file.
pub open spec fn batch_params(source: Seq<char>) -> Seq<ParamView> {
    argument_controls(batch_positions(source))
}

/// Whether each number is less than those after it.
pub open spec fn increasing(numbers: Seq<u32>) -> bool {
    forall|i: int, j: int| 0 <= i < j < numbers.len() ==> numbers[i] < numbers[j]
}

proof fn lemma_with_number(numbers: Seq<u32>, n: u32)
    requires
        increasing(numbers),
    ensures
        increasing(with_number(numbers, n)),
        forall|m: u32| #[trigger]
            with_number(numbers, n).contains(m) <==> m == n || numbers.contains(m),
    decreases numbers.len(),
{
    let r = with_number(numbers, n);
    if numbers.len() == 0 || numbers.last() < n {
        assert(r[numbers.len() as int] == n);
        assert forall|m: u32| #[trigger] r.contains(m) <==> m == n || numbers.contains(m) by {
            if numbers.contains(m) {
                let k = choose|k: int| 0 <= k < numbers.len() && numbers[k] == m;
                assert(r[k] == m);
            }
        }
    } else if numbers.last() == n {
        assert(r[numbers.len() - 1] == n);
    } else {
        let front = numbers.drop_last();
        let inner = with_number(front, n);
        lemma_with_number(front, n);
        assert forall|i: int, j: int| 0 <= i < j < r.len() implies r[i] < r[j] by {
            if j == r.len() - 1 {
                assert(inner.contains(r[i]));
                if front.contains(r[i]) {
                    let k = choose|k: int| 0 <= k < front.len() && front[k] == r[i];
                    assert(numbers[k] < numbers[numbers.len() - 1]);
                }
            }
        }
        assert forall|m: u32| #[trigger] r.contains(m) <==> m == n || numbers.contains(m) by {
            assert(r.contains(m) <==> inner.contains(m) || m == numbers.last()) by {
                if inner.contains(m) {
                    let k = choose|k: int| 0 <= k < inner.len() && inner[k] == m;
                    assert(r[k] == m);
                }
                assert(r[r.len() - 1] == numbers.last());
            }
            assert(numbers.contains(m) <==> front.contains(m) || m == numbers.last()) by {
                if front.contains(m) {
                    let k = choose|k: int| 0 <= k < front.len() && front[k] == m;
                    assert(numbers[k] == m);
                }
                if numbers.contains(m) {
                    let k = choose|k: int| 0 <= k < numbers.len() && numbers[k] == m;
                    assert(k < front.len() ==> front[k] == m);
                }
                assert(numbers[numbers.len() - 1] == numbers.last());
            }
        }
    }
}

/// The arguments of a batch file come in increasing order, so none comes twice,
/// and they are exactly those whose numbers the file mentions.
pub proof fn arguments_are_ordered(captures: Seq<CaptureView>)
    ensures
        increasing(argument_numbers(captures)),
        forall|n: u32| #[trigger]
            argument_numbers(captures).contains(n) <==> exists|i: int|
                0 <= i < captures.len() && captured_number(#[trigger] captures[i]) == Some(n),
    decreases captures.len(),
{
    if captures.len() > 0 {
        let front = captures.drop_last();
        let before = argument_numbers(front);
        arguments_are_ordered(front);
        if let Some(n) = captured_number(captures.last()) {
            lemma_with_number(before, n);
        }
        assert forall|n: u32| #[trigger] argument_numbers(captures).contains(n) <==> exists|i: int|
            0 <= i < captures.len() && captured_number(#[trigger] captures[i]) == Some(n) by {
            if exists|i: int| 0 <= i < front.len() && captured_number(#[trigger] front[i]) == Some(n) {
                let i = choose|i: int|
                    0 <= i < front.len() && captured_number(#[trigger] front[i]) == Some(n);
                assert(captured_number(captures[i]) == Some(n));
            }
            if exists|i: int|
                0 <= i < captures.len() && captured_number(#[trigger] captures[i]) == Some(n) {
                let i = choose|i: int|
                    0 <= i < captures.len() && captured_number(#[trigger] captures[i]) == Some(n);
                if i < front.len() {
                    assert(captured_number(front[i]) == Some(n));
                }
            }
            assert(captured_number(captures.last()) == Some(n) ==> captured_number(
                captures[captures.len() - 1],
            ) == Some(n));
        }
    }
}

proof fn lemma_insert_at(numbers: Seq<u32>, n: u32, i: int)
    requires
        increasing(numbers),
        0 <= i <= numbers.len(),
        forall|k: int| 0 <= k < i ==> numbers[k] < n,
        i < numbers.len() ==> n <= numbers[i],
    ensures
        with_number(numbers, n) == (if i < numbers.len() && numbers[i] == n {
            numbers
        } else {
            numbers.insert(i, n)
        }),
    decreases numbers.len(),
{
    if i < numbers.len() && n < numbers.last() {
        let front = numbers.drop_last();
        lemma_insert_at(front, n, i);
        if i < front.len() && front[i] == n {
            assert(front.push(numbers.last()) =~= numbers);
        } else {
            assert(front.insert(i, n).push(numbers.last()) =~= numbers.insert(i, n));
        }
    } else if i < numbers.len() {
        assert(numbers.last() == n);
        assert(i == numbers.len() - 1);
    } else {
        assert(numbers.insert(i, n) =~= numbers.push(n));
    }
}

/// Adds `n` to numbers in increasing order.
fn insert_number(numbers: &mut Vec<u32>, n: u32)
    requires
        increasing(old(numbers)@),
    ensures
        final(numbers)@ == with_number(old(numbers)@, n),
        increasing(final(numbers)@),
{
    let mut i: usize = 0;
    while i < numbers.len() && numbers[i] < n
        invariant
            i <= numbers.len(),
            numbers@ == old(numbers)@,
            forall|k: int| 0 <= k < i ==> numbers@[k] < n,
        decreases numbers.len() - i,
    {
        i += 1;
    }
    proof {
        lemma_insert_at(numbers@, n, i as int);
        lemma_with_number(numbers@, n);
    }
    if i == numbers.len() || numbers[i] != n {
        numbers.insert(i, n);
    }
}

/// The numbers that the captures write, each once, in increasing order.
pub fn collect_numbers(captures: &Vec<Capture>) -> (r: Vec<u32>)
    ensures
        r@ == argument_numbers(pattern::captures_view(captures@)),
{
    let ghost views = pattern::captures_view(captures@);
    let mut seen: Vec<u32> = Vec::new();
    let mut i: usize = 0;
    assert(views.subrange(0, 0) =~= Seq::empty());
    while i < captures.len()
        invariant
            i <= captures.len(),
            views == pattern::captures_view(captures@),
            seen@ == argument_numbers(views.subrange(0, i as int)),
            increasing(seen@),
        decreases captures.len() - i,
    {
        assert(views.subrange(0, i + 1).drop_last() =~= views.subrange(0, i as int));
        assert(views.subrange(0, i + 1).last() == captures@[i as int]@);
        if let Some(g) = &captures[i].group {
            if let Some(n) = text::parse_number(g.text.as_str()) {
                insert_number(&mut seen, n);
            }
        }
        i += 1;
    }
    assert(views.subrange(0, i as int) =~= views);
    seen
}

/// The name of the positional argument `n`.
pub(crate) fn argument_name(n: u32) -> (r: String)
    ensures
        r@ == "arg"@ + text::decimal(n as nat),
{
    let mut s = String::new();
    s.append("arg");
    text::push_decimal(&mut s, n as u64);
    assert(s@ =~= "arg"@ + text::decimal(n as nat));
    s
}

/// The control for the positional argument `n`.
pub fn argument_param(n: u32) -> (r: Param)
    ensures
        r@ == argument_control(n),
{
    let name = argument_name(n);
    let mut label = String::new();
    label.append("Argument ");
    text::push_decimal(&mut label, n as u64);
    let choices: Vec<String> = Vec::new();
    assert(text::texts(choices@) =~= Seq::empty());
    assert(label@ =~= "Argument "@ + text::decimal(n as nat));
    Param {
        name,
        label,
        kind: ParamKind::Text,
        required: false,
        is_switch: false,
        choices,
        value: String::new(),
        bool_value: false,
        position: Some(n),
        custom: false,
        as_env: false,
    }
}

/// A digit other than zero writes a number from one to nine.
pub proof fn argument_numbers_are_digits(c: CaptureView)
    requires
        pattern::is_argument_number(c),
    ensures
        captured_number(c) == Some(digit_value(c.group->Some_0.text[0])),
        1 <= digit_value(c.group->Some_0.text[0]) <= 9,
{
    let t = c.group->Some_0.text;
    assert(text::after_sign(t) == t);
    assert(t.drop_last() =~= Seq::empty());
    reveal_with_fuel(text::digits_value, 2);
}

proof fn lemma_captured_digits(captures: Seq<CaptureView>, digits: Seq<char>)
    requires
        pattern::groups_are(captures, digits),
        forall|i: int| 0 <= i < digits.len() ==> '1' <= #[trigger] digits[i] <= '9',
    ensures
        argument_numbers(captures) == ordered_numbers(digits),
    decreases captures.len(),
{
    if captures.len() > 0 {
        let front = captures.drop_last();
        let last = captures[captures.len() - 1];
        assert(last.group->Some_0.text == seq![digits.last()]);
        argument_numbers_are_digits(last);
        assert forall|i: int| 0 <= i < front.len() implies ((#[trigger] front[i]).group matches Some(
            g,
        ) && g.text == seq![digits.drop_last()[i]]) by {
            assert(front[i] == captures[i]);
        }
        lemma_captured_digits(front, digits.drop_last());
    }
}

proof fn lemma_ordered_numbers(digits: Seq<char>)
    ensures
        increasing(ordered_numbers(digits)),
        forall|n: u32| #[trigger]
            ordered_numbers(digits).contains(n) <==> exists|i: int|
                0 <= i < digits.len() && digit_value(#[trigger] digits[i]) == n,
    decreases digits.len(),
{
    if digits.len() > 0 {
        let front = digits.drop_last();
        let before = ordered_numbers(front);
        lemma_ordered_numbers(front);
        lemma_with_number(before, digit_value(digits.last()));
        assert forall|n: u32| #[trigger] ordered_numbers(digits).contains(n) <==> exists|i: int|
            0 <= i < digits.len() && digit_value(#[trigger] digits[i]) == n by {
            if before.contains(n) {
                let i = choose|i: int| 0 <= i < front.len() && digit_value(#[trigger] front[i]) == n;
                assert(digit_value(digits[i]) == n);
            }
            if exists|i: int| 0 <= i < digits.len() && digit_value(#[trigger] digits[i]) == n {
                let i = choose|i: int|
                    0 <= i < digits.len() && digit_value(#[trigger] digits[i]) == n;
                if i < front.len() {
                    assert(digit_value(front[i]) == n);
                }
            }
            assert(digits[digits.len() - 1] == digits.last());
        }
    }
}

/// Numbers in increasing order that are the same numbers are the same list.
proof fn lemma_same_numbers(a: Seq<u32>, b: Seq<u32>)
    requires
        increasing(a),
        increasing(b),
        forall|n: u32| #[trigger] a.contains(n) <==> b.contains(n),
    ensures
        a == b,
    decreases a.len(),
{
    if a.len() == 0 {
        if b.len() > 0 {
            assert(b.contains(b[0]));
            assert(a.contains(b[0]));
        }
        assert(a =~= b);
    } else {
        let x = a[a.len() - 1];
        assert(a.contains(x));
        assert(b.contains(x));
        let y = b[b.len() - 1];
        assert(b.contains(y));
        assert(a.contains(y));
        assert(x == y) by {
            let i = choose|i: int| 0 <= i < b.len() && b[i] == x;
            let j = choose|j: int| 0 <= j < a.len() && a[j] == y;
            assert(i < b.len() - 1 ==> b[i] < b[b.len() - 1]);
            assert(j < a.len() - 1 ==> a[j] < a[a.len() - 1]);
        }
        let p = a.drop_last();
        let q = b.drop_last();
        assert forall|n: u32| #[trigger] p.contains(n) <==> q.contains(n) by {
            if p.contains(n) {
                let i = choose|i: int| 0 <= i < p.len() && p[i] == n;
                assert(a[i] == n && a[i] < a[a.len() - 1]);
                assert(a.contains(n));
                let j = choose|j: int| 0 <= j < b.len() && b[j] == n;
                assert(q[j] == n);
            }
            if q.contains(n) {
                let i = choose|i: int| 0 <= i < q.len() && q[i] == n;
                assert(b[i] == n && b[i] < b[b.len() - 1]);
                assert(b.contains(n));
                assert(a.contains(n));
                let j = choose|j: int| 0 <= j < a.len() && a[j] == n;
                assert(p[j] == n);
            }
        }
        lemma_same_numbers(p, q);
        assert(a =~= p.push(x));
        assert(b =~= q.push(x));
    }
}

/// A batch file has a control for exactly the positions that it mentions, in
/// increasing order, so none comes twice.
pub proof fn positions_are_those_mentioned(source: Seq<char>)
    ensures
        increasing(batch_positions(source)),
        forall|n: u32| #[trigger]
            batch_positions(source).contains(n) <==> exists|i: int|
                0 <= i < source.len() && #[trigger] mentions(source, i, n),
{
    let digits = grammar::argument_digits(source);
    lemma_ordered_numbers(digits);
    assert forall|n: u32| #[trigger] batch_positions(source).contains(n) <==> exists|i: int|
        0 <= i < source.len() && #[trigger] mentions(source, i, n) by {
        lemma_digits_before(source, source.len() as int, n);
    }
}

proof fn lemma_digits_before(source: Seq<char>, k: int, n: u32)
    ensures
        (exists|i: int|
            0 <= i < grammar::digits_before(source, k).len() && digit_value(
                #[trigger] grammar::digits_before(source, k)[i],
            ) == n) <==> exists|i: int|
            0 <= i < k && #[trigger] mentions(source, i, n),
    decreases k,
{
    let all = grammar::digits_before(source, k);
    if k > 0 {
        lemma_digits_before(source, k - 1, n);
        let before = grammar::digits_before(source, k - 1);
        if exists|i: int| 0 <= i < before.len() && digit_value(#[trigger] before[i]) == n {
            let i = choose|i: int| 0 <= i < before.len() && digit_value(#[trigger] before[i]) == n;
            assert(digit_value(all[i]) == n);
        }
        if exists|i: int| 0 <= i < all.len() && digit_value(#[trigger] all[i]) == n {
            let i = choose|i: int| 0 <= i < all.len() && digit_value(#[trigger] all[i]) == n;
            if i < before.len() {
                assert(digit_value(before[i]) == n);
            } else {
                assert(mentions(source, k - 1, n));
            }
        }
        if mentions(source, k - 1, n) {
            assert(digit_value(all[all.len() - 1]) == n);
        }
    }
}

/// The positions of two texts with a line feed between them are those of the one
/// and those of the other, so it does not matter which comes first.
pub proof fn parts_share_their_positions(a: Seq<char>, b: Seq<char>)
    ensures
        forall|n: u32| #[trigger]
            batch_positions(grammar::two_parts(a, b)).contains(n) <==> batch_positions(a).contains(n)
                || batch_positions(b).contains(n),
        batch_params(grammar::two_parts(a, b)) == batch_params(grammar::two_parts(b, a)),
{
    lemma_joined_positions(a, b);
    lemma_joined_positions(b, a);
    lemma_ordered_numbers(grammar::argument_digits(grammar::two_parts(a, b)));
    lemma_ordered_numbers(grammar::argument_digits(grammar::two_parts(b, a)));
    lemma_same_numbers(
        batch_positions(grammar::two_parts(a, b)),
        batch_positions(grammar::two_parts(b, a)),
    );
}

proof fn lemma_joined_positions(a: Seq<char>, b: Seq<char>)
    ensures
        forall|n: u32| #[trigger]
            batch_positions(grammar::two_parts(a, b)).contains(n) <==> batch_positions(a).contains(n)
                || batch_positions(b).contains(n),
{
    let x = grammar::argument_digits(a);
    let y = grammar::argument_digits(b);
    let all = x + y;
    grammar::parts_keep_their_arguments(a, b);
    lemma_ordered_numbers(x);
    lemma_ordered_numbers(y);
    lemma_ordered_numbers(all);
    assert forall|n: u32| #[trigger] ordered_numbers(all).contains(n) <==> ordered_numbers(
        x,
    ).contains(n) || ordered_numbers(y).contains(n) by {
        if ordered_numbers(all).contains(n) {
            let i = choose|i: int| 0 <= i < all.len() && digit_value(#[trigger] all[i]) == n;
            if i < x.len() {
                assert(digit_value(x[i]) == n);
            } else {
                assert(digit_value(y[i - x.len()]) == n);
            }
        }
        if ordered_numbers(x).contains(n) {
            let i = choose|i: int| 0 <= i < x.len() && digit_value(#[trigger] x[i]) == n;
            assert(digit_value(all[i]) == n);
        }
        if ordered_numbers(y).contains(n) {
            let i = choose|i: int| 0 <= i < y.len() && digit_value(#[trigger] y[i]) == n;
            assert(digit_value(all[x.len() + i]) == n);
        }
    }
}

/// Detect positional arguments (`%1`..`%9`, including `%~dp1` style modifiers)
/// in a batch/cmd file and turn each into an ordered Text control.
pub fn parse_batch(source: &str) -> (r: Vec<Param>)
    ensures
        model::params_view(r@) == batch_params(source@),
        forall|i: int|
            0 <= i < r.len() ==> ((#[trigger] r@[i]).position matches Some(n) && 1 <= n <= 9),
        forall|i: int, j: int|
            0 <= i < j < r.len() ==> (#[trigger] r@[i]).position->Some_0 < (
            #[trigger] r@[j]).position->Some_0,
{
    let argument = pattern::compile(patterns::BATCH_ARGUMENT);
    let found = pattern::captures_all(&argument, source);
    let numbers = collect_numbers(&found);
    proof {
        let digits = grammar::argument_digits(source@);
        grammar::digits_are_not_zero(source@, source@.len() as int);
        lemma_captured_digits(pattern::captures_view(found@), digits);
        lemma_ordered_numbers(digits);
        assert forall|i: int| 0 <= i < numbers.len() implies 1 <= #[trigger] numbers@[i] <= 9 by {
            assert(numbers@.contains(numbers@[i]));
            let k = choose|k: int|
                0 <= k < digits.len() && digit_value(#[trigger] digits[k]) == numbers@[i];
            assert('1' <= digits[k] <= '9');
        }
    }
    let mut out: Vec<Param> = Vec::new();
    let mut i: usize = 0;
    while i < numbers.len()
        invariant
            i <= numbers.len(),
            out.len() == i,
            forall|k: int| 0 <= k < i ==> (#[trigger] out@[k])@ == argument_control(numbers@[k]),
        decreases numbers.len() - i,
    {
        out.push(argument_param(numbers[i]));
        i += 1;
    }
    assert(model::params_view(out@) =~= argument_controls(numbers@));
    assert(forall|k: int|
        0 <= k < out.len() ==> (#[trigger] out@[k]).position == out@[k]@.position);
    out
}

/// Every control of a batch file is a text field for one position, and nothing
/// of it is the user's.
pub proof fn batch_controls_are_detected(source: Seq<char>, i: int)
    requires
        0 <= i < batch_params(source).len(),
    ensures
        batch_params(source)[i].kind == ParamKind::Text,
        batch_params(source)[i].position is Some,
        !batch_params(source)[i].custom,
        !batch_params(source)[i].as_env,
        !batch_params(source)[i].required,
{
}

// ---------------------------------------------------------------------------
// What the parsers promise
// ---------------------------------------------------------------------------

proof fn lemma_after_equals(gap: Seq<char>, rest: Seq<char>)
    requires
        forall|k: int| 0 <= k < gap.len() ==> #[trigger] gap[k] == ' ' || gap[k] == '=',
        rest.len() > 0 ==> rest[0] != ' ' && rest[0] != '=',
    ensures
        after_equals(gap + rest) == rest,
    decreases gap.len(),
{
    let all = gap + rest;
    if gap.len() > 0 {
        assert(gap[0] == ' ' || gap[0] == '=');
        assert(all.drop_first() =~= gap.drop_first() + rest);
        assert forall|k: int| 0 <= k < gap.drop_first().len() implies #[trigger] gap.drop_first()[k]
            == ' ' || gap.drop_first()[k] == '=' by {
            assert(gap[k + 1] == ' ' || gap[k + 1] == '=');
        }
        lemma_after_equals(gap.drop_first(), rest);
    } else {
        assert(all =~= rest);
    }
}

proof fn lemma_after_equals_ends(s: Seq<char>)
    ensures
        after_equals(s).len() <= s.len(),
        after_equals(s) == s.subrange(s.len() - after_equals(s).len(), s.len() as int),
    decreases s.len(),
{
    if s.len() > 0 && (s[0] == ' ' || s[0] == '=') {
        lemma_after_equals_ends(s.drop_first());
        let r = after_equals(s);
        assert(s.drop_first().subrange(s.len() - 1 - r.len(), s.len() - 1) =~= s.subrange(
            s.len() - r.len(),
            s.len() as int,
        ));
    } else {
        assert(s =~= s.subrange(0, s.len() as int));
    }
}

/// An attribute in lower case makes its parameter mandatory wherever the word stands
/// in it, whatever comes before: unless, behind spaces and equals signs, `$false`
/// follows the first occurrence of the word. An attribute without the word does not.
pub proof fn mandatory_counts_anywhere(
    before: Seq<char>,
    gap: Seq<char>,
    rest: Seq<char>,
    other: Seq<char>,
)
    requires
        forall|k: int| 0 <= k < gap.len() ==> #[trigger] gap[k] == ' ' || gap[k] == '=',
        rest.len() > 0 ==> rest[0] != ' ' && rest[0] != '=',
        forall|i: int|
            0 <= i < before.len() ==> !#[trigger] text::stands_at(
                before + "mandatory"@ + gap + rest,
                i,
                "mandatory"@,
            ),
    ensures
        is_mandatory(before + "mandatory"@ + gap + rest) <==> !text::stands_at(rest, 0, "$false"@),
        !text::occurs(other, "mandatory"@) ==> !is_mandatory(other),
        text::occurs(other, "mandatory"@) && !text::occurs(other, "$false"@) ==> is_mandatory(other),
{
    let word = "mandatory"@;
    let all = before + word + gap + rest;
    let i = before.len() as int;
    let n = word.len() as int;
    assert(all.subrange(i, i + n) =~= word);
    assert(text::stands_at(all, i, word));
    text::first_is_first(all, word, 0);
    let found = text::first_from(all, word, 0);
    assert(found == Some(i)) by {
        let j = found->Some_0;
        if j < i {
            assert(!text::stands_at(all, j, word));
        }
    }
    assert(all.subrange(i + n, all.len() as int) =~= gap + rest);
    lemma_after_equals(gap, rest);

    text::first_is_first(other, word, 0);
    if let Some(j) = text::first_from(other, word, 0) {
        assert(text::stands_at(other, j, word));
        let tail = other.subrange(j + n, other.len() as int);
        let stripped = after_equals(tail);
        lemma_after_equals_ends(tail);
        if text::stands_at(stripped, 0, "$false"@) {
            let k = other.len() - stripped.len();
            let m = "$false"@.len() as int;
            assert(stripped.subrange(0, m) =~= other.subrange(k, k + m));
            assert(text::stands_at(other, k, "$false"@));
        }
    } else {
        assert(forall|j: int| !#[trigger] text::stands_at(other, j, word));
    }
}

/// A parameter is required exactly when one of its attributes, in any case of
/// letters, makes it mandatory; which attribute it is does not matter.
pub proof fn any_attribute_can_require(
    name: Seq<char>,
    attrs: Seq<Seq<char>>,
    choices: Seq<Seq<char>>,
    default: Option<Seq<char>>,
)
    ensures
        control_for(declared_by(name, attrs, choices, default)).required <==> exists|i: int|
            0 <= i < attrs.len() && is_mandatory(unicode::lowercase(#[trigger] attrs[i])),
{
    let lower = all_lower(attrs);
    if exists|i: int| 0 <= i < attrs.len() && is_mandatory(unicode::lowercase(#[trigger] attrs[i])) {
        let i = choose|i: int|
            0 <= i < attrs.len() && is_mandatory(unicode::lowercase(#[trigger] attrs[i]));
        assert(is_mandatory(lower[i]));
    }
    if any_mandatory(lower) {
        let i = choose|i: int| 0 <= i < lower.len() && is_mandatory(#[trigger] lower[i]);
        assert(is_mandatory(unicode::lowercase(attrs[i])));
    }
}

/// Whether one of the attributes is one of the types, whatever the case of letters.
pub open spec fn has_type(attrs: Seq<Seq<char>>, types: Seq<Seq<char>>) -> bool {
    exists|i: int, k: int|
        0 <= i < attrs.len() && 0 <= k < types.len() && unicode::lowercase(#[trigger] attrs[i])
            == #[trigger] types[k]
}

/// The types that get a checkbox.
pub open spec fn checkbox_types() -> Seq<Seq<char>> {
    seq!["switch"@, "bool"@, "boolean"@, "system.boolean"@]
}

/// The types that get a number field.
pub open spec fn number_types() -> Seq<Seq<char>> {
    seq![
        "int"@,
        "int16"@,
        "int32"@,
        "int64"@,
        "long"@,
        "double"@,
        "single"@,
        "float"@,
        "decimal"@,
        "byte"@,
        "uint16"@,
        "uint32"@,
        "uint64"@,
    ]
}

proof fn lemma_types(attrs: Seq<Seq<char>>)
    ensures
        all_lower(attrs).contains("switch"@) <==> has_type(attrs, seq!["switch"@]),
        (all_lower(attrs).contains("switch"@) || any_bool_type(all_lower(attrs))) <==> has_type(
            attrs,
            checkbox_types(),
        ),
        any_number_type(all_lower(attrs)) <==> has_type(attrs, number_types()),
{
    let lower = all_lower(attrs);
    let one = seq!["switch"@];
    let boxes = checkbox_types();
    let numbers = number_types();
    if lower.contains("switch"@) {
        let i = choose|i: int| 0 <= i < lower.len() && lower[i] == "switch"@;
        assert(unicode::lowercase(attrs[i]) == one[0]);
        assert(unicode::lowercase(attrs[i]) == boxes[0]);
    }
    if has_type(attrs, one) {
        let (i, k) = choose|i: int, k: int|
            0 <= i < attrs.len() && 0 <= k < one.len() && unicode::lowercase(#[trigger] attrs[i])
                == #[trigger] one[k];
        assert(lower[i] == "switch"@);
    }
    if any_bool_type(lower) {
        let i = choose|i: int| 0 <= i < lower.len() && is_bool_type(#[trigger] lower[i]);
        let k = if lower[i] == "bool"@ {
            1int
        } else if lower[i] == "boolean"@ {
            2
        } else {
            3
        };
        assert(unicode::lowercase(attrs[i]) == boxes[k]);
    }
    if has_type(attrs, boxes) {
        let (i, k) = choose|i: int, k: int|
            0 <= i < attrs.len() && 0 <= k < boxes.len() && unicode::lowercase(#[trigger] attrs[i])
                == #[trigger] boxes[k];
        if k == 0 {
            assert(lower[i] == "switch"@);
        } else {
            assert(is_bool_type(lower[i]));
        }
    }
    if any_number_type(lower) {
        let i = choose|i: int| 0 <= i < lower.len() && is_number_type(#[trigger] lower[i]);
        let t = lower[i];
        let k = if t == "int"@ {
            0int
        } else if t == "int16"@ {
            1
        } else if t == "int32"@ {
            2
        } else if t == "int64"@ {
            3
        } else if t == "long"@ {
            4
        } else if t == "double"@ {
            5
        } else if t == "single"@ {
            6
        } else if t == "float"@ {
            7
        } else if t == "decimal"@ {
            8
        } else if t == "byte"@ {
            9
        } else if t == "uint16"@ {
            10
        } else if t == "uint32"@ {
            11
        } else {
            12
        };
        assert(unicode::lowercase(attrs[i]) == numbers[k]);
    }
    if has_type(attrs, numbers) {
        let (i, k) = choose|i: int, k: int|
            0 <= i < attrs.len() && 0 <= k < numbers.len() && unicode::lowercase(
                #[trigger] attrs[i],
            ) == #[trigger] numbers[k];
        assert(is_number_type(lower[i]));
    }
}

/// The types of a parameter decide its control: a switch or a boolean gets a
/// checkbox; else listed values get a dropdown; else a number type gets a number
/// field; else the name decides: a folder picker where it says folder or dir, else a
/// file picker where it says file or path, else a text field. The control has the
/// name, its label and the listed values, and is bound to nothing else.
pub proof fn types_decide_the_control(
    name: Seq<char>,
    attrs: Seq<Seq<char>>,
    choices: Seq<Seq<char>>,
    default: Option<Seq<char>>,
)
    ensures
        ({
            let p = control_for(declared_by(name, attrs, choices, default));
            let n = unicode::lowercase(name);
            let plain = !has_type(attrs, checkbox_types()) && choices.len() == 0 && !has_type(
                attrs,
                number_types(),
            );
            let folder = text::occurs(n, "folder"@) || text::occurs(n, "dir"@);
            let file = text::occurs(n, "file"@) || text::occurs(n, "path"@);
            &&& p.kind == ParamKind::Bool <==> has_type(attrs, checkbox_types())
            &&& p.kind == ParamKind::Choice <==> !has_type(attrs, checkbox_types())
                && choices.len() > 0
            &&& p.kind == ParamKind::Number <==> !has_type(attrs, checkbox_types())
                && choices.len() == 0 && has_type(attrs, number_types())
            &&& p.kind == ParamKind::FolderPath <==> plain && folder
            &&& p.kind == ParamKind::FilePath <==> plain && !folder && file
            &&& p.kind == ParamKind::Text <==> plain && !folder && !file
            &&& p.is_switch <==> has_type(attrs, seq!["switch"@])
            &&& declared_by(name, attrs, choices, default).default == default
            &&& p.name == name
            &&& p.label == label_of(name)
            &&& p.choices == choices
            &&& p.position is None
            &&& !p.custom
            &&& !p.as_env
        }),
{
    lemma_types(attrs);
}

/// A default fills in the control: a checkbox is ticked exactly where it says
/// `$true` or `true`, in any case of ASCII letters; any other control holds it
/// without the quotes around it. A dropdown that is left empty by it holds its first
/// value.
pub proof fn defaults_fill_in_the_control(d: DeclarationView)
    ensures
        ({
            let p = control_for(d);
            let given = match d.default {
                Some(v) => unquoted(v),
                None => Seq::empty(),
            };
            &&& p.kind == ParamKind::Bool ==> p.value.len() == 0
            &&& p.bool_value <==> p.kind == ParamKind::Bool && (d.default matches Some(v) && (
            text::ascii_lowered(text::trimmed(v)) == seq!['$', 't', 'r', 'u', 'e']
                || text::ascii_lowered(text::trimmed(v)) == seq!['t', 'r', 'u', 'e']))
            &&& p.kind != ParamKind::Bool && given.len() > 0 ==> p.value == given
            &&& p.kind == ParamKind::Choice && given.len() == 0 ==> p.value == p.choices[0]
            &&& p.kind != ParamKind::Bool && p.kind != ParamKind::Choice && given.len() == 0
                ==> p.value.len() == 0
        }),
{
    reveal_strlit("$true");
    reveal_strlit("true");
    assert(text::ascii_lowered("$true"@) =~= seq!['$', 't', 'r', 'u', 'e']);
    assert(text::ascii_lowered("true"@) =~= seq!['t', 'r', 'u', 'e']);
}

/// Taking off quotes takes off one pair of equal quotes around the trimmed text, be
/// they single or double, and keeps what is between them as it is. Without such a
/// pair the trimmed text stays.
pub proof fn only_a_pair_of_quotes_is_taken_off(s: Seq<char>, inner: Seq<char>)
    ensures
        text::trimmed(s) == seq!['"'] + inner + seq!['"'] ==> unquoted(s) == inner,
        text::trimmed(s) == seq!['\''] + inner + seq!['\''] ==> unquoted(s) == inner,
        ({
            let t = text::trimmed(s);
            t.len() < 2 || t[0] != t[t.len() - 1] || (t[0] != '"' && t[0] != '\'') ==> unquoted(s)
                == t
        }),
{
    let t = text::trimmed(s);
    if t == seq!['"'] + inner + seq!['"'] {
        assert(t.subrange(1, t.len() - 1) =~= inner);
    }
    if t == seq!['\''] + inner + seq!['\''] {
        assert(t.subrange(1, t.len() - 1) =~= inner);
    }
}

/// A label keeps the characters of the name in their order: an underscore or a hyphen
/// becomes a space, a capital behind a small letter or a number gets a space before
/// it, and every other character stays. Then the first one is put in upper case.
pub proof fn labels_put_words_apart(name: Seq<char>, c: char)
    ensures
        spaced(Seq::empty()).len() == 0,
        c == '_' || c == '-' ==> spaced(name.push(c)) == spaced(name) + seq![' '],
        c != '_' && c != '-' && unicode::is_upper(c) && name.len() > 0 && (unicode::is_lower(
            name[name.len() - 1],
        ) || unicode::is_numeral(name[name.len() - 1])) ==> spaced(name.push(c)) == spaced(name)
            + seq![' ', c],
        c != '_' && c != '-' && !(unicode::is_upper(c) && name.len() > 0 && (unicode::is_lower(
            name[name.len() - 1],
        ) || unicode::is_numeral(name[name.len() - 1]))) ==> spaced(name.push(c)) == spaced(name)
            + seq![c],
        spaced(name).len() == 0 ==> label_of(name).len() == 0,
        spaced(name).len() > 0 ==> label_of(name) == unicode::uppercase(spaced(name)[0]) + spaced(
            name,
        ).subrange(1, spaced(name).len() as int),
{
    let all = name.push(c);
    assert(all.drop_last() =~= name);
    assert(all.last() == c);
    assert(name.len() > 0 ==> all[all.len() - 2] == name[name.len() - 1]);
    let before = spaced(name);
    assert(before.push(' ') =~= before + seq![' ']);
    assert(before.push(' ').push(c) =~= before + seq![' ', c]);
    assert(before.push(c) =~= before + seq![c]);
    if before.len() > 0 {
        assert(before.drop_first() =~= before.subrange(1, before.len() as int));
    }
}

proof fn lemma_group_texts(captures: Seq<CaptureView>)
    requires
        forall|i: int| 0 <= i < captures.len() ==> (#[trigger] captures[i]).group is Some,
    ensures
        group_texts(captures).len() == captures.len(),
        forall|i: int|
            0 <= i < captures.len() ==> #[trigger] group_texts(captures)[i]
                == captures[i].group->Some_0.text,
    decreases captures.len(),
{
    if captures.len() > 0 {
        let front = captures.drop_last();
        assert forall|i: int| 0 <= i < front.len() implies (#[trigger] front[i]).group is Some by {
            assert(captures[i].group is Some);
        }
        lemma_group_texts(front);
        assert(captures[captures.len() - 1].group is Some);
        assert forall|i: int| 0 <= i < captures.len() implies #[trigger] group_texts(captures)[i]
            == captures[i].group->Some_0.text by {
            if i < front.len() {
                assert(group_texts(captures)[i] == group_texts(front)[i]);
            }
        }
    }
}

/// The attributes of a declaration are what stands in its brackets: one for each
/// pair, in their order, without the white space around them.
pub proof fn brackets_hold_attributes(decl: Seq<char>, i: int)
    requires
        forall|k: int|
            0 <= k < pattern::rx_captures_iter(patterns::ATTRIBUTE@, decl).len() ==> (
            #[trigger] pattern::rx_captures_iter(patterns::ATTRIBUTE@, decl)[k]).group is Some,
    ensures
        attributes_of(decl).len() == pattern::rx_captures_iter(patterns::ATTRIBUTE@, decl).len(),
        0 <= i < pattern::rx_captures_iter(patterns::ATTRIBUTE@, decl).len()
            ==> attributes_of(decl)[i] == text::trimmed(
            pattern::rx_captures_iter(patterns::ATTRIBUTE@, decl)[i].group->Some_0.text,
        ),
{
    lemma_group_texts(pattern::rx_captures_iter(patterns::ATTRIBUTE@, decl));
}

/// The listed values are those of the last attribute that starts with the word for
/// listing them, in any case of letters: all that it quotes, in their order. Without
/// such an attribute none are listed.
pub proof fn last_list_of_values_counts(attrs: Seq<Seq<char>>, attr: Seq<char>, i: int)
    ensures
        listed_values(Seq::empty()).len() == 0,
        text::stands_at(unicode::lowercase(attr), 0, "validateset"@) && (forall|k: int|
            0 <= k < pattern::rx_captures_iter(patterns::QUOTED@, attr).len() ==> (
            #[trigger] pattern::rx_captures_iter(patterns::QUOTED@, attr)[k]).group is Some)
            ==> listed_values(attrs.push(attr)).len() == pattern::rx_captures_iter(
            patterns::QUOTED@,
            attr,
        ).len() && (0 <= i < pattern::rx_captures_iter(patterns::QUOTED@, attr).len()
            ==> listed_values(attrs.push(attr))[i] == pattern::rx_captures_iter(
            patterns::QUOTED@,
            attr,
        )[i].group->Some_0.text),
        !text::stands_at(unicode::lowercase(attr), 0, "validateset"@) ==> listed_values(
            attrs.push(attr),
        ) == listed_values(attrs),
{
    assert(attrs.push(attr).drop_last() =~= attrs);
    let quoted = pattern::rx_captures_iter(patterns::QUOTED@, attr);
    if forall|k: int| 0 <= k < quoted.len() ==> (#[trigger] quoted[k]).group is Some {
        lemma_group_texts(quoted);
    }
}

/// A declaration without its attributes gives the parameter: the first variable is
/// its name, and what follows the equals sign behind a variable its default; the
/// attributes give its types and its values. Without a variable there is none.
pub proof fn declarations_name_a_variable(decl: Seq<char>)
    ensures
        ({
            let without = pattern::rx_replace_all(patterns::ATTRIBUTE@, decl, seq![' ']);
            let named = pattern::rx_captures(patterns::VARIABLE@, without);
            let valued = pattern::rx_captures(patterns::DEFAULT_VALUE@, without);
            &&& param_declared(decl) is Some <==> named is Some && named->Some_0.group is Some
            &&& param_declared(decl) matches Some(p) ==> p.name
                == named->Some_0.group->Some_0.text && p == control_for(
                declared_by(
                    named->Some_0.group->Some_0.text,
                    attributes_of(decl),
                    listed_values(attributes_of(decl)),
                    match valued {
                        Some(c) => match c.group {
                            Some(g) => Some(g.text),
                            None => None,
                        },
                        None => None,
                    },
                ),
            )
        }),
{
    reveal_strlit(" ");
    assert(" "@ =~= seq![' ']);
}

/// The controls of a script are those of its declarations, in their order: each
/// declaration that names a variable adds one, and no other does.
pub proof fn declarations_add_controls(decls: Seq<Seq<char>>, decl: Seq<char>)
    ensures
        params_declared(Seq::empty()).len() == 0,
        param_declared(decl) matches Some(p) ==> params_declared(decls.push(decl))
            == params_declared(decls).push(p),
        param_declared(decl) is None ==> params_declared(decls.push(decl)) == params_declared(decls),
{
    assert(decls.push(decl).drop_last() =~= decls);
}

/// A script has the controls of its block, once block comments are out of it, and
/// none without a block.
pub proof fn blocks_hold_the_controls(source: Seq<char>)
    ensures
        param_block(grammar::without_comments(source)) matches Some(inner) ==> powershell_params(
            source,
        ) == params_declared(scan::declarations(inner)),
        param_block(grammar::without_comments(source)) is None ==> powershell_params(source).len()
            == 0,
{
}

/// The control for an argument of a batch file is an empty text field that is not
/// required, named and labelled by its number and bound to that position. There is
/// one for each position, in their order.
pub proof fn arguments_get_text_fields(source: Seq<char>, i: int)
    requires
        0 <= i < batch_params(source).len(),
    ensures
        batch_params(source).len() == batch_positions(source).len(),
        ({
            let p = batch_params(source)[i];
            let n = batch_positions(source)[i];
            &&& p.position == Some(n)
            &&& p.name == "arg"@ + text::decimal(n as nat)
            &&& p.label == "Argument "@ + text::decimal(n as nat)
            &&& p.kind == ParamKind::Text
            &&& !p.required
            &&& !p.is_switch
            &&& p.value.len() == 0
            &&& p.choices.len() == 0
            &&& !p.bool_value
            &&& !p.custom
            &&& !p.as_env
        }),
{
}

/// A digit stands for its distance from zero.
pub proof fn digits_stand_for_numbers(d: char)
    requires
        '0' <= d <= '9',
    ensures
        digit_value(d) == d as int - '0' as int,
{
}

/// The block of a script is what the parenthesis encloses that the first `param (`
/// opens. Without that opening there is no block.
pub proof fn blocks_follow_their_opening(s: Seq<char>)
    ensures
        pattern::rx_find(patterns::PARAM_OPEN@, s) matches Some((start, end)) ==> param_block(s)
            == scan::enclosed(span::slice(s, end, encode_utf8(s).len() as int)),
        pattern::rx_find(patterns::PARAM_OPEN@, s) is None ==> param_block(s) is None,
{
}

/// A batch file has a control for a position exactly when it mentions the position's
/// digit as an argument.
pub proof fn mentioned_digits_are_positions(source: Seq<char>, n: u32)
    requires
        1 <= n <= 9,
    ensures
        batch_positions(source).contains(n) <==> exists|i: int|
            0 <= i < source.len() && #[trigger] grammar::argument_at(source, i) == Some(
                (n + '0' as u32) as char,
            ),
{
    positions_are_those_mentioned(source);
    if batch_positions(source).contains(n) {
        let i = choose|i: int| 0 <= i < source.len() && #[trigger] mentions(source, i, n);
        let d = grammar::argument_at(source, i)->Some_0;
        assert('1' <= d <= '9');
        assert(d == (n + '0' as u32) as char);
    }
    if exists|i: int|
        0 <= i < source.len() && #[trigger] grammar::argument_at(source, i) == Some(
            (n + '0' as u32) as char,
        ) {
        let i = choose|i: int|
            0 <= i < source.len() && #[trigger] grammar::argument_at(source, i) == Some(
                (n + '0' as u32) as char,
            );
        assert(mentions(source, i, n));
    }
}

/// The texts of groups are collected in the order of the matches.
pub proof fn groups_are_collected(captures: Seq<CaptureView>, c: CaptureView)
    ensures
        group_texts(Seq::empty()).len() == 0,
        c.group matches Some(g) ==> group_texts(captures.push(c)) == group_texts(captures).push(
            g.text,
        ),
        c.group is None ==> group_texts(captures.push(c)) == group_texts(captures),
{
    assert(captures.push(c).drop_last() =~= captures);
}

/// What is said of a declaration is said of its fields, and of an optional value of the
/// value.
pub proof fn declarations_are_their_fields(
    d: Declaration,
    s: Option<String>,
    p: Option<Param>,
    i: int,
)
    ensures
        d@.name == d.name@,
        d@.is_switch == d.is_switch,
        d@.is_bool == d.is_bool,
        d@.is_number == d.is_number,
        d@.required == d.required,
        d@.choices.len() == d.choices@.len(),
        0 <= i < d.choices@.len() ==> d@.choices[i] == d.choices@[i]@,
        d@.default == text_option(d.default),
        s matches Some(t) ==> text_option(s) == Some(t@),
        s is None ==> text_option(s) is None,
        p matches Some(q) ==> param_option(p) == Some(q@),
        p is None ==> param_option(p) is None,
{
}

} // verus!
