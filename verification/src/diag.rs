//! Diagnostics: pure, immutable values collected during construction and
//! resolution. They never abort processing; they are reported alongside a
//! best-effort result.

use vstd::prelude::*;
use vstd::string::StrSliceExecFns;
use vstd::string::StringExecFns;

verus! {

/// The kind of a validation diagnostic found at construction time.
#[derive(Clone, Copy, PartialEq, Eq, Structural, Debug)]
pub enum ValidationErrorKind {
    /// A later definition overrides an earlier one with the same id.
    DuplicateId,
    /// A reference to a message that no merged resource defines.
    UnknownMessage,
    /// A reference to an attribute its owner does not carry.
    UnknownAttribute,
    /// A reference to a term that no merged resource defines.
    UnknownTerm,
    /// A positional argument passed to a term, which the formatting engine
    /// silently drops.
    IgnoredPositionalArgument,
    /// A cycle in the message/term reference graph.
    CyclicReference,
}

/// A validation diagnostic: its kind, a human-readable message, the id of
/// the entry that owns the offending pattern, and the referenced id.
#[derive(Debug)]
pub struct ValidationError {
    pub kind: ValidationErrorKind,
    pub message: String,
    pub entry_id: Option<String>,
    pub reference: Option<String>,
}

/// The mathematical content of a validation diagnostic.
pub ghost struct ValidationErrorView {
    pub kind: ValidationErrorKind,
    pub message: Seq<char>,
    pub entry_id: Option<Seq<char>>,
    pub reference: Option<Seq<char>>,
}

/// The content of an optional string.
pub open spec fn opt_str_view(o: Option<String>) -> Option<Seq<char>> {
    match o {
        Some(s) => Some(s@),
        None => None,
    }
}

impl ValidationError {
    /// The content of the diagnostic.
    pub open spec fn v(self) -> ValidationErrorView {
        ValidationErrorView {
            kind: self.kind,
            message: self.message@,
            entry_id: opt_str_view(self.entry_id),
            reference: opt_str_view(self.reference),
        }
    }

    /// A copy with the same content.
    pub fn duplicate(&self) -> (r: ValidationError)
        ensures
            r.v() == self.v(),
    {
        ValidationError {
            kind: self.kind,
            message: self.message.clone(),
            entry_id: clone_opt(&self.entry_id),
            reference: clone_opt(&self.reference),
        }
    }
}

/// The contents of a vector of validation diagnostics, in order.
pub open spec fn verr_views(s: Seq<ValidationError>) -> Seq<ValidationErrorView> {
    s.map_values(|e: ValidationError| e.v())
}

/// A copy of an optional string with the same content.
pub fn clone_opt(o: &Option<String>) -> (r: Option<String>)
    ensures
        opt_str_view(r) == opt_str_view(*o),
{
    match o {
        Some(s) => Some(s.clone()),
        None => None,
    }
}

/// The `DuplicateId` diagnostic for an entry whose id is already taken.
pub open spec fn dup_diag_view(is_term: bool, id: Seq<char>) -> ValidationErrorView {
    ValidationErrorView {
        kind: ValidationErrorKind::DuplicateId,
        message: (if is_term {
            "Duplicate term: '"@
        } else {
            "Duplicate message: '"@
        }) + id + "'. Later definition will override."@,
        entry_id: Some(id),
        reference: None,
    }
}

/// Builds the `DuplicateId` diagnostic.
pub fn duplicate_id_error(is_term: bool, id: &String) -> (r: ValidationError)
    ensures
        r.v() == dup_diag_view(is_term, id@),
{
    let mut m = if is_term {
        String::from_str("Duplicate term: '")
    } else {
        String::from_str("Duplicate message: '")
    };
    m.append(id.as_str());
    m.append("'. Later definition will override.");
    ValidationError {
        kind: ValidationErrorKind::DuplicateId,
        message: m,
        entry_id: Some(id.clone()),
        reference: None,
    }
}

/// The `UnknownMessage` diagnostic for a reference to an absent message.
pub open spec fn unknown_message_view(owner: Seq<char>, id: Seq<char>) -> ValidationErrorView {
    ValidationErrorView {
        kind: ValidationErrorKind::UnknownMessage,
        message: "Unknown message: "@ + id,
        entry_id: Some(owner),
        reference: Some(id),
    }
}

/// Builds the `UnknownMessage` diagnostic.
pub fn unknown_message_error(owner: &String, id: &String) -> (r: ValidationError)
    ensures
        r.v() == unknown_message_view(owner@, id@),
{
    let mut m = String::from_str("Unknown message: ");
    m.append(id.as_str());
    ValidationError {
        kind: ValidationErrorKind::UnknownMessage,
        message: m,
        entry_id: Some(owner.clone()),
        reference: Some(id.clone()),
    }
}

/// The `UnknownAttribute` diagnostic for `id.attr` where the message `id`
/// exists but carries no attribute `attr`.
pub open spec fn unknown_attribute_view(owner: Seq<char>, id: Seq<char>, attr: Seq<char>)
    -> ValidationErrorView {
    ValidationErrorView {
        kind: ValidationErrorKind::UnknownAttribute,
        message: "Unknown attribute: "@ + id + "."@ + attr,
        entry_id: Some(owner),
        reference: Some(id + "."@ + attr),
    }
}

/// Builds the `UnknownAttribute` diagnostic for a message reference.
pub fn unknown_attribute_error(owner: &String, id: &String, attr: &String) -> (r: ValidationError)
    ensures
        r.v() == unknown_attribute_view(owner@, id@, attr@),
{
    let mut m = String::from_str("Unknown attribute: ");
    m.append(id.as_str());
    m.append(".");
    m.append(attr.as_str());
    let mut rf = id.clone();
    rf.append(".");
    rf.append(attr.as_str());
    ValidationError {
        kind: ValidationErrorKind::UnknownAttribute,
        message: m,
        entry_id: Some(owner.clone()),
        reference: Some(rf),
    }
}

/// The `UnknownTerm` diagnostic for a reference to an absent term; `id` is
/// the bare term id, without the `-` sentinel.
pub open spec fn unknown_term_view(owner: Seq<char>, id: Seq<char>) -> ValidationErrorView {
    ValidationErrorView {
        kind: ValidationErrorKind::UnknownTerm,
        message: "Unknown term: -"@ + id,
        entry_id: Some(owner),
        reference: Some("-"@ + id),
    }
}

/// Builds the `UnknownTerm` diagnostic.
pub fn unknown_term_error(owner: &String, id: &String) -> (r: ValidationError)
    ensures
        r.v() == unknown_term_view(owner@, id@),
{
    let mut m = String::from_str("Unknown term: -");
    m.append(id.as_str());
    let mut rf = String::from_str("-");
    rf.append(id.as_str());
    ValidationError {
        kind: ValidationErrorKind::UnknownTerm,
        message: m,
        entry_id: Some(owner.clone()),
        reference: Some(rf),
    }
}

/// The `UnknownAttribute` diagnostic for `-id.attr` where the term exists
/// but carries no attribute `attr`; `id` is the bare term id.
pub open spec fn unknown_term_attribute_view(owner: Seq<char>, id: Seq<char>, attr: Seq<char>)
    -> ValidationErrorView {
    ValidationErrorView {
        kind: ValidationErrorKind::UnknownAttribute,
        message: "Unknown attribute on term: -"@ + id + "."@ + attr,
        entry_id: Some(owner),
        reference: Some("-"@ + id + "."@ + attr),
    }
}

/// Builds the `UnknownAttribute` diagnostic for a term reference.
pub fn unknown_term_attribute_error(owner: &String, id: &String, attr: &String) -> (r:
    ValidationError)
    ensures
        r.v() == unknown_term_attribute_view(owner@, id@, attr@),
{
    let mut m = String::from_str("Unknown attribute on term: -");
    m.append(id.as_str());
    m.append(".");
    m.append(attr.as_str());
    let mut rf = String::from_str("-");
    rf.append(id.as_str());
    rf.append(".");
    rf.append(attr.as_str());
    ValidationError {
        kind: ValidationErrorKind::UnknownAttribute,
        message: m,
        entry_id: Some(owner.clone()),
        reference: Some(rf),
    }
}

/// The `IgnoredPositionalArgument` diagnostic for a term call carrying
/// positional arguments; `id` is the bare term id.
pub open spec fn ignored_positional_view(owner: Seq<char>, id: Seq<char>) -> ValidationErrorView {
    ValidationErrorView {
        kind: ValidationErrorKind::IgnoredPositionalArgument,
        message: "Positional arguments passed to term -"@ + id
            + " are ignored. Use named arguments instead."@,
        entry_id: Some(owner),
        reference: Some("-"@ + id),
    }
}

/// Builds the `IgnoredPositionalArgument` diagnostic.
pub fn ignored_positional_error(owner: &String, id: &String) -> (r: ValidationError)
    ensures
        r.v() == ignored_positional_view(owner@, id@),
{
    let mut m = String::from_str("Positional arguments passed to term -");
    m.append(id.as_str());
    m.append(" are ignored. Use named arguments instead.");
    let mut rf = String::from_str("-");
    rf.append(id.as_str());
    ValidationError {
        kind: ValidationErrorKind::IgnoredPositionalArgument,
        message: m,
        entry_id: Some(owner.clone()),
        reference: Some(rf),
    }
}

/// The `CyclicReference` diagnostic: the message holds the cycle path; the
/// owning entry is the id at which the search started.
pub open spec fn cyclic_view(owner: Seq<char>, path_text: Seq<char>) -> ValidationErrorView {
    ValidationErrorView {
        kind: ValidationErrorKind::CyclicReference,
        message: "Cyclic reference detected: "@ + path_text,
        entry_id: Some(owner),
        reference: None,
    }
}

/// Builds the `CyclicReference` diagnostic from the rendered path.
pub fn cyclic_error(owner: &String, path_text: &String) -> (r: ValidationError)
    ensures
        r.v() == cyclic_view(owner@, path_text@),
{
    let mut m = String::from_str("Cyclic reference detected: ");
    m.append(path_text.as_str());
    ValidationError {
        kind: ValidationErrorKind::CyclicReference,
        message: m,
        entry_id: Some(owner.clone()),
        reference: None,
    }
}

/// The kind of a diagnostic collected while resolving one identifier.
#[derive(Clone, Copy, PartialEq, Eq, Structural, Debug)]
pub enum FormatErrorKind {
    /// A variable the pattern requires was not supplied.
    MissingVariable,
    /// A supplied variable had an unsupported type and was replaced by its
    /// own name.
    InvalidVariableType,
    /// The formatting engine reported an overriding conflict.
    Overriding,
    /// The formatting engine reported a parser error.
    Parser,
    /// The formatting engine reported a resolver error.
    Resolver,
}

/// A resolution-time diagnostic.
#[derive(Debug)]
pub struct FormatError {
    pub kind: FormatErrorKind,
    pub message: String,
    pub entry_id: Option<String>,
    pub variable_name: Option<String>,
    pub expected_type: Option<String>,
    pub actual_type: Option<String>,
}

/// The mathematical content of a resolution-time diagnostic.
pub ghost struct FormatErrorView {
    pub kind: FormatErrorKind,
    pub message: Seq<char>,
    pub entry_id: Option<Seq<char>>,
    pub variable_name: Option<Seq<char>>,
    pub expected_type: Option<Seq<char>>,
    pub actual_type: Option<Seq<char>>,
}

impl FormatError {
    /// The content of the diagnostic.
    pub open spec fn v(self) -> FormatErrorView {
        FormatErrorView {
            kind: self.kind,
            message: self.message@,
            entry_id: opt_str_view(self.entry_id),
            variable_name: opt_str_view(self.variable_name),
            expected_type: opt_str_view(self.expected_type),
            actual_type: opt_str_view(self.actual_type),
        }
    }
}

/// The contents of a vector of resolution diagnostics, in order.
pub open spec fn ferr_views(s: Seq<FormatError>) -> Seq<FormatErrorView> {
    s.map_values(|e: FormatError| e.v())
}

/// The `MissingVariable` diagnostic for a required variable the caller did
/// not supply.
pub open spec fn missing_variable_view(entry: Seq<char>, var: Seq<char>) -> FormatErrorView {
    FormatErrorView {
        kind: FormatErrorKind::MissingVariable,
        message: "Unknown external: "@ + var,
        entry_id: Some(entry),
        variable_name: Some(var),
        expected_type: None,
        actual_type: None,
    }
}

/// Builds the `MissingVariable` diagnostic.
pub fn missing_variable_error(entry: &str, var: &String) -> (r: FormatError)
    ensures
        r.v() == missing_variable_view(entry@, var@),
{
    let mut m = String::from_str("Unknown external: ");
    m.append(var.as_str());
    FormatError {
        kind: FormatErrorKind::MissingVariable,
        message: m,
        entry_id: Some(entry.to_owned()),
        variable_name: Some(var.clone()),
        expected_type: None,
        actual_type: None,
    }
}

/// The `InvalidVariableType` diagnostic for a variable of an unsupported
/// type, replaced by its own name as a fallback.
pub open spec fn invalid_type_view(entry: Seq<char>, var: Seq<char>, actual: Seq<char>)
    -> FormatErrorView {
    FormatErrorView {
        kind: FormatErrorKind::InvalidVariableType,
        message: "Variable '"@ + var
            + "' has unsupported type, expected str/int/date. Using key as fallback."@,
        entry_id: Some(entry),
        variable_name: Some(var),
        expected_type: Some("str|int|date"@),
        actual_type: Some(actual),
    }
}

/// Builds the `InvalidVariableType` diagnostic.
pub fn invalid_type_error(entry: &str, var: &String, actual: &String) -> (r: FormatError)
    ensures
        r.v() == invalid_type_view(entry@, var@, actual@),
{
    let mut m = String::from_str("Variable '");
    m.append(var.as_str());
    m.append("' has unsupported type, expected str/int/date. Using key as fallback.");
    FormatError {
        kind: FormatErrorKind::InvalidVariableType,
        message: m,
        entry_id: Some(entry.to_owned()),
        variable_name: Some(var.clone()),
        expected_type: Some(String::from_str("str|int|date")),
        actual_type: Some(actual.clone()),
    }
}

/// The kind of an error reported by the external formatting engine.
#[derive(Clone, Copy, PartialEq, Eq, Structural, Debug)]
pub enum EngineErrorKind {
    Overriding,
    Parser,
    Resolver,
}

/// The diagnostic carrying over one formatting-engine error.
pub open spec fn engine_error_view(kind: EngineErrorKind, message: Seq<char>) -> FormatErrorView {
    FormatErrorView {
        kind: match kind {
            EngineErrorKind::Overriding => FormatErrorKind::Overriding,
            EngineErrorKind::Parser => FormatErrorKind::Parser,
            EngineErrorKind::Resolver => FormatErrorKind::Resolver,
        },
        message: message,
        entry_id: None,
        variable_name: None,
        expected_type: None,
        actual_type: None,
    }
}

/// Builds the diagnostic for one formatting-engine error.
pub fn engine_format_error(kind: EngineErrorKind, message: String) -> (r: FormatError)
    ensures
        r.v() == engine_error_view(kind, message@),
{
    FormatError {
        kind: match kind {
            EngineErrorKind::Overriding => FormatErrorKind::Overriding,
            EngineErrorKind::Parser => FormatErrorKind::Parser,
            EngineErrorKind::Resolver => FormatErrorKind::Resolver,
        },
        message,
        entry_id: None,
        variable_name: None,
        expected_type: None,
        actual_type: None,
    }
}

/// One syntax error as the external parser reports it: a message and the
/// byte range of the offending span.
#[derive(Debug)]
pub struct RawParseError {
    pub message: String,
    pub start: usize,
    pub end: usize,
}

/// A syntax error with its location resolved to a line and column.
#[derive(Debug)]
pub struct ParseErrorDetail {
    /// Human-readable error message.
    pub message: String,
    /// Line of the error, 1-indexed.
    pub line: usize,
    /// Column of the error, 1-indexed.
    pub column: usize,
    /// Byte position where the error starts, 0-indexed.
    pub byte_start: usize,
    /// Byte position where the error ends, 0-indexed.
    pub byte_end: usize,
    /// The file the source came from, if known.
    pub filename: Option<String>,
}

/// The mathematical content of a located syntax error.
pub ghost struct ParseErrorDetailView {
    pub message: Seq<char>,
    pub line: int,
    pub column: int,
    pub byte_start: int,
    pub byte_end: int,
    pub filename: Option<Seq<char>>,
}

impl ParseErrorDetail {
    /// The content of the located syntax error.
    pub open spec fn v(self) -> ParseErrorDetailView {
        ParseErrorDetailView {
            message: self.message@,
            line: self.line as int,
            column: self.column as int,
            byte_start: self.byte_start as int,
            byte_end: self.byte_end as int,
            filename: opt_str_view(self.filename),
        }
    }

    /// A copy with the same content.
    pub fn duplicate(&self) -> (r: ParseErrorDetail)
        ensures
            r.v() == self.v(),
    {
        ParseErrorDetail {
            message: self.message.clone(),
            line: self.line,
            column: self.column,
            byte_start: self.byte_start,
            byte_end: self.byte_end,
            filename: clone_opt(&self.filename),
        }
    }
}

/// The contents of a vector of located syntax errors, in order.
pub open spec fn perr_views(s: Seq<ParseErrorDetail>) -> Seq<ParseErrorDetailView> {
    s.map_values(|e: ParseErrorDetail| e.v())
}

/// One construction-time diagnostic, tagged by its origin: a syntax error
/// from parsing or a semantic error from validation.
pub enum CompileError {
    Parse(ParseErrorDetail),
    Validation(ValidationError),
}

/// The mathematical content of a tagged construction-time diagnostic.
pub ghost enum CompileErrorView {
    Parse(ParseErrorDetailView),
    Validation(ValidationErrorView),
}

impl CompileError {
    /// The content of the tagged diagnostic.
    pub open spec fn v(self) -> CompileErrorView {
        match self {
            CompileError::Parse(e) => CompileErrorView::Parse(e.v()),
            CompileError::Validation(e) => CompileErrorView::Validation(e.v()),
        }
    }
}

/// The contents of a vector of tagged diagnostics, in order.
pub open spec fn cerr_views(s: Seq<CompileError>) -> Seq<CompileErrorView> {
    s.map_values(|e: CompileError| e.v())
}

} // verus!
