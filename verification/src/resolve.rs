//! The resolver: an identifier (a message id, or `message.attribute`) plus
//! a set of caller-supplied variables becomes a formatted string.
//!
//! The pattern is looked up in the symbol table; its required variables are
//! extracted with the pattern walker; the supplied variables are bound with
//! type coercion and a fallback policy (a value of an unsupported kind is
//! replaced by the variable's own name, with a diagnostic); every required
//! variable left unsupplied is reported; and the external formatting engine
//! renders the pattern with the bound arguments, its own errors appended
//! last. Resolution never mutates the symbol table or the stored
//! diagnostics.

use vstd::prelude::*;
use vstd::string::StrSliceExecFns;
use vstd::string::StringExecFns;

use crate::ast::attr_pattern;
use crate::ast::find_attribute;
use crate::ast::Entry;
use crate::ast::Pattern;
use crate::bundle::Bundle;
use crate::diag::ferr_views;
use crate::diag::invalid_type_error;
use crate::diag::invalid_type_view;
use crate::diag::missing_variable_error;
use crate::diag::missing_variable_view;
use crate::diag::engine_format_error;
use crate::diag::engine_error_view;
use crate::diag::EngineErrorKind;
use crate::diag::FormatError;
use crate::diag::FormatErrorView;
use crate::engine::args_model;
use crate::engine::args_new;
use crate::engine::args_set_int;
use crate::engine::args_set_str;
use crate::engine::engine_format;
use crate::engine::engine_resources;
use crate::engine::format_output;
use crate::engine::iso_date_of;
use crate::engine::iso_date_string;
use crate::engine::tagged_pair_views;
use crate::engine::ArgVal;
use crate::strutil::lex_le;
use crate::strutil::sort_strings;
use crate::strutil::sorted_views;
use crate::strutil::split_identifier;
use crate::table::TableModel;
use crate::walker::collect_variables;
use crate::walker::contains_string;
use crate::walker::distinct_views;
use crate::walker::vars_of_pattern;
use crate::walker::views_of;
use crate::walker::views_seq;

verus! {

/// One caller-supplied variable value. A value of an unsupported kind is
/// carried as `Other` with the name of its type, and is bound to the
/// variable's own name as a fallback, with a diagnostic.
pub enum Variable {
    /// A string value, passed through.
    Str(String),
    /// A numeric value, passed through as the engine's numeric type.
    Int(i64),
    /// A calendar date, rendered as an ISO 8601 date string.
    Date { year: i32, month: u32, day: u32 },
    /// A value of any other type, named for the diagnostic.
    Other { kind_name: String },
}

/// The mathematical content of a variable value.
pub ghost enum VariableView {
    Str(Seq<char>),
    Int(int),
    Date { year: int, month: int, day: int },
    Other(Seq<char>),
}

impl Variable {
    /// The content of the value.
    pub open spec fn v(self) -> VariableView {
        match self {
            Variable::Str(s) => VariableView::Str(s@),
            Variable::Int(n) => VariableView::Int(n as int),
            Variable::Date { year, month, day } => VariableView::Date {
                year: year as int,
                month: month as int,
                day: day as int,
            },
            Variable::Other { kind_name } => VariableView::Other(kind_name@),
        }
    }
}

/// The contents of a variable list, in caller order.
pub open spec fn var_pairs(s: Seq<(String, Variable)>) -> Seq<(Seq<char>, VariableView)> {
    s.map_values(|p: (String, Variable)| (p.0@, p.1.v()))
}

/// Why one resolution call failed. These are fatal to the single call and
/// returned as its error; they are never added to the diagnostics list.
#[derive(Debug)]
pub enum ResolutionError {
    /// The identifier names no message in the table.
    NotFound { id: String },
    /// The message exists but carries no attribute of that name.
    AttributeNotFound { message: String, attribute: String },
    /// The message exists but has no value pattern, so it cannot be
    /// resolved bare.
    NoValue { id: String },
}

/// The mathematical content of a resolution error.
pub ghost enum ResolutionErrorView {
    NotFound { id: Seq<char> },
    AttributeNotFound { message: Seq<char>, attribute: Seq<char> },
    NoValue { id: Seq<char> },
}

impl ResolutionError {
    /// The content of the error.
    pub open spec fn v(self) -> ResolutionErrorView {
        match self {
            ResolutionError::NotFound { id } => ResolutionErrorView::NotFound { id: id@ },
            ResolutionError::AttributeNotFound { message, attribute } => ResolutionErrorView::AttributeNotFound {
                message: message@,
                attribute: attribute@,
            },
            ResolutionError::NoValue { id } => ResolutionErrorView::NoValue { id: id@ },
        }
    }
}

/// Whether the identifier contains a `.`.
pub open spec fn has_dot(s: Seq<char>) -> bool {
    exists|k: int| 0 <= k < s.len() && s[k] == '.'
}

/// The position of the first `.` of the identifier.
pub open spec fn dot_pos(s: Seq<char>) -> int {
    choose|k: int|
        0 <= k < s.len() && s[k] == '.' && (forall|j: int| 0 <= j < k ==> s[j] != '.')
}

/// Two first-dot positions are the same position.
pub proof fn lemma_first_dot_unique(s: Seq<char>, k1: int, k2: int)
    requires
        0 <= k1 < s.len(),
        s[k1] == '.',
        forall|j: int| 0 <= j < k1 ==> s[j] != '.',
        0 <= k2 < s.len(),
        s[k2] == '.',
        forall|j: int| 0 <= j < k2 ==> s[j] != '.',
    ensures
        k1 == k2,
{
}

/// The pattern an identifier resolves to: with a `.`, the named attribute
/// of the named message; without one, the message's value pattern, which
/// must be present.
pub open spec fn spec_lookup(m: TableModel, id: Seq<char>) -> Result<
    Pattern,
    ResolutionErrorView,
> {
    if has_dot(id) {
        let mid = id.subrange(0, dot_pos(id));
        let aid = id.subrange(dot_pos(id) + 1, id.len() as int);
        if !m.messages.dom().contains(mid) {
            Err(ResolutionErrorView::NotFound { id: mid })
        } else {
            match attr_pattern(m.messages[mid].attrs(), aid) {
                Some(p) => Ok(p),
                None => Err(
                    ResolutionErrorView::AttributeNotFound { message: mid, attribute: aid },
                ),
            }
        }
    } else {
        if !m.messages.dom().contains(id) {
            Err(ResolutionErrorView::NotFound { id: id })
        } else {
            match m.messages[id].value_pattern() {
                Some(p) => Ok(p),
                None => Err(ResolutionErrorView::NoValue { id: id }),
            }
        }
    }
}

/// The fallback diagnostics of binding one variable: none for strings,
/// numbers and renderable dates; one `InvalidVariableType` for anything
/// else, whereupon the variable's own name is bound in its place.
pub open spec fn bind_diag_of(entry: Seq<char>, k: Seq<char>, v: VariableView) -> Seq<
    FormatErrorView,
> {
    match v {
        VariableView::Str(_) => Seq::empty(),
        VariableView::Int(_) => Seq::empty(),
        VariableView::Date { year, month, day } => {
            if iso_date_of(year, month, day) is Some {
                Seq::empty()
            } else {
                seq![invalid_type_view(entry, k, "date"@)]
            }
        },
        VariableView::Other(t) => seq![invalid_type_view(entry, k, t)],
    }
}

/// The binding diagnostics of the variables of `vs` from position `i` on,
/// in caller order.
pub open spec fn bind_diags(
    entry: Seq<char>,
    vs: Seq<(Seq<char>, VariableView)>,
    i: int,
) -> Seq<FormatErrorView>
    decreases vs.len() - i,
{
    if i < 0 || i >= vs.len() {
        Seq::empty()
    } else {
        bind_diag_of(entry, vs[i].0, vs[i].1) + bind_diags(entry, vs, i + 1)
    }
}

/// The names bound by the variables of `vs` from position `i` on; a
/// variable of an unsupported kind still counts as supplied.
pub open spec fn keys_from(vs: Seq<(Seq<char>, VariableView)>, i: int) -> Set<Seq<char>> {
    Set::new(|x: Seq<char>| exists|k: int| i <= k < vs.len() && vs[k].0 == x)
}

/// The names bound by all the variables of `vs`.
pub open spec fn provided_keys(vs: Seq<(Seq<char>, VariableView)>) -> Set<Seq<char>> {
    keys_from(vs, 0)
}

/// The `MissingVariable` diagnostics for the required names of `req` from
/// position `i` on that the caller did not supply.
pub open spec fn missing_diags(
    entry: Seq<char>,
    req: Seq<Seq<char>>,
    provided: Set<Seq<char>>,
    i: int,
) -> Seq<FormatErrorView>
    decreases req.len() - i,
{
    if i < 0 || i >= req.len() {
        Seq::empty()
    } else {
        (if provided.contains(req[i]) {
            Seq::empty()
        } else {
            seq![missing_variable_view(entry, req[i])]
        }) + missing_diags(entry, req, provided, i + 1)
    }
}

/// The diagnostics carrying over the engine's own errors, in order.
pub open spec fn tagged_views(tg: Seq<(EngineErrorKind, String)>) -> Seq<FormatErrorView> {
    tg.map_values(|p: (EngineErrorKind, String)| engine_error_view(p.0, p.1@))
}

/// The names of a finite set, in lexicographic order, each once: the one
/// strictly ordered list with exactly those names.
pub open spec fn sorted_names(s: Set<Seq<char>>) -> Seq<Seq<char>> {
    choose|q: Seq<Seq<char>>| crate::strutil::sorted_distinct(q) && q.to_set() == s
}

/// A strictly ordered list is the ordered list of its own name set.
pub proof fn lemma_sorted_names_of(q: Seq<Seq<char>>)
    requires
        crate::strutil::sorted_distinct(q),
    ensures
        sorted_names(q.to_set()) == q,
{
    let picked = choose|q2: Seq<Seq<char>>|
        crate::strutil::sorted_distinct(q2) && q2.to_set() == q.to_set();
    assert(crate::strutil::sorted_distinct(q) && q.to_set() == q.to_set());
    crate::strutil::lemma_sorted_unique(picked, q);
}

/// The diagnostics carrying the engine's errors over, element for element.
pub open spec fn engine_diags(tg: Seq<(EngineErrorKind, Seq<char>)>) -> Seq<FormatErrorView> {
    tg.map_values(|p: (EngineErrorKind, Seq<char>)| engine_error_view(p.0, p.1))
}

/// The value bound for one variable: strings pass through; numbers pass
/// through as the engine's numeric value, which rounds an integer beyond
/// 53 bits to the nearest representable one; a renderable date becomes its
/// ISO 8601 text; and anything else falls back to the variable's own name.
pub open spec fn bound_value(k: Seq<char>, v: VariableView) -> ArgVal {
    match v {
        VariableView::Str(s) => ArgVal::S(s),
        VariableView::Int(n) => ArgVal::I(crate::engine::stored_int_of(n)),
        VariableView::Date { year, month, day } => match iso_date_of(year, month, day) {
            Some(t) => ArgVal::S(t),
            None => ArgVal::S(k),
        },
        VariableView::Other(_) => ArgVal::S(k),
    }
}

/// The argument map after the variables of `vs` from position `i` on are
/// bound over `m`, in caller order: a later binding of the same name
/// replaces an earlier one.
pub open spec fn bound_args(
    m: Map<Seq<char>, ArgVal>,
    vs: Seq<(Seq<char>, VariableView)>,
    i: int,
) -> Map<Seq<char>, ArgVal>
    decreases vs.len() - i,
{
    if i < 0 || i >= vs.len() {
        m
    } else {
        bound_args(m.insert(vs[i].0, bound_value(vs[i].0, vs[i].1)), vs, i + 1)
    }
}

/// The id and attribute handed to the engine: the identifier split at its
/// first `.`, or the identifier alone.
pub open spec fn engine_target(id: Seq<char>) -> (Seq<char>, Option<Seq<char>>) {
    if has_dot(id) {
        (id.subrange(0, dot_pos(id)), Some(id.subrange(dot_pos(id) + 1, id.len() as int)))
    } else {
        (id, None)
    }
}

/// The set of names of `vs` loses its head when the walk moves past it.
proof fn lemma_keys_from_step(vs: Seq<(Seq<char>, VariableView)>, i: int)
    requires
        0 <= i < vs.len(),
    ensures
        keys_from(vs, i) =~= keys_from(vs, i + 1).insert(vs[i].0),
{
    assert forall|x: Seq<char>| keys_from(vs, i).contains(x) implies keys_from(vs, i + 1).insert(
        vs[i].0,
    ).contains(x) by {
        let k = choose|k: int| i <= k < vs.len() && vs[k].0 == x;
        if k > i {
            assert(keys_from(vs, i + 1).contains(x));
        }
    };
    assert forall|x: Seq<char>| keys_from(vs, i + 1).insert(vs[i].0).contains(x) implies keys_from(
        vs,
        i,
    ).contains(x) by {
        if x == vs[i].0 {
            assert(vs[i].0 == x);
        } else {
            let k = choose|k: int| i + 1 <= k < vs.len() && vs[k].0 == x;
            assert(i <= k < vs.len() && vs[k].0 == x);
        }
    };
}

impl Bundle {
    /// Looks the identifier up in the symbol table: `m.attr` yields the
    /// attribute's pattern, a bare id the message's value pattern.
    fn lookup_pattern<'a>(&'a self, identifier: &str) -> (r: Result<&'a Pattern, ResolutionError>)
        requires
            self.wf(),
        ensures
            match r {
                Ok(p) => spec_lookup(self.table.model(), identifier@) == Ok::<
                    Pattern,
                    ResolutionErrorView,
                >(*p),
                Err(e) => spec_lookup(self.table.model(), identifier@) == Err::<
                    Pattern,
                    ResolutionErrorView,
                >(e.v()),
            },
    {
        match split_identifier(identifier) {
            Some((mid, aid)) => {
                proof {
                    let k = choose|k: int|
                        0 <= k < identifier@.len() && identifier@[k] == '.' && mid@
                            =~= identifier@.subrange(0, k) && aid@ =~= identifier@.subrange(
                            k + 1,
                            identifier@.len() as int,
                        ) && (forall|j: int| 0 <= j < k ==> identifier@[j] != '.');
                    assert(has_dot(identifier@));
                    lemma_first_dot_unique(identifier@, k, dot_pos(identifier@));
                    assert(mid@ == identifier@.subrange(0, dot_pos(identifier@)));
                    assert(aid@ == identifier@.subrange(
                        dot_pos(identifier@) + 1,
                        identifier@.len() as int,
                    ));
                }
                match self.table.get_message(mid) {
                    None => Err(ResolutionError::NotFound { id: mid.to_owned() }),
                    Some(e) => match find_attribute(e, aid) {
                        Some(p) => Ok(p),
                        None => Err(
                            ResolutionError::AttributeNotFound {
                                message: mid.to_owned(),
                                attribute: aid.to_owned(),
                            },
                        ),
                    },
                }
            },
            None => {
                proof {
                    assert(!has_dot(identifier@));
                }
                match self.table.get_message(identifier) {
                    None => Err(ResolutionError::NotFound { id: identifier.to_owned() }),
                    Some(e) => match e {
                        Entry::Message { value: Some(p), .. } => Ok(p),
                        Entry::Message { value: None, .. } => Err(
                            ResolutionError::NoValue { id: identifier.to_owned() },
                        ),
                        Entry::Term { .. } => Err(
                            ResolutionError::NoValue { id: identifier.to_owned() },
                        ),
                    },
                }
            },
        }
    }

    /// The names of the variables the identifier's pattern requires,
    /// sorted and without duplicates, however often and however deep each
    /// appears.
    pub fn get_required_variables(&self, identifier: &str) -> (r: Result<
        Vec<String>,
        ResolutionError,
    >)
        requires
            self.wf(),
        ensures
            match r {
                Ok(v) => spec_lookup(self.table.model(), identifier@) matches Ok(p)
                    && views_of(v@) =~= vars_of_pattern(p) && distinct_views(v@) && sorted_views(
                    v@,
                ),
                Err(e) => spec_lookup(self.table.model(), identifier@) == Err::<
                    Pattern,
                    ResolutionErrorView,
                >(e.v()),
            },
    {
        let pattern = match self.lookup_pattern(identifier) {
            Ok(p) => p,
            Err(e) => {
                return Err(e);
            },
        };
        let vars = collect_variables(pattern);
        let sorted = sort_strings(vars);
        Ok(sorted)
    }

    /// Resolves the identifier with the caller's variables: the pattern is
    /// looked up, the variables are bound (strings and numbers pass
    /// through, dates become ISO 8601 strings, anything else falls back to
    /// the variable's own name with a diagnostic), every required variable
    /// left unsupplied is reported, and the external formatting engine
    /// renders the result with bidi isolation as requested. The engine's
    /// own errors are appended after the binding and missing-variable
    /// diagnostics. The call leaves the symbol table, the stored
    /// construction diagnostics and the engine's resources unchanged, and
    /// the engine answers the same arguments the same way afterwards, so
    /// repeating an identical call returns the same string.
    pub fn get_translation(
        &mut self,
        identifier: &str,
        variables: Option<&Vec<(String, Variable)>>,
        use_isolating: bool,
        errors: &mut Vec<FormatError>,
    ) -> (r: Result<String, ResolutionError>)
        requires
            old(self).wf(),
        ensures
            final(self).wf(),
            final(self).table == old(self).table,
            final(self).parse_errors == old(self).parse_errors,
            final(self).validation_errors == old(self).validation_errors,
            ({
                let vs = match variables {
                    Some(v) => var_pairs(v@),
                    None => Seq::<(Seq<char>, VariableView)>::empty(),
                };
                match spec_lookup(old(self).table.model(), identifier@) {
                    Err(e) => r matches Err(re) && re.v() == e && final(errors)@ == old(errors)@
                        && *final(self) == *old(self),
                    Ok(p) => {
                        let target = engine_target(identifier@);
                        let am = bound_args(Map::empty(), vs, 0);
                        let out = format_output(
                            old(self).engine,
                            target.0,
                            target.1,
                            am,
                            use_isolating,
                        );
                        &&& format_output(
                            final(self).engine,
                            target.0,
                            target.1,
                            am,
                            use_isolating,
                        ) == out
                        &&& engine_resources(final(self).engine) == engine_resources(
                            old(self).engine,
                        )
                        &&& match r {
                            Err(re) => re.v() == (ResolutionErrorView::NotFound {
                                id: identifier@,
                            }) && out is None && final(errors)@ == old(errors)@,
                            Ok(s) => out matches Some(pair) && s@ == pair.0 && ferr_views(
                                final(errors)@,
                            ) == ferr_views(old(errors)@) + bind_diags(identifier@, vs, 0)
                                + missing_diags(
                                identifier@,
                                sorted_names(vars_of_pattern(p)),
                                provided_keys(vs),
                                0,
                            ) + engine_diags(pair.1),
                        }
                    },
                }
            }),
    {
        let ghost vs = match variables {
            Some(v) => var_pairs(v@),
            None => Seq::<(Seq<char>, VariableView)>::empty(),
        };
        let sorted = match self.lookup_pattern(identifier) {
            Ok(pattern) => {
                let vars = collect_variables(pattern);
                sort_strings(vars)
            },
            Err(e) => {
                return Err(e);
            },
        };
        let ghost p = spec_lookup(self.table.model(), identifier@)->Ok_0;
        let ghost reqv = views_seq(sorted@);

        // Bind the caller's variables.
        let mut args = args_new();
        let mut local: Vec<FormatError> = Vec::new();
        let mut provided: Vec<String> = Vec::new();
        proof {
            assert(ferr_views(local@) =~= Seq::empty());
            assert(views_of(provided@) =~= Set::empty());
        }
        match variables {
            Some(list) => {
                let mut i: usize = 0;
                proof {
                    assert(vs == var_pairs(list@));
                }
                while i < list.len()
                    invariant
                        0 <= i <= list@.len(),
                        vs == var_pairs(list@),
                        vs.len() == list@.len(),
                        ferr_views(local@) + bind_diags(identifier@, vs, i as int) =~= bind_diags(
                            identifier@,
                            vs,
                            0,
                        ),
                        views_of(provided@).union(keys_from(vs, i as int)) =~= provided_keys(vs),
                        bound_args(args_model(args), vs, i as int) == bound_args(
                            Map::empty(),
                            vs,
                            0,
                        ),
                    decreases list@.len() - i,
                {
                    let ghost local_pre = local@;
                    let ghost prov_pre = provided@;
                    let ghost args_pre = args_model(args);
                    let (key, value) = &list[i];
                    provided.push(key.clone());
                    proof {
                        crate::walker::lemma_views_push(
                            prov_pre,
                            provided@[prov_pre.len() as int],
                        );
                        lemma_keys_from_step(vs, i as int);
                        assert(vs[i as int].0 == key@);
                        assert(vs[i as int].1 == value.v());
                        assert(views_of(provided@).union(keys_from(vs, i as int + 1))
                            =~= views_of(prov_pre).union(keys_from(vs, i as int)));
                    }
                    match value {
                        Variable::Str(sv) => {
                            args_set_str(&mut args, key.clone(), sv.clone());
                            proof {
                                crate::walker::lemma_seq_concat_empty(ferr_views(local@));
                                assert(args_model(args) == args_pre.insert(
                                    key@,
                                    bound_value(vs[i as int].0, vs[i as int].1),
                                ));
                            }
                        },
                        Variable::Int(n) => {
                            args_set_int(&mut args, key.clone(), *n);
                            proof {
                                crate::walker::lemma_seq_concat_empty(ferr_views(local@));
                                assert(args_model(args) == args_pre.insert(
                                    key@,
                                    bound_value(vs[i as int].0, vs[i as int].1),
                                ));
                            }
                        },
                        Variable::Date { year, month, day } => {
                            match iso_date_string(*year, *month, *day) {
                                Some(text) => {
                                    let ghost text_view = text@;
                                    args_set_str(&mut args, key.clone(), text);
                                    proof {
                                        crate::walker::lemma_seq_concat_empty(ferr_views(local@));
                                        assert(bind_diag_of(identifier@, key@, vs[i as int].1)
                                            =~= Seq::<FormatErrorView>::empty());
                                        assert(bound_value(vs[i as int].0, vs[i as int].1)
                                            == ArgVal::S(text_view));
                                        assert(args_model(args) == args_pre.insert(
                                            key@,
                                            bound_value(vs[i as int].0, vs[i as int].1),
                                        ));
                                    }
                                },
                                None => {
                                    let date_name = String::from_str("date");
                                    local.push(invalid_type_error(identifier, key, &date_name));
                                    args_set_str(&mut args, key.clone(), key.clone());
                                    proof {
                                        assert(ferr_views(local@) =~= ferr_views(local_pre) + seq![
                                            invalid_type_view(identifier@, key@, "date"@),
                                        ]);
                                        assert(bind_diag_of(identifier@, key@, vs[i as int].1)
                                            =~= seq![
                                            invalid_type_view(identifier@, key@, "date"@),
                                        ]);
                                        assert(bound_value(vs[i as int].0, vs[i as int].1)
                                            == ArgVal::S(key@));
                                        assert(args_model(args) == args_pre.insert(
                                            key@,
                                            bound_value(vs[i as int].0, vs[i as int].1),
                                        ));
                                    }
                                },
                            }
                        },
                        Variable::Other { kind_name } => {
                            local.push(invalid_type_error(identifier, key, kind_name));
                            args_set_str(&mut args, key.clone(), key.clone());
                            proof {
                                assert(ferr_views(local@) =~= ferr_views(local_pre) + seq![
                                    invalid_type_view(identifier@, key@, kind_name@),
                                ]);
                                assert(bound_value(vs[i as int].0, vs[i as int].1) == ArgVal::S(
                                    key@,
                                ));
                                assert(args_model(args) == args_pre.insert(
                                    key@,
                                    bound_value(vs[i as int].0, vs[i as int].1),
                                ));
                            }
                        },
                    }
                    proof {
                        crate::walker::lemma_seq_concat_assoc(
                            ferr_views(local_pre),
                            bind_diag_of(identifier@, vs[i as int].0, vs[i as int].1),
                            bind_diags(identifier@, vs, i as int + 1),
                        );
                    }
                    i = i + 1;
                }
                proof {
                    crate::walker::lemma_seq_concat_empty(ferr_views(local@));
                    assert(keys_from(vs, vs.len() as int) =~= Set::empty());
                    crate::walker::lemma_union_empty(views_of(provided@));
                    assert(views_of(provided@) =~= provided_keys(vs));
                    assert(args_model(args) == bound_args(Map::empty(), vs, 0));
                }
            },
            None => {
                proof {
                    assert(bind_diags(identifier@, vs, 0) =~= Seq::empty());
                    assert(keys_from(vs, 0) =~= Set::empty());
                    assert(views_of(provided@) =~= provided_keys(vs));
                    crate::walker::lemma_seq_concat_empty(ferr_views(local@));
                    assert(args_model(args) == bound_args(Map::empty(), vs, 0));
                }
            },
        }
        let ghost am = args_model(args);
        let ghost bound = ferr_views(local@);
        proof {
            assert(bound == bind_diags(identifier@, vs, 0));
        }

        // Report the required variables the caller did not supply, in
        // sorted order.
        let ghost pset = provided_keys(vs);
        let mut j: usize = 0;
        while j < sorted.len()
            invariant
                0 <= j <= sorted@.len(),
                reqv == views_seq(sorted@),
                reqv.len() == sorted@.len(),
                views_of(provided@) =~= pset,
                ferr_views(local@) + missing_diags(identifier@, reqv, pset, j as int) =~= bound
                    + missing_diags(identifier@, reqv, pset, 0),
            decreases sorted@.len() - j,
        {
            let ghost local_pre = local@;
            let present = contains_string(&provided, &sorted[j]);
            proof {
                assert(sorted@[j as int]@ == reqv[j as int]);
                assert(present == pset.contains(reqv[j as int]));
            }
            if !present {
                local.push(missing_variable_error(identifier, &sorted[j]));
                proof {
                    assert(ferr_views(local@) =~= ferr_views(local_pre) + seq![
                        missing_variable_view(identifier@, reqv[j as int]),
                    ]);
                }
            } else {
                proof {
                    crate::walker::lemma_seq_concat_empty(ferr_views(local@));
                }
            }
            proof {
                crate::walker::lemma_seq_concat_assoc(
                    ferr_views(local_pre),
                    (if pset.contains(reqv[j as int]) {
                        Seq::<FormatErrorView>::empty()
                    } else {
                        seq![missing_variable_view(identifier@, reqv[j as int])]
                    }),
                    missing_diags(identifier@, reqv, pset, j as int + 1),
                );
            }
            j = j + 1;
        }
        proof {
            crate::walker::lemma_seq_concat_empty(ferr_views(local@));
            assert(ferr_views(local@) == bound + missing_diags(identifier@, reqv, pset, 0));
        }

        // Hand the pattern to the engine and carry its errors over.
        let ghost target = engine_target(identifier@);
        let ghost out = format_output(old(self).engine, target.0, target.1, am, use_isolating);
        let outcome = match split_identifier(identifier) {
            Some((mid, aid)) => {
                proof {
                    let k = choose|k: int|
                        0 <= k < identifier@.len() && identifier@[k] == '.' && mid@
                            =~= identifier@.subrange(0, k) && aid@ =~= identifier@.subrange(
                            k + 1,
                            identifier@.len() as int,
                        ) && (forall|j: int| 0 <= j < k ==> identifier@[j] != '.');
                    assert(has_dot(identifier@));
                    lemma_first_dot_unique(identifier@, k, dot_pos(identifier@));
                    assert(mid@ == target.0);
                    assert(Some(aid@) == target.1);
                }
                let res = engine_format(&mut self.engine, mid, Some(aid), &args, use_isolating);
                proof {
                    assert(match res {
                        Some((t2, tg)) => out == Some((t2@, tagged_pair_views(tg@))),
                        None => out is None,
                    });
                    assert(format_output(self.engine, target.0, target.1, am, use_isolating)
                        == out);
                    assert(engine_resources(self.engine) == engine_resources(old(self).engine));
                }
                res
            },
            None => {
                proof {
                    assert(!has_dot(identifier@));
                    assert(target.0 == identifier@);
                    assert(target.1 == None::<Seq<char>>);
                }
                let res = engine_format(&mut self.engine, identifier, None, &args, use_isolating);
                proof {
                    assert(match res {
                        Some((t2, tg)) => out == Some((t2@, tagged_pair_views(tg@))),
                        None => out is None,
                    });
                    assert(format_output(self.engine, target.0, target.1, am, use_isolating)
                        == out);
                    assert(engine_resources(self.engine) == engine_resources(old(self).engine));
                }
                res
            },
        };
        let (text, tagged) = match outcome {
            Some(pair) => pair,
            None => {
                proof {
                    assert(out is None);
                }
                return Err(ResolutionError::NotFound { id: identifier.to_owned() });
            },
        };
        proof {
            assert(out == Some((text@, tagged_pair_views(tagged@))));
        }
        let ghost base = ferr_views(errors@) + bound + missing_diags(identifier@, reqv, pset, 0);
        let ghost errs_before = errors@;
        let ghost local_before = local@;
        errors.append(&mut local);
        proof {
            assert(errors@ == errs_before + local_before);
            assert(ferr_views(local_before) == bound + missing_diags(identifier@, reqv, pset, 0));
            assert forall|k: int| 0 <= k < ferr_views(errors@).len() implies ferr_views(errors@)[k]
                == base[k] by {
                if k < errs_before.len() {
                    assert(errors@[k] == errs_before[k]);
                } else {
                    assert(errors@[k] == local_before[k - errs_before.len()]);
                    assert(ferr_views(local_before)[k - errs_before.len()] == local_before[k
                        - errs_before.len()].v());
                }
            };
            assert(ferr_views(errors@).len() == base.len());
            assert(ferr_views(errors@) =~= base);
        }
        let mut t: usize = 0;
        while t < tagged.len()
            invariant
                0 <= t <= tagged@.len(),
                ferr_views(errors@) =~= base + tagged_views(tagged@).subrange(0, t as int),
            decreases tagged@.len() - t,
        {
            let ghost errs_pre = errors@;
            let (kind, message) = &tagged[t];
            errors.push(engine_format_error(*kind, message.clone()));
            proof {
                assert(ferr_views(errors@) =~= ferr_views(errs_pre).push(
                    engine_error_view(tagged@[t as int].0, tagged@[t as int].1@),
                ));
                assert(tagged_views(tagged@).subrange(0, t as int + 1) =~= tagged_views(
                    tagged@,
                ).subrange(0, t as int).push(tagged_views(tagged@)[t as int]));
            }
            t = t + 1;
        }
        proof {
            assert(tagged_views(tagged@).subrange(0, tagged@.len() as int) =~= tagged_views(
                tagged@,
            ));
            let engine_errs = tagged_views(tagged@);
            crate::walker::lemma_views_seq_to_set(sorted@);
            assert(reqv.to_set() =~= vars_of_pattern(p));
            assert forall|a: int, b: int| 0 <= a < b < reqv.len() implies reqv[a] != reqv[b]
                && lex_le(reqv[a], reqv[b]) by {
                assert(sorted@[a]@ == reqv[a] && sorted@[b]@ == reqv[b]);
            };
            assert(crate::strutil::sorted_distinct(reqv));
            lemma_sorted_names_of(reqv);
            assert(sorted_names(vars_of_pattern(p)) == reqv);
            assert(engine_errs =~= engine_diags(tagged_pair_views(tagged@)));
            let prefix = ferr_views(old(errors)@) + bind_diags(identifier@, vs, 0)
                + missing_diags(
                identifier@,
                sorted_names(vars_of_pattern(p)),
                provided_keys(vs),
                0,
            );
            assert(prefix == base);
            assert(ferr_views(errors@) == base + engine_errs);
            assert(ferr_views(errors@) == prefix + engine_diags(tagged_pair_views(tagged@)));
        }
        Ok(text)
    }
}

} // verus!
