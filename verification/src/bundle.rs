//! The bundle: the fully merged, validated symbol table plus its
//! accumulated diagnostics, ready for resolution queries.
//!
//! Construction merges the given resources one at a time, in order; each
//! merge step records duplicate-id diagnostics and, when reference
//! validation is on, runs the reference validator and the cycle detector
//! over the newly merged resource against the table accumulated so far,
//! the resource's own entries included. With `strict`, any parse or
//! validation diagnostic fails construction with one aggregated error;
//! otherwise the diagnostics stay retrievable on the bundle.

use vstd::prelude::*;

use fluent_bundle::FluentResource;

use crate::ast::Entry;
use crate::cycles::build_graph;
use crate::cycles::build_keys;
use crate::cycles::cycle_diags;
use crate::cycles::detect_cycles;
use crate::diag::perr_views;
use crate::diag::verr_views;
use crate::diag::ParseErrorDetail;
use crate::diag::ParseErrorDetailView;
use crate::diag::RawParseError;
use crate::diag::ValidationError;
use crate::diag::ValidationErrorView;
use crate::engine::engine_add_resource;
use crate::engine::engine_resources;
use crate::engine::is_valid_lang_tag;
use crate::engine::new_engine;
use crate::engine::parse_language;
use crate::engine::Engine;
use crate::locate::column_of;
use crate::locate::line_of;
use crate::locate::locate_parse_error;
use crate::table::merge_dups;
use crate::table::merge_entries;
use crate::table::SymbolTable;
use crate::table::TableModel;
use crate::validate::validate_entries;
use crate::validate::validate_resource;

verus! {

/// One resource as the construction step takes it: the parsed entries in
/// the library's own form, the external parser's resource for the
/// formatting engine, the source bytes for locating syntax errors, and the
/// syntax errors the parser reported.
pub struct ResourceInput {
    /// Where the source came from, for diagnostics.
    pub filename: String,
    /// The source text, as bytes.
    pub source: Vec<u8>,
    /// The resource's entries, in document order.
    pub entries: Vec<Entry>,
    /// The same resource as the external parser returned it, for the
    /// formatting engine.
    pub parsed: FluentResource,
    /// The syntax errors the external parser reported, by byte range.
    pub syntax_errors: Vec<RawParseError>,
}

impl ResourceInput {
    /// The source must leave room for 1-indexed columns.
    pub open spec fn wf(self) -> bool {
        self.source@.len() < usize::MAX
    }
}

/// Why construction failed.
#[derive(Debug)]
pub enum ConstructionError {
    /// The language tag is not a well-formed locale identifier.
    InvalidLanguage { language: String },
    /// Strict construction found diagnostics: all of them, aggregated.
    Diagnostics {
        parse_errors: Vec<ParseErrorDetail>,
        validation_errors: Vec<ValidationError>,
    },
}

/// The parsed resources of the inputs, in order, as the engine takes them.
pub open spec fn parsed_of(s: Seq<ResourceInput>) -> Seq<FluentResource> {
    s.map_values(|inp: ResourceInput| inp.parsed)
}

/// The located syntax errors of one resource, in report order.
pub open spec fn perrs_of_input(inp: ResourceInput) -> Seq<ParseErrorDetailView> {
    inp.syntax_errors@.map_values(
        |raw: RawParseError|
            ParseErrorDetailView {
                message: raw.message@,
                line: line_of(inp.source@, raw.start as int),
                column: column_of(inp.source@, raw.start as int),
                byte_start: raw.start as int,
                byte_end: raw.end as int,
                filename: Some(inp.filename@),
            },
    )
}

/// The located syntax errors of the resources of `s` from position `i` on.
pub open spec fn all_parse_errors(s: Seq<ResourceInput>, i: int) -> Seq<ParseErrorDetailView>
    decreases s.len() - i,
{
    if i < 0 || i >= s.len() {
        Seq::empty()
    } else {
        perrs_of_input(s[i]) + all_parse_errors(s, i + 1)
    }
}

/// The table after the resources of `s` from position `i` on are merged.
pub open spec fn table_after(m: TableModel, s: Seq<ResourceInput>, i: int) -> TableModel
    decreases s.len() - i,
{
    if i < 0 || i >= s.len() {
        m
    } else {
        table_after(merge_entries(m, s[i].entries@, 0), s, i + 1)
    }
}

/// The validation diagnostics of merging one resource into the table:
/// duplicate ids first, then, when validation is on, the unknown-reference
/// diagnostics against the merged table and the cycle diagnostics of the
/// resource's own reference graph.
pub open spec fn resource_diags(m: TableModel, inp: ResourceInput, validate: bool) -> Seq<
    ValidationErrorView,
> {
    merge_dups(m, inp.entries@, 0) + if validate {
        validate_entries(merge_entries(m, inp.entries@, 0), inp.entries@, 0) + cycle_diags(
            build_graph(Map::empty(), inp.entries@, 0),
            build_keys(Seq::empty(), inp.entries@, 0),
            0,
        )
    } else {
        Seq::empty()
    }
}

/// The validation diagnostics of merging the resources of `s` from
/// position `i` on, in merge order.
pub open spec fn all_validation_errors(
    m: TableModel,
    s: Seq<ResourceInput>,
    i: int,
    validate: bool,
) -> Seq<ValidationErrorView>
    decreases s.len() - i,
{
    if i < 0 || i >= s.len() {
        Seq::empty()
    } else {
        resource_diags(m, s[i], validate) + all_validation_errors(
            merge_entries(m, s[i].entries@, 0),
            s,
            i + 1,
            validate,
        )
    }
}

/// The merged, validated symbol table with its diagnostics and the external
/// formatting engine holding the same resources.
pub struct Bundle {
    /// The external formatting engine, fed the same resources in the same
    /// order.
    pub engine: Engine,
    /// The merged definitions.
    pub table: SymbolTable,
    /// Syntax errors from parsing, across all resources, in order.
    pub parse_errors: Vec<ParseErrorDetail>,
    /// Semantic errors (duplicates, references, cycles), in order.
    pub validation_errors: Vec<ValidationError>,
}

impl Bundle {
    /// The table behind the bundle is well-formed.
    pub open spec fn wf(self) -> bool {
        self.table.wf()
    }

    /// Builds the bundle: the language tag must parse; each resource is
    /// merged in order, its syntax errors located, its duplicate ids
    /// recorded and, when `validate_references` is on, its references and
    /// cycles checked against the table merged so far (its own entries
    /// included). With `strict`, any diagnostic at all fails construction
    /// with the full aggregated lists.
    pub fn new(
        language: &str,
        inputs: Vec<ResourceInput>,
        strict: bool,
        validate_references: bool,
    ) -> (r: Result<Bundle, ConstructionError>)
        requires
            forall|k: int| 0 <= k < inputs@.len() ==> (#[trigger] inputs@[k]).wf(),
        ensures
            ({
                let pe = all_parse_errors(inputs@, 0);
                let ve = all_validation_errors(
                    TableModel::empty(),
                    inputs@,
                    0,
                    validate_references,
                );
                match r {
                    Ok(b) => {
                        &&& is_valid_lang_tag(language@)
                        &&& !(strict && (pe.len() > 0 || ve.len() > 0))
                        &&& b.wf()
                        &&& b.table.model() == table_after(TableModel::empty(), inputs@, 0)
                        &&& perr_views(b.parse_errors@) == pe
                        &&& verr_views(b.validation_errors@) == ve
                        &&& engine_resources(b.engine) == parsed_of(inputs@)
                    },
                    Err(ConstructionError::InvalidLanguage { language: l }) => {
                        &&& !is_valid_lang_tag(language@)
                        &&& l@ == language@
                    },
                    Err(ConstructionError::Diagnostics { parse_errors, validation_errors }) => {
                        &&& is_valid_lang_tag(language@)
                        &&& strict
                        &&& pe.len() > 0 || ve.len() > 0
                        &&& perr_views(parse_errors@) == pe
                        &&& verr_views(validation_errors@) == ve
                    },
                }
            }),
    {
        let langid = match parse_language(language) {
            Some(l) => l,
            None => {
                return Err(ConstructionError::InvalidLanguage { language: language.to_owned() });
            },
        };
        let mut engine = new_engine(langid);
        let mut table = SymbolTable::new();
        let mut parse_errors: Vec<ParseErrorDetail> = Vec::new();
        let mut validation_errors: Vec<ValidationError> = Vec::new();
        let ghost s = inputs@;
        let mut rest = inputs;
        let ghost mut i: int = 0;
        proof {
            assert(rest@ =~= s.subrange(0, s.len() as int));
            assert(perr_views(parse_errors@) =~= Seq::empty());
            assert(verr_views(validation_errors@) =~= Seq::empty());
        }
        while rest.len() > 0
            invariant
                table.wf(),
                0 <= i && i + rest@.len() == s.len(),
                rest@ == s.subrange(i, s.len() as int),
                forall|k: int| 0 <= k < s.len() ==> (#[trigger] s[k]).wf(),
                table_after(table.model(), s, i) == table_after(TableModel::empty(), s, 0),
                perr_views(parse_errors@) + all_parse_errors(s, i) =~= all_parse_errors(s, 0),
                verr_views(validation_errors@) + all_validation_errors(
                    table.model(),
                    s,
                    i,
                    validate_references,
                ) =~= all_validation_errors(
                    TableModel::empty(),
                    s,
                    0,
                    validate_references,
                ),
                engine_resources(engine) =~= parsed_of(s.subrange(0, i)),
            decreases rest@.len(),
        {
            let ghost model_pre = table.model();
            let input = rest.remove(0);
            proof {
                assert(input == s[i]);
                assert(rest@ =~= s.subrange(i + 1, s.len() as int));
            }
            let ResourceInput { filename, source, entries, parsed, syntax_errors } = input;
            let ghost entries_view = entries@;

            // Locate this resource's syntax errors.
            let ghost pe_pre = perr_views(parse_errors@);
            let filename_opt = Some(filename);
            let mut j: usize = 0;
            while j < syntax_errors.len()
                invariant
                    0 <= j <= syntax_errors@.len(),
                    source@.len() < usize::MAX,
                    syntax_errors@ == s[i].syntax_errors@,
                    source@ == s[i].source@,
                    filename_opt matches Some(f) && f@ == s[i].filename@,
                    perr_views(parse_errors@) =~= pe_pre + perrs_of_input(s[i]).subrange(
                        0,
                        j as int,
                    ),
                decreases syntax_errors@.len() - j,
            {
                let ghost before = parse_errors@;
                let detail = locate_parse_error(&syntax_errors[j], source.as_slice(), &filename_opt);
                parse_errors.push(detail);
                proof {
                    assert(perr_views(parse_errors@) =~= perr_views(before).push(detail.v()));
                    assert(detail.v() == perrs_of_input(s[i])[j as int]);
                    assert(perr_views(parse_errors@) =~= pe_pre + perrs_of_input(s[i]).subrange(
                        0,
                        j as int + 1,
                    ));
                }
                j = j + 1;
            }
            proof {
                assert(perrs_of_input(s[i]).subrange(0, perrs_of_input(s[i]).len() as int)
                    =~= perrs_of_input(s[i]));
                assert(perr_views(parse_errors@) =~= pe_pre + perrs_of_input(s[i]));
                crate::walker::lemma_seq_concat_assoc(
                    pe_pre,
                    perrs_of_input(s[i]),
                    all_parse_errors(s, i + 1),
                );
            }

            // Merge, then validate against the merged table.
            let ghost ve_pre = verr_views(validation_errors@);
            let start = table.arena.len();
            let mut dups = table.merge(entries);
            validation_errors.append(&mut dups);
            proof {
                assert(table.model() == merge_entries(model_pre, entries_view, 0));
                assert(table.arena@.subrange(start as int, table.arena@.len() as int)
                    =~= entries_view);
                assert(verr_views(validation_errors@) =~= ve_pre + merge_dups(
                    model_pre,
                    entries_view,
                    0,
                ));
            }
            if validate_references {
                let mut refs = validate_resource(&table, start);
                validation_errors.append(&mut refs);
                let mut cyc = detect_cycles(&table, start);
                validation_errors.append(&mut cyc);
                proof {
                    crate::walker::lemma_seq_concat_assoc(
                        ve_pre + merge_dups(model_pre, entries_view, 0),
                        validate_entries(table.model(), entries_view, 0),
                        cycle_diags(
                            build_graph(Map::empty(), entries_view, 0),
                            build_keys(Seq::empty(), entries_view, 0),
                            0,
                        ),
                    );
                    crate::walker::lemma_seq_concat_assoc(
                        ve_pre,
                        merge_dups(model_pre, entries_view, 0),
                        validate_entries(table.model(), entries_view, 0) + cycle_diags(
                            build_graph(Map::empty(), entries_view, 0),
                            build_keys(Seq::empty(), entries_view, 0),
                            0,
                        ),
                    );
                    assert(verr_views(validation_errors@) =~= ve_pre + resource_diags(
                        model_pre,
                        s[i],
                        validate_references,
                    ));
                }
            } else {
                proof {
                    crate::walker::lemma_seq_concat_empty(merge_dups(model_pre, entries_view, 0));
                    assert(verr_views(validation_errors@) =~= ve_pre + resource_diags(
                        model_pre,
                        s[i],
                        validate_references,
                    ));
                }
            }
            proof {
                crate::walker::lemma_seq_concat_assoc(
                    ve_pre,
                    resource_diags(model_pre, s[i], validate_references),
                    all_validation_errors(table.model(), s, i + 1, validate_references),
                );
            }
            let ghost engine_pre = engine_resources(engine);
            engine_add_resource(&mut engine, parsed);
            proof {
                assert(parsed == s[i].parsed);
                assert(engine_resources(engine) == engine_pre.push(s[i].parsed));
                assert(engine_pre =~= parsed_of(s.subrange(0, i)));
                assert(engine_pre.len() == i);
                assert(engine_resources(engine).len() == i + 1);
                assert(parsed_of(s.subrange(0, i + 1)).len() == i + 1);
                assert forall|k: int| 0 <= k < i + 1 implies parsed_of(s.subrange(0, i + 1))[k]
                    == engine_resources(engine)[k] by {
                    assert(parsed_of(s.subrange(0, i + 1))[k] == s.subrange(0, i + 1)[k].parsed);
                    assert(s.subrange(0, i + 1)[k] == s[k]);
                    if k < i {
                        assert(engine_resources(engine)[k] == engine_pre[k]);
                        assert(engine_pre[k] == parsed_of(s.subrange(0, i))[k]);
                        assert(parsed_of(s.subrange(0, i))[k] == s.subrange(0, i)[k].parsed);
                        assert(s.subrange(0, i)[k] == s[k]);
                    } else {
                        assert(engine_resources(engine)[k] == s[i].parsed);
                    }
                };
                assert(engine_resources(engine) =~= parsed_of(s.subrange(0, i + 1)));
                i = i + 1;
            }
        }
        proof {
            assert(i == s.len());
            crate::walker::lemma_seq_concat_empty(perr_views(parse_errors@));
            crate::walker::lemma_seq_concat_empty(verr_views(validation_errors@));
            assert(s.subrange(0, s.len() as int) =~= s);
        }
        if strict && (parse_errors.len() > 0 || validation_errors.len() > 0) {
            return Err(ConstructionError::Diagnostics { parse_errors, validation_errors });
        }
        Ok(Bundle { engine, table, parse_errors, validation_errors })
    }

    /// The syntax errors found while parsing, across all resources.
    pub fn get_parse_errors(&self) -> (r: Vec<ParseErrorDetail>)
        ensures
            perr_views(r@) =~= perr_views(self.parse_errors@),
    {
        let mut out: Vec<ParseErrorDetail> = Vec::new();
        let mut i: usize = 0;
        while i < self.parse_errors.len()
            invariant
                0 <= i <= self.parse_errors@.len(),
                out@.len() == i,
                forall|k: int| 0 <= k < i ==> out@[k].v() == self.parse_errors@[k].v(),
            decreases self.parse_errors@.len() - i,
        {
            out.push(self.parse_errors[i].duplicate());
            i = i + 1;
        }
        proof {
            assert forall|k: int| 0 <= k < perr_views(out@).len() implies perr_views(out@)[k]
                == perr_views(self.parse_errors@)[k] by {};
            assert(perr_views(out@) =~= perr_views(self.parse_errors@));
        }
        out
    }

    /// The semantic errors found while merging and validating: duplicate
    /// ids, unknown references, unknown attributes, ignored positional
    /// arguments and cyclic references.
    pub fn get_validation_errors(&self) -> (r: Vec<ValidationError>)
        ensures
            verr_views(r@) =~= verr_views(self.validation_errors@),
    {
        let mut out: Vec<ValidationError> = Vec::new();
        let mut i: usize = 0;
        while i < self.validation_errors.len()
            invariant
                0 <= i <= self.validation_errors@.len(),
                out@.len() == i,
                forall|k: int| 0 <= k < i ==> out@[k].v() == self.validation_errors@[k].v(),
            decreases self.validation_errors@.len() - i,
        {
            out.push(self.validation_errors[i].duplicate());
            i = i + 1;
        }
        proof {
            assert forall|k: int| 0 <= k < verr_views(out@).len() implies verr_views(out@)[k]
                == verr_views(self.validation_errors@)[k] by {};
            assert(verr_views(out@) =~= verr_views(self.validation_errors@));
        }
        out
    }

    /// The semantic errors, under the accessor's earlier name.
    pub fn get_compile_errors(&self) -> (r: Vec<ValidationError>)
        ensures
            verr_views(r@) =~= verr_views(self.validation_errors@),
    {
        self.get_validation_errors()
    }

    /// Every construction-time diagnostic in one list: the parse errors, in
    /// order, each tagged as such, then the validation errors likewise.
    pub fn get_all_compile_errors(&self) -> (r: Vec<crate::diag::CompileError>)
        ensures
            crate::diag::cerr_views(r@) =~= perr_views(self.parse_errors@).map_values(
                |e: ParseErrorDetailView| crate::diag::CompileErrorView::Parse(e),
            ) + verr_views(self.validation_errors@).map_values(
                |e: ValidationErrorView| crate::diag::CompileErrorView::Validation(e),
            ),
    {
        let mut out: Vec<crate::diag::CompileError> = Vec::new();
        let mut i: usize = 0;
        while i < self.parse_errors.len()
            invariant
                0 <= i <= self.parse_errors@.len(),
                out@.len() == i,
                forall|k: int|
                    0 <= k < i ==> out@[k].v() == crate::diag::CompileErrorView::Parse(
                        self.parse_errors@[k].v(),
                    ),
            decreases self.parse_errors@.len() - i,
        {
            out.push(crate::diag::CompileError::Parse(self.parse_errors[i].duplicate()));
            i = i + 1;
        }
        let ghost np = self.parse_errors@.len() as int;
        let mut j: usize = 0;
        while j < self.validation_errors.len()
            invariant
                0 <= j <= self.validation_errors@.len(),
                np == self.parse_errors@.len(),
                out@.len() == np + j,
                forall|k: int|
                    0 <= k < np ==> out@[k].v() == crate::diag::CompileErrorView::Parse(
                        self.parse_errors@[k].v(),
                    ),
                forall|k: int|
                    0 <= k < j ==> out@[np + k].v() == crate::diag::CompileErrorView::Validation(
                        self.validation_errors@[k].v(),
                    ),
            decreases self.validation_errors@.len() - j,
        {
            out.push(
                crate::diag::CompileError::Validation(self.validation_errors[j].duplicate()),
            );
            j = j + 1;
        }
        proof {
            let target = perr_views(self.parse_errors@).map_values(
                |e: ParseErrorDetailView| crate::diag::CompileErrorView::Parse(e),
            ) + verr_views(self.validation_errors@).map_values(
                |e: ValidationErrorView| crate::diag::CompileErrorView::Validation(e),
            );
            assert forall|k: int| 0 <= k < crate::diag::cerr_views(out@).len() implies crate::diag::cerr_views(
                out@,
            )[k] == target[k] by {
                if k < np {
                } else {
                    assert(out@[k].v() == crate::diag::CompileErrorView::Validation(
                        self.validation_errors@[k - np].v(),
                    ));
                }
            };
            assert(crate::diag::cerr_views(out@) =~= target);
        }
        out
    }
}

} // verus!
