//! The function catalog extractors: builtin data tables, the texture
//! functions section and the atomic functions section, merged with
//! later-extractor precedence, placeholder removal and signature
//! normalization.

use vstd::prelude::*;
use vstd::map::*;

use crate::doc::Block;
use crate::doc::BlockKind;
use crate::doc::BlockKindV;
use crate::doc::BlockV;
use crate::doc::RowV;
use crate::doc::Table;
use crate::doc::TableV;
use crate::doc::cell_fragments;
use crate::doc::cell_text;
use crate::doc::find_id_from;
use crate::doc::is_heading_at;
use crate::doc::parts_frags;
use crate::doc::section_end;
use crate::doc::spec_cell_text;
use crate::doc::spec_find_id;
use crate::doc::spec_sec_end;
use crate::nmap::NameMap;
use crate::nmap::lemma_map_of_get;
use crate::nmap::lemma_map_of_key;
use crate::nmap::lemma_map_of_update;
use crate::nmap::map_of;
use crate::nmap::unique_keys;
use crate::param::parse_parameterization;
use crate::param::spec_parse_parameterization;
use crate::records::Function;
use crate::records::FunctionInfo;
use crate::records::FunctionOverload;
use crate::records::FunctionOverloadV;
use crate::records::FunctionParameter;
use crate::records::FunctionParameterV;
use crate::records::FunctionV;
use crate::records::Parameterization;
use crate::sig::function_name_from_signature;
use crate::sig::spec_function_name;
use crate::text::any_frag_contains;
use crate::text::chars_of;
use crate::text::contains_at;
use crate::text::join_words;
use crate::text::match_at;
use crate::text::spec_any_contains;
use crate::text::spec_join_words;
use crate::text::spec_replace;
use crate::text::spec_trim;
use crate::text::spec_trim_end;
use crate::text::spec_trim_start;
use vstd::string::StringExecFns;

verus! {

/// Why an extraction run aborted: a structural assumption did not hold.
#[derive(Debug, Clone, Copy, PartialEq, Eq, Structural)]
pub enum ExtractError {
    /// A builtin data table's overload signature names no function.
    MissingFunctionName,
    /// The texture-functions anchor is not a third-level heading.
    TextureAnchorNotHeading,
    /// A texture function's heading holds no code element to name it.
    MissingTextureFunctionName,
    /// The atomic-functions anchor is not a third-level heading.
    AtomicAnchorNotHeading,
    /// An atomic subsection does not begin with a code block of signatures.
    AtomicExpectedSignatures,
}

/// The views of a sequence of overloads.
pub open spec fn overloads_view(s: Seq<FunctionOverload>) -> Seq<FunctionOverloadV> {
    Seq::new(s.len(), |i: int| s[i]@)
}

/// The state a builtin data table's rows fold into: the pending signature,
/// description and parameterization.
#[verifier::ext_equal]
pub ghost struct RowState {
    pub sig: Option<Seq<char>>,
    pub desc: Option<Seq<char>>,
    pub pm: Map<Seq<char>, crate::records::ParameterizationKindV>,
}

/// Folds one builtin data table's rows: a row's first cell selects which
/// pending field its second cell sets.
pub open spec fn row_fold(rows: Seq<RowV>, st: RowState) -> RowState
    decreases rows.len(),
{
    if rows.len() == 0 {
        st
    } else {
        let r0 = rows[0];
        let st2 = if r0.cells.len() >= 2 {
            let h = parts_frags(r0.cells[0].parts);
            if spec_any_contains(h, "Overload"@) {
                RowState { sig: Option::Some(spec_cell_text(r0.cells[1])), ..st }
            } else if spec_any_contains(h, "Description"@) {
                RowState { desc: Option::Some(spec_cell_text(r0.cells[1])), ..st }
            } else if spec_any_contains(h, "Parameterization"@) {
                RowState { pm: spec_parse_parameterization(r0.cells[1]), ..st }
            } else {
                st
            }
        } else {
            st
        };
        row_fold(rows.drop_first(), st2)
    }
}

/// The overload one builtin data table yields: none without a signature row,
/// and a missing description defaults to empty.
pub open spec fn table_overload(t: TableV) -> Option<FunctionOverloadV> {
    let st = row_fold(
        t.rows,
        RowState { sig: Option::None, desc: Option::None, pm: Map::empty() },
    );
    match st.sig {
        Option::Some(s) => Option::Some(
            FunctionOverloadV {
                signature: s,
                parameterization: st.pm,
                description: Option::Some(
                    match st.desc {
                        Option::Some(d) => d,
                        Option::None => Seq::empty(),
                    },
                ),
            },
        ),
        Option::None => Option::None,
    }
}

/// All overloads of the document's builtin data tables, in document order.
pub open spec fn std_ovs(doc: Seq<BlockV>, i: int) -> Seq<FunctionOverloadV>
    decreases doc.len() - i,
{
    if i < 0 || i >= doc.len() {
        Seq::empty()
    } else {
        (match doc[i].kind {
            BlockKindV::Table(t) => if t.builtin_data {
                match table_overload(t) {
                    Option::Some(o) => seq![o],
                    Option::None => Seq::empty(),
                }
            } else {
                Seq::empty()
            },
            _ => Seq::empty(),
        }) + std_ovs(doc, i + 1)
    }
}

/// An entry with no overloads, parameters or description.
pub open spec fn empty_function() -> FunctionV {
    FunctionV { overloads: Seq::empty(), parameters: Seq::empty(), description: Option::None }
}

/// Groups overloads by the function name of each signature; an overload
/// whose signature names no function aborts the run.
pub open spec fn group_fold(ovs: Seq<FunctionOverloadV>, m: Map<Seq<char>, FunctionV>) -> Result<
    Map<Seq<char>, FunctionV>,
    ExtractError,
>
    decreases ovs.len(),
{
    if ovs.len() == 0 {
        Result::Ok(m)
    } else {
        match spec_function_name(ovs[0].signature) {
            Option::None => Result::Err(ExtractError::MissingFunctionName),
            Option::Some(n) => {
                let f0 = if m.contains_key(n) {
                    m[n]
                } else {
                    empty_function()
                };
                group_fold(
                    ovs.drop_first(),
                    m.insert(
                        n,
                        FunctionV {
                            overloads: f0.overloads.push(ovs[0]),
                            parameters: f0.parameters,
                            description: f0.description,
                        },
                    ),
                )
            },
        }
    }
}

/// Reads one builtin data table into its overload, if it has a signature row.
fn table_overload_exec(t: &Table) -> (r: Option<FunctionOverload>)
    ensures
        (match r {
            Some(o) => Option::Some(o@),
            None => Option::None::<FunctionOverloadV>,
        }) == table_overload(t@),
{
    let pat_ov = chars_of("Overload");
    let pat_de = chars_of("Description");
    let pat_pa = chars_of("Parameterization");
    let mut sig: Option<String> = None;
    let mut desc: Option<String> = None;
    let mut pm = Parameterization::empty();
    let ghost rv = t@.rows;
    let n = t.rows.len();
    let ghost st0 = RowState { sig: Option::None, desc: Option::None, pm: Map::empty() };
    proof {
        assert(rv.skip(0) =~~= rv);
        assert((match sig {
            Some(s) => Option::Some(s@),
            None => Option::None::<Seq<char>>,
        }) == st0.sig);
    }
    for k in 0..n
        invariant
            n == t.rows.len(),
            rv == t@.rows,
            pat_ov@ == "Overload"@,
            pat_de@ == "Description"@,
            pat_pa@ == "Parameterization"@,
            row_fold(rv, st0) == row_fold(
                rv.skip(k as int),
                RowState {
                    sig: match sig {
                        Some(s) => Option::Some(s@),
                        None => Option::None,
                    },
                    desc: match desc {
                        Some(d) => Option::Some(d@),
                        None => Option::None,
                    },
                    pm: pm@,
                },
            ),
    {
        proof {
            assert(rv.skip(k as int).drop_first() =~~= rv.skip(k as int + 1));
            assert(rv.skip(k as int)[0] == rv[k as int]);
            assert(rv[k as int] == t.rows@[k as int]@);
        }
        if t.rows[k].cells.len() >= 2 {
            proof {
                assert(rv[k as int].cells[0] == t.rows@[k as int].cells@[0]@);
                assert(rv[k as int].cells[1] == t.rows@[k as int].cells@[1]@);
            }
            let header = cell_fragments(&t.rows[k].cells[0]);
            if any_frag_contains(&header, &pat_ov) {
                sig = Some(cell_text(&t.rows[k].cells[1]));
            } else if any_frag_contains(&header, &pat_de) {
                desc = Some(cell_text(&t.rows[k].cells[1]));
            } else if any_frag_contains(&header, &pat_pa) {
                pm = parse_parameterization(&t.rows[k].cells[1]);
            }
        }
    }
    proof {
        assert(rv.skip(n as int) =~~= Seq::<RowV>::empty());
    }
    match sig {
        Some(s) => {
            let d = match desc {
                Some(d) => d,
                None => String::new(),
            };
            Some(FunctionOverload { signature: s, parameterization: pm, description: Some(d) })
        },
        None => None,
    }
}

/// All overloads of the document's builtin data tables, in document order.
fn std_overloads(doc: &Vec<Block>) -> (r: Vec<FunctionOverload>)
    ensures
        overloads_view(r@) == std_ovs(doc.deep_view(), 0),
{
    let ghost dv = doc.deep_view();
    let n = doc.len();
    let mut r: Vec<FunctionOverload> = Vec::new();
    proof {
        assert(overloads_view(r@) + std_ovs(dv, 0) =~~= std_ovs(dv, 0));
    }
    for i in 0..n
        invariant
            n == doc.len(),
            dv == doc.deep_view(),
            std_ovs(dv, 0) == overloads_view(r@) + std_ovs(dv, i as int),
    {
        proof {
            assert(dv[i as int] == doc@[i as int]@);
        }
        match &doc[i].kind {
            BlockKind::Table(t) => {
                if t.builtin_data {
                    match table_overload_exec(t) {
                        Some(o) => {
                            let ghost r0 = overloads_view(r@);
                            let ghost ov = o@;
                            r.push(o);
                            proof {
                                assert(overloads_view(r@) =~~= r0.push(ov));
                                assert(r0.push(ov) + std_ovs(dv, i as int + 1) =~~= r0 + (seq![ov]
                                    + std_ovs(dv, i as int + 1)));
                            }
                        },
                        None => {
                            proof {
                                assert(Seq::<FunctionOverloadV>::empty() + std_ovs(
                                    dv,
                                    i as int + 1,
                                ) =~~= std_ovs(dv, i as int + 1));
                            }
                        },
                    }
                }
            },
            _ => {},
        }
    }
    proof {
        assert(std_ovs(dv, n as int) =~~= Seq::<FunctionOverloadV>::empty());
        assert(overloads_view(r@) + Seq::<FunctionOverloadV>::empty() =~~= overloads_view(r@));
    }
    r
}

/// Appends an overload to the function named `name`, creating the entry if
/// absent.
fn push_overload(m: &mut NameMap<Function>, name: String, ov: FunctionOverload)
    requires
        old(m).wf(),
    ensures
        final(m).wf(),
        final(m)@ == old(m)@.insert(
            name@,
            (FunctionV {
                overloads: (if old(m)@.contains_key(name@) {
                    old(m)@[name@]
                } else {
                    empty_function()
                }).overloads.push(ov@),
                parameters: (if old(m)@.contains_key(name@) {
                    old(m)@[name@]
                } else {
                    empty_function()
                }).parameters,
                description: (if old(m)@.contains_key(name@) {
                    old(m)@[name@]
                } else {
                    empty_function()
                }).description,
            }),
        ),
{
    proof {
        lemma_map_of_key(m.entries_view(), name@);
    }
    match m.index_of(name.as_str()) {
        Some(j) => {
            proof {
                lemma_map_of_get(m.entries_view(), j as int);
            }
            let ghost s0 = m.entries_view();
            let ghost f0 = m@[name@];
            let ghost ovv = ov@;
            let (k, mut f) = m.entries.remove(j);
            f.overloads.push(ov);
            m.entries.insert(j, (k, f));
            proof {
                assert(f@.overloads =~~= f0.overloads.push(ovv));
                assert(f@ =~~= FunctionV {
                    overloads: f0.overloads.push(ovv),
                    parameters: f0.parameters,
                    description: f0.description,
                });
                assert(m.entries_view() =~= s0.update(j as int, (name@, f@)));
                lemma_map_of_update(s0, j as int, name@, f@);
                assert(unique_keys(m.entries_view())) by {
                    assert(forall|a: int|
                        0 <= a < s0.len() && a != j ==> m.entries_view()[a].0 == s0[a].0);
                    assert(m.entries_view()[j as int].0 == s0[j as int].0);
                }
            }
        },
        None => {
            let mut ovs: Vec<FunctionOverload> = Vec::new();
            let ghost ovv = ov@;
            ovs.push(ov);
            let f = Function { overloads: ovs, parameters: Vec::new(), description: None };
            proof {
                assert(f@.overloads =~~= empty_function().overloads.push(ovv));
                assert(f@.parameters =~~= empty_function().parameters);
                assert(f@ =~~= FunctionV {
                    overloads: empty_function().overloads.push(ovv),
                    parameters: empty_function().parameters,
                    description: empty_function().description,
                });
            }
            m.insert(name, f);
        },
    }
}

/// Groups the builtin-table overloads into the function map.
fn group_overloads(mut ovs: Vec<FunctionOverload>, Ghost(full): Ghost<Seq<FunctionOverloadV>>) -> (r: Result<
    NameMap<Function>,
    ExtractError,
>)
    requires
        full == overloads_view(ovs@),
    ensures
        r matches Ok(m) ==> m.wf() && group_fold(full, Map::empty()) == Result::<
            Map<Seq<char>, FunctionV>,
            ExtractError,
        >::Ok(m@),
        r matches Err(e) ==> group_fold(full, Map::empty()) == Result::<
            Map<Seq<char>, FunctionV>,
            ExtractError,
        >::Err(e),
{
    let mut m: NameMap<Function> = NameMap::new();
    while ovs.len() > 0
        invariant
            m.wf(),
            group_fold(full, Map::empty()) == group_fold(overloads_view(ovs@), m@),
        decreases ovs.len(),
    {
        let ghost pre = ovs@;
        let ghost tail = overloads_view(ovs@);
        proof {
            assert(tail[0] == ovs@[0]@);
        }
        let ov = ovs.remove(0);
        proof {
            assert(ovs@ =~= pre.remove(0));
            assert(pre.remove(0) =~= pre.drop_first());
            assert(overloads_view(ovs@) =~~= tail.drop_first());
        }
        proof {
            assert(ov == pre[0]);
            assert(tail[0].signature == ov.signature@);
        }
        match function_name_from_signature(ov.signature.as_str()) {
            None => {
                proof {
                    assert(spec_function_name(tail[0].signature) is None);
                    assert(group_fold(tail, m@) == Result::<
                        Map<Seq<char>, FunctionV>,
                        ExtractError,
                    >::Err(ExtractError::MissingFunctionName));
                }
                return Err(ExtractError::MissingFunctionName);
            },
            Some(name) => {
                push_overload(&mut m, name, ov);
            },
        }
    }
    proof {
        assert(overloads_view(ovs@) =~~= Seq::<FunctionOverloadV>::empty());
    }
    Ok(m)
}

/// The views of a sequence of parameters.
pub open spec fn params_view(s: Seq<FunctionParameter>) -> Seq<FunctionParameterV> {
    Seq::new(s.len(), |i: int| s[i]@)
}

/// The overloads of a table's algorithm rows: first cell parameterization,
/// second cell signature.
pub open spec fn algo_rows(rows: Seq<RowV>) -> Seq<FunctionOverloadV>
    decreases rows.len(),
{
    if rows.len() == 0 {
        Seq::empty()
    } else {
        (if rows[0].algorithm && rows[0].cells.len() >= 2 {
            seq![
                FunctionOverloadV {
                    signature: spec_cell_text(rows[0].cells[1]),
                    parameterization: spec_parse_parameterization(rows[0].cells[0]),
                    description: Option::None,
                },
            ]
        } else {
            Seq::empty()
        }) + algo_rows(rows.drop_first())
    }
}

/// The algorithm-row overloads of a block.
pub open spec fn algo_ovs(k: BlockKindV) -> Seq<FunctionOverloadV> {
    match k {
        BlockKindV::Table(t) => algo_rows(t.rows),
        _ => Seq::empty(),
    }
}

/// The parameters of a parameter table's rows: first cell name, second cell
/// description.
pub open spec fn prow_fold(rows: Seq<RowV>) -> Seq<FunctionParameterV>
    decreases rows.len(),
{
    if rows.len() == 0 {
        Seq::empty()
    } else {
        (if rows[0].cells.len() >= 2 {
            seq![
                FunctionParameterV {
                    name: spec_cell_text(rows[0].cells[0]),
                    description: spec_cell_text(rows[0].cells[1]),
                },
            ]
        } else {
            Seq::empty()
        }) + prow_fold(rows.drop_first())
    }
}

/// The parameters a block contributes when read as a parameter table.
pub open spec fn param_rows(k: BlockKindV) -> Seq<FunctionParameterV> {
    match k {
        BlockKindV::Table(t) => prow_fold(t.rows),
        _ => Seq::empty(),
    }
}

/// The description extended by every remaining block's text, each after a
/// blank line.
pub open spec fn returns_tail(doc: Seq<BlockV>, k: int, e2: int, d: Seq<char>) -> Seq<char>
    decreases e2 - k,
{
    if k < 0 || k >= e2 || k >= doc.len() {
        d
    } else {
        returns_tail(doc, k + 1, e2, d + "\n\n"@ + spec_join_words(doc[k].fragments))
    }
}

/// The state a texture subsection's walk carries.
#[verifier::ext_equal]
pub ghost struct TexState {
    pub ovs: Seq<FunctionOverloadV>,
    pub ps: Seq<FunctionParameterV>,
    pub desc: Seq<char>,
}

/// Walks one texture subsection's blocks: algorithm rows yield overloads, a
/// bold `Parameters:` label reads the next block as a parameter table, and a
/// bold `Returns:` label folds every remaining block into the description
/// and ends the walk.
pub open spec fn tex_walk(doc: Seq<BlockV>, k: int, e2: int, st: TexState) -> TexState
    decreases e2 - k,
{
    if k < 0 || k >= e2 || k >= doc.len() {
        st
    } else {
        let b = doc[k];
        let ovs2 = st.ovs + algo_ovs(b.kind);
        let hasp = spec_any_contains(b.strong, "Parameters:"@);
        let hasr = spec_any_contains(b.strong, "Returns:"@);
        if hasp {
            if k + 1 >= e2 || k + 1 >= doc.len() {
                TexState { ovs: ovs2, ..st }
            } else {
                let ps2 = st.ps + param_rows(doc[k + 1].kind);
                if hasr {
                    TexState {
                        ovs: ovs2,
                        ps: ps2,
                        desc: returns_tail(doc, k + 2, e2, st.desc + "\n\nReturns:"@),
                    }
                } else {
                    tex_walk(doc, k + 2, e2, TexState { ovs: ovs2, ps: ps2, desc: st.desc })
                }
            }
        } else if hasr {
            TexState {
                ovs: ovs2,
                ps: st.ps,
                desc: returns_tail(doc, k + 1, e2, st.desc + "\n\nReturns:"@),
            }
        } else {
            tex_walk(doc, k + 1, e2, TexState { ovs: ovs2, ps: st.ps, desc: st.desc })
        }
    }
}

/// One texture subsection's entry: named by its heading's code element,
/// described by its first block, skipped entirely when it has no blocks.
pub open spec fn spec_tex_section(doc: Seq<BlockV>, h: int) -> Result<
    Option<(Seq<char>, FunctionV)>,
    ExtractError,
>
    recommends
        0 <= h < doc.len(),
{
    let code = match doc[h].kind {
        BlockKindV::Heading { code: c, .. } => c,
        _ => Option::None,
    };
    match code {
        Option::None => Result::Err(ExtractError::MissingTextureFunctionName),
        Option::Some(c) => {
            let name = spec_join_words(c);
            let e2 = spec_sec_end(doc, h + 1, 4);
            if h + 1 >= e2 {
                Result::Ok(Option::None)
            } else {
                let st = tex_walk(
                    doc,
                    h + 2,
                    e2,
                    TexState {
                        ovs: Seq::empty(),
                        ps: Seq::empty(),
                        desc: spec_join_words(doc[h + 1].fragments),
                    },
                );
                Result::Ok(
                    Option::Some(
                        (
                            name,
                            FunctionV {
                                overloads: st.ovs,
                                parameters: st.ps,
                                description: Option::Some(st.desc),
                            },
                        ),
                    ),
                )
            }
        },
    }
}

/// Folds every fourth-level heading's subsection of the texture section
/// into the map, later subsections overwriting same-named entries.
pub open spec fn tex_fold(doc: Seq<BlockV>, i: int, e: int, m: Map<Seq<char>, FunctionV>) -> Result<
    Map<Seq<char>, FunctionV>,
    ExtractError,
>
    decreases e - i,
{
    if i < 0 || i >= e || i >= doc.len() {
        Result::Ok(m)
    } else if is_heading_at(doc[i], 4) {
        match spec_tex_section(doc, i) {
            Result::Err(er) => Result::Err(er),
            Result::Ok(Option::None) => tex_fold(doc, i + 1, e, m),
            Result::Ok(Option::Some(p)) => tex_fold(doc, i + 1, e, m.insert(p.0, p.1)),
        }
    } else {
        tex_fold(doc, i + 1, e, m)
    }
}

/// The texture-functions section folded onto `m`: absent anchor leaves `m`;
/// an anchor that is not a third-level heading aborts.
pub open spec fn spec_texture(doc: Seq<BlockV>, m: Map<Seq<char>, FunctionV>) -> Result<
    Map<Seq<char>, FunctionV>,
    ExtractError,
> {
    match spec_find_id(doc, "texture-builtin-functions"@, 0) {
        Option::None => Result::Ok(m),
        Option::Some(a) => if !is_heading_at(doc[a], 3) {
            Result::Err(ExtractError::TextureAnchorNotHeading)
        } else {
            tex_fold(doc, a + 1, spec_sec_end(doc, a + 1, 3), m)
        },
    }
}

/// Appends the overloads of a table's algorithm rows.
fn algo_rows_exec(t: &Table, ovs: &mut Vec<FunctionOverload>)
    ensures
        overloads_view(final(ovs)@) == overloads_view(old(ovs)@) + algo_rows(t@.rows),
{
    let ghost rv = t@.rows;
    let n = t.rows.len();
    proof {
        assert(rv.skip(0) =~~= rv);
        assert(overloads_view(ovs@) + Seq::<FunctionOverloadV>::empty() =~~= overloads_view(
            ovs@,
        ));
    }
    for k in 0..n
        invariant
            n == t.rows.len(),
            rv == t@.rows,
            overloads_view(old(ovs)@) + algo_rows(rv) == overloads_view(ovs@) + algo_rows(
                rv.skip(k as int),
            ),
    {
        proof {
            assert(rv.skip(k as int).drop_first() =~~= rv.skip(k as int + 1));
            assert(rv.skip(k as int)[0] == rv[k as int]);
            assert(rv[k as int] == t.rows@[k as int]@);
        }
        if t.rows[k].algorithm && t.rows[k].cells.len() >= 2 {
            proof {
                assert(rv[k as int].cells[0] == t.rows@[k as int].cells@[0]@);
                assert(rv[k as int].cells[1] == t.rows@[k as int].cells@[1]@);
            }
            let sig = cell_text(&t.rows[k].cells[1]);
            let pm = parse_parameterization(&t.rows[k].cells[0]);
            let o = FunctionOverload { signature: sig, parameterization: pm, description: None };
            let ghost o0 = overloads_view(ovs@);
            let ghost ovv = o@;
            ovs.push(o);
            proof {
                assert(overloads_view(ovs@) =~~= o0.push(ovv));
                assert(o0.push(ovv) + algo_rows(rv.skip(k as int + 1)) =~~= o0 + (seq![ovv]
                    + algo_rows(rv.skip(k as int + 1))));
            }
        }
    }
    proof {
        assert(rv.skip(n as int) =~~= Seq::<RowV>::empty());
        assert(overloads_view(ovs@) + Seq::<FunctionOverloadV>::empty() =~~= overloads_view(
            ovs@,
        ));
    }
}

/// Appends the parameters of a parameter table's rows.
fn param_rows_exec(t: &Table, ps: &mut Vec<FunctionParameter>)
    ensures
        params_view(final(ps)@) == params_view(old(ps)@) + prow_fold(t@.rows),
{
    let ghost rv = t@.rows;
    let n = t.rows.len();
    proof {
        assert(rv.skip(0) =~~= rv);
        assert(params_view(ps@) + Seq::<FunctionParameterV>::empty() =~~= params_view(ps@));
    }
    for k in 0..n
        invariant
            n == t.rows.len(),
            rv == t@.rows,
            params_view(old(ps)@) + prow_fold(rv) == params_view(ps@) + prow_fold(
                rv.skip(k as int),
            ),
    {
        proof {
            assert(rv.skip(k as int).drop_first() =~~= rv.skip(k as int + 1));
            assert(rv.skip(k as int)[0] == rv[k as int]);
            assert(rv[k as int] == t.rows@[k as int]@);
        }
        if t.rows[k].cells.len() >= 2 {
            proof {
                assert(rv[k as int].cells[0] == t.rows@[k as int].cells@[0]@);
                assert(rv[k as int].cells[1] == t.rows@[k as int].cells@[1]@);
            }
            let nm = cell_text(&t.rows[k].cells[0]);
            let de = cell_text(&t.rows[k].cells[1]);
            let p = FunctionParameter { name: nm, description: de };
            let ghost p0 = params_view(ps@);
            let ghost pv = p@;
            ps.push(p);
            proof {
                assert(params_view(ps@) =~~= p0.push(pv));
                assert(p0.push(pv) + prow_fold(rv.skip(k as int + 1)) =~~= p0 + (seq![pv]
                    + prow_fold(rv.skip(k as int + 1))));
            }
        }
    }
    proof {
        assert(rv.skip(n as int) =~~= Seq::<RowV>::empty());
        assert(params_view(ps@) + Seq::<FunctionParameterV>::empty() =~~= params_view(ps@));
    }
}

/// Reads one texture subsection into its named entry.
fn tex_section(doc: &Vec<Block>, h: usize) -> (r: Result<
    Option<(String, Function)>,
    ExtractError,
>)
    requires
        h < doc.len(),
    ensures
        r matches Err(e) ==> spec_tex_section(doc.deep_view(), h as int) == Result::<
            Option<(Seq<char>, FunctionV)>,
            ExtractError,
        >::Err(e),
        r matches Ok(o) ==> (match o {
            Some(p) => spec_tex_section(doc.deep_view(), h as int) == Result::<
                Option<(Seq<char>, FunctionV)>,
                ExtractError,
            >::Ok(Option::Some((p.0@, p.1@))),
            None => spec_tex_section(doc.deep_view(), h as int) == Result::<
                Option<(Seq<char>, FunctionV)>,
                ExtractError,
            >::Ok(Option::None),
        }),
{
    let ghost dv = doc.deep_view();
    proof {
        assert(dv[h as int] == doc@[h as int]@);
    }
    let name = match &doc[h].kind {
        BlockKind::Heading { code: Some(c), .. } => join_words(c),
        _ => {
            return Err(ExtractError::MissingTextureFunctionName);
        },
    };
    let e2 = section_end(doc, h + 1, 4);
    if h + 1 >= e2 {
        return Ok(None);
    }
    proof {
        assert(dv[h as int + 1] == doc@[h as int + 1]@);
    }
    let mut desc = join_words(&doc[h + 1].fragments);
    let mut ovs: Vec<FunctionOverload> = Vec::new();
    let mut ps: Vec<FunctionParameter> = Vec::new();
    let patp = chars_of("Parameters:");
    let patr = chars_of("Returns:");
    proof {
        assert(overloads_view(ovs@) =~~= Seq::<FunctionOverloadV>::empty());
        assert(params_view(ps@) =~~= Seq::<FunctionParameterV>::empty());
    }
    let ghost target = tex_walk(
        dv,
        h + 2,
        e2 as int,
        TexState { ovs: Seq::empty(), ps: Seq::empty(), desc: desc@ },
    );
    let mut k = h + 2;
    while k < e2
        invariant
            dv == doc.deep_view(),
            e2 <= doc.len(),
            h + 2 <= k,
            patp@ == "Parameters:"@,
            patr@ == "Returns:"@,
            target == tex_walk(
                dv,
                k as int,
                e2 as int,
                TexState { ovs: overloads_view(ovs@), ps: params_view(ps@), desc: desc@ },
            ),
        decreases e2 - k,
    {
        let ghost st = TexState {
            ovs: overloads_view(ovs@),
            ps: params_view(ps@),
            desc: desc@,
        };
        proof {
            assert(dv[k as int] == doc@[k as int]@);
        }
        match &doc[k].kind {
            BlockKind::Table(t) => {
                algo_rows_exec(t, &mut ovs);
            },
            _ => {
                proof {
                    assert(algo_ovs(dv[k as int].kind) =~~= Seq::<FunctionOverloadV>::empty());
                    assert(overloads_view(ovs@) + Seq::<FunctionOverloadV>::empty()
                        =~~= overloads_view(ovs@));
                }
            },
        }
        proof {
            assert(overloads_view(ovs@) =~~= st.ovs + algo_ovs(dv[k as int].kind));
        }
        let hasp = any_frag_contains(&doc[k].strong, &patp);
        let hasr = any_frag_contains(&doc[k].strong, &patr);
        if hasp {
            if k + 1 >= e2 {
                proof {
                    assert(tex_walk(dv, k as int, e2 as int, st) == TexState {
                        ovs: overloads_view(ovs@),
                        ps: st.ps,
                        desc: st.desc,
                    });
                }
                k = e2;
            } else {
                proof {
                    assert(dv[k as int + 1] == doc@[k as int + 1]@);
                }
                match &doc[k + 1].kind {
                    BlockKind::Table(t) => {
                        param_rows_exec(t, &mut ps);
                    },
                    _ => {
                        proof {
                            assert(param_rows(dv[k as int + 1].kind)
                                =~~= Seq::<FunctionParameterV>::empty());
                            assert(params_view(ps@) + Seq::<FunctionParameterV>::empty()
                                =~~= params_view(ps@));
                        }
                    },
                }
                proof {
                    assert(params_view(ps@) =~~= st.ps + param_rows(dv[k as int + 1].kind));
                }
                if hasr {
                    desc.append("\n\nReturns:");
                    let ghost rt = returns_tail(dv, k as int + 2, e2 as int, desc@);
                    let mut j = k + 2;
                    while j < e2
                        invariant
                            dv == doc.deep_view(),
                            e2 <= doc.len(),
                            rt == returns_tail(dv, j as int, e2 as int, desc@),
                        decreases e2 - j,
                    {
                        proof {
                            assert(dv[j as int] == doc@[j as int]@);
                        }
                        desc.append("\n\n");
                        let piece = join_words(&doc[j].fragments);
                        desc.append(piece.as_str());
                        j = j + 1;
                    }
                    proof {
                        assert(desc@ == rt);
                        assert(tex_walk(dv, k as int, e2 as int, st) == TexState {
                            ovs: overloads_view(ovs@),
                            ps: params_view(ps@),
                            desc: desc@,
                        });
                    }
                    k = e2;
                } else {
                    k = k + 2;
                }
            }
        } else if hasr {
            desc.append("\n\nReturns:");
            let ghost rt = returns_tail(dv, k as int + 1, e2 as int, desc@);
            let mut j = k + 1;
            while j < e2
                invariant
                    dv == doc.deep_view(),
                    e2 <= doc.len(),
                    rt == returns_tail(dv, j as int, e2 as int, desc@),
                decreases e2 - j,
            {
                proof {
                    assert(dv[j as int] == doc@[j as int]@);
                }
                desc.append("\n\n");
                let piece = join_words(&doc[j].fragments);
                desc.append(piece.as_str());
                j = j + 1;
            }
            proof {
                assert(desc@ == rt);
                assert(tex_walk(dv, k as int, e2 as int, st) == TexState {
                    ovs: overloads_view(ovs@),
                    ps: params_view(ps@),
                    desc: desc@,
                });
            }
            k = e2;
        } else {
            k = k + 1;
        }
    }
    proof {
        assert(target == TexState {
            ovs: overloads_view(ovs@),
            ps: params_view(ps@),
            desc: desc@,
        });
    }
    let f = Function { overloads: ovs, parameters: ps, description: Some(desc) };
    proof {
        assert(f@.overloads =~~= target.ovs);
        assert(f@.parameters =~~= target.ps);
        assert(f@ =~~= FunctionV {
            overloads: target.ovs,
            parameters: target.ps,
            description: Option::Some(target.desc),
        });
    }
    Ok(Some((name, f)))
}

/// Folds the texture-functions section onto the function map.
fn apply_texture(doc: &Vec<Block>, m: &mut NameMap<Function>) -> (r: Result<(), ExtractError>)
    requires
        old(m).wf(),
    ensures
        final(m).wf(),
        r matches Ok(u) ==> spec_texture(doc.deep_view(), old(m)@) == Result::<
            Map<Seq<char>, FunctionV>,
            ExtractError,
        >::Ok(final(m)@),
        r matches Err(e) ==> spec_texture(doc.deep_view(), old(m)@) == Result::<
            Map<Seq<char>, FunctionV>,
            ExtractError,
        >::Err(e),
{
    let ghost dv = doc.deep_view();
    let anchor = chars_of("texture-builtin-functions");
    match find_id_from(doc, &anchor, 0) {
        None => Ok(()),
        Some(a) => {
            proof {
                assert(dv[a as int] == doc@[a as int]@);
            }
            let mut is_h3 = false;
            match &doc[a].kind {
                BlockKind::Heading { level, .. } => {
                    if *level == 3 {
                        is_h3 = true;
                    }
                },
                _ => {},
            }
            proof {
                assert(is_h3 == is_heading_at(dv[a as int], 3));
            }
            if !is_h3 {
                return Err(ExtractError::TextureAnchorNotHeading);
            }
            let e = section_end(doc, a + 1, 3);
            let mut i = a + 1;
            while i < e
                invariant
                    dv == doc.deep_view(),
                    e <= doc.len(),
                    a + 1 <= i,
                    a < doc.len(),
                    m.wf(),
                    spec_find_id(dv, "texture-builtin-functions"@, 0) == Option::Some(a as int),
                    is_heading_at(dv[a as int], 3),
                    e as int == spec_sec_end(dv, a as int + 1, 3),
                    tex_fold(dv, a as int + 1, e as int, old(m)@) == tex_fold(
                        dv,
                        i as int,
                        e as int,
                        m@,
                    ),
                decreases e - i,
            {
                proof {
                    assert(dv[i as int] == doc@[i as int]@);
                }
                let mut is_h4 = false;
                match &doc[i].kind {
                    BlockKind::Heading { level, .. } => {
                        if *level == 4 {
                            is_h4 = true;
                        }
                    },
                    _ => {},
                }
                proof {
                    assert(is_h4 == is_heading_at(dv[i as int], 4));
                }
                if is_h4 {
                    match tex_section(doc, i) {
                        Err(er) => {
                            proof {
                                assert(tex_fold(dv, i as int, e as int, m@) == Result::<
                                    Map<Seq<char>, FunctionV>,
                                    ExtractError,
                                >::Err(er));
                            }
                            return Err(er);
                        },
                        Ok(None) => {},
                        Ok(Some(p)) => {
                            let (nm, f) = p;
                            m.insert(nm, f);
                        },
                    }
                }
                i = i + 1;
            }
            Ok(())
        },
    }
}

/// The first code block at or after `j`, bounded by `e2`.
pub open spec fn prose_end(doc: Seq<BlockV>, j: int, e2: int) -> int
    decreases e2 - j,
{
    if j < 0 || j >= e2 || j >= doc.len() {
        j
    } else if doc[j].kind is Pre {
        j
    } else {
        prose_end(doc, j + 1, e2)
    }
}

/// The prose blocks `j..p` joined, each followed by one space.
pub open spec fn desc_cat(doc: Seq<BlockV>, j: int, p: int) -> Seq<char>
    decreases p - j,
{
    if j < 0 || j >= p || j >= doc.len() {
        Seq::empty()
    } else {
        spec_join_words(doc[j].fragments) + seq![' '] + desc_cat(doc, j + 1, p)
    }
}

/// The first position at or after `j` where `fn` or `struct` begins, or the
/// string's end.
pub open spec fn next_kw(s: Seq<char>, j: int) -> int
    decreases s.len() - j,
{
    if j < 0 || j >= s.len() {
        s.len() as int
    } else if contains_at(s, "fn"@, j) || contains_at(s, "struct"@, j) {
        j
    } else {
        next_kw(s, j + 1)
    }
}

/// Splits a concatenated signature string on embedded `fn`/`struct`
/// keywords; each slice whose name can be extracted becomes a single-overload
/// entry sharing description `d`.
pub open spec fn sig_fold(s: Seq<char>, d: Seq<char>, m: Map<Seq<char>, FunctionV>) -> Map<
    Seq<char>,
    FunctionV,
>
    decreases s.len(),
{
    if s.len() == 0 || !contains_at(s, "fn"@, 0) {
        m
    } else {
        let e0 = next_kw(s, 1);
        let e1 = if e0 < 1 {
            1
        } else if e0 > s.len() {
            s.len() as int
        } else {
            e0
        };
        let sig = spec_trim(s.take(e1));
        let m2 = match spec_function_name(sig) {
            Option::None => m,
            Option::Some(n) => m.insert(
                n,
                FunctionV {
                    overloads: seq![
                        FunctionOverloadV {
                            signature: sig,
                            parameterization: Map::empty(),
                            description: Option::None,
                        },
                    ],
                    parameters: Seq::empty(),
                    description: Option::Some(d),
                },
            ),
        };
        sig_fold(s.skip(e1), d, m2)
    }
}

/// Walks one atomic subsection: alternating code blocks of signatures and
/// prose runs, each code block paired with the prose that follows it. A
/// subsection that begins with anything but a code block aborts.
pub open spec fn atom_walk(doc: Seq<BlockV>, k: int, e2: int, m: Map<Seq<char>, FunctionV>) -> Result<
    Map<Seq<char>, FunctionV>,
    ExtractError,
>
    decreases e2 - k,
{
    if k < 0 || k >= e2 || k >= doc.len() {
        Result::Ok(m)
    } else if !(doc[k].kind is Pre) {
        Result::Err(ExtractError::AtomicExpectedSignatures)
    } else {
        let p0 = prose_end(doc, k + 1, e2);
        let p = if p0 < k + 1 {
            k + 1
        } else if p0 > e2 {
            e2
        } else {
            p0
        };
        let d = spec_trim_end(desc_cat(doc, k + 1, p));
        let sigs = spec_trim_start(spec_join_words(doc[k].fragments));
        atom_walk(doc, p, e2, sig_fold(sigs, d, m))
    }
}

/// Folds every fourth-level heading's subsection of the atomic section onto
/// the map.
pub open spec fn atom_fold(doc: Seq<BlockV>, i: int, e: int, m: Map<Seq<char>, FunctionV>) -> Result<
    Map<Seq<char>, FunctionV>,
    ExtractError,
>
    decreases e - i,
{
    if i < 0 || i >= e || i >= doc.len() {
        Result::Ok(m)
    } else if is_heading_at(doc[i], 4) {
        match atom_walk(doc, i + 1, spec_sec_end(doc, i + 1, 4), m) {
            Result::Err(er) => Result::Err(er),
            Result::Ok(m2) => atom_fold(doc, i + 1, e, m2),
        }
    } else {
        atom_fold(doc, i + 1, e, m)
    }
}

/// The atomic-functions section folded onto `m`: absent anchor leaves `m`;
/// an anchor that is not a third-level heading aborts.
pub open spec fn spec_atomic(doc: Seq<BlockV>, m: Map<Seq<char>, FunctionV>) -> Result<
    Map<Seq<char>, FunctionV>,
    ExtractError,
> {
    match spec_find_id(doc, "atomic-builtin-functions"@, 0) {
        Option::None => Result::Ok(m),
        Option::Some(a) => if !is_heading_at(doc[a], 3) {
            Result::Err(ExtractError::AtomicAnchorNotHeading)
        } else {
            atom_fold(doc, a + 1, spec_sec_end(doc, a + 1, 3), m)
        },
    }
}

/// Finds the first code block at or after `from`, bounded by `e2`.
fn prose_end_exec(doc: &Vec<Block>, from: usize, e2: usize) -> (r: usize)
    requires
        from <= e2,
        e2 <= doc.len(),
    ensures
        r as int == prose_end(doc.deep_view(), from as int, e2 as int),
        from <= r <= e2,
{
    let ghost dv = doc.deep_view();
    let mut j = from;
    while j < e2
        invariant
            dv == doc.deep_view(),
            e2 <= doc.len(),
            from <= j <= e2,
            prose_end(dv, from as int, e2 as int) == prose_end(dv, j as int, e2 as int),
        decreases e2 - j,
    {
        proof {
            assert(dv[j as int] == doc@[j as int]@);
        }
        match &doc[j].kind {
            BlockKind::Pre => {
                return j;
            },
            _ => {},
        }
        j = j + 1;
    }
    j
}

/// Copies the characters `a..b` of `v`.
fn copy_range(v: &Vec<char>, a: usize, b: usize) -> (r: Vec<char>)
    requires
        a <= b <= v.len(),
    ensures
        r@ == v@.subrange(a as int, b as int),
{
    let mut r: Vec<char> = Vec::new();
    for k in a..b
        invariant
            a <= k <= b <= v.len(),
            r@ == v@.subrange(a as int, k as int),
    {
        r.push(v[k]);
        proof {
            assert(v@.subrange(a as int, k as int).push(v@[k as int]) =~= v@.subrange(
                a as int,
                k as int + 1,
            ));
        }
    }
    r
}

/// Finds the next `fn`/`struct` keyword position at or after `from`.
fn next_kw_exec(s: &Vec<char>, from: usize) -> (r: usize)
    requires
        from <= s.len(),
    ensures
        r as int == next_kw(s@, from as int),
        from <= r <= s.len(),
{
    let fnp = chars_of("fn");
    let stp = chars_of("struct");
    proof {
        reveal_strlit("fn");
        reveal_strlit("struct");
    }
    let mut j = from;
    let n = s.len();
    while j < n
        invariant
            n == s.len(),
            from <= j <= n,
            fnp@ == "fn"@,
            stp@ == "struct"@,
            fnp.len() == 2,
            stp.len() == 6,
            next_kw(s@, from as int) == next_kw(s@, j as int),
        decreases n - j,
    {
        let fn_hit = if n - j >= 2 {
            match_at(s, &fnp, j)
        } else {
            proof {
                assert(!contains_at(s@, "fn"@, j as int));
            }
            false
        };
        let st_hit = if n - j >= 6 {
            match_at(s, &stp, j)
        } else {
            proof {
                assert(!contains_at(s@, "struct"@, j as int));
            }
            false
        };
        if fn_hit || st_hit {
            return j;
        }
        j = j + 1;
    }
    proof {
        assert(next_kw(s@, n as int) == s@.len() as int);
    }
    n
}

/// Whether the characters begin with the `fn` keyword.
fn starts_fn(v: &Vec<char>) -> (r: bool)
    ensures
        r == contains_at(v@, "fn"@, 0),
{
    let fnp = chars_of("fn");
    proof {
        reveal_strlit("fn");
    }
    if v.len() >= 2 {
        match_at(v, &fnp, 0)
    } else {
        proof {
            assert(!contains_at(v@, "fn"@, 0));
        }
        false
    }
}

/// Splits one code block's signature string into entries sharing `desc`.
fn apply_sigs(m: &mut NameMap<Function>, sigs: Vec<char>, desc: &String, Ghost(s0): Ghost<
    Seq<char>,
>)
    requires
        old(m).wf(),
        s0 == sigs@,
    ensures
        final(m).wf(),
        final(m)@ == sig_fold(s0, desc@, old(m)@),
{
    let mut rest = sigs;
    let ghost target = sig_fold(s0, desc@, m@);
    let mut going = starts_fn(&rest);
    while going
        invariant
            m.wf(),
            going == contains_at(rest@, "fn"@, 0),
            target == sig_fold(rest@, desc@, m@),
        decreases rest@.len(),
    {
        proof {
            reveal_strlit("fn");
            assert(rest@.len() >= 2);
        }
        let ghost rv = rest@;
        let e0 = next_kw_exec(&rest, 1);
        proof {
            assert(1 <= e0 <= rest@.len());
        }
        let head = copy_range(&rest, 0, e0);
        let trimmed = crate::text::trim_chars(&head);
        let sig = crate::text::string_of(&trimmed);
        proof {
            assert(head@ =~= rv.take(e0 as int));
            assert(sig@ == spec_trim(rv.take(e0 as int)));
        }
        match function_name_from_signature(sig.as_str()) {
            None => {},
            Some(n) => {
                let mut one: Vec<FunctionOverload> = Vec::new();
                one.push(
                    FunctionOverload {
                        signature: sig,
                        parameterization: Parameterization::empty(),
                        description: None,
                    },
                );
                let f = Function {
                    overloads: one,
                    parameters: Vec::new(),
                    description: Some(desc.clone()),
                };
                proof {
                    assert(f@.overloads =~~= seq![
                        FunctionOverloadV {
                            signature: spec_trim(rv.take(e0 as int)),
                            parameterization: Map::empty(),
                            description: Option::None,
                        },
                    ]);
                    assert(f@.parameters =~~= Seq::<FunctionParameterV>::empty());
                }
                m.insert(n, f);
            },
        }
        let next = copy_range(&rest, e0, rest.len());
        rest = next;
        proof {
            assert(rest@ =~= rv.skip(e0 as int));
        }
        going = starts_fn(&rest);
    }
    proof {
        assert(sig_fold(rest@, desc@, m@) == m@);
    }
}

/// Reads one atomic subsection into the function map.
fn atom_section(doc: &Vec<Block>, h: usize, m: &mut NameMap<Function>) -> (r: Result<
    (),
    ExtractError,
>)
    requires
        h < doc.len(),
        old(m).wf(),
    ensures
        final(m).wf(),
        r matches Ok(u) ==> atom_walk(
            doc.deep_view(),
            h as int + 1,
            spec_sec_end(doc.deep_view(), h as int + 1, 4),
            old(m)@,
        ) == Result::<Map<Seq<char>, FunctionV>, ExtractError>::Ok(final(m)@),
        r matches Err(e) ==> atom_walk(
            doc.deep_view(),
            h as int + 1,
            spec_sec_end(doc.deep_view(), h as int + 1, 4),
            old(m)@,
        ) == Result::<Map<Seq<char>, FunctionV>, ExtractError>::Err(e),
{
    let ghost dv = doc.deep_view();
    let e2 = section_end(doc, h + 1, 4);
    let ghost target = atom_walk(dv, h as int + 1, e2 as int, old(m)@);
    let mut k = h + 1;
    while k < e2
        invariant
            dv == doc.deep_view(),
            e2 <= doc.len(),
            h + 1 <= k,
            m.wf(),
            e2 as int == spec_sec_end(dv, h as int + 1, 4),
            target == atom_walk(dv, h as int + 1, e2 as int, old(m)@),
            target == atom_walk(dv, k as int, e2 as int, m@),
        decreases e2 - k,
    {
        proof {
            assert(dv[k as int] == doc@[k as int]@);
        }
        match &doc[k].kind {
            BlockKind::Pre => {},
            _ => {
                proof {
                    assert(atom_walk(dv, k as int, e2 as int, m@) == Result::<
                        Map<Seq<char>, FunctionV>,
                        ExtractError,
                    >::Err(ExtractError::AtomicExpectedSignatures));
                }
                return Err(ExtractError::AtomicExpectedSignatures);
            },
        }
        let p = prose_end_exec(doc, k + 1, e2);
        let mut d = String::new();
        let mut j = k + 1;
        proof {
            assert(d@ + desc_cat(dv, k as int + 1, p as int) =~= desc_cat(
                dv,
                k as int + 1,
                p as int,
            ));
        }
        while j < p
            invariant
                dv == doc.deep_view(),
                p <= e2 <= doc.len(),
                k + 1 <= j <= p,
                desc_cat(dv, k as int + 1, p as int) == d@ + desc_cat(dv, j as int, p as int),
            decreases p - j,
        {
            proof {
                assert(dv[j as int] == doc@[j as int]@);
            }
            let ghost d0 = d@;
            let piece = join_words(&doc[j].fragments);
            d.append(piece.as_str());
            d.append(" ");
            proof {
                reveal_strlit(" ");
                assert(" "@ =~= seq![' ']);
                assert(d@ + desc_cat(dv, j as int + 1, p as int) =~= d0 + (spec_join_words(
                    dv[j as int].fragments,
                ) + seq![' '] + desc_cat(dv, j as int + 1, p as int)));
            }
            j = j + 1;
        }
        proof {
            assert(desc_cat(dv, p as int, p as int) =~= Seq::<char>::empty());
            assert(d@ + Seq::<char>::empty() =~= d@);
        }
        let dc = chars_of(d.as_str());
        let dt = crate::text::trim_end_chars(&dc);
        let dstr = crate::text::string_of(&dt);
        let sj = join_words(&doc[k].fragments);
        let sc = chars_of(sj.as_str());
        let rest = crate::text::trim_start_chars(&sc);
        let ghost m_pre = m@;
        let ghost rv = rest@;
        apply_sigs(m, rest, &dstr, Ghost(rv));
        proof {
            assert(atom_walk(dv, k as int, e2 as int, m_pre) == atom_walk(
                dv,
                p as int,
                e2 as int,
                m@,
            ));
        }
        k = p;
    }
    proof {
        assert(atom_walk(dv, k as int, e2 as int, m@) == Result::<
            Map<Seq<char>, FunctionV>,
            ExtractError,
        >::Ok(m@));
    }
    Ok(())
}

/// Folds the atomic-functions section onto the function map.
fn apply_atomic(doc: &Vec<Block>, m: &mut NameMap<Function>) -> (r: Result<(), ExtractError>)
    requires
        old(m).wf(),
    ensures
        final(m).wf(),
        r matches Ok(u) ==> spec_atomic(doc.deep_view(), old(m)@) == Result::<
            Map<Seq<char>, FunctionV>,
            ExtractError,
        >::Ok(final(m)@),
        r matches Err(e) ==> spec_atomic(doc.deep_view(), old(m)@) == Result::<
            Map<Seq<char>, FunctionV>,
            ExtractError,
        >::Err(e),
{
    let ghost dv = doc.deep_view();
    let anchor = chars_of("atomic-builtin-functions");
    match find_id_from(doc, &anchor, 0) {
        None => Ok(()),
        Some(a) => {
            proof {
                assert(dv[a as int] == doc@[a as int]@);
            }
            let mut is_h3 = false;
            match &doc[a].kind {
                BlockKind::Heading { level, .. } => {
                    if *level == 3 {
                        is_h3 = true;
                    }
                },
                _ => {},
            }
            proof {
                assert(is_h3 == is_heading_at(dv[a as int], 3));
            }
            if !is_h3 {
                return Err(ExtractError::AtomicAnchorNotHeading);
            }
            let e = section_end(doc, a + 1, 3);
            let mut i = a + 1;
            while i < e
                invariant
                    dv == doc.deep_view(),
                    e <= doc.len(),
                    a + 1 <= i,
                    a < doc.len(),
                    m.wf(),
                    spec_find_id(dv, "atomic-builtin-functions"@, 0) == Option::Some(a as int),
                    is_heading_at(dv[a as int], 3),
                    e as int == spec_sec_end(dv, a as int + 1, 3),
                    atom_fold(dv, a as int + 1, e as int, old(m)@) == atom_fold(
                        dv,
                        i as int,
                        e as int,
                        m@,
                    ),
                decreases e - i,
            {
                proof {
                    assert(dv[i as int] == doc@[i as int]@);
                }
                let mut is_h4 = false;
                match &doc[i].kind {
                    BlockKind::Heading { level, .. } => {
                        if *level == 4 {
                            is_h4 = true;
                        }
                    },
                    _ => {},
                }
                proof {
                    assert(is_h4 == is_heading_at(dv[i as int], 4));
                }
                if is_h4 {
                    let ghost m_pre = m@;
                    match atom_section(doc, i, m) {
                        Err(er) => {
                            proof {
                                assert(atom_fold(dv, i as int, e as int, m_pre) == Result::<
                                    Map<Seq<char>, FunctionV>,
                                    ExtractError,
                                >::Err(er));
                            }
                            return Err(er);
                        },
                        Ok(u) => {},
                    }
                }
                i = i + 1;
            }
            Ok(())
        },
    }
}

/// Generic-bracket spacing removed from a signature.
pub open spec fn norm_sig(s: Seq<char>) -> Seq<char> {
    spec_replace(spec_replace(s, " < "@, "<"@), " >"@, ">"@)
}

/// An overload with its signature's bracket spacing removed.
pub open spec fn norm_overload(o: FunctionOverloadV) -> FunctionOverloadV {
    FunctionOverloadV {
        signature: norm_sig(o.signature),
        parameterization: o.parameterization,
        description: o.description,
    }
}

/// A function with every overload's signature normalized.
pub open spec fn norm_fun(f: FunctionV) -> FunctionV {
    FunctionV {
        overloads: Seq::new(f.overloads.len(), |i: int| norm_overload(f.overloads[i])),
        parameters: f.parameters,
        description: f.description,
    }
}

/// The map with every function normalized.
pub open spec fn norm_map(m: Map<Seq<char>, FunctionV>) -> Map<Seq<char>, FunctionV> {
    Map::new(|k: Seq<char>| m.contains_key(k), |k: Seq<char>| norm_fun(m[k]))
}

/// The whole function catalog: the three extractors in order, later entries
/// overwriting earlier same-named ones, the placeholder entries `S` and `T`
/// removed, and every signature's bracket spacing normalized.
pub open spec fn spec_extract_functions(doc: Seq<BlockV>) -> Result<
    Map<Seq<char>, FunctionV>,
    ExtractError,
> {
    match group_fold(std_ovs(doc, 0), Map::empty()) {
        Result::Err(e) => Result::Err(e),
        Result::Ok(m1) => match spec_texture(doc, m1) {
            Result::Err(e) => Result::Err(e),
            Result::Ok(m2) => match spec_atomic(doc, m2) {
                Result::Err(e) => Result::Err(e),
                Result::Ok(m3) => Result::Ok(norm_map(m3.remove("S"@).remove("T"@))),
            },
        },
    }
}

/// Entry-wise normalization is map-wise normalization.
proof fn lemma_map_of_norm(s: Seq<(Seq<char>, FunctionV)>, t: Seq<(Seq<char>, FunctionV)>)
    requires
        t.len() == s.len(),
        forall|j: int| 0 <= j < s.len() ==> t[j].0 == s[j].0 && t[j].1 == norm_fun(s[j].1),
    ensures
        map_of(t) == norm_map(map_of(s)),
    decreases s.len(),
{
    if s.len() == 0 {
        assert(map_of(t) =~= norm_map(map_of(s)));
    } else {
        assert(forall|j: int|
            0 <= j < s.drop_last().len() ==> t.drop_last()[j].0 == s.drop_last()[j].0
                && t.drop_last()[j].1 == norm_fun(s.drop_last()[j].1)) by {
            assert(forall|j: int|
                0 <= j < s.drop_last().len() ==> s.drop_last()[j] == s[j] && t.drop_last()[j]
                    == t[j]);
        }
        lemma_map_of_norm(s.drop_last(), t.drop_last());
        assert(t.last().0 == s.last().0 && t.last().1 == norm_fun(s.last().1));
        assert(map_of(t) =~= norm_map(map_of(s)));
    }
}

/// Normalizes one signature string.
fn normalize_signature(s: &String) -> (r: String)
    ensures
        r@ == norm_sig(s@),
{
    let c = chars_of(s.as_str());
    let p1 = chars_of(" < ");
    let t1 = chars_of("<");
    let p2 = chars_of(" >");
    let t2 = chars_of(">");
    proof {
        reveal_strlit(" < ");
        reveal_strlit(" >");
    }
    let r1 = crate::text::replace_chars(&c, &p1, &t1);
    let r2 = crate::text::replace_chars(&r1, &p2, &t2);
    crate::text::string_of(&r2)
}

/// Normalizes every overload signature of one function.
fn normalize_function(f: Function) -> (r: Function)
    ensures
        r@ == norm_fun(f@),
{
    let ghost fv = f@;
    let Function { overloads, parameters, description } = f;
    let mut rest = overloads;
    let mut done: Vec<FunctionOverload> = Vec::new();
    let ghost total = fv.overloads;
    proof {
        assert(overloads_view(rest@) =~~= total);
    }
    proof {
        assert(overloads_view(rest@) =~~= total.skip(0));
    }
    while rest.len() > 0
        invariant
            done@.len() + rest@.len() == total.len(),
            overloads_view(rest@) == total.skip(done@.len() as int),
            forall|j: int|
                0 <= j < done@.len() ==> overloads_view(done@)[j] == norm_overload(total[j]),
        decreases rest.len(),
    {
        let ghost pre = rest@;
        let ghost dlen = done@.len() as int;
        let o = rest.remove(0);
        proof {
            assert(rest@ =~= pre.remove(0));
            assert(pre.remove(0) =~= pre.drop_first());
            assert(overloads_view(rest@) =~~= overloads_view(pre).drop_first());
            assert(total.skip(dlen).drop_first() =~~= total.skip(dlen + 1));
            assert(o@ == overloads_view(pre)[0]);
            assert(o@ == total[dlen]);
        }
        let FunctionOverload { signature, parameterization, description: od } = o;
        let ns = normalize_signature(&signature);
        let o2 = FunctionOverload { signature: ns, parameterization, description: od };
        proof {
            assert(o2@ =~~= norm_overload(total[dlen]));
        }
        let ghost dn = overloads_view(done@);
        done.push(o2);
        proof {
            assert(dn.len() == dlen);
            assert(overloads_view(done@) =~~= dn.push(norm_overload(total[dlen])));
            assert(forall|j: int| 0 <= j < dlen ==> overloads_view(done@)[j] == dn[j]);
            assert(overloads_view(done@)[dlen] == norm_overload(total[dlen]));
        }
    }
    let ghost goal = Seq::new(fv.overloads.len(), |i: int| norm_overload(fv.overloads[i]));
    let ghost dv2 = done@;
    proof {
        assert(dv2.len() == total.len());
        assert(overloads_view(dv2) =~~= goal);
    }
    let r = Function { overloads: done, parameters, description };
    proof {
        assert(r.overloads@ == dv2);
        assert(r@.overloads =~~= overloads_view(dv2));
        assert(r@ =~~= norm_fun(fv));
    }
    r
}

/// Normalizes every signature of the map's functions.
fn normalize_map_exec(m: &mut NameMap<Function>)
    requires
        old(m).wf(),
    ensures
        final(m).wf(),
        final(m)@ == norm_map(old(m)@),
{
    let ghost s0 = m.entries_view();
    let n = m.entries.len();
    let mut i: usize = 0;
    while i < n
        invariant
            i <= n,
            m.entries@.len() == n,
            n == s0.len(),
            forall|j: int| i <= j < n ==> m.entries_view()[j] == s0[j],
            forall|j: int|
                0 <= j < i ==> m.entries_view()[j].0 == s0[j].0 && m.entries_view()[j].1
                    == norm_fun(s0[j].1),
        decreases n - i,
    {
        let ghost ev = m.entries_view();
        let (k, f) = m.entries.remove(i);
        let f2 = normalize_function(f);
        m.entries.insert(i, (k, f2));
        proof {
            assert(forall|j: int|
                0 <= j < n && j != i ==> m.entries_view()[j] == ev[j]);
            assert(m.entries_view()[i as int].0 == ev[i as int].0);
            assert(m.entries_view()[i as int].1 == norm_fun(ev[i as int].1));
        }
        i = i + 1;
    }
    proof {
        assert(forall|j: int| 0 <= j < n ==> m.entries_view()[j].0 == s0[j].0);
        assert forall|a: int, b: int|
            0 <= a < b < m.entries_view().len() implies m.entries_view()[a].0
            != m.entries_view()[b].0 by {
            assert(s0[a].0 != s0[b].0);
        }
        assert(unique_keys(m.entries_view()));
        lemma_map_of_norm(s0, m.entries_view());
    }
}

/// Runs the three function extractors over the document in order and merges
/// their entries, later extractors overwriting earlier same-named ones;
/// removes the placeholder entries `S` and `T`; and normalizes every
/// signature's generic-bracket spacing. Aborts when a structural assumption
/// of the document fails, naming the violated assumption.
pub fn extract_functions(document: &Vec<Block>) -> (r: Result<FunctionInfo, ExtractError>)
    ensures
        r matches Ok(fi) ==> fi.wf() && spec_extract_functions(document.deep_view()) == Result::<
            Map<Seq<char>, FunctionV>,
            ExtractError,
        >::Ok(fi@.functions),
        r matches Err(e) ==> spec_extract_functions(document.deep_view()) == Result::<
            Map<Seq<char>, FunctionV>,
            ExtractError,
        >::Err(e),
        r matches Ok(fi) ==> !fi@.functions.contains_key("S"@) && !fi@.functions.contains_key(
            "T"@,
        ),
{
    let ovs = std_overloads(document);
    let ghost full = overloads_view(ovs@);
    let mut m = match group_overloads(ovs, Ghost(full)) {
        Ok(m) => m,
        Err(e) => {
            return Err(e);
        },
    };
    match apply_texture(document, &mut m) {
        Ok(u) => {},
        Err(e) => {
            return Err(e);
        },
    }
    match apply_atomic(document, &mut m) {
        Ok(u) => {},
        Err(e) => {
            return Err(e);
        },
    }
    m.remove_key("S");
    m.remove_key("T");
    normalize_map_exec(&mut m);
    let fi = FunctionInfo { functions: m };
    proof {
        assert(!fi@.functions.contains_key("S"@));
        assert(!fi@.functions.contains_key("T"@));
    }
    Ok(fi)
}

/// The map a successful result carries; empty on error.
pub open spec fn ok_map(r: Result<Map<Seq<char>, FunctionV>, ExtractError>) -> Map<
    Seq<char>,
    FunctionV,
> {
    match r {
        Result::Ok(m) => m,
        Result::Err(_) => Map::empty(),
    }
}

/// Splitting signatures onto `m` only adds the split's own entries, which
/// win over entries of `m`.
pub proof fn lemma_sig_fold_union(s: Seq<char>, d: Seq<char>, m: Map<Seq<char>, FunctionV>)
    ensures
        sig_fold(s, d, m) == m.union_prefer_right(sig_fold(s, d, Map::empty())),
    decreases s.len(),
{
    if s.len() == 0 || !contains_at(s, "fn"@, 0) {
        assert(m.union_prefer_right(Map::empty()) =~= m);
    } else {
        let e0 = next_kw(s, 1);
        let e1 = if e0 < 1 {
            1
        } else if e0 > s.len() {
            s.len() as int
        } else {
            e0
        };
        let sig = spec_trim(s.take(e1));
        let rest = s.skip(e1);
        match spec_function_name(sig) {
            Option::None => {
                lemma_sig_fold_union(rest, d, m);
            },
            Option::Some(n) => {
                let f = FunctionV {
                    overloads: seq![
                        FunctionOverloadV {
                            signature: sig,
                            parameterization: Map::empty(),
                            description: Option::None,
                        },
                    ],
                    parameters: Seq::empty(),
                    description: Option::Some(d),
                };
                lemma_sig_fold_union(rest, d, m.insert(n, f));
                lemma_sig_fold_union(rest, d, Map::<Seq<char>, FunctionV>::empty().insert(n, f));
                let delta = sig_fold(rest, d, Map::empty());
                assert(m.insert(n, f).union_prefer_right(delta) =~= m.union_prefer_right(
                    Map::<Seq<char>, FunctionV>::empty().insert(n, f).union_prefer_right(delta),
                ));
            },
        }
    }
}

/// Walking an atomic subsection onto `m` only adds the walk's own entries.
pub proof fn lemma_atom_walk_union(doc: Seq<BlockV>, k: int, e2: int, m: Map<Seq<char>, FunctionV>)
    ensures
        atom_walk(doc, k, e2, Map::empty()) is Ok ==> atom_walk(doc, k, e2, m) == Result::<
            Map<Seq<char>, FunctionV>,
            ExtractError,
        >::Ok(m.union_prefer_right(ok_map(atom_walk(doc, k, e2, Map::empty())))),
        atom_walk(doc, k, e2, Map::empty()) is Err ==> atom_walk(doc, k, e2, m) == atom_walk(
            doc,
            k,
            e2,
            Map::empty(),
        ),
    decreases e2 - k,
{
    if k < 0 || k >= e2 || k >= doc.len() {
        assert(m.union_prefer_right(Map::empty()) =~= m);
    } else if !(doc[k].kind is Pre) {
    } else {
        let p0 = prose_end(doc, k + 1, e2);
        let p = if p0 < k + 1 {
            k + 1
        } else if p0 > e2 {
            e2
        } else {
            p0
        };
        let d = spec_trim_end(desc_cat(doc, k + 1, p));
        let sigs = spec_trim_start(spec_join_words(doc[k].fragments));
        let s = sig_fold(sigs, d, Map::empty());
        lemma_sig_fold_union(sigs, d, m);
        lemma_atom_walk_union(doc, p, e2, m.union_prefer_right(s));
        lemma_atom_walk_union(doc, p, e2, s);
        if atom_walk(doc, p, e2, Map::<Seq<char>, FunctionV>::empty()) is Ok {
            let delta = ok_map(atom_walk(doc, p, e2, Map::empty()));
            assert(m.union_prefer_right(s).union_prefer_right(delta) =~= m.union_prefer_right(
                s.union_prefer_right(delta),
            ));
        }
    }
}

/// Folding the atomic subsections onto `m` only adds their own entries.
pub proof fn lemma_atom_fold_union(doc: Seq<BlockV>, i: int, e: int, m: Map<Seq<char>, FunctionV>)
    ensures
        atom_fold(doc, i, e, Map::empty()) is Ok ==> atom_fold(doc, i, e, m) == Result::<
            Map<Seq<char>, FunctionV>,
            ExtractError,
        >::Ok(m.union_prefer_right(ok_map(atom_fold(doc, i, e, Map::empty())))),
        atom_fold(doc, i, e, Map::empty()) is Err ==> atom_fold(doc, i, e, m) == atom_fold(
            doc,
            i,
            e,
            Map::empty(),
        ),
    decreases e - i,
{
    if i < 0 || i >= e || i >= doc.len() {
        assert(m.union_prefer_right(Map::empty()) =~= m);
    } else if is_heading_at(doc[i], 4) {
        let e2 = spec_sec_end(doc, i + 1, 4);
        lemma_atom_walk_union(doc, i + 1, e2, m);
        if atom_walk(doc, i + 1, e2, Map::<Seq<char>, FunctionV>::empty()) is Ok {
            let w = ok_map(atom_walk(doc, i + 1, e2, Map::empty()));
            lemma_atom_fold_union(doc, i + 1, e, m.union_prefer_right(w));
            lemma_atom_fold_union(doc, i + 1, e, w);
            if atom_fold(doc, i + 1, e, Map::<Seq<char>, FunctionV>::empty()) is Ok {
                let f = ok_map(atom_fold(doc, i + 1, e, Map::empty()));
                assert(m.union_prefer_right(w).union_prefer_right(f) =~= m.union_prefer_right(
                    w.union_prefer_right(f),
                ));
            }
        }
    } else {
        lemma_atom_fold_union(doc, i + 1, e, m);
    }
}

/// Folding the texture subsections onto `m` only adds their own entries.
pub proof fn lemma_tex_fold_union(doc: Seq<BlockV>, i: int, e: int, m: Map<Seq<char>, FunctionV>)
    ensures
        tex_fold(doc, i, e, Map::empty()) is Ok ==> tex_fold(doc, i, e, m) == Result::<
            Map<Seq<char>, FunctionV>,
            ExtractError,
        >::Ok(m.union_prefer_right(ok_map(tex_fold(doc, i, e, Map::empty())))),
        tex_fold(doc, i, e, Map::empty()) is Err ==> tex_fold(doc, i, e, m) == tex_fold(
            doc,
            i,
            e,
            Map::empty(),
        ),
    decreases e - i,
{
    if i < 0 || i >= e || i >= doc.len() {
        assert(m.union_prefer_right(Map::empty()) =~= m);
    } else if is_heading_at(doc[i], 4) {
        match spec_tex_section(doc, i) {
            Result::Err(er) => {},
            Result::Ok(Option::None) => {
                lemma_tex_fold_union(doc, i + 1, e, m);
            },
            Result::Ok(Option::Some(p)) => {
                lemma_tex_fold_union(doc, i + 1, e, m.insert(p.0, p.1));
                lemma_tex_fold_union(
                    doc,
                    i + 1,
                    e,
                    Map::<Seq<char>, FunctionV>::empty().insert(p.0, p.1),
                );
                if tex_fold(doc, i + 1, e, Map::<Seq<char>, FunctionV>::empty()) is Ok {
                    let delta = ok_map(tex_fold(doc, i + 1, e, Map::empty()));
                    assert(m.insert(p.0, p.1).union_prefer_right(delta) =~= m.union_prefer_right(
                        Map::<Seq<char>, FunctionV>::empty().insert(
                            p.0,
                            p.1,
                        ).union_prefer_right(delta),
                    ));
                }
            },
        }
    } else {
        lemma_tex_fold_union(doc, i + 1, e, m);
    }
}

/// The texture extractor's own entries: what its section yields on its own.
pub open spec fn spec_texture_map(doc: Seq<BlockV>) -> Result<
    Map<Seq<char>, FunctionV>,
    ExtractError,
> {
    spec_texture(doc, Map::empty())
}

/// The atomic extractor's own entries.
pub open spec fn spec_atomic_map(doc: Seq<BlockV>) -> Result<
    Map<Seq<char>, FunctionV>,
    ExtractError,
> {
    spec_atomic(doc, Map::empty())
}

/// The texture extractor folded onto `m` is `m` overridden by the texture
/// extractor's own entries.
pub proof fn lemma_texture_union(doc: Seq<BlockV>, m: Map<Seq<char>, FunctionV>)
    ensures
        spec_texture_map(doc) is Ok ==> spec_texture(doc, m) == Result::<
            Map<Seq<char>, FunctionV>,
            ExtractError,
        >::Ok(m.union_prefer_right(ok_map(spec_texture_map(doc)))),
        spec_texture_map(doc) is Err ==> spec_texture(doc, m) == spec_texture_map(doc),
{
    match spec_find_id(doc, "texture-builtin-functions"@, 0) {
        Option::None => {
            assert(m.union_prefer_right(Map::empty()) =~= m);
        },
        Option::Some(a) => {
            if is_heading_at(doc[a], 3) {
                lemma_tex_fold_union(doc, a + 1, spec_sec_end(doc, a + 1, 3), m);
            }
        },
    }
}

/// The atomic extractor folded onto `m` is `m` overridden by the atomic
/// extractor's own entries.
pub proof fn lemma_atomic_union(doc: Seq<BlockV>, m: Map<Seq<char>, FunctionV>)
    ensures
        spec_atomic_map(doc) is Ok ==> spec_atomic(doc, m) == Result::<
            Map<Seq<char>, FunctionV>,
            ExtractError,
        >::Ok(m.union_prefer_right(ok_map(spec_atomic_map(doc)))),
        spec_atomic_map(doc) is Err ==> spec_atomic(doc, m) == spec_atomic_map(doc),
{
    match spec_find_id(doc, "atomic-builtin-functions"@, 0) {
        Option::None => {
            assert(m.union_prefer_right(Map::empty()) =~= m);
        },
        Option::Some(a) => {
            if is_heading_at(doc[a], 3) {
                lemma_atom_fold_union(doc, a + 1, spec_sec_end(doc, a + 1, 3), m);
            }
        },
    }
}

/// Standard extraction: when the document's only content is one builtin
/// data table that yields an overload, the catalog holds exactly one
/// function — named by the overload's signature — with that single
/// overload, no parameters and no function-level description.
pub proof fn lemma_standard_table_extraction(doc: Seq<BlockV>, t: TableV, name: Seq<char>)
    requires
        doc.len() == 1,
        doc[0].kind == BlockKindV::Table(t),
        doc[0].id is None,
        t.builtin_data,
        table_overload(t) is Some,
        spec_function_name(table_overload(t)->Some_0.signature) == Option::Some(name),
        name != "S"@,
        name != "T"@,
    ensures
        spec_extract_functions(doc) == Result::<Map<Seq<char>, FunctionV>, ExtractError>::Ok(
            Map::<Seq<char>, FunctionV>::empty().insert(
                name,
                norm_fun(
                    FunctionV {
                        overloads: seq![table_overload(t)->Some_0],
                        parameters: Seq::empty(),
                        description: Option::None,
                    },
                ),
            ),
        ),
{
    let o = table_overload(t)->Some_0;
    assert(std_ovs(doc, 1) =~~= Seq::<FunctionOverloadV>::empty());
    assert(std_ovs(doc, 0) =~~= seq![o]);
    let f = FunctionV {
        overloads: seq![o],
        parameters: Seq::empty(),
        description: Option::None,
    };
    let m1 = Map::<Seq<char>, FunctionV>::empty().insert(name, f);
    assert(group_fold(std_ovs(doc, 0), Map::empty()) == Result::<
        Map<Seq<char>, FunctionV>,
        ExtractError,
    >::Ok(m1)) by {
        assert(seq![o][0] == o);
        assert(seq![o].drop_first() =~~= Seq::<FunctionOverloadV>::empty());
        assert(!Map::<Seq<char>, FunctionV>::empty().contains_key(name));
        let f2 = FunctionV {
            overloads: empty_function().overloads.push(o),
            parameters: empty_function().parameters,
            description: empty_function().description,
        };
        assert(f2 =~~= f);
        assert(group_fold(
            Seq::<FunctionOverloadV>::empty(),
            Map::<Seq<char>, FunctionV>::empty().insert(name, f2),
        ) == Result::<Map<Seq<char>, FunctionV>, ExtractError>::Ok(
            Map::<Seq<char>, FunctionV>::empty().insert(name, f2),
        ));
        assert(Map::<Seq<char>, FunctionV>::empty().insert(name, f2) == m1);
    }
    assert(spec_find_id(doc, "texture-builtin-functions"@, 0) is None) by {
        assert(doc[0].id != Option::Some("texture-builtin-functions"@));
        assert(spec_find_id(doc, "texture-builtin-functions"@, 1) is None);
    }
    assert(spec_find_id(doc, "atomic-builtin-functions"@, 0) is None) by {
        assert(doc[0].id != Option::Some("atomic-builtin-functions"@));
        assert(spec_find_id(doc, "atomic-builtin-functions"@, 1) is None);
    }
    assert(spec_texture(doc, m1) == Result::<Map<Seq<char>, FunctionV>, ExtractError>::Ok(m1));
    assert(spec_atomic(doc, m1) == Result::<Map<Seq<char>, FunctionV>, ExtractError>::Ok(m1));
    assert(m1.remove("S"@).remove("T"@) =~= m1);
    assert(norm_map(m1) =~= Map::<Seq<char>, FunctionV>::empty().insert(name, norm_fun(f)));
}

/// Orchestrator precedence: when the texture section defines a function that
/// the atomic section does not redefine and that is no placeholder, the
/// final catalog holds exactly the texture extractor's version of it, with
/// its signatures normalized — whatever the builtin data tables said.
pub proof fn lemma_orchestrator_precedence(doc: Seq<BlockV>, name: Seq<char>)
    requires
        spec_extract_functions(doc) is Ok,
        spec_texture_map(doc) is Ok,
        ok_map(spec_texture_map(doc)).contains_key(name),
        spec_atomic_map(doc) is Ok,
        !ok_map(spec_atomic_map(doc)).contains_key(name),
        name != "S"@,
        name != "T"@,
    ensures
        ok_map(spec_extract_functions(doc)).contains_key(name),
        ok_map(spec_extract_functions(doc))[name] == norm_fun(
            ok_map(spec_texture_map(doc))[name],
        ),
{
    let m1 = ok_map(group_fold(std_ovs(doc, 0), Map::empty()));
    let t = ok_map(spec_texture_map(doc));
    let a = ok_map(spec_atomic_map(doc));
    lemma_texture_union(doc, m1);
    let m2 = m1.union_prefer_right(t);
    lemma_atomic_union(doc, m2);
    let m3 = m2.union_prefer_right(a);
    assert(m3[name] == t[name]);
    assert(m3.remove("S"@).remove("T"@).contains_key(name));
    assert(m3.remove("S"@).remove("T"@)[name] == t[name]);
    assert(ok_map(spec_extract_functions(doc)) == norm_map(m3.remove("S"@).remove("T"@)));
}

} // verus!
