//! The token catalog extractor: keywords, five anchor-delimited name lists,
//! the type-generator table and the alias tables.

use vstd::prelude::*;

use crate::doc::Block;
use crate::doc::BlockKind;
use crate::doc::BlockKindV;
use crate::doc::BlockV;
use crate::doc::RowV;
use crate::doc::TableV;
use crate::doc::cell_fragments;
use crate::doc::cell_text;
use crate::doc::find_id_from;
use crate::doc::parts_frags;
use crate::doc::spec_cell_text;
use crate::doc::spec_find_id;
use crate::nmap::NameMap;
use crate::records::Attribute;
use crate::records::AttributeV;
use crate::records::BuiltinValue;
use crate::records::BuiltinValueV;
use crate::records::TokenInfo;
use crate::text::any_frag_contains;
use crate::text::chars_of;
use crate::text::join_words;
use crate::text::sort_strings;
use crate::text::spec_any_contains;
use crate::text::spec_join_words;
use crate::text::spec_sort;
use crate::text::spec_strip_quotes;
use crate::text::spec_trim;
use crate::text::string_of;
use crate::text::strip_quotes;
use crate::text::trim_chars;

verus! {

/// The first list block at or after `i`.
pub open spec fn spec_find_list(doc: Seq<BlockV>, i: int) -> Option<int>
    decreases doc.len() - i,
{
    if i < 0 || i >= doc.len() {
        Option::None
    } else if doc[i].kind is List {
        Option::Some(i)
    } else {
        spec_find_list(doc, i + 1)
    }
}

/// The first table block at or after `i`.
pub open spec fn spec_find_table(doc: Seq<BlockV>, i: int) -> Option<int>
    decreases doc.len() - i,
{
    if i < 0 || i >= doc.len() {
        Option::None
    } else if doc[i].kind is Table {
        Option::Some(i)
    } else {
        spec_find_table(doc, i + 1)
    }
}

/// The first fragment of each code element, in order; a code element with
/// no fragment yields nothing.
pub open spec fn code_firsts(codes: Seq<Seq<Seq<char>>>) -> Seq<Seq<char>>
    decreases codes.len(),
{
    if codes.len() == 0 {
        Seq::empty()
    } else if codes[0].len() > 0 {
        seq![codes[0][0]] + code_firsts(codes.drop_first())
    } else {
        code_firsts(codes.drop_first())
    }
}

/// The sorted keyword list: the first fragment of every code element of the
/// list right after the keyword-summary anchor.
pub open spec fn spec_keywords(doc: Seq<BlockV>) -> Seq<Seq<char>> {
    match spec_find_id(doc, "keyword-summary"@, 0) {
        Option::Some(i) => if i + 1 < doc.len() {
            match doc[i + 1].kind {
                BlockKindV::List { codes, .. } => spec_sort(code_firsts(codes)),
                _ => Seq::empty(),
            }
        } else {
            Seq::empty()
        },
        Option::None => Seq::empty(),
    }
}

/// Each list item's normalized text with apostrophes removed, in order.
pub open spec fn item_names(items: Seq<Seq<Seq<char>>>) -> Seq<Seq<char>>
    decreases items.len(),
{
    if items.len() == 0 {
        Seq::empty()
    } else {
        seq![spec_strip_quotes(spec_join_words(items[0]))] + item_names(items.drop_first())
    }
}

/// The sorted name list of the first list following the anchor with
/// identifier `id`; empty when either is absent.
pub open spec fn spec_names(doc: Seq<BlockV>, id: Seq<char>) -> Seq<Seq<char>> {
    match spec_find_id(doc, id, 0) {
        Option::Some(i) => match spec_find_list(doc, i + 1) {
            Option::Some(l) => match doc[l].kind {
                BlockKindV::List { items, .. } => spec_sort(item_names(items)),
                _ => Seq::empty(),
            },
            Option::None => Seq::empty(),
        },
        Option::None => Seq::empty(),
    }
}

/// The normalized text of each row's first cell, in order.
pub open spec fn rows_first_cells(rows: Seq<RowV>) -> Seq<Seq<char>>
    decreases rows.len(),
{
    if rows.len() == 0 {
        Seq::empty()
    } else {
        (if rows[0].cells.len() >= 1 {
            seq![spec_cell_text(rows[0].cells[0])]
        } else {
            Seq::empty()
        }) + rows_first_cells(rows.drop_first())
    }
}

/// The sorted type-generator list: first cells of the table following the
/// predeclared-types anchor.
pub open spec fn spec_type_generators(doc: Seq<BlockV>) -> Seq<Seq<char>> {
    match spec_find_id(doc, "predeclared-types"@, 0) {
        Option::Some(i) => match spec_find_table(doc, i + 1) {
            Option::Some(t) => match doc[t].kind {
                BlockKindV::Table(tv) => spec_sort(rows_first_cells(tv.rows)),
                _ => Seq::empty(),
            },
            Option::None => Seq::empty(),
        },
        Option::None => Seq::empty(),
    }
}

/// Whether a table is an alias table: its first two header cells speak of a
/// predeclared alias and an original type.
pub open spec fn spec_alias_table(t: TableV) -> bool {
    t.headers.len() >= 2 && spec_any_contains(parts_frags(t.headers[0].parts), "Predeclared alias"@)
        && spec_any_contains(parts_frags(t.headers[1].parts), "Original type"@)
}

/// Folds an alias table's rows into the alias map.
pub open spec fn alias_rows(m: Map<Seq<char>, Seq<char>>, rows: Seq<RowV>) -> Map<
    Seq<char>,
    Seq<char>,
>
    decreases rows.len(),
{
    if rows.len() == 0 {
        m
    } else {
        let m2 = if rows[0].cells.len() >= 2 {
            m.insert(
                spec_trim(spec_cell_text(rows[0].cells[0])),
                spec_trim(spec_cell_text(rows[0].cells[1])),
            )
        } else {
            m
        };
        alias_rows(m2, rows.drop_first())
    }
}

/// Folds every alias table of the document into the alias map.
pub open spec fn alias_fold(doc: Seq<BlockV>, i: int, m: Map<Seq<char>, Seq<char>>) -> Map<
    Seq<char>,
    Seq<char>,
>
    decreases doc.len() - i,
{
    if i < 0 || i >= doc.len() {
        m
    } else {
        let m2 = match doc[i].kind {
            BlockKindV::Table(t) => if spec_alias_table(t) {
                alias_rows(m, t.rows)
            } else {
                m
            },
            _ => m,
        };
        alias_fold(doc, i + 1, m2)
    }
}

/// The alias map of the whole document.
pub open spec fn spec_type_aliases(doc: Seq<BlockV>) -> Map<Seq<char>, Seq<char>> {
    alias_fold(doc, 0, Map::empty())
}

/// The attribute record a bare name stands for.
pub open spec fn empty_attribute() -> AttributeV {
    AttributeV { description: Seq::empty(), description_parameters: Option::None }
}

/// The builtin-value record a bare name stands for.
pub open spec fn empty_builtin_value() -> BuiltinValueV {
    BuiltinValueV { stages: Map::empty(), typ: Seq::empty() }
}

/// Each name mapped to an empty attribute record.
pub open spec fn attr_map_from(m: Map<Seq<char>, AttributeV>, names: Seq<Seq<char>>) -> Map<
    Seq<char>,
    AttributeV,
>
    decreases names.len(),
{
    if names.len() == 0 {
        m
    } else {
        attr_map_from(m.insert(names[0], empty_attribute()), names.drop_first())
    }
}

/// Each name mapped to an empty builtin-value record.
pub open spec fn bv_map_from(m: Map<Seq<char>, BuiltinValueV>, names: Seq<Seq<char>>) -> Map<
    Seq<char>,
    BuiltinValueV,
>
    decreases names.len(),
{
    if names.len() == 0 {
        m
    } else {
        bv_map_from(m.insert(names[0], empty_builtin_value()), names.drop_first())
    }
}

/// Finds the first list block at or after `from`.
fn find_list_from(doc: &Vec<Block>, from: usize) -> (r: Option<usize>)
    requires
        from <= doc.len(),
    ensures
        (match r {
            Some(u) => Option::Some(u as int),
            None => Option::None::<int>,
        }) == spec_find_list(doc.deep_view(), from as int),
        r matches Some(u) ==> from <= u < doc.len(),
{
    let n = doc.len();
    let mut i = from;
    while i < n
        invariant
            n == doc.len(),
            from <= i <= n,
            spec_find_list(doc.deep_view(), from as int) == spec_find_list(
                doc.deep_view(),
                i as int,
            ),
        decreases n - i,
    {
        proof {
            assert(doc.deep_view()[i as int] == doc@[i as int]@);
        }
        match &doc[i].kind {
            BlockKind::List { .. } => {
                return Some(i);
            },
            _ => {},
        }
        i = i + 1;
    }
    None
}

/// Finds the first table block at or after `from`.
fn find_table_from(doc: &Vec<Block>, from: usize) -> (r: Option<usize>)
    requires
        from <= doc.len(),
    ensures
        (match r {
            Some(u) => Option::Some(u as int),
            None => Option::None::<int>,
        }) == spec_find_table(doc.deep_view(), from as int),
        r matches Some(u) ==> from <= u < doc.len(),
{
    let n = doc.len();
    let mut i = from;
    while i < n
        invariant
            n == doc.len(),
            from <= i <= n,
            spec_find_table(doc.deep_view(), from as int) == spec_find_table(
                doc.deep_view(),
                i as int,
            ),
        decreases n - i,
    {
        proof {
            assert(doc.deep_view()[i as int] == doc@[i as int]@);
        }
        match &doc[i].kind {
            BlockKind::Table(_) => {
                return Some(i);
            },
            _ => {},
        }
        i = i + 1;
    }
    None
}

/// The sorted keyword list of the document.
fn keywords_of(doc: &Vec<Block>) -> (r: Vec<String>)
    ensures
        r.deep_view() == spec_keywords(doc.deep_view()),
{
    let anchor = chars_of("keyword-summary");
    let empty: Vec<String> = Vec::new();
    proof {
        assert(empty.deep_view() =~~= Seq::<Seq<char>>::empty());
    }
    match find_id_from(doc, &anchor, 0) {
        Some(i) => {
            if i + 1 < doc.len() {
                proof {
                    assert(doc.deep_view()[i as int + 1] == doc@[i as int + 1]@);
                }
                match &doc[i + 1].kind {
                    BlockKind::List { codes, .. } => {
                        let ghost cv = codes.deep_view();
                        let m = codes.len();
                        let mut firsts: Vec<String> = Vec::new();
                        proof {
                            assert(cv.skip(0) =~~= cv);
                            assert(firsts.deep_view() + code_firsts(cv) =~~= code_firsts(cv));
                        }
                        for k in 0..m
                            invariant
                                m == codes.len(),
                                cv == codes.deep_view(),
                                code_firsts(cv) == firsts.deep_view() + code_firsts(
                                    cv.skip(k as int),
                                ),
                        {
                            proof {
                                assert(cv.skip(k as int).drop_first() =~~= cv.skip(k as int + 1));
                                assert(cv.skip(k as int)[0] == cv[k as int]);
                                assert(cv[k as int] =~~= codes@[k as int].deep_view());
                            }
                            if codes[k].len() > 0 {
                                let ghost f0 = firsts.deep_view();
                                proof {
                                    assert(codes@[k as int].deep_view()[0] =~= codes@[k as int]@[0]@);
                                }
                                firsts.push(codes[k][0].clone());
                                proof {
                                    assert(firsts.deep_view() =~~= f0.push(cv[k as int][0]));
                                    assert(f0.push(cv[k as int][0]) + code_firsts(
                                        cv.skip(k as int + 1),
                                    ) =~~= f0 + (seq![cv[k as int][0]] + code_firsts(
                                        cv.skip(k as int + 1),
                                    )));
                                }
                            }
                        }
                        proof {
                            assert(cv.skip(m as int) =~~= Seq::<Seq<Seq<char>>>::empty());
                            assert(firsts.deep_view() + Seq::<Seq<char>>::empty()
                                =~~= firsts.deep_view());
                        }
                        sort_strings(&firsts)
                    },
                    _ => empty,
                }
            } else {
                empty
            }
        },
        None => empty,
    }
}

/// The sorted, apostrophe-stripped names of the list after anchor `id`.
fn names_of(doc: &Vec<Block>, id: &str) -> (r: Vec<String>)
    ensures
        r.deep_view() == spec_names(doc.deep_view(), id@),
{
    let anchor = chars_of(id);
    let empty: Vec<String> = Vec::new();
    proof {
        assert(empty.deep_view() =~~= Seq::<Seq<char>>::empty());
    }
    match find_id_from(doc, &anchor, 0) {
        Some(i) => {
            match find_list_from(doc, i + 1) {
                Some(l) => {
                    proof {
                        assert(doc.deep_view()[l as int] == doc@[l as int]@);
                    }
                    match &doc[l].kind {
                        BlockKind::List { items, .. } => {
                            let ghost iv = items.deep_view();
                            let m = items.len();
                            let mut names: Vec<String> = Vec::new();
                            proof {
                                assert(iv.skip(0) =~~= iv);
                                assert(names.deep_view() + item_names(iv) =~~= item_names(iv));
                            }
                            for k in 0..m
                                invariant
                                    m == items.len(),
                                    iv == items.deep_view(),
                                    item_names(iv) == names.deep_view() + item_names(
                                        iv.skip(k as int),
                                    ),
                            {
                                proof {
                                    assert(iv.skip(k as int).drop_first() =~~= iv.skip(
                                        k as int + 1,
                                    ));
                                    assert(iv.skip(k as int)[0] == iv[k as int]);
                                    assert(iv[k as int] =~~= items@[k as int].deep_view());
                                }
                                let joined = join_words(&items[k]);
                                let jc = chars_of(joined.as_str());
                                let stripped = strip_quotes(&jc);
                                let ghost n0 = names.deep_view();
                                names.push(string_of(&stripped));
                                proof {
                                    assert(names.deep_view() =~~= n0.push(
                                        spec_strip_quotes(spec_join_words(iv[k as int])),
                                    ));
                                    assert(n0.push(
                                        spec_strip_quotes(spec_join_words(iv[k as int])),
                                    ) + item_names(iv.skip(k as int + 1)) =~~= n0 + (seq![
                                        spec_strip_quotes(spec_join_words(iv[k as int])),
                                    ] + item_names(iv.skip(k as int + 1))));
                                }
                            }
                            proof {
                                assert(iv.skip(m as int) =~~= Seq::<Seq<Seq<char>>>::empty());
                                assert(names.deep_view() + Seq::<Seq<char>>::empty()
                                    =~~= names.deep_view());
                            }
                            sort_strings(&names)
                        },
                        _ => empty,
                    }
                },
                None => empty,
            }
        },
        None => empty,
    }
}

/// The sorted type-generator names of the document.
fn generators_of(doc: &Vec<Block>) -> (r: Vec<String>)
    ensures
        r.deep_view() == spec_type_generators(doc.deep_view()),
{
    let anchor = chars_of("predeclared-types");
    let empty: Vec<String> = Vec::new();
    proof {
        assert(empty.deep_view() =~~= Seq::<Seq<char>>::empty());
    }
    match find_id_from(doc, &anchor, 0) {
        Some(i) => {
            match find_table_from(doc, i + 1) {
                Some(t) => {
                    proof {
                        assert(doc.deep_view()[t as int] == doc@[t as int]@);
                    }
                    match &doc[t].kind {
                        BlockKind::Table(tab) => {
                            let ghost rv = tab@.rows;
                            let m = tab.rows.len();
                            let mut cells: Vec<String> = Vec::new();
                            proof {
                                assert(rv.skip(0) =~~= rv);
                                assert(cells.deep_view() + rows_first_cells(rv)
                                    =~~= rows_first_cells(rv));
                            }
                            for k in 0..m
                                invariant
                                    m == tab.rows.len(),
                                    rv == tab@.rows,
                                    rows_first_cells(rv) == cells.deep_view() + rows_first_cells(
                                        rv.skip(k as int),
                                    ),
                            {
                                proof {
                                    assert(rv.skip(k as int).drop_first() =~~= rv.skip(
                                        k as int + 1,
                                    ));
                                    assert(rv.skip(k as int)[0] == rv[k as int]);
                                    assert(rv[k as int] == tab.rows@[k as int]@);
                                }
                                if tab.rows[k].cells.len() >= 1 {
                                    proof {
                                        assert(rv[k as int].cells[0] == tab.rows@[k as int].cells@[0]@);
                                    }
                                    let txt = cell_text(&tab.rows[k].cells[0]);
                                    let ghost c0 = cells.deep_view();
                                    cells.push(txt);
                                    proof {
                                        assert(cells.deep_view() =~~= c0.push(
                                            spec_cell_text(rv[k as int].cells[0]),
                                        ));
                                        assert(c0.push(spec_cell_text(rv[k as int].cells[0]))
                                            + rows_first_cells(rv.skip(k as int + 1)) =~~= c0 + (
                                        seq![spec_cell_text(rv[k as int].cells[0])]
                                            + rows_first_cells(rv.skip(k as int + 1))));
                                    }
                                }
                            }
                            proof {
                                assert(rv.skip(m as int) =~~= Seq::<RowV>::empty());
                                assert(cells.deep_view() + Seq::<Seq<char>>::empty()
                                    =~~= cells.deep_view());
                            }
                            sort_strings(&cells)
                        },
                        _ => empty,
                    }
                },
                None => empty,
            }
        },
        None => empty,
    }
}

/// The alias map of the document.
fn aliases_of(doc: &Vec<Block>) -> (r: NameMap<String>)
    ensures
        r.wf(),
        r@ == spec_type_aliases(doc.deep_view()),
{
    let pat0 = chars_of("Predeclared alias");
    let pat1 = chars_of("Original type");
    let mut m: NameMap<String> = NameMap::new();
    let n = doc.len();
    let ghost dv = doc.deep_view();
    proof {
        assert(dv.skip(0) =~~= dv);
    }
    for i in 0..n
        invariant
            n == doc.len(),
            dv == doc.deep_view(),
            pat0@ == "Predeclared alias"@,
            pat1@ == "Original type"@,
            m.wf(),
            spec_type_aliases(dv) == alias_fold(dv, i as int, m@),
    {
        proof {
            assert(dv[i as int] == doc@[i as int]@);
        }
        match &doc[i].kind {
            BlockKind::Table(tab) => {
                let ghost tv = tab@;
                let mut qualifies = false;
                if tab.headers.len() >= 2 {
                    proof {
                        assert(tv.headers[0] == tab.headers@[0]@);
                        assert(tv.headers[1] == tab.headers@[1]@);
                    }
                    let h0 = cell_fragments(&tab.headers[0]);
                    let h1 = cell_fragments(&tab.headers[1]);
                    if any_frag_contains(&h0, &pat0) && any_frag_contains(&h1, &pat1) {
                        qualifies = true;
                    }
                }
                proof {
                    assert(qualifies == spec_alias_table(tv));
                }
                if qualifies {
                    let ghost rv = tv.rows;
                    let rn = tab.rows.len();
                    proof {
                        assert(rv.skip(0) =~~= rv);
                    }
                    let ghost target = alias_rows(m@, rv);
                    for k in 0..rn
                        invariant
                            rn == tab.rows.len(),
                            rv == tab@.rows,
                            m.wf(),
                            target == alias_rows(m@, rv.skip(k as int)),
                    {
                        proof {
                            assert(rv.skip(k as int).drop_first() =~~= rv.skip(k as int + 1));
                            assert(rv.skip(k as int)[0] == rv[k as int]);
                            assert(rv[k as int] == tab.rows@[k as int]@);
                        }
                        if tab.rows[k].cells.len() >= 2 {
                            proof {
                                assert(rv[k as int].cells[0] == tab.rows@[k as int].cells@[0]@);
                                assert(rv[k as int].cells[1] == tab.rows@[k as int].cells@[1]@);
                            }
                            let t0 = cell_text(&tab.rows[k].cells[0]);
                            let t1 = cell_text(&tab.rows[k].cells[1]);
                            let c0 = chars_of(t0.as_str());
                            let c1 = chars_of(t1.as_str());
                            let k0 = trim_chars(&c0);
                            let k1 = trim_chars(&c1);
                            m.insert(string_of(&k0), string_of(&k1));
                        }
                    }
                    proof {
                        assert(rv.skip(rn as int) =~~= Seq::<RowV>::empty());
                    }
                }
            },
            _ => {},
        }
    }
    proof {
        assert(dv.skip(n as int) =~~= Seq::<BlockV>::empty());
    }
    m
}

/// Each name mapped to an empty attribute record.
fn attrs_of(names: &Vec<String>) -> (r: NameMap<Attribute>)
    ensures
        r.wf(),
        r@ == attr_map_from(Map::empty(), names.deep_view()),
{
    let mut m: NameMap<Attribute> = NameMap::new();
    let n = names.len();
    let ghost dv = names.deep_view();
    proof {
        assert(dv.skip(0) =~~= dv);
    }
    for i in 0..n
        invariant
            n == names.len(),
            dv == names.deep_view(),
            m.wf(),
            attr_map_from(Map::empty(), dv) == attr_map_from(m@, dv.skip(i as int)),
    {
        proof {
            assert(dv.skip(i as int).drop_first() =~~= dv.skip(i as int + 1));
            assert(dv.skip(i as int)[0] == dv[i as int]);
            assert(dv[i as int] =~= names@[i as int]@);
        }
        let a = Attribute { description: String::new(), description_parameters: None };
        proof {
            assert(a@ == empty_attribute());
        }
        m.insert(names[i].clone(), a);
    }
    proof {
        assert(dv.skip(n as int) =~~= Seq::<Seq<char>>::empty());
    }
    m
}

/// Each name mapped to an empty builtin-value record.
fn bvs_of(names: &Vec<String>) -> (r: NameMap<BuiltinValue>)
    ensures
        r.wf(),
        r@ == bv_map_from(Map::empty(), names.deep_view()),
{
    let mut m: NameMap<BuiltinValue> = NameMap::new();
    let n = names.len();
    let ghost dv = names.deep_view();
    proof {
        assert(dv.skip(0) =~~= dv);
    }
    for i in 0..n
        invariant
            n == names.len(),
            dv == names.deep_view(),
            m.wf(),
            bv_map_from(Map::empty(), dv) == bv_map_from(m@, dv.skip(i as int)),
    {
        proof {
            assert(dv.skip(i as int).drop_first() =~~= dv.skip(i as int + 1));
            assert(dv.skip(i as int)[0] == dv[i as int]);
            assert(dv[i as int] =~= names@[i as int]@);
        }
        let b = BuiltinValue { stages: NameMap::new(), typ: String::new() };
        proof {
            assert(b@ == empty_builtin_value());
        }
        m.insert(names[i].clone(), b);
    }
    proof {
        assert(dv.skip(n as int) =~~= Seq::<Seq<char>>::empty());
    }
    m
}

/// Walks the five anchor-delimited name lists, the keyword list, the
/// type-generator table and every alias table, producing the token catalog.
/// A missing anchor, list or table yields the corresponding empty field.
pub fn extract_tokens(document: &Vec<Block>) -> (r: TokenInfo)
    ensures
        r.wf(),
        r@.keywords == spec_keywords(document.deep_view()),
        r@.attributes == attr_map_from(
            Map::empty(),
            spec_names(document.deep_view(), "attribute-names"@),
        ),
        r@.builtin_values == bv_map_from(
            Map::empty(),
            spec_names(document.deep_view(), "builtin-value-names"@),
        ),
        r@.interpolation_type_names == spec_names(
            document.deep_view(),
            "interpolation-type-names"@,
        ),
        r@.interpolation_sampling_names == spec_names(
            document.deep_view(),
            "interpolation-sampling-names"@,
        ),
        r@.primitive_types == spec_names(document.deep_view(), "predeclared-types"@),
        r@.type_generators == spec_type_generators(document.deep_view()),
        r@.type_aliases == spec_type_aliases(document.deep_view()),
{
    let keywords = keywords_of(document);
    let attribute_names = names_of(document, "attribute-names");
    let builtin_value_names = names_of(document, "builtin-value-names");
    let interpolation_type_names = names_of(document, "interpolation-type-names");
    let interpolation_sampling_names = names_of(document, "interpolation-sampling-names");
    let primitive_types = names_of(document, "predeclared-types");
    let type_generators = generators_of(document);
    let type_aliases = aliases_of(document);
    let attributes = attrs_of(&attribute_names);
    let builtin_values = bvs_of(&builtin_value_names);
    TokenInfo {
        keywords,
        attributes,
        builtin_values,
        interpolation_type_names,
        interpolation_sampling_names,
        primitive_types,
        type_generators,
        type_aliases,
    }
}

} // verus!
