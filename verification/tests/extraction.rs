use wgsl_spec::doc::{Block, BlockKind, Cell, CellPart, Row, Table};
use wgsl_spec::functions::{extract_functions, ExtractError};
use wgsl_spec::records::ParameterizationKind;
use wgsl_spec::tokens::extract_tokens;

fn s(x: &str) -> String {
    x.to_string()
}

fn text_cell(t: &str) -> Cell {
    Cell { parts: vec![CellPart::Text(s(t))] }
}

fn plain_block(kind: BlockKind) -> Block {
    Block { id: None, fragments: Vec::new(), strong: Vec::new(), kind }
}

fn id_block(id: &str, kind: BlockKind) -> Block {
    Block { id: Some(s(id)), fragments: Vec::new(), strong: Vec::new(), kind }
}

fn builtin_table(overload: &str, description: &str, parameterization: &str) -> Block {
    let rows = vec![
        Row { algorithm: false, cells: vec![text_cell("Overload"), text_cell(overload)] },
        Row { algorithm: false, cells: vec![text_cell("Description"), text_cell(description)] },
        Row {
            algorithm: false,
            cells: vec![text_cell("Parameterization"), text_cell(parameterization)],
        },
    ];
    plain_block(BlockKind::Table(Table { builtin_data: true, headers: Vec::new(), rows }))
}

#[test]
fn standard_table_yields_one_function() {
    let doc = vec![builtin_table("fn abs(e: T) -> T", "absolute value", "T is f32, i32, u32")];
    let info = extract_functions(&doc).unwrap();
    assert_eq!(info.functions.len(), 1);
    let f = info.functions.get("abs").unwrap();
    assert_eq!(f.overloads.len(), 1);
    assert_eq!(f.overloads[0].signature, "fn abs(e: T) -> T");
    assert_eq!(f.overloads[0].description.as_deref(), Some("absolute value"));
    let kind = f.overloads[0].parameterization.typevars.get("T").unwrap();
    match kind {
        ParameterizationKind::Types(ts) => {
            assert_eq!(ts, &vec![s("f32"), s("i32"), s("u32")]);
        },
        ParameterizationKind::Description(d) => panic!("expected an enumeration, got {d:?}"),
    }
}

#[test]
fn one_word_parameterization_clause_contributes_nothing() {
    let doc = vec![builtin_table("fn foo(x)", "d", "T")];
    let info = extract_functions(&doc).unwrap();
    let f = info.functions.get("foo").unwrap();
    assert_eq!(f.overloads[0].parameterization.typevars.len(), 0);
}

#[test]
fn standard_table_without_signature_is_skipped() {
    let rows = vec![Row {
        algorithm: false,
        cells: vec![text_cell("Description"), text_cell("only prose")],
    }];
    let doc = vec![plain_block(BlockKind::Table(Table {
        builtin_data: true,
        headers: Vec::new(),
        rows,
    }))];
    let info = extract_functions(&doc).unwrap();
    assert_eq!(info.functions.len(), 0);
}

#[test]
fn missing_function_name_aborts() {
    let doc = vec![builtin_table("float max(a, b)", "no fn keyword", "")];
    assert_eq!(extract_functions(&doc).unwrap_err(), ExtractError::MissingFunctionName);
}

#[test]
fn texture_overrides_standard_entry() {
    let doc = vec![
        builtin_table("fn textureSample(t) -> vec4", "from the data table", ""),
        id_block(
            "texture-builtin-functions",
            BlockKind::Heading { level: 3, code: None },
        ),
        plain_block(BlockKind::Heading { level: 4, code: Some(vec![s("textureSample")]) }),
        Block {
            id: None,
            fragments: vec![s("Samples a texture.")],
            strong: Vec::new(),
            kind: BlockKind::Other,
        },
    ];
    let info = extract_functions(&doc).unwrap();
    let f = info.functions.get("textureSample").unwrap();
    assert_eq!(f.description.as_deref(), Some("Samples a texture."));
    assert_eq!(f.overloads.len(), 0);
}

#[test]
fn texture_anchor_must_be_h3() {
    let doc = vec![id_block(
        "texture-builtin-functions",
        BlockKind::Heading { level: 2, code: None },
    )];
    assert_eq!(extract_functions(&doc).unwrap_err(), ExtractError::TextureAnchorNotHeading);
}

#[test]
fn texture_heading_needs_code_name() {
    let doc = vec![
        id_block("texture-builtin-functions", BlockKind::Heading { level: 3, code: None }),
        plain_block(BlockKind::Heading { level: 4, code: None }),
        Block {
            id: None,
            fragments: vec![s("orphan description")],
            strong: Vec::new(),
            kind: BlockKind::Other,
        },
    ];
    assert_eq!(extract_functions(&doc).unwrap_err(), ExtractError::MissingTextureFunctionName);
}

#[test]
fn texture_section_reads_overloads_parameters_and_returns() {
    let algo = Row {
        algorithm: true,
        cells: vec![text_cell("T is f32, or i32"), text_cell("fn textureLoad(t: T)")],
    };
    let param_row = Row {
        algorithm: false,
        cells: vec![text_cell("t"), text_cell("the texture")],
    };
    let doc = vec![
        id_block("texture-builtin-functions", BlockKind::Heading { level: 3, code: None }),
        plain_block(BlockKind::Heading { level: 4, code: Some(vec![s("textureLoad")]) }),
        Block {
            id: None,
            fragments: vec![s("Loads a texel.")],
            strong: Vec::new(),
            kind: BlockKind::Other,
        },
        plain_block(BlockKind::Table(Table {
            builtin_data: false,
            headers: Vec::new(),
            rows: vec![algo],
        })),
        Block {
            id: None,
            fragments: vec![s("Parameters:")],
            strong: vec![s("Parameters:")],
            kind: BlockKind::Other,
        },
        plain_block(BlockKind::Table(Table {
            builtin_data: false,
            headers: Vec::new(),
            rows: vec![param_row],
        })),
        Block {
            id: None,
            fragments: vec![s("Returns:")],
            strong: vec![s("Returns:")],
            kind: BlockKind::Other,
        },
        Block {
            id: None,
            fragments: vec![s("The sampled value.")],
            strong: Vec::new(),
            kind: BlockKind::Other,
        },
    ];
    let info = extract_functions(&doc).unwrap();
    let f = info.functions.get("textureLoad").unwrap();
    assert_eq!(f.overloads.len(), 1);
    assert_eq!(f.overloads[0].signature, "fn textureLoad(t: T)");
    assert_eq!(f.parameters.len(), 1);
    assert_eq!(f.parameters[0].name, "t");
    assert_eq!(f.parameters[0].description, "the texture");
    assert_eq!(
        f.description.as_deref(),
        Some("Loads a texel.\n\nReturns:\n\nThe sampled value.")
    );
}

#[test]
fn atomic_section_pairs_signatures_with_prose() {
    let doc = vec![
        id_block("atomic-builtin-functions", BlockKind::Heading { level: 3, code: None }),
        plain_block(BlockKind::Heading { level: 4, code: Some(vec![s("atomicLoad")]) }),
        Block {
            id: None,
            fragments: vec![s("fn atomicLoad(p: ptr) -> T fn atomicStore(p: ptr, v: T)")],
            strong: Vec::new(),
            kind: BlockKind::Pre,
        },
        Block {
            id: None,
            fragments: vec![s("Reads or writes atomically.")],
            strong: Vec::new(),
            kind: BlockKind::Other,
        },
    ];
    let info = extract_functions(&doc).unwrap();
    let load = info.functions.get("atomicLoad").unwrap();
    assert_eq!(load.overloads.len(), 1);
    assert_eq!(load.overloads[0].signature, "fn atomicLoad(p: ptr) -> T");
    assert_eq!(load.description.as_deref(), Some("Reads or writes atomically."));
    let store = info.functions.get("atomicStore").unwrap();
    assert_eq!(store.overloads[0].signature, "fn atomicStore(p: ptr, v: T)");
}

#[test]
fn atomic_anchor_must_be_h3() {
    let doc = vec![id_block("atomic-builtin-functions", BlockKind::Heading { level: 4, code: None })];
    assert_eq!(extract_functions(&doc).unwrap_err(), ExtractError::AtomicAnchorNotHeading);
}

#[test]
fn atomic_subsection_must_start_with_code_block() {
    let doc = vec![
        id_block("atomic-builtin-functions", BlockKind::Heading { level: 3, code: None }),
        plain_block(BlockKind::Heading { level: 4, code: None }),
        Block {
            id: None,
            fragments: vec![s("prose before any signatures")],
            strong: Vec::new(),
            kind: BlockKind::Other,
        },
    ];
    assert_eq!(extract_functions(&doc).unwrap_err(), ExtractError::AtomicExpectedSignatures);
}

#[test]
fn placeholders_are_removed() {
    let doc = vec![
        builtin_table("fn S(x)", "a placeholder", ""),
        builtin_table("fn T(x)", "another placeholder", ""),
        builtin_table("fn real(x)", "a real entry", ""),
    ];
    let info = extract_functions(&doc).unwrap();
    assert!(info.functions.get("S").is_none());
    assert!(info.functions.get("T").is_none());
    assert!(info.functions.get("real").is_some());
    assert_eq!(info.functions.len(), 1);
}

#[test]
fn generic_bracket_spacing_is_normalized() {
    let doc = vec![builtin_table("fn vec < T >(x)", "spaced generics", "")];
    let info = extract_functions(&doc).unwrap();
    let f = info.functions.get("vec").unwrap();
    assert_eq!(f.overloads[0].signature, "fn vec<T>(x)");
}

#[test]
fn token_catalog_reads_all_sections() {
    let keyword_list = BlockKind::List {
        items: Vec::new(),
        codes: vec![vec![s("if")], vec![s("break")], vec![s("alias")]],
    };
    let attr_list = BlockKind::List {
        items: vec![vec![s("work'group")], vec![s("align")]],
        codes: Vec::new(),
    };
    let gen_table = BlockKind::Table(Table {
        builtin_data: false,
        headers: Vec::new(),
        rows: vec![
            Row { algorithm: false, cells: vec![text_cell("vec2"), text_cell("ignored")] },
            Row { algorithm: false, cells: vec![text_cell("array")] },
        ],
    });
    let alias_table = BlockKind::Table(Table {
        builtin_data: false,
        headers: vec![text_cell("Predeclared alias"), text_cell("Original type")],
        rows: vec![Row {
            algorithm: false,
            cells: vec![text_cell(" vec2f "), text_cell("vec2<f32>")],
        }],
    });
    let doc = vec![
        id_block("keyword-summary", BlockKind::Other),
        plain_block(keyword_list),
        id_block("attribute-names", BlockKind::Other),
        plain_block(attr_list),
        id_block("predeclared-types", BlockKind::Other),
        plain_block(BlockKind::List {
            items: vec![vec![s("f32")], vec![s("bool")]],
            codes: Vec::new(),
        }),
        plain_block(gen_table),
        plain_block(alias_table),
    ];
    let info = extract_tokens(&doc);
    assert_eq!(info.keywords, vec![s("alias"), s("break"), s("if")]);
    assert_eq!(info.attributes.len(), 2);
    assert!(info.attributes.get("workgroup").is_some());
    assert!(info.attributes.get("align").is_some());
    assert_eq!(info.primitive_types, vec![s("bool"), s("f32")]);
    assert_eq!(info.type_generators, vec![s("array"), s("vec2")]);
    assert_eq!(info.type_aliases.len(), 1);
    assert_eq!(info.type_aliases.get("vec2f").unwrap(), "vec2<f32>");
    assert_eq!(info.interpolation_type_names.len(), 0);
    assert_eq!(info.builtin_values.len(), 0);
}

#[test]
fn missing_sections_yield_empty_catalog() {
    let doc: Vec<Block> = Vec::new();
    let info = extract_tokens(&doc);
    assert!(info.keywords.is_empty());
    assert_eq!(info.attributes.len(), 0);
    assert!(info.primitive_types.is_empty());
    assert_eq!(info.type_aliases.len(), 0);
    let funcs = extract_functions(&doc).unwrap();
    assert_eq!(funcs.functions.len(), 0);
}
