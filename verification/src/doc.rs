//! The document model: an ordered sequence of blocks (headings, lists,
//! tables, code blocks, prose), each carrying its raw text fragments.
//! Section structure is implicit — a section runs from its anchor heading to
//! the next heading of the same or a higher level.

use vstd::prelude::*;

use crate::text::spec_join_words;
use crate::text::join_words;

verus! {

/// A piece of a table cell: a raw text fragment, or a line/paragraph break.
#[derive(Debug)]
pub enum CellPart {
    Text(String),
    Break,
}

/// A table cell.
#[derive(Debug)]
pub struct Cell {
    pub parts: Vec<CellPart>,
}

/// A table row; `algorithm` marks rows carrying the algorithm style.
#[derive(Debug)]
pub struct Row {
    pub algorithm: bool,
    pub cells: Vec<Cell>,
}

/// A table; `builtin_data` marks the builtin-data style, `headers` the
/// header cells, `rows` the body rows.
#[derive(Debug)]
pub struct Table {
    pub builtin_data: bool,
    pub headers: Vec<Cell>,
    pub rows: Vec<Row>,
}

/// What kind of element a block is.
#[derive(Debug)]
pub enum BlockKind {
    /// A heading of the given level; `code` holds the fragments of its first
    /// code element, if it has one.
    Heading { level: u8, code: Option<Vec<String>> },
    /// A list: per item its fragments, and per contained code element its
    /// fragments.
    List { items: Vec<Vec<String>>, codes: Vec<Vec<String>> },
    /// A table.
    Table(Table),
    /// A code block.
    Pre,
    /// Any other element.
    Other,
}

/// One block of the flattened document.
#[derive(Debug)]
pub struct Block {
    /// The element's anchor identifier, if any.
    pub id: Option<String>,
    /// Every text fragment of the element, in document order.
    pub fragments: Vec<String>,
    /// The text fragments of the first bold label inside a paragraph of the
    /// element, if any; empty otherwise.
    pub strong: Vec<String>,
    pub kind: BlockKind,
}

/// View of a [`CellPart`].
#[verifier::ext_equal]
pub ghost enum CellPartV {
    Text(Seq<char>),
    Break,
}

impl View for CellPart {
    type V = CellPartV;

    open spec fn view(&self) -> CellPartV {
        match self {
            CellPart::Text(t) => CellPartV::Text(t@),
            CellPart::Break => CellPartV::Break,
        }
    }
}

/// View of a [`Cell`].
#[verifier::ext_equal]
pub ghost struct CellV {
    pub parts: Seq<CellPartV>,
}

impl View for Cell {
    type V = CellV;

    open spec fn view(&self) -> CellV {
        CellV { parts: Seq::new(self.parts@.len(), |i: int| self.parts@[i]@) }
    }
}

/// View of a [`Row`].
#[verifier::ext_equal]
pub ghost struct RowV {
    pub algorithm: bool,
    pub cells: Seq<CellV>,
}

impl View for Row {
    type V = RowV;

    open spec fn view(&self) -> RowV {
        RowV {
            algorithm: self.algorithm,
            cells: Seq::new(self.cells@.len(), |i: int| self.cells@[i]@),
        }
    }
}

/// View of a [`Table`].
#[verifier::ext_equal]
pub ghost struct TableV {
    pub builtin_data: bool,
    pub headers: Seq<CellV>,
    pub rows: Seq<RowV>,
}

impl View for Table {
    type V = TableV;

    open spec fn view(&self) -> TableV {
        TableV {
            builtin_data: self.builtin_data,
            headers: Seq::new(self.headers@.len(), |i: int| self.headers@[i]@),
            rows: Seq::new(self.rows@.len(), |i: int| self.rows@[i]@),
        }
    }
}

/// View of a [`BlockKind`].
#[verifier::ext_equal]
pub ghost enum BlockKindV {
    Heading { level: u8, code: Option<Seq<Seq<char>>> },
    List { items: Seq<Seq<Seq<char>>>, codes: Seq<Seq<Seq<char>>> },
    Table(TableV),
    Pre,
    Other,
}

impl View for BlockKind {
    type V = BlockKindV;

    open spec fn view(&self) -> BlockKindV {
        match self {
            BlockKind::Heading { level, code } => BlockKindV::Heading {
                level: *level,
                code: match code {
                    Some(c) => Some(c.deep_view()),
                    None => None,
                },
            },
            BlockKind::List { items, codes } => BlockKindV::List {
                items: items.deep_view(),
                codes: codes.deep_view(),
            },
            BlockKind::Table(t) => BlockKindV::Table(t@),
            BlockKind::Pre => BlockKindV::Pre,
            BlockKind::Other => BlockKindV::Other,
        }
    }
}

/// View of a [`Block`].
#[verifier::ext_equal]
pub ghost struct BlockV {
    pub id: Option<Seq<char>>,
    pub fragments: Seq<Seq<char>>,
    pub strong: Seq<Seq<char>>,
    pub kind: BlockKindV,
}

impl View for Block {
    type V = BlockV;

    open spec fn view(&self) -> BlockV {
        BlockV {
            id: match &self.id {
                Some(s) => Some(s@),
                None => None,
            },
            fragments: self.fragments.deep_view(),
            strong: self.strong.deep_view(),
            kind: self.kind@,
        }
    }
}

impl DeepView for Block {
    type V = BlockV;

    open spec fn deep_view(&self) -> BlockV {
        self@
    }
}

/// The text fragments among a cell's parts, in order.
pub open spec fn parts_frags(ps: Seq<CellPartV>) -> Seq<Seq<char>>
    decreases ps.len(),
{
    if ps.len() == 0 {
        Seq::empty()
    } else {
        match ps[0] {
            CellPartV::Text(t) => seq![t] + parts_frags(ps.drop_first()),
            CellPartV::Break => parts_frags(ps.drop_first()),
        }
    }
}

/// The canonical text of a cell.
pub open spec fn spec_cell_text(c: CellV) -> Seq<char> {
    spec_join_words(parts_frags(c.parts))
}

/// The text fragments of a cell, in order.
pub fn cell_fragments(c: &Cell) -> (r: Vec<String>)
    ensures
        r.deep_view() == parts_frags(c@.parts),
{
    let n = c.parts.len();
    let mut r: Vec<String> = Vec::new();
    proof {
        assert(c@.parts.skip(0) =~~= c@.parts);
        assert(r.deep_view() + parts_frags(c@.parts) =~~= parts_frags(c@.parts));
    }
    for i in 0..n
        invariant
            n == c.parts.len(),
            parts_frags(c@.parts) == r.deep_view() + parts_frags(c@.parts.skip(i as int)),
    {
        proof {
            assert(c@.parts.skip(i as int).drop_first() =~~= c@.parts.skip(i as int + 1));
            assert(c@.parts.skip(i as int)[0] == c@.parts[i as int]);
            assert(c@.parts[i as int] == c.parts@[i as int]@);
        }
        match &c.parts[i] {
            CellPart::Text(t) => {
                let ghost r0 = r.deep_view();
                let ghost tv = t@;
                r.push(t.clone());
                proof {
                    assert(r.deep_view() =~~= r0.push(tv));
                    assert(r0.push(tv) + parts_frags(c@.parts.skip(i as int + 1)) =~~= r0 + (
                    seq![tv] + parts_frags(c@.parts.skip(i as int + 1))));
                }
            },
            CellPart::Break => {},
        }
    }
    proof {
        assert(c@.parts.skip(n as int) =~~= Seq::<CellPartV>::empty());
        assert(r.deep_view() + Seq::<Seq<char>>::empty() =~~= r.deep_view());
    }
    r
}

/// The canonical text of a cell.
pub fn cell_text(c: &Cell) -> (r: String)
    ensures
        r@ == spec_cell_text(c@),
{
    let frags = cell_fragments(c);
    join_words(&frags)
}

/// Whether a block is a heading of level at most `maxlev`.
pub open spec fn is_heading_le(b: BlockV, maxlev: u8) -> bool {
    match b.kind {
        BlockKindV::Heading { level, .. } => level <= maxlev,
        _ => false,
    }
}

/// Whether a block is a heading of exactly level `lev`.
pub open spec fn is_heading_at(b: BlockV, lev: u8) -> bool {
    match b.kind {
        BlockKindV::Heading { level, .. } => level == lev,
        _ => false,
    }
}

/// The first position at or after `i` holding a block with identifier `id`.
pub open spec fn spec_find_id(doc: Seq<BlockV>, id: Seq<char>, i: int) -> Option<int>
    decreases doc.len() - i,
{
    if i < 0 || i >= doc.len() {
        Option::None
    } else if doc[i].id == Option::Some(id) {
        Option::Some(i)
    } else {
        spec_find_id(doc, id, i + 1)
    }
}

/// The first position at or after `i` of a heading of level at most
/// `maxlev`, or the document's end.
pub open spec fn spec_sec_end(doc: Seq<BlockV>, i: int, maxlev: u8) -> int
    decreases doc.len() - i,
{
    if i < 0 || i >= doc.len() {
        doc.len() as int
    } else if is_heading_le(doc[i], maxlev) {
        i
    } else {
        spec_sec_end(doc, i + 1, maxlev)
    }
}

/// Whether the block's identifier equals `id`.
fn id_matches(b: &Block, id: &Vec<char>) -> (r: bool)
    ensures
        r == (b@.id == Option::Some(id@)),
{
    match &b.id {
        Some(s) => {
            let sc = crate::text::chars_of(s.as_str());
            crate::text::eq_chars(&sc, id)
        },
        None => false,
    }
}

/// Finds the first block at or after `from` with identifier `id`.
pub fn find_id_from(doc: &Vec<Block>, id: &Vec<char>, from: usize) -> (r: Option<usize>)
    requires
        from <= doc.len(),
    ensures
        (match r {
            Some(u) => Option::Some(u as int),
            None => Option::None::<int>,
        }) == spec_find_id(doc.deep_view(), id@, from as int),
        r matches Some(u) ==> from <= u < doc.len(),
{
    let n = doc.len();
    let mut i = from;
    while i < n
        invariant
            n == doc.len(),
            from <= i <= n,
            spec_find_id(doc.deep_view(), id@, from as int) == spec_find_id(
                doc.deep_view(),
                id@,
                i as int,
            ),
        decreases n - i,
    {
        proof {
            assert(doc.deep_view()[i as int] == doc@[i as int]@);
        }
        if id_matches(&doc[i], id) {
            return Some(i);
        }
        i = i + 1;
    }
    None
}

/// Finds the first heading of level at most `maxlev` at or after `from`,
/// or the document's end.
pub fn section_end(doc: &Vec<Block>, from: usize, maxlev: u8) -> (r: usize)
    requires
        from <= doc.len(),
    ensures
        r as int == spec_sec_end(doc.deep_view(), from as int, maxlev),
        from <= r <= doc.len(),
{
    let n = doc.len();
    let mut i = from;
    while i < n
        invariant
            n == doc.len(),
            from <= i <= n,
            spec_sec_end(doc.deep_view(), from as int, maxlev) == spec_sec_end(
                doc.deep_view(),
                i as int,
                maxlev,
            ),
        decreases n - i,
    {
        proof {
            assert(doc.deep_view()[i as int] == doc@[i as int]@);
        }
        let mut hit = false;
        match &doc[i].kind {
            BlockKind::Heading { level, .. } => {
                if *level <= maxlev {
                    hit = true;
                }
            },
            _ => {},
        }
        if hit {
            return i;
        }
        i = i + 1;
    }
    i
}

} // verus!
