//! Where each text goes on the sheet, and how it is styled.
//!
//! Column `c` belongs to the `c`-th language. Row 0 holds the language's
//! name in the header style; row `r + 1` holds its `r`-th text, unless that
//! text is blank, in which case the cell is never written. The data cells of
//! column 0 have a style of their own.

use vstd::prelude::*;
use crate::loader::{Lan, LanView, lans_view};
use crate::text::{blank, is_blank};

verus! {

/// How a written cell looks.
#[derive(PartialEq, Eq, Structural, Clone, Copy, Debug)]
pub enum CellStyle {
    /// A language name in row 0.
    Header,
    /// A text in the first column.
    FirstColumn,
    /// A text in any other column.
    Body,
}

/// One cell to write: its position, its text and its style.
#[derive(Debug)]
pub struct Cell {
    pub row: usize,
    pub col: usize,
    pub text: String,
    pub style: CellStyle,
}

/// A cell seen as row, column, text and style.
pub type CellView = (int, int, Seq<char>, CellStyle);

impl View for Cell {
    type V = CellView;

    open spec fn view(&self) -> CellView {
        (self.row as int, self.col as int, self.text@, self.style)
    }
}

pub open spec fn cells_view(v: Seq<Cell>) -> Seq<CellView> {
    v.map_values(|c: Cell| c@)
}

/// The style of the data cells of column `col`.
pub open spec fn body_style(col: int) -> CellStyle {
    if col == 0 {
        CellStyle::FirstColumn
    } else {
        CellStyle::Body
    }
}

/// The data cells of column `col` for `texts`: text `r` at row `r + 1`,
/// blank texts left out, top to bottom.
pub open spec fn body_cells(col: int, texts: Seq<Seq<char>>) -> Seq<CellView>
    decreases texts.len(),
{
    if texts.len() == 0 {
        Seq::empty()
    } else {
        body_cells(col, texts.drop_last()) + if blank(texts.last()) {
            Seq::empty()
        } else {
            seq![(texts.len() as int, col, texts.last(), body_style(col))]
        }
    }
}

/// The header cell of column `col` followed by its data cells.
pub open spec fn column_cells(col: int, lan: LanView) -> Seq<CellView> {
    seq![(0int, col, lan.0, CellStyle::Header)] + body_cells(col, lan.1)
}

/// All cells of the sheet, column by column, left to right.
pub open spec fn sheet_cells(langs: Seq<LanView>) -> Seq<CellView>
    decreases langs.len(),
{
    if langs.len() == 0 {
        Seq::empty()
    } else {
        sheet_cells(langs.drop_last()) + column_cells(langs.len() - 1, langs.last())
    }
}

/// The cells to write for `langs`, in the order they are written.
pub fn plan_sheet(langs: &Vec<Lan>) -> (cells: Vec<Cell>)
    requires
        forall|k: int| 0 <= k < langs@.len() ==> (#[trigger] langs@[k]).texts@.len() < usize::MAX,
    ensures
        cells_view(cells@) == sheet_cells(lans_view(langs@)),
{
    let ghost lv = lans_view(langs@);
    let mut cells: Vec<Cell> = Vec::new();
    let mut c: usize = 0;
    assert(lv.subrange(0, 0) =~= Seq::<LanView>::empty());
    assert(cells_view(cells@) =~= Seq::<CellView>::empty());
    while c < langs.len()
        invariant
            lv == lans_view(langs@),
            forall|k: int| 0 <= k < langs@.len() ==> (#[trigger] langs@[k]).texts@.len() < usize::MAX,
            c <= langs.len(),
            cells_view(cells@) == sheet_cells(lv.subrange(0, c as int)),
        decreases langs.len() - c,
    {
        let lan = &langs[c];
        let ghost done = cells_view(cells@);
        let ghost texts = lan.texts.deep_view();
        assert(lv[c as int] == lan@);
        cells.push(Cell { row: 0, col: c, text: lan.name.clone(), style: CellStyle::Header });
        assert(texts.subrange(0, 0) =~= Seq::<Seq<char>>::empty());
        assert(cells_view(cells@) =~= done + seq![(0int, c as int, lan.name@, CellStyle::Header)]
            + body_cells(c as int, texts.subrange(0, 0)));
        let style = if c == 0 {
            CellStyle::FirstColumn
        } else {
            CellStyle::Body
        };
        let mut r: usize = 0;
        while r < lan.texts.len()
            invariant
                lan.texts@.len() < usize::MAX,
                texts == lan.texts.deep_view(),
                style == body_style(c as int),
                r <= lan.texts.len(),
                cells_view(cells@) == done + seq![(0int, c as int, lan.name@, CellStyle::Header)]
                    + body_cells(c as int, texts.subrange(0, r as int)),
            decreases lan.texts.len() - r,
        {
            let ghost before = cells_view(cells@);
            let text = &lan.texts[r];
            assert(texts.subrange(0, r + 1).drop_last() == texts.subrange(0, r as int));
            assert(texts.subrange(0, r + 1).last() == text@);
            if !is_blank(text.as_str()) {
                cells.push(Cell { row: r + 1, col: c, text: text.clone(), style });
                assert(cells_view(cells@) =~= before.push(((r + 1) as int, c as int, text@, style)));
            } else {
                assert(cells_view(cells@) == before);
            }
            r = r + 1;
        }
        assert(texts.subrange(0, r as int) == texts);
        assert(lv.subrange(0, c + 1).drop_last() == lv.subrange(0, c as int));
        assert(lv.subrange(0, c + 1).last() == lan@);
        c = c + 1;
    }
    assert(lv.subrange(0, c as int) == lv);
    cells
}

} // verus!
