use vstd::prelude::*;
use crate::geometry::Position;
use crate::style::{CharStyle, Colors};
use crate::text::{graphemes, spec_graphemes};

verus! {

/// What one terminal cell last showed.
#[derive(Debug)]
pub struct TerminalCachedBufferCell {
    char_style: CharStyle,
    colors: Colors,
    lexeme: String,
}

/// A cell as its style, colours and text.
pub type CellView = (CharStyle, Colors, Seq<char>);

impl TerminalCachedBufferCell {
    pub closed spec fn spec_view(&self) -> CellView {
        (self.char_style, self.colors, self.lexeme@)
    }

    /// Whether the cell shows `lexeme` in `char_style` and `colors`.
    pub fn compare(&self, char_style: CharStyle, colors: Colors, lexeme: &str) -> (r: bool)
        ensures
            r == (self.spec_view() == (char_style, colors, lexeme@)),
    {
        let lexeme: String = lexeme.to_owned();
        return self.char_style == char_style && self.colors == colors && self.lexeme == lexeme;
    }
}

/// What each cell of a `width` by `height` area showed last, line by line,
/// so that only the cells that change need to be drawn again.
#[derive(Debug)]
pub struct TerminalCachedBuffer {
    height: usize,
    width: usize,
    buffer: Vec<Option<TerminalCachedBufferCell>>,
}

/// The cache after `compare_or_update` writes `lexemes`, one per cell, from
/// index `start` on, as far as the cache reaches.
pub open spec fn cells_updated(
    cells: Seq<Option<CellView>>,
    start: int,
    char_style: CharStyle,
    colors: Colors,
    lexemes: Seq<Seq<char>>,
) -> Seq<Option<CellView>> {
    Seq::new(
        cells.len(),
        |i: int|
            if start <= i < start + lexemes.len() {
                Option::Some((char_style, colors, lexemes[i - start]))
            } else {
                cells[i]
            },
    )
}

/// Every cell that `lexemes` would be written to already shows its lexeme.
pub open spec fn cells_match(
    cells: Seq<Option<CellView>>,
    start: int,
    char_style: CharStyle,
    colors: Colors,
    lexemes: Seq<Seq<char>>,
) -> bool {
    forall|k: int|
        0 <= k < lexemes.len() && start + k < cells.len() ==> #[trigger] cells[start + k] == Option::Some(
            (char_style, colors, lexemes[k]),
        )
}

impl TerminalCachedBuffer {
    pub closed spec fn spec_width(&self) -> usize {
        self.width
    }

    pub closed spec fn spec_height(&self) -> usize {
        self.height
    }

    /// The cells, line after line.
    pub closed spec fn spec_cells(&self) -> Seq<Option<CellView>> {
        self.buffer@.map_values(
            |c: Option<TerminalCachedBufferCell>|
                match c {
                    Option::Some(cell) => Option::Some(cell.spec_view()),
                    Option::None => Option::None,
                },
        )
    }

    /// An empty cache for a `width` by `height` area.
    pub fn new(width: usize, height: usize) -> (r: TerminalCachedBuffer)
        requires
            height * width <= usize::MAX,
        ensures
            r.spec_width() == width,
            r.spec_height() == height,
            r.spec_cells() == Seq::new((height * width) as nat, |i: int| Option::<CellView>::None),
    {
        let n = height * width;
        let mut buffer: Vec<Option<TerminalCachedBufferCell>> = Vec::new();
        let mut i: usize = 0;
        while i < n
            invariant
                i <= n,
                buffer@.len() == i,
                forall|j: int| 0 <= j < i ==> buffer@[j] is None,
            decreases n - i,
        {
            buffer.push(Option::None);
            i += 1;
        }
        let r = TerminalCachedBuffer { height, width, buffer };
        assert(r.spec_cells() =~= Seq::new((height * width) as nat, |i: int| Option::<CellView>::None));
        r
    }

    fn compare(&self, index: usize, char_style: CharStyle, colors: Colors, lexeme: &str) -> (r: bool)
        ensures
            r == (index < self.spec_cells().len() && self.spec_cells()[index as int] == Option::Some(
                (char_style, colors, lexeme@),
            )),
    {
        if index < self.buffer.len() {
            return match &self.buffer[index] {
                Option::Some(cell) => cell.compare(char_style, colors, lexeme),
                Option::None => false,
            };
        }
        return false;
    }

    /// Writes the grapheme clusters of `content` into the cells from
    /// `position` on, in `char_style` and `colors`, as far as the cache
    /// reaches; tells whether every one of those cells showed that already.
    pub fn compare_or_update(
        &mut self,
        position: &Position,
        char_style: CharStyle,
        colors: Colors,
        content: String,
    ) -> (result: bool)
        requires
            position.line * old(self).spec_width() + position.offset <= usize::MAX,
        ensures
            final(self).spec_width() == old(self).spec_width(),
            final(self).spec_height() == old(self).spec_height(),
            final(self).spec_cells() == cells_updated(
                old(self).spec_cells(),
                position.line * old(self).spec_width() + position.offset,
                char_style,
                colors,
                spec_graphemes(content@, true),
            ),
            result == cells_match(
                old(self).spec_cells(),
                position.line * old(self).spec_width() + position.offset,
                char_style,
                colors,
                spec_graphemes(content@, true),
            ),
    {
        let lexemes = graphemes(content.as_str(), true);
        self.compare_or_update_lexemes(position, char_style, colors, &lexemes)
    }

    /// Writes `lexemes`, one per cell, into the cells from `position` on, in
    /// `char_style` and `colors`, as far as the cache reaches; tells whether
    /// every one of those cells showed that already.
    pub fn compare_or_update_lexemes(
        &mut self,
        position: &Position,
        char_style: CharStyle,
        colors: Colors,
        lexemes: &Vec<String>,
    ) -> (result: bool)
        requires
            position.line * old(self).spec_width() + position.offset <= usize::MAX,
        ensures
            final(self).spec_width() == old(self).spec_width(),
            final(self).spec_height() == old(self).spec_height(),
            final(self).spec_cells() == cells_updated(
                old(self).spec_cells(),
                position.line * old(self).spec_width() + position.offset,
                char_style,
                colors,
                lexemes@.map_values(|g: String| g@),
            ),
            result == cells_match(
                old(self).spec_cells(),
                position.line * old(self).spec_width() + position.offset,
                char_style,
                colors,
                lexemes@.map_values(|g: String| g@),
            ),
    {
        proof {
            assert(position.line * self.width <= usize::MAX) by (nonlinear_arith)
                requires
                    position.line * self.width + position.offset <= usize::MAX,
                    position.offset >= 0;
        }
        let start = position.line * self.width + position.offset;
        let mut index = start;
        let mut result = true;
        let ghost gs = lexemes@.map_values(|g: String| g@);
        let ghost cells0 = self.spec_cells();
        let mut k: usize = 0;
        while k < lexemes.len()
            invariant
                gs == lexemes@.map_values(|g: String| g@),
                k <= lexemes.len(),
                index == start + k,
                self.spec_cells().len() == cells0.len(),
                self.width == old(self).spec_width(),
                self.height == old(self).spec_height(),
                cells0 == old(self).spec_cells(),
                forall|i: int|
                    0 <= i < cells0.len() ==> #[trigger] self.spec_cells()[i] == if start <= i < start + k {
                        Option::Some((char_style, colors, gs[i - start]))
                    } else {
                        cells0[i]
                    },
                result == cells_match(cells0, start as int, char_style, colors, gs.take(k as int)),
            ensures
                k == lexemes.len() || start + k >= cells0.len(),
                gs == lexemes@.map_values(|g: String| g@),
                k <= lexemes.len(),
                self.spec_cells().len() == cells0.len(),
                forall|i: int|
                    0 <= i < cells0.len() ==> #[trigger] self.spec_cells()[i] == if start <= i < start + k {
                        Option::Some((char_style, colors, gs[i - start]))
                    } else {
                        cells0[i]
                    },
                result == cells_match(cells0, start as int, char_style, colors, gs.take(k as int)),
            decreases lexemes.len() - k,
        {
            if index >= self.buffer.len() {
                break;
            }
            let lexeme = &lexemes[k];
            let ghost before = self.spec_cells();
            if !self.compare(index, char_style, colors, lexeme.as_str()) {
                self.buffer[index] = Option::Some(
                    TerminalCachedBufferCell { char_style, colors, lexeme: lexeme.clone() },
                );
                result = false;
                proof {
                    assert(self.spec_cells() == before.update(index as int, Option::Some((char_style, colors, gs[k as int]))));
                }
            }
            proof {
                assert(gs[k as int] == lexemes@[k as int]@);
                assert forall|j: int| 0 <= j < k + 1 && start + j < cells0.len() implies
                    (#[trigger] cells0[start + j] == Option::Some((char_style, colors, gs.take(k + 1)[j])))
                    == (if j < k { cells0[start + j] == Option::Some((char_style, colors, gs.take(k as int)[j])) }
                        else { cells0[start + j] == Option::Some((char_style, colors, gs[k as int])) }) by {}
            }
            index += 1;
            k += 1;
        }
        proof {
            assert(gs.len() == lexemes@.len());
            assert(self.spec_cells() =~= cells_updated(cells0, start as int, char_style, colors, gs));
            if k < lexemes.len() {
                assert(cells_match(cells0, start as int, char_style, colors, gs.take(k as int))
                    == cells_match(cells0, start as int, char_style, colors, gs)) by {
                    if cells_match(cells0, start as int, char_style, colors, gs.take(k as int)) {
                        assert forall|j: int| 0 <= j < gs.len() && start + j < cells0.len() implies
                            #[trigger] cells0[start + j] == Option::Some((char_style, colors, gs[j])) by {
                            assert(gs.take(k as int)[j] == gs[j]);
                        }
                    } else {
                        let j = choose|j: int| 0 <= j < gs.take(k as int).len() && start + j < cells0.len()
                            && #[trigger] cells0[start + j] != Option::Some((char_style, colors, gs.take(k as int)[j]));
                        assert(gs.take(k as int)[j] == gs[j]);
                    }
                }
            } else {
                assert(gs.take(k as int) =~= gs);
            }
        }
        result
    }
}

/// The comparison covers every cell written: it finds them all showing
/// their lexemes exactly when no written cell shows anything else. One cell
/// that shows something else, wherever among those written, makes it false.
pub proof fn lemma_match_means_every_cell(
    cells: Seq<Option<CellView>>,
    start: int,
    char_style: CharStyle,
    colors: Colors,
    lexemes: Seq<Seq<char>>,
    k: int,
)
    requires
        0 <= start,
    ensures
        0 <= k < lexemes.len() && start + k < cells.len()
            && cells[start + k] != Option::Some((char_style, colors, lexemes[k]))
            ==> !cells_match(cells, start, char_style, colors, lexemes),
        (forall|j: int| 0 <= j < lexemes.len() && start + j < cells.len()
            ==> #[trigger] cells[start + j] == Option::Some((char_style, colors, lexemes[j])))
            ==> cells_match(cells, start, char_style, colors, lexemes),
{
}

/// Writing puts each lexeme in its cell, from `start` on, as far as the
/// cells reach, and leaves every other cell as it was.
pub proof fn lemma_update_writes(
    cells: Seq<Option<CellView>>,
    start: int,
    char_style: CharStyle,
    colors: Colors,
    lexemes: Seq<Seq<char>>,
)
    ensures
        cells_updated(cells, start, char_style, colors, lexemes).len() == cells.len(),
        forall|k: int| 0 <= k < lexemes.len() && 0 <= start + k < cells.len()
            ==> #[trigger] cells_updated(cells, start, char_style, colors, lexemes)[start + k]
            == Option::Some((char_style, colors, lexemes[k])),
        forall|i: int| 0 <= i < cells.len() && !(start <= i < start + lexemes.len())
            ==> #[trigger] cells_updated(cells, start, char_style, colors, lexemes)[i] == cells[i],
{
}

/// After a text is written, writing a text that differs from it in any cell
/// the first one reached finds the screen stale there.
pub proof fn lemma_changed_cell_is_found(
    cells: Seq<Option<CellView>>,
    start: int,
    char_style: CharStyle,
    colors: Colors,
    first: Seq<Seq<char>>,
    second: Seq<Seq<char>>,
    k: int,
)
    requires
        0 <= start,
        0 <= k < first.len(),
        k < second.len(),
        start + k < cells.len(),
        first[k] != second[k],
    ensures
        !cells_match(cells_updated(cells, start, char_style, colors, first), start, char_style, colors, second),
{
    let once = cells_updated(cells, start, char_style, colors, first);
    assert(once[start + k] == Option::Some((char_style, colors, first[k])));
}

/// Writing the same text again changes nothing and finds every cell already
/// showing it.
pub proof fn lemma_update_then_matches(
    cells: Seq<Option<CellView>>,
    start: int,
    char_style: CharStyle,
    colors: Colors,
    lexemes: Seq<Seq<char>>,
)
    requires
        0 <= start,
    ensures
        cells_match(cells_updated(cells, start, char_style, colors, lexemes), start, char_style, colors, lexemes),
        cells_updated(cells_updated(cells, start, char_style, colors, lexemes), start, char_style, colors, lexemes)
            == cells_updated(cells, start, char_style, colors, lexemes),
{
    let once = cells_updated(cells, start, char_style, colors, lexemes);
    assert(cells_updated(once, start, char_style, colors, lexemes) =~= once);
}

} // verus!
