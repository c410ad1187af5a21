use vstd::prelude::*;
use crate::text::{graphemes, lines, spec_graphemes, spec_lines};

verus! {

/// Screen lines that a buffer line of `count` grapheme clusters takes when
/// wrapped at `content_width` columns: the count (at least one) divided by
/// the width, rounded up.
pub open spec fn wrapped_height(count: nat, content_width: nat) -> nat {
    let g1 = if count == 0 { 1 } else { count };
    let h = g1 / content_width + if g1 % content_width != 0 { 1nat } else { 0nat };
    if h == 0 { 1 } else { h }
}

/// Screen lines that buffer lines of the given grapheme cluster counts take
/// when wrapped at `content_width` columns.
pub open spec fn wrapped_total(counts: Seq<nat>, content_width: nat) -> nat
    decreases counts.len(),
{
    if counts.len() == 0 {
        0
    } else {
        wrapped_total(counts.drop_last(), content_width) + wrapped_height(counts.last(), content_width)
    }
}

/// The at most `count` lines from index `offset` on.
pub open spec fn window(lines: Seq<Seq<char>>, offset: nat, count: nat) -> Seq<Seq<char>> {
    let start = if offset < lines.len() { offset } else { lines.len() };
    let end = if offset + count < lines.len() { offset + count } else { lines.len() };
    lines.subrange(start as int, end as int)
}

/// The grapheme cluster counts of the lines of `data` shown in a view of
/// `view_height` lines that starts at line `line_offset`.
pub open spec fn shown_counts(data: Seq<char>, line_offset: nat, view_height: nat) -> Seq<nat> {
    window(spec_lines(data), line_offset, view_height).map_values(|l: Seq<char>| spec_graphemes(l, true).len())
}

/// The line offset after scrolling the cursor line into view, given the
/// grapheme cluster counts of the lines shown: the cursor line when the view
/// starts below it; else one line further down when the lines shown, wrapped,
/// reach `view_height` lines or more below the cursor line; else unchanged.
pub open spec fn offset_for_counts(
    line_offset: nat,
    view_height: nat,
    view_width: nat,
    cursor_line: nat,
    counts: Seq<nat>,
    line_number_width: nat,
) -> nat {
    if line_offset > cursor_line {
        cursor_line
    } else {
        let content_width = (view_width - (line_number_width + 1)) as nat;
        if line_offset + view_height + view_height <= cursor_line + wrapped_total(counts, content_width) {
            line_offset + 1
        } else {
            line_offset
        }
    }
}

/// Scrolling depends on where the cursor is relative to the view only:
/// moving the view and the cursor down by the same `d` lines, over the same
/// lines shown, moves the resulting offset down by `d`.
pub proof fn lemma_scroll_shift_invariant(
    line_offset: nat,
    view_height: nat,
    view_width: nat,
    cursor_line: nat,
    counts: Seq<nat>,
    line_number_width: nat,
    d: nat,
)
    ensures
        offset_for_counts(line_offset + d, view_height, view_width, cursor_line + d, counts, line_number_width)
            == offset_for_counts(line_offset, view_height, view_width, cursor_line, counts, line_number_width) + d,
{
}

/// A cursor above the view brings the view up to it; a cursor in the upper
/// half of a view whose lines, wrapped, fit in it leaves the view where it
/// is; otherwise the view moves down by at most one line.
pub proof fn lemma_scroll_keeps_cursor_in_view(
    line_offset: nat,
    view_height: nat,
    view_width: nat,
    cursor_line: nat,
    counts: Seq<nat>,
    line_number_width: nat,
)
    ensures
        cursor_line < line_offset ==> offset_for_counts(line_offset, view_height, view_width, cursor_line, counts,
            line_number_width) == cursor_line,
        line_offset <= cursor_line < line_offset + view_height / 2
            && wrapped_total(counts, (view_width - (line_number_width + 1)) as nat) <= view_height
            ==> offset_for_counts(line_offset, view_height, view_width, cursor_line, counts, line_number_width)
            == line_offset,
        line_offset <= cursor_line ==> {
            let r = offset_for_counts(line_offset, view_height, view_width, cursor_line, counts, line_number_width);
            r == line_offset || r == line_offset + 1
        },
        line_offset <= cursor_line && cursor_line + 1 < line_offset + view_height
            && wrapped_total(counts, (view_width - (line_number_width + 1)) as nat) < view_height
            ==> offset_for_counts(line_offset, view_height, view_width, cursor_line, counts, line_number_width)
            == line_offset,
        line_offset + view_height <= cursor_line
            && view_height <= wrapped_total(counts, (view_width - (line_number_width + 1)) as nat)
            ==> offset_for_counts(line_offset, view_height, view_width, cursor_line, counts, line_number_width)
            == line_offset + 1,
{
}

/// The counts a scroll looks at: one per buffer line shown, from line
/// `line_offset` on, as many as the view has lines or the buffer has left,
/// each the number of grapheme clusters of that line.
pub proof fn lemma_shown_counts(data: Seq<char>, line_offset: nat, view_height: nat)
    ensures
        ({
            let n = spec_lines(data).len();
            let c = shown_counts(data, line_offset, view_height);
            &&& c.len() == if line_offset >= n { 0 } else if line_offset + view_height <= n { view_height } else {
                (n - line_offset) as nat
            }
            &&& forall|i: int| 0 <= i < c.len() ==> #[trigger] c[i] == spec_graphemes(
                spec_lines(data)[line_offset + i],
                true,
            ).len()
        }),
{
}

/// The line offset after `scroll_into_monitor` on the buffer text `data`.
pub open spec fn offset_into_monitor(
    line_offset: nat,
    view_height: nat,
    view_width: nat,
    cursor_line: nat,
    data: Seq<char>,
    line_number_width: nat,
) -> nat {
    offset_for_counts(
        line_offset,
        view_height,
        view_width,
        cursor_line,
        shown_counts(data, line_offset, view_height),
        line_number_width,
    )
}

/// The line offset after scrolling up `count` lines from `offset`.
pub open spec fn scrolled_up(offset: nat, count: nat) -> nat {
    if offset >= count { (offset - count) as nat } else { 0 }
}

/// The line offset after scrolling down `count` lines from `offset`.
pub open spec fn scrolled_down(offset: nat, count: nat) -> nat {
    if offset + count <= usize::MAX { offset + count } else { usize::MAX as nat }
}

/// The line offset that puts `cursor_line` in the middle of `view_height` lines.
pub open spec fn centered_offset(view_height: nat, cursor_line: nat) -> nat {
    scrolled_up(cursor_line, view_height / 2)
}

/// Scrolling down undoes scrolling up by as many lines, unless the top of the
/// buffer stopped the scroll up.
pub proof fn lemma_scroll_down_undoes_up(offset: nat, count: nat)
    requires
        offset >= count,
        offset <= usize::MAX,
    ensures
        scrolled_down(scrolled_up(offset, count), count) == offset,
{
}

/// Scrolling up undoes scrolling down by as many lines, unless `usize::MAX`
/// stopped the scroll down.
pub proof fn lemma_scroll_up_undoes_down(offset: nat, count: nat)
    requires
        offset + count <= usize::MAX,
    ensures
        scrolled_up(scrolled_down(offset, count), count) == offset,
{
}

/// Centering leaves the cursor line on screen, in the upper half of the view
/// or its middle line.
pub proof fn lemma_centered_shows_cursor(view_height: nat, cursor_line: nat)
    requires
        view_height > 0,
    ensures
        centered_offset(view_height, cursor_line) <= cursor_line,
        cursor_line < centered_offset(view_height, cursor_line) + view_height,
        cursor_line - centered_offset(view_height, cursor_line) <= view_height / 2,
{
}

/// Keeps track of how far the buffer shown in one region is scrolled: the
/// index of the first buffer line on screen.
#[derive(Clone, Copy)]
pub struct RegionController {
    region: u16,
    line_offset: usize,
}

impl RegionController {
    /// The id of the region the buffer is shown in.
    pub closed spec fn spec_region(&self) -> u16 {
        self.region
    }

    /// The index of the first buffer line shown.
    pub closed spec fn spec_line_offset(&self) -> usize {
        self.line_offset
    }

    /// The controller for `region` scrolled to `line_offset`.
    pub closed spec fn at(region: u16, line_offset: usize) -> RegionController {
        RegionController { region, line_offset }
    }

    /// A controller is fixed by its region and its offset.
    pub proof fn lemma_at(c: RegionController)
        ensures
            c == RegionController::at(c.spec_region(), c.spec_line_offset()),
    {
    }

    /// The controller made by `at` reads back the region and offset it was
    /// made with.
    pub proof fn lemma_at_reads_back(region: u16, line_offset: usize)
        ensures
            RegionController::at(region, line_offset).spec_region() == region,
            RegionController::at(region, line_offset).spec_line_offset() == line_offset,
    {
    }

    pub fn new(region: u16, init_line_index: usize) -> (r: RegionController)
        ensures
            r == RegionController::at(region, init_line_index),
            r.spec_region() == region,
            r.spec_line_offset() == init_line_index,
    {
        RegionController { region, line_offset: init_line_index }
    }

    pub fn set_region(&mut self, region: u16)
        ensures
            *final(self) == RegionController::at(region, old(self).spec_line_offset()),
            final(self).spec_region() == region,
            final(self).spec_line_offset() == old(self).spec_line_offset(),
    {
        self.region = region;
    }

    pub fn region(&self) -> (r: u16)
        ensures
            r == self.spec_region(),
    {
        self.region
    }

    /// Scrolls so that the cursor line comes into a view of `view_height`
    /// lines and `view_width` columns (the region's area inside its border),
    /// of which `line_number_width + 1` columns are taken by line numbers;
    /// `counts` are the grapheme cluster counts of the lines shown.
    pub fn scroll_with_counts(
        &mut self,
        view_height: usize,
        view_width: usize,
        cursor_line: usize,
        counts: &Vec<usize>,
        line_number_width: usize,
    )
        requires
            old(self).spec_line_offset() <= cursor_line ==> {
                &&& line_number_width + 1 <= view_width
                &&& old(self).spec_line_offset() < usize::MAX
                &&& (view_width == line_number_width + 1 ==> counts@.len() == 0)
            },
        ensures
            final(self).spec_region() == old(self).spec_region(),
            final(self).spec_line_offset() == offset_for_counts(
                old(self).spec_line_offset() as nat,
                view_height as nat,
                view_width as nat,
                cursor_line as nat,
                counts@.map_values(|c: usize| c as nat),
                line_number_width as nat,
            ),
    {
        if self.line_offset > cursor_line {
            self.line_offset = cursor_line;
        } else {
            let buffer_content_width = view_width - (line_number_width + 1);
            let ghost all = counts@.map_values(|c: usize| c as nat);
            let ghost cw = buffer_content_width as nat;
            let mut wappered_line_count: u128 = 0;
            let mut i: usize = 0;
            while i < counts.len()
                invariant
                    i <= counts@.len(),
                    all == counts@.map_values(|c: usize| c as nat),
                    cw == buffer_content_width as nat,
                    buffer_content_width == 0 ==> counts@.len() == 0,
                    wappered_line_count == wrapped_total(all.take(i as int), cw),
                    wappered_line_count <= i * (usize::MAX as int),
                decreases counts@.len() - i,
            {
                let grapheme_count = counts[i];
                let g1: u128 = if grapheme_count == 0 { 1 } else { grapheme_count as u128 };
                let w = buffer_content_width as u128;
                let h0: u128 = g1 / w + if g1 % w != 0 { 1 } else { 0 };
                let h: u128 = if h0 == 0 { 1 } else { h0 };
                proof {
                    assert(h <= usize::MAX) by {
                        assert(g1 <= usize::MAX);
                        if w == 1 {
                            assert(g1 % w == 0) by (nonlinear_arith) requires w == 1;
                            assert(g1 / w == g1) by (nonlinear_arith) requires w == 1;
                        } else {
                            assert(g1 / w <= g1 / 2) by (nonlinear_arith) requires w >= 2;
                        }
                    }
                    assert(h == wrapped_height(all[i as int], cw));
                    let sub = all.take(i + 1);
                    assert(sub.drop_last() == all.take(i as int));
                    assert(sub.last() == all[i as int]);
                    assert((i + 1) * (usize::MAX as int) == i * (usize::MAX as int) + usize::MAX)
                        by (nonlinear_arith);
                }
                wappered_line_count = wappered_line_count + h;
                i = i + 1;
            }
            proof {
                assert(all.take(counts@.len() as int) == all);
                assert(wappered_line_count <= (usize::MAX as int) * (usize::MAX as int)) by (nonlinear_arith)
                    requires
                        wappered_line_count <= counts@.len() * (usize::MAX as int),
                        counts@.len() <= usize::MAX;
                assert((usize::MAX as int) * (usize::MAX as int) <= 0xffff_ffff_ffff_ffff_u128 * 0xffff_ffff_ffff_ffff_u128)
                    by (nonlinear_arith) requires usize::MAX <= 0xffff_ffff_ffff_ffff_u128;
            }
            if (self.line_offset as u128) + (view_height as u128) + (view_height as u128)
                <= (cursor_line as u128) + wappered_line_count {
                self.line_offset += 1;
            }
        }
    }

    /// Scrolls so that the cursor line of the buffer text `data` comes into
    /// view; see `scroll_with_counts`.
    pub fn scroll_into_monitor(
        &mut self,
        view_height: usize,
        view_width: usize,
        cursor_line: usize,
        data: &str,
        line_number_width: usize,
    )
        requires
            old(self).spec_line_offset() <= cursor_line ==> {
                &&& line_number_width + 1 <= view_width
                &&& old(self).spec_line_offset() < usize::MAX
                &&& (view_width == line_number_width + 1 ==> window(
                    spec_lines(data@),
                    old(self).spec_line_offset() as nat,
                    view_height as nat,
                ).len() == 0)
            },
        ensures
            final(self).spec_region() == old(self).spec_region(),
            final(self).spec_line_offset() == offset_into_monitor(
                old(self).spec_line_offset() as nat,
                view_height as nat,
                view_width as nat,
                cursor_line as nat,
                data@,
                line_number_width as nat,
            ),
    {
        let counts = if self.line_offset > cursor_line {
            Vec::new()
        } else {
            shown_grapheme_counts(data, self.line_offset, view_height)
        };
        proof {
            if self.line_offset <= cursor_line {
                assert(counts@.map_values(|c: usize| c as nat) == shown_counts(data@, self.line_offset as nat, view_height as nat));
            }
        }
        self.scroll_with_counts(view_height, view_width, cursor_line, &counts, line_number_width);
    }

    /// Scrolls so that the cursor line is in the middle of a view of
    /// `view_height` lines, or as near as the top of the buffer allows.
    pub fn scroll_to_center(&mut self, view_height: usize, cursor_line: usize)
        ensures
            final(self).spec_region() == old(self).spec_region(),
            final(self).spec_line_offset() == centered_offset(view_height as nat, cursor_line as nat),
    {
        self.line_offset = cursor_line.saturating_sub(view_height / 2);
    }

    /// Scrolls up `line_count` lines, no further than the top.
    pub fn scroll_up(&mut self, line_count: usize)
        ensures
            final(self).spec_region() == old(self).spec_region(),
            final(self).spec_line_offset() == scrolled_up(old(self).spec_line_offset() as nat, line_count as nat),
    {
        self.line_offset = self.line_offset.saturating_sub(line_count);
    }

    /// Scrolls down `line_count` lines, saturating at `usize::MAX`.
    pub fn scroll_down(&mut self, line_count: usize)
        ensures
            final(self).spec_region() == old(self).spec_region(),
            final(self).spec_line_offset() == scrolled_down(old(self).spec_line_offset() as nat, line_count as nat),
    {
        self.line_offset = self.line_offset.saturating_add(line_count);
    }

    pub fn line_offset(&self) -> (r: usize)
        ensures
            r == self.spec_line_offset(),
    {
        self.line_offset
    }
}

/// The grapheme cluster counts of the lines of `data` shown in a view of
/// `view_height` lines that starts at line `line_offset`.
fn shown_grapheme_counts(data: &str, line_offset: usize, view_height: usize) -> (r: Vec<usize>)
    ensures
        r@.map_values(|c: usize| c as nat) == shown_counts(data@, line_offset as nat, view_height as nat),
        r@.len() <= view_height,
{
    let all_lines = lines(data);
    let ghost all = all_lines@.map_values(|l: String| l@);
    let start = if line_offset < all_lines.len() { line_offset } else { all_lines.len() };
    let end = if view_height < all_lines.len() - start { start + view_height } else { all_lines.len() };
    let ghost shown = window(all, line_offset as nat, view_height as nat);
    assert(shown == all.subrange(start as int, end as int));
    let mut counts: Vec<usize> = Vec::new();
    let mut i = start;
    while i < end
        invariant
            start <= i <= end <= all_lines.len(),
            end - start <= view_height,
            all == all_lines@.map_values(|l: String| l@),
            shown == all.subrange(start as int, end as int),
            counts@.map_values(|c: usize| c as nat)
                == shown.take(i - start).map_values(|l: Seq<char>| spec_graphemes(l, true).len()),
            counts@.len() == i - start,
        decreases end - i,
    {
        let line_graphemes = graphemes(all_lines[i].as_str(), true);
        proof {
            assert(line_graphemes@.map_values(|g: String| g@).len() == line_graphemes@.len());
            assert(all[i as int] == all_lines@[i as int]@);
            assert(shown[i - start] == all[i as int]);
            assert(line_graphemes@.len() == spec_graphemes(shown[i - start], true).len());
        }
        let ghost before = counts@;
        counts.push(line_graphemes.len());
        proof {
            let f = |l: Seq<char>| spec_graphemes(l, true).len();
            let t1 = shown.take(i + 1 - start);
            assert(t1 == shown.take(i - start).push(shown[i - start]));
            assert(t1.map_values(f) =~= shown.take(i - start).map_values(f).push(f(shown[i - start])));
            assert(counts@ == before.push(line_graphemes.len()));
            assert(counts@.map_values(|c: usize| c as nat) =~= before.map_values(|c: usize| c as nat).push(line_graphemes.len() as nat));
            assert(counts@.map_values(|c: usize| c as nat)
                =~= shown.take(i + 1 - start).map_values(|l: Seq<char>| spec_graphemes(l, true).len()));
        }
        i = i + 1;
    }
    proof {
        assert(shown.take(end - start) == shown);
    }
    counts
}

} // verus!
