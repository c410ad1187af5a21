use vstd::prelude::*;
use unicode_segmentation::UnicodeSegmentation;

verus! {

/// The grapheme clusters of `s` (extended ones when `is_extended` holds), in order.
pub uninterp spec fn spec_graphemes(s: Seq<char>, is_extended: bool) -> Seq<Seq<char>>;

/// `UnicodeSegmentation::graphemes`: the grapheme clusters of `s` in order,
/// each handed back as an owned string. Nothing is claimed of how the clusters
/// are cut; the result is only tied, by name, to `s` and `is_extended`.
#[verifier::external_body]
pub fn graphemes(s: &str, is_extended: bool) -> (r: Vec<String>)
    ensures
        r@.map_values(|g: String| g@) == spec_graphemes(s@, is_extended),
{
    s.graphemes(is_extended).map(|g| g.to_string()).collect()
}

/// Index of the first `'\n'` in `s` at or after `i`, or `s.len()` when there is none.
pub open spec fn line_end(s: Seq<char>, i: nat) -> nat
    decreases s.len() - i,
{
    if i >= s.len() || s[i as int] == '\n' {
        i
    } else {
        line_end(s, i + 1)
    }
}

/// `l` without the `'\r'` that ends it, if it ends with one.
pub open spec fn strip_cr(l: Seq<char>) -> Seq<char> {
    if l.len() > 0 && l.last() == '\r' {
        l.drop_last()
    } else {
        l
    }
}

/// The lines of `s`: it is cut at each `"\n"` or `"\r\n"`, which is not kept;
/// a last line ending is optional, so no empty line follows it.
pub open spec fn spec_lines(s: Seq<char>) -> Seq<Seq<char>>
    decreases s.len(),
{
    if s.len() == 0 {
        seq![]
    } else {
        let e = line_end(s, 0);
        if e >= s.len() {
            seq![s]
        } else {
            seq![strip_cr(s.take(e as int))] + spec_lines(s.skip(e + 1 as int))
        }
    }
}

/// `str::lines`, each line handed back as an owned string. std documents it
/// as `spec_lines` states: lines end at `"\n"` or `"\r\n"`, which are not
/// kept, and a final line ending is optional.
#[verifier::external_body]
pub fn lines(s: &str) -> (r: Vec<String>)
    ensures
        r@.map_values(|l: String| l@) == spec_lines(s@),
{
    s.lines().map(|l| l.to_string()).collect()
}

} // verus!
