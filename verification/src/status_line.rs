use vstd::prelude::*;
use vstd::utf8::{encode_utf8, is_ascii_chars, is_ascii_chars_encode_utf8};
use vstd::string::{StrSliceExecFns, StringExecFns};
use crate::style::{CharStyle, Colors};

verus! {

/// One part of the status line: its text and how it is drawn.
#[derive(Debug)]
pub struct StatusLineData {
    pub content: String,
    pub color: Colors,
    pub style: CharStyle,
}

/// `s` followed by as many spaces as it takes to be `width` characters long.
pub open spec fn padded(s: Seq<char>, width: nat) -> Seq<char> {
    if s.len() >= width {
        s
    } else {
        s + Seq::new((width - s.len()) as nat, |_i: int| ' ')
    }
}

/// Bytes that UTF-8 takes for `s`.
pub open spec fn byte_len(s: Seq<char>) -> nat {
    encode_utf8(s).len()
}

/// Bytes taken by the first `n` parts.
pub open spec fn bytes_before(contents: Seq<Seq<char>>, n: nat) -> nat
    decreases n,
{
    if n == 0 || n > contents.len() {
        0
    } else {
        bytes_before(contents, (n - 1) as nat) + byte_len(contents[n - 1])
    }
}

/// What the status line prints for part `i`: the last part is padded with
/// spaces to the end of the line (counted from where it starts), the others
/// are printed as they are.
pub open spec fn status_part(contents: Seq<Seq<char>>, line_width: nat, i: int) -> Seq<char> {
    if i == contents.len() - 1 {
        let start = bytes_before(contents, i as nat);
        padded(contents[i], if line_width >= start { (line_width - start) as nat } else { 0 })
    } else {
        contents[i]
    }
}

/// Bytes that the whole status line takes, its last part padded.
pub open spec fn status_line_len(contents: Seq<Seq<char>>, line_width: nat) -> nat {
    if contents.len() == 0 {
        0
    } else {
        bytes_before(contents, (contents.len() - 1) as nat) + byte_len(
            status_part(contents, line_width, contents.len() - 1),
        )
    }
}

/// `s` padded with spaces on the right to `width` characters; see `padded`.
fn pad_to_width(s: &str, width: usize) -> (r: String)
    ensures
        r@ == padded(s@, width as nat),
{
    let mut out = String::from_str(s);
    let len = s.unicode_len();
    if len >= width {
        return out;
    }
    let mut n: usize = 0;
    while n < width - len
        invariant
            len as nat == s@.len(),
            len < width,
            n <= width - len,
            out@ == s@ + Seq::new(n as nat, |_i: int| ' '),
        decreases width - len - n,
    {
        out.append(" ");
        proof {
            reveal_strlit(" ");
            assert(s@ + Seq::new(n as nat, |_i: int| ' ') + " "@ =~= s@ + Seq::new((n + 1) as nat, |_i: int| ' '));
        }
        n += 1;
    }
    out
}

proof fn lemma_bytes_before_grows(contents: Seq<Seq<char>>, i: nat, j: nat)
    requires
        i <= j <= contents.len(),
    ensures
        bytes_before(contents, i) <= bytes_before(contents, j),
    decreases j - i,
{
    if i < j {
        lemma_bytes_before_grows(contents, i, (j - 1) as nat);
    }
}

/// Where each part of the status line starts (a byte offset, as the terminal
/// is told) and what it prints there; see `status_part`.
pub fn status_line_parts(datas: &Vec<StatusLineData>, line_width: usize) -> (r: Vec<(usize, String)>)
    requires
        status_line_len(datas@.map_values(|d: StatusLineData| d.content@), line_width as nat) <= usize::MAX,
    ensures
        ({
            let contents = datas@.map_values(|d: StatusLineData| d.content@);
            &&& r@.len() == datas@.len()
            &&& forall|i: int| 0 <= i < r@.len() ==> {
                &&& (#[trigger] r@[i]).0 == bytes_before(contents, i as nat)
                &&& r@[i].1@ == status_part(contents, line_width as nat, i)
            }
        }),
{
    let ghost contents = datas@.map_values(|d: StatusLineData| d.content@);
    let count = datas.len();
    let mut parts: Vec<(usize, String)> = Vec::new();
    let mut offset: usize = 0;
    let mut index: usize = 0;
    while index < count
        invariant
            count == datas@.len(),
            contents == datas@.map_values(|d: StatusLineData| d.content@),
            status_line_len(contents, line_width as nat) <= usize::MAX,
            index <= count,
            index < count ==> offset == bytes_before(contents, index as nat),
            parts@.len() == index,
            forall|i: int| 0 <= i < index ==> {
                &&& (#[trigger] parts@[i]).0 == bytes_before(contents, i as nat)
                &&& parts@[i].1@ == status_part(contents, line_width as nat, i)
            },
        decreases count - index,
    {
        let data = &datas[index];
        proof {
            assert(contents[index as int] == data.content@);
            if index + 1 < count {
                lemma_bytes_before_grows(contents, (index + 1) as nat, (count - 1) as nat);
            }
        }
        let content = if index == count - 1 {
            pad_to_width(data.content.as_str(), line_width.saturating_sub(offset))
        } else {
            data.content.clone()
        };
        proof {
            assert(content@ == status_part(contents, line_width as nat, index as int));
            assert(bytes_before(contents, (index + 1) as nat) == offset + byte_len(contents[index as int]));
            if index < count - 1 {
                assert(content@ == contents[index as int]);
            }
        }
        let len = content.as_str().len();
        parts.push((offset, content));
        offset = offset + len;
        index += 1;
    }
    parts
}

/// UTF-8 encodes a concatenation part by part.
proof fn lemma_encode_concat(a: Seq<char>, b: Seq<char>)
    ensures
        encode_utf8(a + b) == encode_utf8(a) + encode_utf8(b),
    decreases a.len(),
{
    if a.len() == 0 {
        assert(a + b =~= b);
        assert(encode_utf8(a) =~= Seq::<u8>::empty());
        assert(encode_utf8(a) + encode_utf8(b) =~= encode_utf8(b));
    } else {
        lemma_encode_concat(a.drop_first(), b);
        assert((a + b).drop_first() =~= a.drop_first() + b);
        assert((a + b)[0] == a[0]);
        assert(encode_utf8(a + b) =~= encode_utf8(a) + encode_utf8(b));
    }
}

/// Padding with spaces adds a byte for each space.
proof fn lemma_padded_bytes(s: Seq<char>, width: nat)
    ensures
        byte_len(padded(s, width)) == byte_len(s) + (if s.len() >= width { 0 } else { width - s.len() }),
{
    if s.len() < width {
        let spaces = Seq::new((width - s.len()) as nat, |_i: int| ' ');
        lemma_encode_concat(s, spaces);
        assert(is_ascii_chars(spaces));
        is_ascii_chars_encode_utf8(spaces);
    }
}

/// Whether the status line's byte offsets fit in a `usize`, so that
/// `status_line_parts` can lay it out.
pub fn status_line_fits(datas: &Vec<StatusLineData>, line_width: usize) -> (r: bool)
    ensures
        r == (status_line_len(datas@.map_values(|d: StatusLineData| d.content@), line_width as nat) <= usize::MAX),
{
    let ghost contents = datas@.map_values(|d: StatusLineData| d.content@);
    let count = datas.len();
    if count == 0 {
        return true;
    }
    let mut offset: usize = 0;
    let mut index: usize = 0;
    while index < count - 1
        invariant
            count == datas@.len(),
            count >= 1,
            contents == datas@.map_values(|d: StatusLineData| d.content@),
            index <= count - 1,
            offset == bytes_before(contents, index as nat),
        decreases count - 1 - index,
    {
        let len = datas[index].content.as_str().as_bytes().len();
        proof {
            assert(contents[index as int] == datas@[index as int].content@);
            assert(len == byte_len(contents[index as int]));
            assert(bytes_before(contents, (index + 1) as nat) == offset + byte_len(contents[index as int]));
            lemma_bytes_before_grows(contents, (index + 1) as nat, (count - 1) as nat);
            lemma_padded_bytes(contents[count - 1], 0);
        }
        match offset.checked_add(len) {
            Option::Some(next) => {
                offset = next;
            },
            Option::None => {
                return false;
            },
        }
        index += 1;
    }
    let last = datas[count - 1].content.as_str();
    let last_len = last.as_bytes().len();
    let chars = last.unicode_len();
    let width = line_width.saturating_sub(offset);
    let pad = if chars >= width { 0 } else { width - chars };
    proof {
        assert(contents[count - 1] == last@);
        assert(last_len == byte_len(last@));
        assert(status_part(contents, line_width as nat, count - 1) == padded(last@, width as nat));
        lemma_padded_bytes(last@, width as nat);
    }
    match offset.checked_add(last_len) {
        Option::Some(t) => t.checked_add(pad).is_some(),
        Option::None => false,
    }
}

/// The status line's parts, as `status_line_parts` lays them out, when its
/// byte offsets fit in a `usize`; none otherwise.
pub fn try_status_line_parts(datas: &Vec<StatusLineData>, line_width: usize) -> (r: Option<Vec<(usize, String)>>)
    ensures
        ({
            let contents = datas@.map_values(|d: StatusLineData| d.content@);
            &&& r is Some == (status_line_len(contents, line_width as nat) <= usize::MAX)
            &&& r matches Option::Some(parts) ==> {
                &&& parts@.len() == datas@.len()
                &&& forall|i: int| 0 <= i < parts@.len() ==> {
                    &&& (#[trigger] parts@[i]).0 == bytes_before(contents, i as nat)
                    &&& parts@[i].1@ == status_part(contents, line_width as nat, i)
                }
            }
        }),
{
    if status_line_fits(datas, line_width) {
        Option::Some(status_line_parts(datas, line_width))
    } else {
        Option::None
    }
}

} // verus!
