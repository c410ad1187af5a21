use vstd::prelude::*;
use vstd::utf8::{encode_scalar, encode_utf8};

verus! {

/// Whether the code point `c` is a wide character, one that takes two
/// terminal columns: the characters of East Asian width Wide or Fullwidth
/// (Unicode 15), among them the CJK, Hangul and fullwidth blocks and the
/// emoji shown in emoji presentation.
pub open spec fn is_wide(c: u32) -> bool {
    ||| 0x1100 <= c <= 0x115f
    ||| 0x231a <= c <= 0x231b
    ||| 0x2329 <= c <= 0x232a
    ||| 0x23e9 <= c <= 0x23ec
    ||| c == 0x23f0
    ||| c == 0x23f3
    ||| 0x25fd <= c <= 0x25fe
    ||| 0x2614 <= c <= 0x2615
    ||| 0x2648 <= c <= 0x2653
    ||| c == 0x267f
    ||| c == 0x2693
    ||| c == 0x26a1
    ||| 0x26aa <= c <= 0x26ab
    ||| 0x26bd <= c <= 0x26be
    ||| 0x26c4 <= c <= 0x26c5
    ||| c == 0x26ce
    ||| c == 0x26d4
    ||| c == 0x26ea
    ||| 0x26f2 <= c <= 0x26f3
    ||| c == 0x26f5
    ||| c == 0x26fa
    ||| c == 0x26fd
    ||| c == 0x2705
    ||| 0x270a <= c <= 0x270b
    ||| c == 0x2728
    ||| c == 0x274c
    ||| c == 0x274e
    ||| 0x2753 <= c <= 0x2755
    ||| c == 0x2757
    ||| 0x2795 <= c <= 0x2797
    ||| c == 0x27b0
    ||| c == 0x27bf
    ||| 0x2b1b <= c <= 0x2b1c
    ||| c == 0x2b50
    ||| c == 0x2b55
    ||| 0x2e80 <= c <= 0x2e99
    ||| 0x2e9b <= c <= 0x2ef3
    ||| 0x2f00 <= c <= 0x2fd5
    ||| 0x2ff0 <= c <= 0x2ffb
    ||| 0x3000 <= c <= 0x303e
    ||| 0x3041 <= c <= 0x3096
    ||| 0x3099 <= c <= 0x30ff
    ||| 0x3105 <= c <= 0x312f
    ||| 0x3131 <= c <= 0x318e
    ||| 0x3190 <= c <= 0x31e3
    ||| 0x31f0 <= c <= 0x321e
    ||| 0x3220 <= c <= 0x3247
    ||| 0x3250 <= c <= 0x4dbf
    ||| 0x4e00 <= c <= 0xa48c
    ||| 0xa490 <= c <= 0xa4c6
    ||| 0xa960 <= c <= 0xa97c
    ||| 0xac00 <= c <= 0xd7a3
    ||| 0xf900 <= c <= 0xfaff
    ||| 0xfe10 <= c <= 0xfe19
    ||| 0xfe30 <= c <= 0xfe52
    ||| 0xfe54 <= c <= 0xfe66
    ||| 0xfe68 <= c <= 0xfe6b
    ||| 0xff01 <= c <= 0xff60
    ||| 0xffe0 <= c <= 0xffe6
    ||| 0x16fe0 <= c <= 0x16fe4
    ||| 0x16ff0 <= c <= 0x16ff1
    ||| 0x17000 <= c <= 0x187f7
    ||| 0x18800 <= c <= 0x18cd5
    ||| 0x18d00 <= c <= 0x18d08
    ||| 0x1aff0 <= c <= 0x1aff3
    ||| 0x1aff5 <= c <= 0x1affb
    ||| 0x1affd <= c <= 0x1affe
    ||| 0x1b000 <= c <= 0x1b122
    ||| c == 0x1b132
    ||| 0x1b150 <= c <= 0x1b152
    ||| c == 0x1b155
    ||| 0x1b164 <= c <= 0x1b167
    ||| 0x1b170 <= c <= 0x1b2fb
    ||| c == 0x1f004
    ||| c == 0x1f0cf
    ||| c == 0x1f18e
    ||| 0x1f191 <= c <= 0x1f19a
    ||| 0x1f200 <= c <= 0x1f202
    ||| 0x1f210 <= c <= 0x1f23b
    ||| 0x1f240 <= c <= 0x1f248
    ||| 0x1f250 <= c <= 0x1f251
    ||| 0x1f260 <= c <= 0x1f265
    ||| 0x1f300 <= c <= 0x1f320
    ||| 0x1f32d <= c <= 0x1f335
    ||| 0x1f337 <= c <= 0x1f37c
    ||| 0x1f37e <= c <= 0x1f393
    ||| 0x1f3a0 <= c <= 0x1f3ca
    ||| 0x1f3cf <= c <= 0x1f3d3
    ||| 0x1f3e0 <= c <= 0x1f3f0
    ||| c == 0x1f3f4
    ||| 0x1f3f8 <= c <= 0x1f43e
    ||| c == 0x1f440
    ||| 0x1f442 <= c <= 0x1f4fc
    ||| 0x1f4ff <= c <= 0x1f53d
    ||| 0x1f54b <= c <= 0x1f54e
    ||| 0x1f550 <= c <= 0x1f567
    ||| c == 0x1f57a
    ||| 0x1f595 <= c <= 0x1f596
    ||| c == 0x1f5a4
    ||| 0x1f5fb <= c <= 0x1f64f
    ||| 0x1f680 <= c <= 0x1f6c5
    ||| c == 0x1f6cc
    ||| 0x1f6d0 <= c <= 0x1f6d2
    ||| 0x1f6d5 <= c <= 0x1f6d7
    ||| 0x1f6dc <= c <= 0x1f6df
    ||| 0x1f6eb <= c <= 0x1f6ec
    ||| 0x1f6f4 <= c <= 0x1f6fc
    ||| 0x1f7e0 <= c <= 0x1f7eb
    ||| c == 0x1f7f0
    ||| 0x1f90c <= c <= 0x1f93a
    ||| 0x1f93c <= c <= 0x1f945
    ||| 0x1f947 <= c <= 0x1f9ff
    ||| 0x1fa70 <= c <= 0x1fa7c
    ||| 0x1fa80 <= c <= 0x1fa88
    ||| 0x1fa90 <= c <= 0x1fabd
    ||| 0x1fabf <= c <= 0x1fac5
    ||| 0x1face <= c <= 0x1fadb
    ||| 0x1fae0 <= c <= 0x1fae8
    ||| 0x1faf0 <= c <= 0x1faf8
    ||| 0x20000 <= c <= 0x2fffd
    ||| 0x30000 <= c <= 0x3fffd
}

/// Terminal columns taken by one character: two for a wide one, else one.
pub open spec fn char_width(c: char) -> nat {
    if is_wide(c as u32) {
        2
    } else {
        1
    }
}

/// Terminal columns taken by a sequence of characters.
pub open spec fn chars_width(s: Seq<char>) -> nat
    decreases s.len(),
{
    if s.len() == 0 {
        0
    } else {
        chars_width(s.drop_last()) + char_width(s.last())
    }
}

/// The width of two texts side by side is the sum of their widths.
pub proof fn lemma_width_concat(a: Seq<char>, b: Seq<char>)
    ensures
        chars_width(a + b) == chars_width(a) + chars_width(b),
    decreases b.len(),
{
    if b.len() == 0 {
        assert(a + b =~= a);
    } else {
        lemma_width_concat(a, b.drop_last());
        assert((a + b).drop_last() =~= a + b.drop_last());
        assert((a + b).last() == b.last());
    }
}

/// A text takes at least one and at most two columns per character, and the
/// empty text none.
pub proof fn lemma_width_bounds(s: Seq<char>)
    ensures
        s.len() <= chars_width(s) <= 2 * s.len(),
        s.len() == 0 ==> chars_width(s) == 0,
    decreases s.len(),
{
    if s.len() > 0 {
        lemma_width_bounds(s.drop_last());
    }
}

/// A text takes no more columns than UTF-8 takes bytes for it: a wide
/// character lies at U+1100 or beyond and takes three bytes or four.
pub proof fn lemma_width_within_bytes(s: Seq<char>)
    ensures
        chars_width(s) <= encode_utf8(s).len(),
    decreases s.len(),
{
    if s.len() > 0 {
        let c = s[0];
        lemma_width_within_bytes(s.drop_first());
        lemma_width_concat(seq![c], s.drop_first());
        assert(seq![c] + s.drop_first() =~= s);
        assert(seq![c].drop_last() =~= Seq::<char>::empty());
        assert(chars_width(Seq::<char>::empty()) == 0);
        assert(seq![c].last() == c);
        assert(chars_width(seq![c]) == char_width(c));
        let v = c as u32;
        assert(is_wide(v) ==> v >= 0x1100);
        assert(encode_scalar(v).len() >= char_width(c));
    }
}

/// The columns one character takes.
proof fn lemma_single_width(c: char)
    ensures
        chars_width(seq![c]) == char_width(c),
{
    assert(seq![c].drop_last() =~= Seq::<char>::empty());
    assert(chars_width(Seq::<char>::empty()) == 0);
    assert(seq![c].last() == c);
}

/// The scripts and symbols drawn two columns wide take two columns: Hangul
/// Jamo and syllables, the CJK radicals, symbols and punctuation, Hiragana,
/// Katakana, Bopomofo, the CJK ideographs and their extensions, Yi, the
/// vertical, small and fullwidth forms, and the emoji of the emoticon,
/// transport and pictograph blocks.
pub proof fn lemma_wide_blocks(c: char)
    requires
        ({
            let v = c as u32;
            ||| 0x1100 <= v <= 0x115f
            ||| 0x2e80 <= v <= 0x2e99
            ||| 0x2e9b <= v <= 0x2ef3
            ||| 0x2f00 <= v <= 0x2fd5
            ||| 0x3000 <= v <= 0x303e
            ||| 0x3041 <= v <= 0x3096
            ||| 0x3099 <= v <= 0x30ff
            ||| 0x3105 <= v <= 0x312f
            ||| 0x3131 <= v <= 0x318e
            ||| 0x3190 <= v <= 0x31e3
            ||| 0x31f0 <= v <= 0x321e
            ||| 0x3220 <= v <= 0x3247
            ||| 0x3250 <= v <= 0x4dbf
            ||| 0x4e00 <= v <= 0x9fff
            ||| 0xa000 <= v <= 0xa48c
            ||| 0xa490 <= v <= 0xa4c6
            ||| 0xa960 <= v <= 0xa97c
            ||| 0xac00 <= v <= 0xd7a3
            ||| 0xf900 <= v <= 0xfaff
            ||| 0xfe10 <= v <= 0xfe19
            ||| 0xfe30 <= v <= 0xfe52
            ||| 0xfe54 <= v <= 0xfe66
            ||| 0xfe68 <= v <= 0xfe6b
            ||| 0xff01 <= v <= 0xff60
            ||| 0xffe0 <= v <= 0xffe6
            ||| 0x1f300 <= v <= 0x1f320
            ||| 0x1f600 <= v <= 0x1f64f
            ||| 0x1f680 <= v <= 0x1f6c5
            ||| 0x1f947 <= v <= 0x1f9ff
            ||| 0x1fa70 <= v <= 0x1fa7c
            ||| 0x20000 <= v <= 0x2fffd
            ||| 0x30000 <= v <= 0x3fffd
        }),
    ensures
        chars_width(seq![c]) == 2,
{
    lemma_single_width(c);
}

/// The characters drawn one column wide take one: everything below U+1100
/// (ASCII, Latin, Greek, Cyrillic, Hebrew, Arabic, Indic scripts, ...),
/// general punctuation, box drawing, the private use area and the halfwidth
/// forms.
pub proof fn lemma_narrow_blocks(c: char)
    requires
        ({
            let v = c as u32;
            ||| v < 0x1100
            ||| 0x2000 <= v <= 0x206f
            ||| 0x2500 <= v <= 0x25fc
            ||| 0xe000 <= v <= 0xf8ff
            ||| 0xff61 <= v <= 0xffdc
        }),
    ensures
        chars_width(seq![c]) == 1,
{
    lemma_single_width(c);
}

/// Every character of East Asian width Wide or Fullwidth (Unicode 15)
/// takes two columns, listed here by code point, runs of neighbours joined.
pub proof fn lemma_wide_characters(c: char)
    requires
        ({
            let v = c as u32;
            ||| 0x1100 <= v <= 0x115F
            ||| 0x231A <= v <= 0x231B
            ||| 0x2329 <= v <= 0x232A
            ||| 0x23E9 <= v <= 0x23EC
            ||| v == 0x23F0
            ||| v == 0x23F3
            ||| 0x25FD <= v <= 0x25FE
            ||| 0x2614 <= v <= 0x2615
            ||| 0x2648 <= v <= 0x2653
            ||| v == 0x267F
            ||| v == 0x2693
            ||| v == 0x26A1
            ||| 0x26AA <= v <= 0x26AB
            ||| 0x26BD <= v <= 0x26BE
            ||| 0x26C4 <= v <= 0x26C5
            ||| v == 0x26CE
            ||| v == 0x26D4
            ||| v == 0x26EA
            ||| 0x26F2 <= v <= 0x26F3
            ||| v == 0x26F5
            ||| v == 0x26FA
            ||| v == 0x26FD
            ||| v == 0x2705
            ||| 0x270A <= v <= 0x270B
            ||| v == 0x2728
            ||| v == 0x274C
            ||| v == 0x274E
            ||| 0x2753 <= v <= 0x2755
            ||| v == 0x2757
            ||| 0x2795 <= v <= 0x2797
            ||| v == 0x27B0
            ||| v == 0x27BF
            ||| 0x2B1B <= v <= 0x2B1C
            ||| v == 0x2B50
            ||| v == 0x2B55
            ||| 0x2E80 <= v <= 0x2E99
            ||| 0x2E9B <= v <= 0x2EF3
            ||| 0x2F00 <= v <= 0x2FD5
            ||| 0x2FF0 <= v <= 0x2FFB
            ||| 0x3000 <= v <= 0x303E
            ||| 0x3041 <= v <= 0x3096
            ||| 0x3099 <= v <= 0x30FF
            ||| 0x3105 <= v <= 0x312F
            ||| 0x3131 <= v <= 0x318E
            ||| 0x3190 <= v <= 0x31E3
            ||| 0x31F0 <= v <= 0x321E
            ||| 0x3220 <= v <= 0x3247
            ||| 0x3250 <= v <= 0x4DBF
            ||| 0x4E00 <= v <= 0xA48C
            ||| 0xA490 <= v <= 0xA4C6
            ||| 0xA960 <= v <= 0xA97C
            ||| 0xAC00 <= v <= 0xD7A3
            ||| 0xF900 <= v <= 0xFAFF
            ||| 0xFE10 <= v <= 0xFE19
            ||| 0xFE30 <= v <= 0xFE52
            ||| 0xFE54 <= v <= 0xFE66
            ||| 0xFE68 <= v <= 0xFE6B
            ||| 0xFF01 <= v <= 0xFF60
            ||| 0xFFE0 <= v <= 0xFFE6
            ||| 0x16FE0 <= v <= 0x16FE4
            ||| 0x16FF0 <= v <= 0x16FF1
            ||| 0x17000 <= v <= 0x187F7
            ||| 0x18800 <= v <= 0x18CD5
            ||| 0x18D00 <= v <= 0x18D08
            ||| 0x1AFF0 <= v <= 0x1AFF3
            ||| 0x1AFF5 <= v <= 0x1AFFB
            ||| 0x1AFFD <= v <= 0x1AFFE
            ||| 0x1B000 <= v <= 0x1B122
            ||| v == 0x1B132
            ||| 0x1B150 <= v <= 0x1B152
            ||| v == 0x1B155
            ||| 0x1B164 <= v <= 0x1B167
            ||| 0x1B170 <= v <= 0x1B2FB
            ||| v == 0x1F004
            ||| v == 0x1F0CF
            ||| v == 0x1F18E
            ||| 0x1F191 <= v <= 0x1F19A
            ||| 0x1F200 <= v <= 0x1F202
            ||| 0x1F210 <= v <= 0x1F23B
            ||| 0x1F240 <= v <= 0x1F248
            ||| 0x1F250 <= v <= 0x1F251
            ||| 0x1F260 <= v <= 0x1F265
            ||| 0x1F300 <= v <= 0x1F320
            ||| 0x1F32D <= v <= 0x1F335
            ||| 0x1F337 <= v <= 0x1F37C
            ||| 0x1F37E <= v <= 0x1F393
            ||| 0x1F3A0 <= v <= 0x1F3CA
            ||| 0x1F3CF <= v <= 0x1F3D3
            ||| 0x1F3E0 <= v <= 0x1F3F0
            ||| v == 0x1F3F4
            ||| 0x1F3F8 <= v <= 0x1F43E
            ||| v == 0x1F440
            ||| 0x1F442 <= v <= 0x1F4FC
            ||| 0x1F4FF <= v <= 0x1F53D
            ||| 0x1F54B <= v <= 0x1F54E
            ||| 0x1F550 <= v <= 0x1F567
            ||| v == 0x1F57A
            ||| 0x1F595 <= v <= 0x1F596
            ||| v == 0x1F5A4
            ||| 0x1F5FB <= v <= 0x1F64F
            ||| 0x1F680 <= v <= 0x1F6C5
            ||| v == 0x1F6CC
            ||| 0x1F6D0 <= v <= 0x1F6D2
            ||| 0x1F6D5 <= v <= 0x1F6D7
            ||| 0x1F6DC <= v <= 0x1F6DF
            ||| 0x1F6EB <= v <= 0x1F6EC
            ||| 0x1F6F4 <= v <= 0x1F6FC
            ||| 0x1F7E0 <= v <= 0x1F7EB
            ||| v == 0x1F7F0
            ||| 0x1F90C <= v <= 0x1F93A
            ||| 0x1F93C <= v <= 0x1F945
            ||| 0x1F947 <= v <= 0x1F9FF
            ||| 0x1FA70 <= v <= 0x1FA7C
            ||| 0x1FA80 <= v <= 0x1FA88
            ||| 0x1FA90 <= v <= 0x1FABD
            ||| 0x1FABF <= v <= 0x1FAC5
            ||| 0x1FACE <= v <= 0x1FADB
            ||| 0x1FAE0 <= v <= 0x1FAE8
            ||| 0x1FAF0 <= v <= 0x1FAF8
            ||| 0x20000 <= v <= 0x2FFFD
            ||| 0x30000 <= v <= 0x3FFFD
        }),
    ensures
        chars_width(seq![c]) == 2,
{
    lemma_single_width(c);
}

/// Every other character takes one column.
pub proof fn lemma_other_characters(c: char)
    requires
        ({
            let v = c as u32;
            &&& !(0x1100 <= v <= 0x115F)
            &&& !(0x231A <= v <= 0x231B)
            &&& !(0x2329 <= v <= 0x232A)
            &&& !(0x23E9 <= v <= 0x23EC)
            &&& !(v == 0x23F0)
            &&& !(v == 0x23F3)
            &&& !(0x25FD <= v <= 0x25FE)
            &&& !(0x2614 <= v <= 0x2615)
            &&& !(0x2648 <= v <= 0x2653)
            &&& !(v == 0x267F)
            &&& !(v == 0x2693)
            &&& !(v == 0x26A1)
            &&& !(0x26AA <= v <= 0x26AB)
            &&& !(0x26BD <= v <= 0x26BE)
            &&& !(0x26C4 <= v <= 0x26C5)
            &&& !(v == 0x26CE)
            &&& !(v == 0x26D4)
            &&& !(v == 0x26EA)
            &&& !(0x26F2 <= v <= 0x26F3)
            &&& !(v == 0x26F5)
            &&& !(v == 0x26FA)
            &&& !(v == 0x26FD)
            &&& !(v == 0x2705)
            &&& !(0x270A <= v <= 0x270B)
            &&& !(v == 0x2728)
            &&& !(v == 0x274C)
            &&& !(v == 0x274E)
            &&& !(0x2753 <= v <= 0x2755)
            &&& !(v == 0x2757)
            &&& !(0x2795 <= v <= 0x2797)
            &&& !(v == 0x27B0)
            &&& !(v == 0x27BF)
            &&& !(0x2B1B <= v <= 0x2B1C)
            &&& !(v == 0x2B50)
            &&& !(v == 0x2B55)
            &&& !(0x2E80 <= v <= 0x2E99)
            &&& !(0x2E9B <= v <= 0x2EF3)
            &&& !(0x2F00 <= v <= 0x2FD5)
            &&& !(0x2FF0 <= v <= 0x2FFB)
            &&& !(0x3000 <= v <= 0x303E)
            &&& !(0x3041 <= v <= 0x3096)
            &&& !(0x3099 <= v <= 0x30FF)
            &&& !(0x3105 <= v <= 0x312F)
            &&& !(0x3131 <= v <= 0x318E)
            &&& !(0x3190 <= v <= 0x31E3)
            &&& !(0x31F0 <= v <= 0x321E)
            &&& !(0x3220 <= v <= 0x3247)
            &&& !(0x3250 <= v <= 0x4DBF)
            &&& !(0x4E00 <= v <= 0xA48C)
            &&& !(0xA490 <= v <= 0xA4C6)
            &&& !(0xA960 <= v <= 0xA97C)
            &&& !(0xAC00 <= v <= 0xD7A3)
            &&& !(0xF900 <= v <= 0xFAFF)
            &&& !(0xFE10 <= v <= 0xFE19)
            &&& !(0xFE30 <= v <= 0xFE52)
            &&& !(0xFE54 <= v <= 0xFE66)
            &&& !(0xFE68 <= v <= 0xFE6B)
            &&& !(0xFF01 <= v <= 0xFF60)
            &&& !(0xFFE0 <= v <= 0xFFE6)
            &&& !(0x16FE0 <= v <= 0x16FE4)
            &&& !(0x16FF0 <= v <= 0x16FF1)
            &&& !(0x17000 <= v <= 0x187F7)
            &&& !(0x18800 <= v <= 0x18CD5)
            &&& !(0x18D00 <= v <= 0x18D08)
            &&& !(0x1AFF0 <= v <= 0x1AFF3)
            &&& !(0x1AFF5 <= v <= 0x1AFFB)
            &&& !(0x1AFFD <= v <= 0x1AFFE)
            &&& !(0x1B000 <= v <= 0x1B122)
            &&& !(v == 0x1B132)
            &&& !(0x1B150 <= v <= 0x1B152)
            &&& !(v == 0x1B155)
            &&& !(0x1B164 <= v <= 0x1B167)
            &&& !(0x1B170 <= v <= 0x1B2FB)
            &&& !(v == 0x1F004)
            &&& !(v == 0x1F0CF)
            &&& !(v == 0x1F18E)
            &&& !(0x1F191 <= v <= 0x1F19A)
            &&& !(0x1F200 <= v <= 0x1F202)
            &&& !(0x1F210 <= v <= 0x1F23B)
            &&& !(0x1F240 <= v <= 0x1F248)
            &&& !(0x1F250 <= v <= 0x1F251)
            &&& !(0x1F260 <= v <= 0x1F265)
            &&& !(0x1F300 <= v <= 0x1F320)
            &&& !(0x1F32D <= v <= 0x1F335)
            &&& !(0x1F337 <= v <= 0x1F37C)
            &&& !(0x1F37E <= v <= 0x1F393)
            &&& !(0x1F3A0 <= v <= 0x1F3CA)
            &&& !(0x1F3CF <= v <= 0x1F3D3)
            &&& !(0x1F3E0 <= v <= 0x1F3F0)
            &&& !(v == 0x1F3F4)
            &&& !(0x1F3F8 <= v <= 0x1F43E)
            &&& !(v == 0x1F440)
            &&& !(0x1F442 <= v <= 0x1F4FC)
            &&& !(0x1F4FF <= v <= 0x1F53D)
            &&& !(0x1F54B <= v <= 0x1F54E)
            &&& !(0x1F550 <= v <= 0x1F567)
            &&& !(v == 0x1F57A)
            &&& !(0x1F595 <= v <= 0x1F596)
            &&& !(v == 0x1F5A4)
            &&& !(0x1F5FB <= v <= 0x1F64F)
            &&& !(0x1F680 <= v <= 0x1F6C5)
            &&& !(v == 0x1F6CC)
            &&& !(0x1F6D0 <= v <= 0x1F6D2)
            &&& !(0x1F6D5 <= v <= 0x1F6D7)
            &&& !(0x1F6DC <= v <= 0x1F6DF)
            &&& !(0x1F6EB <= v <= 0x1F6EC)
            &&& !(0x1F6F4 <= v <= 0x1F6FC)
            &&& !(0x1F7E0 <= v <= 0x1F7EB)
            &&& !(v == 0x1F7F0)
            &&& !(0x1F90C <= v <= 0x1F93A)
            &&& !(0x1F93C <= v <= 0x1F945)
            &&& !(0x1F947 <= v <= 0x1F9FF)
            &&& !(0x1FA70 <= v <= 0x1FA7C)
            &&& !(0x1FA80 <= v <= 0x1FA88)
            &&& !(0x1FA90 <= v <= 0x1FABD)
            &&& !(0x1FABF <= v <= 0x1FAC5)
            &&& !(0x1FACE <= v <= 0x1FADB)
            &&& !(0x1FAE0 <= v <= 0x1FAE8)
            &&& !(0x1FAF0 <= v <= 0x1FAF8)
            &&& !(0x20000 <= v <= 0x2FFFD)
            &&& !(0x30000 <= v <= 0x3FFFD)
        }),
    ensures
        chars_width(seq![c]) == 1,
{
    lemma_single_width(c);
}

/// A text of wide characters only takes two columns per character.
pub proof fn lemma_all_wide(s: Seq<char>)
    requires
        forall|i: int| 0 <= i < s.len() ==> is_wide(#[trigger] s[i] as u32),
    ensures
        chars_width(s) == 2 * s.len(),
    decreases s.len(),
{
    if s.len() > 0 {
        lemma_all_wide(s.drop_last());
        assert(is_wide(s[s.len() - 1] as u32));
    }
}

/// A prefix takes no more columns than the whole.
proof fn lemma_prefix_width(s: Seq<char>, n: int)
    requires
        0 <= n <= s.len(),
    ensures
        chars_width(s.take(n)) <= chars_width(s),
    decreases s.len() - n,
{
    if n < s.len() {
        lemma_prefix_width(s, n + 1);
        assert(s.take(n + 1).drop_last() == s.take(n));
    } else {
        assert(s.take(n) == s);
    }
}

/// Terminal columns taken by `c`; see `char_width`.
fn column_width(c: char) -> (r: usize)
    ensures
        r == char_width(c),
{
    let v = c as u32;
    let w0 = (0x1100 <= v && v <= 0x115f)
        || (0x231a <= v && v <= 0x231b)
        || (0x2329 <= v && v <= 0x232a)
        || (0x23e9 <= v && v <= 0x23ec)
        || v == 0x23f0
        || v == 0x23f3
        || (0x25fd <= v && v <= 0x25fe)
        || (0x2614 <= v && v <= 0x2615)
        || (0x2648 <= v && v <= 0x2653)
        || v == 0x267f
        || v == 0x2693
        || v == 0x26a1;
    let w1 = (0x26aa <= v && v <= 0x26ab)
        || (0x26bd <= v && v <= 0x26be)
        || (0x26c4 <= v && v <= 0x26c5)
        || v == 0x26ce
        || v == 0x26d4
        || v == 0x26ea
        || (0x26f2 <= v && v <= 0x26f3)
        || v == 0x26f5
        || v == 0x26fa
        || v == 0x26fd
        || v == 0x2705
        || (0x270a <= v && v <= 0x270b);
    let w2 = v == 0x2728
        || v == 0x274c
        || v == 0x274e
        || (0x2753 <= v && v <= 0x2755)
        || v == 0x2757
        || (0x2795 <= v && v <= 0x2797)
        || v == 0x27b0
        || v == 0x27bf
        || (0x2b1b <= v && v <= 0x2b1c)
        || v == 0x2b50
        || v == 0x2b55
        || (0x2e80 <= v && v <= 0x2e99);
    let w3 = (0x2e9b <= v && v <= 0x2ef3)
        || (0x2f00 <= v && v <= 0x2fd5)
        || (0x2ff0 <= v && v <= 0x2ffb)
        || (0x3000 <= v && v <= 0x303e)
        || (0x3041 <= v && v <= 0x3096)
        || (0x3099 <= v && v <= 0x30ff)
        || (0x3105 <= v && v <= 0x312f)
        || (0x3131 <= v && v <= 0x318e)
        || (0x3190 <= v && v <= 0x31e3)
        || (0x31f0 <= v && v <= 0x321e)
        || (0x3220 <= v && v <= 0x3247)
        || (0x3250 <= v && v <= 0x4dbf);
    let w4 = (0x4e00 <= v && v <= 0xa48c)
        || (0xa490 <= v && v <= 0xa4c6)
        || (0xa960 <= v && v <= 0xa97c)
        || (0xac00 <= v && v <= 0xd7a3)
        || (0xf900 <= v && v <= 0xfaff)
        || (0xfe10 <= v && v <= 0xfe19)
        || (0xfe30 <= v && v <= 0xfe52)
        || (0xfe54 <= v && v <= 0xfe66)
        || (0xfe68 <= v && v <= 0xfe6b)
        || (0xff01 <= v && v <= 0xff60)
        || (0xffe0 <= v && v <= 0xffe6)
        || (0x16fe0 <= v && v <= 0x16fe4);
    let w5 = (0x16ff0 <= v && v <= 0x16ff1)
        || (0x17000 <= v && v <= 0x187f7)
        || (0x18800 <= v && v <= 0x18cd5)
        || (0x18d00 <= v && v <= 0x18d08)
        || (0x1aff0 <= v && v <= 0x1aff3)
        || (0x1aff5 <= v && v <= 0x1affb)
        || (0x1affd <= v && v <= 0x1affe)
        || (0x1b000 <= v && v <= 0x1b122)
        || v == 0x1b132
        || (0x1b150 <= v && v <= 0x1b152)
        || v == 0x1b155
        || (0x1b164 <= v && v <= 0x1b167);
    let w6 = (0x1b170 <= v && v <= 0x1b2fb)
        || v == 0x1f004
        || v == 0x1f0cf
        || v == 0x1f18e
        || (0x1f191 <= v && v <= 0x1f19a)
        || (0x1f200 <= v && v <= 0x1f202)
        || (0x1f210 <= v && v <= 0x1f23b)
        || (0x1f240 <= v && v <= 0x1f248)
        || (0x1f250 <= v && v <= 0x1f251)
        || (0x1f260 <= v && v <= 0x1f265)
        || (0x1f300 <= v && v <= 0x1f320)
        || (0x1f32d <= v && v <= 0x1f335);
    let w7 = (0x1f337 <= v && v <= 0x1f37c)
        || (0x1f37e <= v && v <= 0x1f393)
        || (0x1f3a0 <= v && v <= 0x1f3ca)
        || (0x1f3cf <= v && v <= 0x1f3d3)
        || (0x1f3e0 <= v && v <= 0x1f3f0)
        || v == 0x1f3f4
        || (0x1f3f8 <= v && v <= 0x1f43e)
        || v == 0x1f440
        || (0x1f442 <= v && v <= 0x1f4fc)
        || (0x1f4ff <= v && v <= 0x1f53d)
        || (0x1f54b <= v && v <= 0x1f54e)
        || (0x1f550 <= v && v <= 0x1f567);
    let w8 = v == 0x1f57a
        || (0x1f595 <= v && v <= 0x1f596)
        || v == 0x1f5a4
        || (0x1f5fb <= v && v <= 0x1f64f)
        || (0x1f680 <= v && v <= 0x1f6c5)
        || v == 0x1f6cc
        || (0x1f6d0 <= v && v <= 0x1f6d2)
        || (0x1f6d5 <= v && v <= 0x1f6d7)
        || (0x1f6dc <= v && v <= 0x1f6df)
        || (0x1f6eb <= v && v <= 0x1f6ec)
        || (0x1f6f4 <= v && v <= 0x1f6fc)
        || (0x1f7e0 <= v && v <= 0x1f7eb);
    let w9 = v == 0x1f7f0
        || (0x1f90c <= v && v <= 0x1f93a)
        || (0x1f93c <= v && v <= 0x1f945)
        || (0x1f947 <= v && v <= 0x1f9ff)
        || (0x1fa70 <= v && v <= 0x1fa7c)
        || (0x1fa80 <= v && v <= 0x1fa88)
        || (0x1fa90 <= v && v <= 0x1fabd)
        || (0x1fabf <= v && v <= 0x1fac5)
        || (0x1face <= v && v <= 0x1fadb)
        || (0x1fae0 <= v && v <= 0x1fae8)
        || (0x1faf0 <= v && v <= 0x1faf8)
        || (0x20000 <= v && v <= 0x2fffd);
    let w10 = (0x30000 <= v && v <= 0x3fffd);
    let wide = w0 || w1 || w2 || w3 || w4 || w5 || w6 || w7 || w8 || w9 || w10;
    if wide {
        2
    } else {
        1
    }
}

pub struct Utf8Encoding;

impl Utf8Encoding {
    /// The number of terminal columns that `content` takes.
    pub fn width(content: &str) -> (result: usize)
        ensures
            result == chars_width(content@),
    {
        let bytes = content.as_bytes().len();
        proof {
            lemma_width_within_bytes(content@);
            assert(bytes == encode_utf8(content@).len());
        }
        let mut result: usize = 0;
        let ghost mut seen: Seq<char> = Seq::empty();
        for ch in it: content.chars()
            invariant
                seen == it.seq().take(it.index() as int),
                it.seq() == content@,
                result == chars_width(seen),
                chars_width(content@) <= usize::MAX,
        {
            proof {
                assert(seen.push(ch).drop_last() == seen);
                seen = seen.push(ch);
                assert(seen == it.seq().take(it.index() + 1));
                lemma_prefix_width(content@, it.index() + 1);
            }
            result += column_width(ch);
        }
        proof {
            assert(seen == content@);
        }
        result
    }
}

} // verus!
