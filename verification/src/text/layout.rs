//! Paragraph attributes and the byte-boundary rules of text editing:
//! grapheme-safe caret positions and source line starts.

use unicode_segmentation::UnicodeSegmentation;
use vstd::prelude::*;
use vstd::string::StringSliceAdditionalSpecFns;

verus! {

/// CSS-like font slant used by nkdhr text.
#[derive(Debug, Clone, Copy, PartialEq, Eq, Structural, Hash)]
pub enum FontSlant {
    Normal,
    Italic,
    Oblique,
}

impl Default for FontSlant {
    fn default() -> (r: Self)
        ensures
            r == FontSlant::Normal,
    {
        FontSlant::Normal
    }
}

/// Line wrapping policy.
#[derive(Debug, Clone, Copy, PartialEq, Eq, Structural, Hash)]
pub enum TextWrap {
    NoWrap,
    Glyph,
    Word,
    WordOrGlyph,
}

impl Default for TextWrap {
    fn default() -> (r: Self)
        ensures
            r == TextWrap::WordOrGlyph,
    {
        TextWrap::WordOrGlyph
    }
}

/// Horizontal line alignment.
#[derive(Debug, Clone, Copy, PartialEq, Eq, Structural, Hash)]
pub enum TextAlign {
    Start,
    End,
    Center,
    Justified,
}

impl Default for TextAlign {
    fn default() -> (r: Self)
        ensures
            r == TextAlign::Start,
    {
        TextAlign::Start
    }
}

/// Nearest editable byte boundary returned by text hit testing.
#[derive(Debug, Clone, Copy, PartialEq, Eq, Structural)]
pub struct TextHit {
    pub byte_index: usize,
    pub line_index: usize,
}

/// What `UnicodeSegmentation::grapheme_indices` yields for a text, as the
/// byte offsets of its grapheme clusters.
pub uninterp spec fn grapheme_offsets(text: Seq<char>, extended: bool) -> Seq<usize>;

/// `UnicodeSegmentation::grapheme_indices`, keeping the byte offset of each
/// cluster. The clusters split the text in order, so the offsets rise
/// strictly, lie inside the text and start at zero for a non-empty text.
#[verifier::external_body]
pub(crate) fn grapheme_starts(text: &str, extended: bool) -> (r: Vec<usize>)
    ensures
        r@ == grapheme_offsets(text@, extended),
        forall|i: int, j: int| 0 <= i < j < r@.len() ==> r@[i] < r@[j],
        forall|i: int| 0 <= i < r@.len() ==> r@[i] < text.spec_bytes().len(),
        text.spec_bytes().len() > 0 ==> r@.len() > 0 && r@[0] == 0,
{
    text.grapheme_indices(extended).map(|(offset, _)| offset).collect()
}

/// How many leading offsets are at most `index`.
pub open spec fn leading_at_most(offsets: Seq<usize>, index: int) -> nat
    decreases offsets.len(),
{
    if offsets.len() == 0 || offsets[0] > index {
        0
    } else {
        1 + leading_at_most(offsets.drop_first(), index)
    }
}

/// The first offset at least `index`, or `fallback` if there is none.
pub open spec fn first_at_least(offsets: Seq<usize>, index: int, fallback: int) -> int
    decreases offsets.len(),
{
    if offsets.len() == 0 {
        fallback
    } else if offsets[0] >= index {
        offsets[0] as int
    } else {
        first_at_least(offsets.drop_first(), index, fallback)
    }
}

/// The grapheme boundary at or before `index`: the end of the text past its
/// end, else the last leading boundary not beyond `index`, else zero.
pub open spec fn floor_boundary_spec(offsets: Seq<usize>, len: int, index: int) -> int {
    if index >= len {
        len
    } else {
        let k = leading_at_most(offsets, index);
        if k == 0 {
            0
        } else {
            offsets[k - 1] as int
        }
    }
}

/// The grapheme boundary at or after `index`: `index` itself at the start or
/// past the end (capped at the end), else the first boundary not before it,
/// else the end of the text.
pub open spec fn ceil_boundary_spec(offsets: Seq<usize>, len: int, index: int) -> int {
    if index == 0 || index >= len {
        if index <= len {
            index
        } else {
            len
        }
    } else {
        first_at_least(offsets, index, len)
    }
}

proof fn lemma_leading_step(offsets: Seq<usize>, index: int, i: int)
    requires
        0 <= i < offsets.len(),
        forall|j: int| 0 <= j < i ==> offsets[j] <= index,
    ensures
        offsets[i] > index ==> leading_at_most(offsets, index) == i,
        offsets[i] <= index ==> forall|j: int| 0 <= j < i + 1 ==> offsets[j] <= index,
    decreases i,
{
    if i > 0 {
        lemma_leading_step(offsets.drop_first(), index, i - 1);
    }
}

proof fn lemma_leading_all(offsets: Seq<usize>, index: int)
    requires
        forall|j: int| 0 <= j < offsets.len() ==> offsets[j] <= index,
    ensures
        leading_at_most(offsets, index) == offsets.len(),
    decreases offsets.len(),
{
    if offsets.len() > 0 {
        lemma_leading_all(offsets.drop_first(), index);
    }
}

proof fn lemma_first_step(offsets: Seq<usize>, index: int, fallback: int, i: int)
    requires
        0 <= i <= offsets.len(),
        forall|j: int| 0 <= j < i ==> offsets[j] < index,
    ensures
        first_at_least(offsets, index, fallback) == first_at_least(offsets.skip(i), index, fallback),
    decreases i,
{
    if i > 0 {
        lemma_first_step(offsets.drop_first(), index, fallback, i - 1);
        assert(offsets.drop_first().skip(i - 1) =~= offsets.skip(i));
    } else {
        assert(offsets.skip(0) =~= offsets);
    }
}

proof fn lemma_leading_bound(offsets: Seq<usize>, index: int)
    ensures
        leading_at_most(offsets, index) <= offsets.len(),
        leading_at_most(offsets, index) > 0 ==> offsets[leading_at_most(offsets, index) - 1] <= index,
    decreases offsets.len(),
{
    if offsets.len() > 0 && offsets[0] <= index {
        lemma_leading_bound(offsets.drop_first(), index);
        let k = leading_at_most(offsets.drop_first(), index);
        if k > 0 {
            assert(offsets[k as int] == offsets.drop_first()[k - 1]);
        }
    }
}

proof fn lemma_first_bound(offsets: Seq<usize>, index: int, fallback: int)
    requires
        fallback >= index,
    ensures
        first_at_least(offsets, index, fallback) >= index,
    decreases offsets.len(),
{
    if offsets.len() > 0 && offsets[0] < index {
        lemma_first_bound(offsets.drop_first(), index, fallback);
    }
}

/// Cluster offsets in strictly rising order, as a segmentation yields them.
pub open spec fn rising(offsets: Seq<usize>) -> bool {
    forall|i: int, j: int| 0 <= i < j < offsets.len() ==> offsets[i] < offsets[j]
}

proof fn lemma_first_at_least_least(offsets: Seq<usize>, index: int, fallback: int)
    requires
        fallback >= index,
        rising(offsets),
    ensures
        first_at_least(offsets, index, fallback) >= index,
        first_at_least(offsets, index, fallback) == fallback || exists|k: int|
            0 <= k < offsets.len() && offsets[k] == first_at_least(offsets, index, fallback),
        forall|k: int|
            0 <= k < offsets.len() ==> !(index <= #[trigger] offsets[k] < first_at_least(
                offsets,
                index,
                fallback,
            )),
    decreases offsets.len(),
{
    if offsets.len() > 0 {
        if offsets[0] >= index {
            assert forall|k: int| 0 <= k < offsets.len() implies !(index <= #[trigger] offsets[k]
                < first_at_least(offsets, index, fallback)) by {
                if k > 0 {
                    assert(offsets[0] < offsets[k]);
                }
            }
        } else {
            let rest = offsets.drop_first();
            lemma_first_at_least_least(rest, index, fallback);
            let r = first_at_least(offsets, index, fallback);
            if r != fallback {
                let k = choose|k: int| 0 <= k < rest.len() && rest[k] == r;
                assert(offsets[k + 1] == r);
            }
            assert forall|k: int| 0 <= k < offsets.len() implies !(index <= #[trigger] offsets[k]
                < r) by {
                if k > 0 {
                    assert(offsets[k] == rest[k - 1]);
                }
            }
        }
    }
}

proof fn lemma_leading_split(offsets: Seq<usize>, index: int)
    requires
        rising(offsets),
    ensures
        forall|j: int| 0 <= j < leading_at_most(offsets, index) ==> #[trigger] offsets[j] <= index,
        forall|j: int|
            leading_at_most(offsets, index) <= j < offsets.len() ==> #[trigger] offsets[j] > index,
        leading_at_most(offsets, index) <= offsets.len(),
    decreases offsets.len(),
{
    if offsets.len() > 0 {
        let rest = offsets.drop_first();
        if offsets[0] > index {
            assert forall|j: int| 0 <= j < offsets.len() implies #[trigger] offsets[j] > index by {
                if j > 0 {
                    assert(offsets[0] < offsets[j]);
                }
            }
        } else {
            lemma_leading_split(rest, index);
            assert forall|j: int| 0 <= j < leading_at_most(offsets, index) implies #[trigger] offsets[j]
                <= index by {
                if j > 0 {
                    assert(offsets[j] == rest[j - 1]);
                }
            }
            assert forall|j: int|
                leading_at_most(offsets, index) <= j < offsets.len() implies #[trigger] offsets[j]
                > index by {
                assert(offsets[j] == rest[j - 1]);
            }
        }
    }
}

/// The ceiling inside the text is the least boundary not before the index:
/// a cluster offset or the end of the text, never before the index, with no
/// cluster offset between the index and it; an index that already starts a
/// cluster stays put.
pub proof fn law_ceiling_is_least_boundary_at_or_after(offsets: Seq<usize>, len: int, index: int)
    requires
        0 < index < len,
        rising(offsets),
    ensures
        ({
            let r = ceil_boundary_spec(offsets, len, index);
            &&& r >= index
            &&& r == len || exists|k: int| 0 <= k < offsets.len() && offsets[k] == r
            &&& forall|k: int| 0 <= k < offsets.len() ==> !(index <= #[trigger] offsets[k] < r)
            &&& (exists|k: int| 0 <= k < offsets.len() && offsets[k] == index) ==> r == index
        }),
{
    lemma_first_at_least_least(offsets, index, len);
    let r = ceil_boundary_spec(offsets, len, index);
    if exists|k: int| 0 <= k < offsets.len() && offsets[k] == index {
        let k = choose|k: int| 0 <= k < offsets.len() && offsets[k] == index;
        assert(!(index <= offsets[k] < r));
    }
}

/// The floor inside the text is the greatest boundary not after the index:
/// the start of the text or a cluster offset, never after the index, with no
/// cluster offset between it and the index; an index that already starts a
/// cluster stays put.
pub proof fn law_floor_is_greatest_boundary_at_or_before(offsets: Seq<usize>, len: int, index: int)
    requires
        0 <= index < len,
        rising(offsets),
    ensures
        ({
            let r = floor_boundary_spec(offsets, len, index);
            &&& r <= index
            &&& r == 0 || exists|k: int| 0 <= k < offsets.len() && offsets[k] == r
            &&& forall|k: int| 0 <= k < offsets.len() ==> !(r < #[trigger] offsets[k] <= index)
            &&& (exists|k: int| 0 <= k < offsets.len() && offsets[k] == index) ==> r == index
        }),
{
    lemma_leading_split(offsets, index);
    let n = leading_at_most(offsets, index);
    let r = floor_boundary_spec(offsets, len, index);
    assert forall|k: int| 0 <= k < offsets.len() implies !(r < #[trigger] offsets[k] <= index) by {
        if k < n {
            if k < n - 1 {
                assert(offsets[k] < offsets[n - 1]);
            }
        }
    }
    if exists|k: int| 0 <= k < offsets.len() && offsets[k] == index {
        let k = choose|k: int| 0 <= k < offsets.len() && offsets[k] == index;
        assert(!(r < offsets[k] <= index));
    }
}

/// The boundaries bracket the index: the floor is never after it and the
/// ceiling never before it, for any index inside the text.
pub proof fn law_boundaries_bracket_index(offsets: Seq<usize>, len: int, index: int)
    requires
        0 <= index <= len,
    ensures
        floor_boundary_spec(offsets, len, index) <= index,
        ceil_boundary_spec(offsets, len, index) >= index,
{
    lemma_leading_bound(offsets, index);
    lemma_first_bound(offsets, index, len);
}

/// The boundary at or before `index` among cluster `offsets` of a text of
/// `len` bytes.
pub fn floor_boundary(offsets: &[usize], len: usize, index: usize) -> (r: usize)
    ensures
        r == floor_boundary_spec(offsets@, len as int, index as int),
{
    if index >= len {
        return len;
    }
    let ghost o = offsets@;
    let mut i: usize = 0;
    let mut last: usize = 0;
    while i < offsets.len()
        invariant
            o == offsets@,
            index < len,
            i <= o.len(),
            forall|j: int| 0 <= j < i ==> o[j] <= index,
            last == if i == 0 {
                0
            } else {
                o[i - 1]
            },
        decreases o.len() - i,
    {
        if offsets[i] > index {
            proof {
                lemma_leading_step(o, index as int, i as int);
            }
            return last;
        }
        proof {
            lemma_leading_step(o, index as int, i as int);
        }
        last = offsets[i];
        i = i + 1;
    }
    proof {
        lemma_leading_all(o, index as int);
    }
    last
}

/// The boundary at or after `index` among cluster `offsets` of a text of
/// `len` bytes.
pub fn ceil_boundary(offsets: &[usize], len: usize, index: usize) -> (r: usize)
    ensures
        r == ceil_boundary_spec(offsets@, len as int, index as int),
{
    if index == 0 || index >= len {
        return if index < len {
            index
        } else {
            len
        };
    }
    let ghost o = offsets@;
    let mut i: usize = 0;
    while i < offsets.len()
        invariant
            o == offsets@,
            0 < index < len,
            i <= o.len(),
            forall|j: int| 0 <= j < i ==> o[j] < index,
        decreases o.len() - i,
    {
        if offsets[i] >= index {
            proof {
                lemma_first_step(o, index as int, len as int, i as int);
                assert(o.skip(i as int)[0] == o[i as int]);
            }
            return offsets[i];
        }
        i = i + 1;
    }
    proof {
        lemma_first_step(o, index as int, len as int, i as int);
        assert(o.skip(i as int) =~= Seq::<usize>::empty());
    }
    len
}

/// The grapheme-safe byte boundary at or before `index`.
pub fn floor_grapheme_boundary(text: &str, index: usize) -> (r: usize)
    ensures
        r == floor_boundary_spec(grapheme_offsets(text@, true), text.spec_bytes().len() as int, index as int),
{
    let len = text.as_bytes().len();
    if index >= len {
        return len;
    }
    let offsets = grapheme_starts(text, true);
    floor_boundary(offsets.as_slice(), len, index)
}

/// The grapheme-safe byte boundary at or after `index`.
pub fn ceil_grapheme_boundary(text: &str, index: usize) -> (r: usize)
    ensures
        r == ceil_boundary_spec(grapheme_offsets(text@, true), text.spec_bytes().len() as int, index as int),
{
    let len = text.as_bytes().len();
    if index == 0 || index >= len {
        return if index < len {
            index
        } else {
            len
        };
    }
    let offsets = grapheme_starts(text, true);
    ceil_boundary(offsets.as_slice(), len, index)
}

/// The byte offsets just after each newline byte among the first `k` bytes.
pub open spec fn newline_ends(bytes: Seq<u8>, k: int) -> Seq<usize>
    decreases k,
{
    if k <= 0 {
        Seq::empty()
    } else if bytes[k - 1] == 10 {
        newline_ends(bytes, k - 1).push(k as usize)
    } else {
        newline_ends(bytes, k - 1)
    }
}

/// Where each source line starts: at zero, and after every newline.
pub fn source_line_starts(text: &str) -> (r: Vec<usize>)
    ensures
        r@ == seq![0usize] + newline_ends(text.spec_bytes(), text.spec_bytes().len() as int),
{
    let bytes = text.as_bytes();
    let mut starts: Vec<usize> = Vec::new();
    starts.push(0);
    let mut i: usize = 0;
    while i < bytes.len()
        invariant
            bytes@ == text.spec_bytes(),
            i <= bytes@.len(),
            starts@ == seq![0usize] + newline_ends(bytes@, i as int),
        decreases bytes@.len() - i,
    {
        if bytes[i] == 10 {
            starts.push(i + 1);
            proof {
                assert(starts@ =~= seq![0usize] + newline_ends(bytes@, i + 1));
            }
        }
        i = i + 1;
    }
    starts
}

} // verus!
