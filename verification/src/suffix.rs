//! The width suffix of a literal, and the suggested replacement that keeps it.
use vstd::prelude::*;
use crate::scan::SUFFIX_MARK;

verus! {

/// The first index at or after `from` that holds the suffix mark, or the
/// length of the text when there is none.
pub open spec fn suffix_from(text: Seq<u8>, from: int) -> int
    decreases text.len() - from,
{
    if from < 0 || from >= text.len() || text[from] == SUFFIX_MARK {
        from
    } else {
        suffix_from(text, from + 1)
    }
}

/// Where the width suffix of a literal starts: at its first suffix mark, or
/// at the end of a text that has none.
pub open spec fn suffix_start(text: Seq<u8>) -> int {
    suffix_from(text, 0)
}

/// The width suffix as written, from its mark to the end of the text; empty
/// where the literal has none.
pub open spec fn width_suffix(text: Seq<u8>) -> Seq<u8> {
    text.skip(suffix_start(text))
}

/// The literal without its width suffix.
pub open spec fn unsuffixed(text: Seq<u8>) -> Seq<u8> {
    text.take(suffix_start(text))
}

/// The replacement for the literal `text`: the minimal text, followed by the
/// suffix of `text` where it has one.
pub open spec fn suggestion_for(text: Seq<u8>, minimal: Seq<u8>) -> Seq<u8> {
    minimal + width_suffix(text)
}

/// The suffix starts within the text, no mark stands before it, and the mark
/// stands at it unless the text has no suffix.
pub proof fn lemma_suffix_from(text: Seq<u8>, from: int)
    requires
        0 <= from <= text.len(),
    ensures
        from <= suffix_from(text, from) <= text.len(),
        forall|j: int| from <= j < suffix_from(text, from) ==> #[trigger] text[j] != SUFFIX_MARK,
        suffix_from(text, from) < text.len() ==> text[suffix_from(text, from)] == SUFFIX_MARK,
    decreases text.len() - from,
{
    if from < text.len() && text[from] != SUFFIX_MARK {
        lemma_suffix_from(text, from + 1);
    }
}

/// An index with no mark before it, and with the mark or the end of the text
/// at it, is where the suffix starts.
pub proof fn lemma_suffix_from_unique(text: Seq<u8>, from: int, start: int)
    requires
        0 <= from <= start <= text.len(),
        forall|j: int| from <= j < start ==> #[trigger] text[j] != SUFFIX_MARK,
        start < text.len() ==> text[start] == SUFFIX_MARK,
    ensures
        suffix_from(text, from) == start,
    decreases start - from,
{
    if from < start {
        lemma_suffix_from_unique(text, from + 1, start);
    }
}

/// Finds where the width suffix of a literal starts.
pub fn find_suffix_start(text: &[u8]) -> (start: usize)
    ensures
        start as int == suffix_start(text@),
        start <= text@.len(),
{
    let mut i: usize = 0;
    while i < text.len() && text[i] != SUFFIX_MARK
        invariant
            i <= text@.len(),
            suffix_from(text@, 0) == suffix_from(text@, i as int),
        decreases text@.len() - i,
    {
        i += 1;
    }
    i
}

/// Appends the bytes of `text` from `from` up to `to` to `out`.
pub(crate) fn append_range(out: &mut Vec<u8>, text: &[u8], from: usize, to: usize)
    requires
        from <= to <= text@.len(),
    ensures
        final(out)@ == old(out)@ + text@.subrange(from as int, to as int),
{
    let mut i: usize = from;
    while i < to
        invariant
            from <= i <= to <= text@.len(),
            out@ == old(out)@ + text@.subrange(from as int, i as int),
        decreases to - i,
    {
        out.push(text[i]);
        i += 1;
        proof {
            assert(out@ =~= old(out)@ + text@.subrange(from as int, i as int));
        }
    }
}

/// Tests whether a literal carries a width suffix.
pub fn has_width_suffix(text: &[u8]) -> (r: bool)
    ensures
        r == (width_suffix(text@).len() > 0),
{
    find_suffix_start(text) < text.len()
}

/// Composes the replacement for the literal `text` from the minimal text of
/// its value: the width suffix of `text`, if it has one, is put behind the
/// minimal text; nothing else of `text` is kept.
pub fn render_suggestion(text: &[u8], minimal: &[u8]) -> (out: Vec<u8>)
    ensures
        out@ == suggestion_for(text@, minimal@),
{
    let start: usize = find_suffix_start(text);
    let mut out: Vec<u8> = Vec::new();
    append_range(&mut out, minimal, 0, minimal.len());
    append_range(&mut out, text, start, text.len());
    proof {
        assert(minimal@.subrange(0, minimal@.len() as int) =~= minimal@);
        assert(text@.subrange(start as int, text@.len() as int) =~= width_suffix(text@));
    }
    out
}

} // verus!
