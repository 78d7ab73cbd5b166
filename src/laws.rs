//! Properties that hold across calls of the redraw tracker.
use vstd::prelude::*;
use crate::ansi_seq::EscapeStyle;
use crate::body::{
    frame, lines_of, positioning, rows, content, first_break, Body, CLEAR_TIL_EOF, CLEAR_TIL_EOL,
};

verus! {

/// On the first call, a single line shorter than the width is written as
/// itself, a clear to the end of line and a clear to the end of screen, with
/// no cursor movement before it.
pub proof fn lemma_first_frame_single_line(style: EscapeStyle, t: Seq<char>, w: nat)
    requires
        t.len() > 0,
        t.len() < w,
        forall|k: int| 0 <= k < t.len() ==> t[k] != '\n',
    ensures
        frame(style, Seq::empty(), t, w) == t + CLEAR_TIL_EOL.spec_render(style)
            + CLEAR_TIL_EOF.spec_render(style),
{
    reveal(rows);
    reveal(content);
    reveal(lines_of);
    lemma_no_break(t, 0);
    assert(t.skip(0) =~= t);
    assert(first_break(t) == t.len());
    assert(lines_of(t) == seq![t]);
    assert(positioning(style, 0) =~= Seq::<char>::empty());
    assert(frame(style, Seq::empty(), t, w) =~= t + CLEAR_TIL_EOL.spec_render(style)
        + CLEAR_TIL_EOF.spec_render(style));
}

/// A remembered single line of length `l` takes `l / w + 1` rows at width `w`.
pub proof fn lemma_single_line_height(l: nat, w: nat)
    requires
        w >= 1,
    ensures
        rows(seq![l], w) == l / w + 1,
{
    reveal(rows);
    reveal_with_fuel(rows, 2);
    assert(seq![l].drop_last() =~= Seq::<nat>::empty());
}

/// Drawing an empty text over a frame that was drawn writes only the move
/// back over that frame's rows, a clear to the end of line and a clear to the
/// end of screen; the move is there, since the frame takes at least one row.
pub proof fn lemma_empty_frame_after_draw(style: EscapeStyle, p: Seq<nat>, w: nat)
    requires
        p.len() > 0,
        w >= 1,
    ensures
        rows(p, w) >= 1,
        positioning(style, rows(p, w)).len() > 0,
        frame(style, p, Seq::empty(), w) == positioning(style, rows(p, w))
            + CLEAR_TIL_EOL.spec_render(style) + CLEAR_TIL_EOF.spec_render(style),
{
    reveal(rows);
}

/// A failed call keeps the remembered frame, so the next call writes exactly
/// what it would have written had the failed call never been made.
pub proof fn lemma_failed_overwrite_keeps_baseline(before: Body, after: Body, t: Seq<char>, w: nat)
    requires
        after@ == before@,
        after.spec_style() == before.spec_style(),
    ensures
        frame(after.spec_style(), after@, t, w) == frame(before.spec_style(), before@, t, w),
        rows(after@, w) == rows(before@, w),
{
}

/// A text with no line break from `start` on has no break before its end there.
proof fn lemma_no_break(t: Seq<char>, start: int)
    requires
        0 <= start <= t.len(),
        forall|k: int| start <= k < t.len() ==> t[k] != '\n',
    ensures
        first_break(t.skip(start)) == t.len() - start,
    decreases t.len() - start,
{
    if start < t.len() {
        lemma_no_break(t, start + 1);
        assert(t.skip(start).drop_first() =~= t.skip(start + 1));
    }
}

} // verus!
