//! The redraw tracker: replaces the last frame drawn with a new one.
use vstd::prelude::*;
use crate::ansi_seq::{AnsiSeq, EscapeStyle};
use crate::text::{chars_of, push_range};
use vstd::utf8::encode_utf8;

verus! {

/// Clears from the cursor to the end of its line.
pub const CLEAR_TIL_EOL: AnsiSeq = AnsiSeq::ClearCursorToEndOfLine;

/// Clears from the cursor to the end of the screen.
pub const CLEAR_TIL_EOF: AnsiSeq = AnsiSeq::ClearCursorToEndOfScreen;

/// Moves the cursor to the first column.
pub open spec fn jump_at_beginning() -> AnsiSeq {
    AnsiSeq::AbsoluteMove { horizontal: 0 }
}

/// Index of the first line break of `t`, or its length when it has none.
pub open spec fn first_break(t: Seq<char>) -> nat
    decreases t.len(),
{
    if t.len() == 0 {
        0
    } else if t[0] == '\n' {
        0
    } else {
        1 + first_break(t.drop_first())
    }
}

/// A line without the carriage return that ended it, if any.
pub open spec fn strip_cr(l: Seq<char>) -> Seq<char> {
    if l.len() > 0 && l.last() == '\r' {
        l.drop_last()
    } else {
        l
    }
}

/// The logical lines of `t`: split at each `\n` or `\r\n`; a final line
/// break ends the last line and does not start a new one.
#[verifier::opaque]
pub open spec fn lines_of(t: Seq<char>) -> Seq<Seq<char>>
    decreases t.len(),
{
    if t.len() == 0 {
        Seq::empty()
    } else {
        let i = first_break(t);
        if i < t.len() {
            seq![strip_cr(t.take(i as int))] + lines_of(t.skip((i + 1) as int))
        } else {
            seq![t]
        }
    }
}

/// Each line followed by a clear to the end of line, the lines joined by `\n`.
#[verifier::opaque]
pub open spec fn content(style: EscapeStyle, ls: Seq<Seq<char>>) -> Seq<char>
    decreases ls.len(),
{
    if ls.len() == 0 {
        Seq::empty()
    } else if ls.len() == 1 {
        ls[0] + CLEAR_TIL_EOL.spec_render(style)
    } else {
        content(style, ls.drop_last()) + seq!['\n'] + ls.last() + CLEAR_TIL_EOL.spec_render(style)
    }
}

/// What a frame of text `t` writes between the positioning and the final clear.
pub open spec fn frame_content(style: EscapeStyle, t: Seq<char>) -> Seq<char> {
    if t.len() == 0 {
        CLEAR_TIL_EOL.spec_render(style)
    } else {
        content(style, lines_of(t))
    }
}

/// The lengths of the lines of `ls`, in order.
pub open spec fn lengths(ls: Seq<Seq<char>>) -> Seq<nat> {
    Seq::new(ls.len(), |k: int| ls[k].len())
}

/// The profile remembered after drawing `t`: its line lengths, or one empty
/// line for an empty text.
pub open spec fn profile_of(t: Seq<char>) -> Seq<nat> {
    if t.len() == 0 {
        seq![0nat]
    } else {
        lengths(lines_of(t))
    }
}

/// Screen rows taken by lines of the given lengths at width `w`.
#[verifier::opaque]
pub open spec fn rows(p: Seq<nat>, w: nat) -> nat
    decreases p.len(),
{
    if p.len() == 0 {
        0
    } else {
        rows(p.drop_last(), w) + p.last() / w + 1
    }
}

/// Moves up `n` lines: one sequence, or several of at most 65535 lines each
/// when `n` does not fit in one.
pub open spec fn lines_up(style: EscapeStyle, n: nat) -> Seq<char>
    decreases n,
{
    if n <= 65535 {
        (AnsiSeq::MoveLines { up: n as u16, down: 0 }).spec_render(style)
    } else {
        (AnsiSeq::MoveLines { up: 65535, down: 0 }).spec_render(style) + lines_up(
            style,
            (n - 65535) as nat,
        )
    }
}

/// What moves the cursor back to the start of a block of `h` rows.
pub open spec fn positioning(style: EscapeStyle, h: nat) -> Seq<char> {
    if h == 0 {
        Seq::empty()
    } else if h == 1 {
        jump_at_beginning().spec_render(style)
    } else {
        jump_at_beginning().spec_render(style) + lines_up(style, (h - 1) as nat)
    }
}

/// The whole output that replaces a frame of profile `prev` by text `t`.
pub open spec fn frame(style: EscapeStyle, prev: Seq<nat>, t: Seq<char>, w: nat) -> Seq<char> {
    positioning(style, rows(prev, w)) + frame_content(style, t) + CLEAR_TIL_EOF.spec_render(style)
}

/// A destination for raw bytes: a terminal, a pipe, a file or memory.
pub trait Sink {
    /// Why a write failed.
    type Error;

    /// Whether this sink keeps a record, in `sent` and `last_failure`, of
    /// what its writes did. One that keeps none leaves this `false` and need
    /// define neither.
    open spec fn keeps_record(&self) -> bool {
        false
    }

    /// The bytes this sink has accepted so far; meaningful only where
    /// `keeps_record` holds.
    open spec fn sent(&self) -> Seq<u8> {
        Seq::empty()
    }

    /// The error of the last failed write; meaningful only where
    /// `keeps_record` holds.
    open spec fn last_failure(&self) -> Option<Self::Error> {
        None
    }

    /// Whether every write to this sink succeeds.
    open spec fn infallible(&self) -> bool {
        false
    }

    /// Writes all of `bytes`, or fails.
    fn write_all(&mut self, bytes: &[u8]) -> (r: Result<(), Self::Error>)
        ensures
            final(self).keeps_record() == old(self).keeps_record(),
            old(self).keeps_record() && r is Ok ==> final(self).sent() == old(self).sent() + bytes@,
            old(self).keeps_record() && r is Err ==> final(self).last_failure() == Some(r->Err_0),
            old(self).infallible() ==> r is Ok && final(self).infallible(),
    ;
}

impl Sink for Vec<u8> {
    type Error = ();

    open spec fn keeps_record(&self) -> bool {
        true
    }

    open spec fn sent(&self) -> Seq<u8> {
        self@
    }

    open spec fn infallible(&self) -> bool {
        true
    }

    /// Appends `bytes`; writing to memory never fails.
    fn write_all(&mut self, bytes: &[u8]) -> (r: Result<(), ()>)
        ensures
            r is Ok,
    {
        let mut i: usize = 0;
        while i < bytes.len()
            invariant
                i <= bytes@.len(),
                self@ == old(self)@ + bytes@.subrange(0, i as int),
            decreases bytes@.len() - i,
        {
            self.push(bytes[i]);
            i = i + 1;
            assert(self@ =~= old(self)@ + bytes@.subrange(0, i as int));
        }
        assert(bytes@.subrange(0, i as int) =~= bytes@);
        Ok(())
    }
}

/// Remembers the last frame drawn, to draw the next one over it.
#[derive(Debug)]
pub struct Body {
    buffer: Vec<usize>,
    style: EscapeStyle,
}

impl Default for Body {
    fn default() -> (r: Self)
        ensures
            r@ == Seq::<nat>::empty(),
            r.spec_style() == EscapeStyle::Control,
            r.wf(),
    {
        Body::new()
    }
}

impl View for Body {
    type V = Seq<nat>;

    /// The line lengths of the last frame drawn.
    closed spec fn view(&self) -> Seq<nat> {
        self.buffer@.map_values(|x: usize| x as nat)
    }
}

impl Body {
    /// How escape sequences are written.
    pub closed spec fn spec_style(&self) -> EscapeStyle {
        self.style
    }

    /// The remembered frame is small enough for its row count to fit in `usize`.
    pub open spec fn wf(&self) -> bool {
        rows(self@, 1) <= usize::MAX
    }

    /// A tracker with nothing drawn yet.
    pub fn with_style(style: EscapeStyle) -> (r: Self)
        ensures
            r@ == Seq::<nat>::empty(),
            r.spec_style() == style,
            r.wf(),
    {
        let r = Body { buffer: Vec::new(), style };
        proof {
            reveal(rows);
        }
        assert(r@ =~= Seq::<nat>::empty());
        r
    }

    /// A tracker with nothing drawn yet that writes real escape characters.
    pub fn new() -> (r: Self)
        ensures
            r@ == Seq::<nat>::empty(),
            r.spec_style() == EscapeStyle::Control,
            r.wf(),
    {
        Body::with_style(EscapeStyle::Control)
    }

    /// Draws `new_text` over the remembered frame, with one write to `write`.
    /// On success the new frame is remembered; on failure the remembered
    /// frame stays as it was and the error is handed back. A sink that
    /// cannot fail, such as a `Vec<u8>`, always gets the whole frame.
    pub fn overwrite<W: Sink>(&mut self, new_text: &str, write: &mut W, available_width: usize) -> (r:
        Result<(), W::Error>)
        requires
            old(self).wf(),
            available_width >= 1,
            new_text@.len() < usize::MAX,
        ensures
            final(self).wf(),
            final(self).spec_style() == old(self).spec_style(),
            old(write).infallible() ==> r is Ok,
            r is Ok ==> final(self)@ == profile_of(new_text@),
            r is Ok && old(write).keeps_record() ==> final(write).sent() == old(write).sent() + encode_utf8(
                frame(old(self).spec_style(), old(self)@, new_text@, available_width as nat),
            ),
            r is Err ==> final(self)@ == old(self)@,
            r is Err && old(write).keeps_record() ==> final(write).last_failure() == Some(r->Err_0),
    {
        let (out, next) = self.compose(new_text, available_width);
        match write.write_all(out.as_str().as_bytes()) {
            Ok(()) => {
                self.buffer = next;
                Ok(())
            },
            Err(e) => Err(e),
        }
    }

    /// Screen rows taken by the last frame at width `available_width`.
    pub fn guess_previous_body_height(&self, available_width: usize) -> (r: usize)
        requires
            self.wf(),
            available_width >= 1,
        ensures
            r == rows(self@, available_width as nat),
    {
        let ghost p = self@;
        let ghost w = available_width as nat;
        let mut lines: usize = 0;
        let mut i: usize = 0;
        proof {
            reveal(rows);
            lemma_rows_width(p, w);
            assert(p.take(0) =~= Seq::<nat>::empty());
        }
        while i < self.buffer.len()
            invariant
                p == self@,
                w == available_width,
                w >= 1,
                rows(p, 1) <= usize::MAX,
                rows(p, w) <= rows(p, 1),
                i <= p.len(),
                p.len() == self.buffer@.len(),
                lines == rows(p.take(i as int), w),
            decreases self.buffer.len() - i,
        {
            proof {
                reveal(rows);
                lemma_rows_prefix(p, w, i as nat + 1);
                assert(p.take(i + 1).drop_last() =~= p.take(i as int));
                assert(p[i as int] == self.buffer@[i as int] as nat);
            }
            lines = lines + self.buffer[i] / available_width + 1;
            i = i + 1;
        }
        assert(p.take(i as int) =~= p);
        lines
    }

    /// The output that draws `new_text` over the remembered frame at width
    /// `available_width`, and the profile to remember once it is written.
    pub fn compose(&self, new_text: &str, available_width: usize) -> (r: (String, Vec<usize>))
        requires
            self.wf(),
            available_width >= 1,
            new_text@.len() < usize::MAX,
        ensures
            r.0@ == frame(self.spec_style(), self@, new_text@, available_width as nat),
            r.1@.map_values(|x: usize| x as nat) == profile_of(new_text@),
            rows(profile_of(new_text@), 1) <= usize::MAX,
    {
        let style = self.style;
        let mut out = String::new();
        let h = self.guess_previous_body_height(available_width);
        push_positioning(&mut out, style, h);
        let next = push_content(&mut out, style, new_text);
        CLEAR_TIL_EOF.write_to(style, &mut out);
        assert(out@ =~= frame(style, self@, new_text@, available_width as nat));
        (out, next)
    }
}

/// Appends what moves the cursor back to the start of a block of `h` rows.
fn push_positioning(out: &mut String, style: EscapeStyle, h: usize)
    ensures
        final(out)@ == old(out)@ + positioning(style, h as nat),
{
    let jump = AnsiSeq::AbsoluteMove { horizontal: 0 };
    if h == 1 {
        jump.write_to(style, out);
    } else if h > 1 {
        jump.write_to(style, out);
        let ghost before = out@;
        let mut left: usize = h - 1;
        while left > 65535
            invariant
                before + lines_up(style, (h - 1) as nat) == out@ + lines_up(style, left as nat),
            decreases left,
        {
            let movement = AnsiSeq::MoveLines { up: 65535, down: 0 };
            let ghost mid = out@;
            movement.write_to(style, out);
            assert(mid + lines_up(style, left as nat) =~= out@ + lines_up(style, (left - 65535) as nat));
            left = left - 65535;
        }
        let movement = AnsiSeq::MoveLines { up: left as u16, down: 0 };
        movement.write_to(style, out);
        assert(before + lines_up(style, (h - 1) as nat) =~= out@);
    }
    assert(final(out)@ =~= old(out)@ + positioning(style, h as nat));
}

/// Appends one line of a frame, after a line break unless it is the first.
fn push_line(
    out: &mut String,
    next: &mut Vec<usize>,
    style: EscapeStyle,
    text: &Vec<char>,
    start: usize,
    end: usize,
    Ghost(done): Ghost<Seq<Seq<char>>>,
)
    requires
        start <= end <= text@.len(),
        old(next)@.map_values(|x: usize| x as nat) == lengths(done),
    ensures
        final(out)@ == old(out)@ + separator(done) + text@.subrange(start as int, end as int)
            + CLEAR_TIL_EOL.spec_render(style),
        content(style, done.push(text@.subrange(start as int, end as int))) == content(style, done)
            + separator(done) + text@.subrange(start as int, end as int) + CLEAR_TIL_EOL.spec_render(style),
        final(next)@.map_values(|x: usize| x as nat) == lengths(done.push(text@.subrange(start as int, end as int))),
        rows(lengths(done.push(text@.subrange(start as int, end as int))), 1) == rows(lengths(done), 1) + (end - start) + 1,
{
    let ghost line = text@.subrange(start as int, end as int);
    proof {
        lemma_push_line(style, done, line);
    }
    if next.len() > 0 {
        crate::text::push_char(out, '\n');
    }
    push_range(out, text, start, end);
    CLEAR_TIL_EOL.write_to(style, out);
    next.push(end - start);
    assert(final(next)@.map_values(|x: usize| x as nat) =~= lengths(done).push(line.len()));
}

/// The line break that goes before a line drawn after the lines `done`.
spec fn separator(done: Seq<Seq<char>>) -> Seq<char> {
    if done.len() > 0 {
        seq!['\n']
    } else {
        Seq::empty()
    }
}

/// Appends the lines of `text`, each followed by a clear to the end of line,
/// and returns their lengths.
fn push_content(out: &mut String, style: EscapeStyle, text: &str) -> (next: Vec<usize>)
    requires
        text@.len() < usize::MAX,
    ensures
        final(out)@ == old(out)@ + frame_content(style, text@),
        next@.map_values(|x: usize| x as nat) == profile_of(text@),
        rows(profile_of(text@), 1) <= usize::MAX,
{
    let chars = chars_of(text);
    let ghost t = text@;
    let mut next: Vec<usize> = Vec::new();
    let n = chars.len();
    if n == 0 {
        CLEAR_TIL_EOL.write_to(style, out);
        next.push(0);
        assert(next@.map_values(|x: usize| x as nat) =~= seq![0nat]);
        assert(seq![0nat].drop_last() =~= Seq::<nat>::empty());
        proof {
            reveal(rows);
            reveal_with_fuel(rows, 2);
        }
        return next;
    }
    let ghost mut done: Seq<Seq<char>> = Seq::empty();
    let mut start: usize = 0;
    let mut i: usize = 0;
    assert(t.skip(0) =~= t);
    assert(lengths(done) =~= Seq::<nat>::empty());
    assert(next@.map_values(|x: usize| x as nat) =~= Seq::<nat>::empty());
    proof {
        reveal(rows);
        reveal(content);
        assert(done + lines_of(t) =~= lines_of(t));
        assert(old(out)@ + content(style, done) =~= old(out)@);
    }
    while i < n
        invariant
            n == t.len(),
            t == text@,
            t == chars@,
            n < usize::MAX,
            start <= i <= n,
            forall|k: int| start <= k < i ==> t[k] != '\n',
            lines_of(t) == done + lines_of(t.skip(start as int)),
            out@ == old(out)@ + content(style, done),
            next@.map_values(|x: usize| x as nat) == lengths(done),
            rows(lengths(done), 1) <= start,
        decreases n - i,
    {
        let c = chars[i];
        if c == '\n' {
            let end: usize = if i > start && chars[i - 1] == '\r' {
                i - 1
            } else {
                i
            };
            let ghost line = t.subrange(start as int, end as int);
            proof {
                lemma_lines_step(t, start as int, i as int, end as int);
                lemma_append_line(done, line, lines_of(t.skip(i + 1)));
            }
            push_line(out, &mut next, style, &chars, start, end, Ghost(done));
            proof {
                done = done.push(line);
            }
            start = i + 1;
        }
        i = i + 1;
    }
    if start < n {
        proof {
            lemma_lines_last(t, start as int);
            assert(t.subrange(start as int, n as int) =~= t.skip(start as int));
        }
        push_line(out, &mut next, style, &chars, start, n, Ghost(done));
        proof {
            assert(done + seq![t.skip(start as int)] =~= done.push(t.skip(start as int)));
            done = done.push(t.skip(start as int));
        }
    } else {
        proof {
            reveal(lines_of);
            assert(t.skip(start as int) =~= Seq::<char>::empty());
            assert(done + Seq::<Seq<char>>::empty() =~= done);
        }
    }
    next
}

/// Appending a line to a frame's content and to its line lengths.
proof fn lemma_push_line(style: EscapeStyle, done: Seq<Seq<char>>, line: Seq<char>)
    ensures
        content(style, done.push(line)) == content(style, done) + separator(done) + line
            + CLEAR_TIL_EOL.spec_render(style),
        lengths(done.push(line)) == lengths(done).push(line.len()),
        rows(lengths(done.push(line)), 1) == rows(lengths(done), 1) + line.len() + 1,
{
    reveal(content);
    reveal(rows);
    assert(done.push(line).drop_last() =~= done);
    assert(lengths(done.push(line)) =~= lengths(done).push(line.len()));
    assert(lengths(done).push(line.len()).drop_last() =~= lengths(done));
    if done.len() == 0 {
        assert(content(style, done) =~= Seq::<char>::empty());
    }
    assert(content(style, done.push(line)) =~= content(style, done) + separator(done) + line
        + CLEAR_TIL_EOL.spec_render(style));
}

/// `first_break` finds the first line break.
proof fn lemma_first_break(u: Seq<char>, j: int)
    requires
        0 <= j <= u.len(),
        forall|k: int| 0 <= k < j ==> u[k] != '\n',
        j == u.len() || u[j] == '\n',
    ensures
        first_break(u) == j,
    decreases j,
{
    if j > 0 {
        lemma_first_break(u.drop_first(), j - 1);
    }
}

/// The lines of `t` from `start`, when a line break stands at `i`.
proof fn lemma_lines_step(t: Seq<char>, start: int, i: int, end: int)
    requires
        0 <= start <= i < t.len(),
        t[i] == '\n',
        forall|k: int| start <= k < i ==> t[k] != '\n',
        end == if i > start && t[i - 1] == '\r' { i - 1 } else { i },
    ensures
        lines_of(t.skip(start)) == seq![t.subrange(start, end)] + lines_of(t.skip(i + 1)),
{
    assert(strip_cr(t.subrange(start, i)) =~= t.subrange(start, end));
    reveal(lines_of);
    let u = t.skip(start);
    lemma_first_break(u, i - start);
    assert(u.take(i - start) =~= t.subrange(start, i));
    assert(u.skip(i - start + 1) =~= t.skip(i + 1));
}

/// Moving one line from the lines to come to the lines done.
proof fn lemma_append_line(done: Seq<Seq<char>>, line: Seq<char>, rest: Seq<Seq<char>>)
    ensures
        done + (seq![line] + rest) == done.push(line) + rest,
{
    assert(done + (seq![line] + rest) =~= done.push(line) + rest);
}

/// The lines of `t` from `start`, when no line break follows.
proof fn lemma_lines_last(t: Seq<char>, start: int)
    requires
        0 <= start < t.len(),
        forall|k: int| start <= k < t.len() ==> t[k] != '\n',
    ensures
        lines_of(t.skip(start)) == seq![t.skip(start)],
{
    reveal(lines_of);
    lemma_first_break(t.skip(start), t.len() - start);
}

/// Rows of a prefix are no more than rows of the whole.
proof fn lemma_rows_prefix(p: Seq<nat>, w: nat, k: nat)
    requires
        k <= p.len(),
        w >= 1,
    ensures
        rows(p.take(k as int), w) <= rows(p, w),
    decreases p.len(),
{
    reveal(rows);
    if k < p.len() {
        lemma_rows_prefix(p.drop_last(), w, k);
        assert(p.drop_last().take(k as int) =~= p.take(k as int));
    } else {
        assert(p.take(k as int) =~= p);
    }
}

/// A wider terminal takes no more rows.
proof fn lemma_rows_width(p: Seq<nat>, w: nat)
    requires
        w >= 1,
    ensures
        rows(p, w) <= rows(p, 1),
    decreases p.len(),
{
    reveal(rows);
    if p.len() > 0 {
        lemma_rows_width(p.drop_last(), w);
        assert(p.last() / w <= p.last()) by (nonlinear_arith)
            requires w >= 1;
    }
}

} // verus!
