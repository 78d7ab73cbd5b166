//! Terminal control operations and their escape sequences.
use vstd::prelude::*;
use crate::text::{decimal, push_char, push_decimal};

verus! {

/// How the escape character that opens every sequence is written.
#[derive(Copy, Clone, PartialEq, Eq, Debug, Hash)]
pub enum EscapeStyle {
    /// The control character ESC itself, as a terminal expects it.
    Control,
    /// The two printable characters `\e`, to read the output as text.
    Printable,
}

/// A shorthand builder for `AnsiSeq::Move`: four distances, zero by default.
#[derive(Default, Copy, Clone, PartialEq, Eq, Ord, PartialOrd, Hash, Debug)]
pub struct Movement {
    up: u16,
    down: u16,
    left: u16,
    right: u16,
}

impl Movement {
    /// Distance up.
    pub closed spec fn spec_up(self) -> u16 {
        self.up
    }

    /// Distance down.
    pub closed spec fn spec_down(self) -> u16 {
        self.down
    }

    /// Distance left.
    pub closed spec fn spec_left(self) -> u16 {
        self.left
    }

    /// Distance right.
    pub closed spec fn spec_right(self) -> u16 {
        self.right
    }

    /// The operation that this movement stands for.
    pub open spec fn spec_seq(self) -> AnsiSeq {
        AnsiSeq::Move {
            up: self.spec_up(),
            down: self.spec_down(),
            left: self.spec_left(),
            right: self.spec_right(),
        }
    }

    /// A movement of zero in every direction.
    pub fn new() -> (r: Self)
        ensures
            r.spec_up() == 0 && r.spec_down() == 0 && r.spec_left() == 0 && r.spec_right() == 0,
    {
        Movement { up: 0, down: 0, left: 0, right: 0 }
    }

    /// This movement with the distance up set to `up`.
    pub fn up(self, up: u16) -> (r: Self)
        ensures
            r.spec_up() == up,
            r.spec_down() == self.spec_down(),
            r.spec_left() == self.spec_left(),
            r.spec_right() == self.spec_right(),
    {
        Movement { up, ..self }
    }

    /// This movement with the distance down set to `down`.
    pub fn down(self, down: u16) -> (r: Self)
        ensures
            r.spec_up() == self.spec_up(),
            r.spec_down() == down,
            r.spec_left() == self.spec_left(),
            r.spec_right() == self.spec_right(),
    {
        Movement { down, ..self }
    }

    /// This movement with the distance right set to `right`.
    pub fn right(self, right: u16) -> (r: Self)
        ensures
            r.spec_up() == self.spec_up(),
            r.spec_down() == self.spec_down(),
            r.spec_left() == self.spec_left(),
            r.spec_right() == right,
    {
        Movement { right, ..self }
    }

    /// This movement with the distance left set to `left`.
    pub fn left(self, left: u16) -> (r: Self)
        ensures
            r.spec_up() == self.spec_up(),
            r.spec_down() == self.spec_down(),
            r.spec_left() == left,
            r.spec_right() == self.spec_right(),
    {
        Movement { left, ..self }
    }

    /// The rendering of this movement as a terminal reads it.
    pub fn to_string(&self) -> (r: String)
        ensures
            r@ == self.spec_seq().spec_render(EscapeStyle::Control),
    {
        AnsiSeq::from(self).to_string()
    }
}

impl From<&Movement> for AnsiSeq {
    fn from(value: &Movement) -> (r: AnsiSeq) {
        AnsiSeq::Move { up: value.up, down: value.down, left: value.left, right: value.right }
    }
}

impl vstd::std_specs::convert::FromSpecImpl<&Movement> for AnsiSeq {
    open spec fn obeys_from_spec() -> bool {
        true
    }

    open spec fn from_spec(value: &Movement) -> AnsiSeq {
        value.spec_seq()
    }
}

/// A terminal control operation.
#[derive(Copy, Clone, PartialEq, Eq, Ord, PartialOrd, Hash, Debug)]
pub enum AnsiSeq {
    /// Move in straight line. Applied in order: Up, Left, Down, Right.
    Move { up: u16, down: u16, left: u16, right: u16 },
    /// Move vertically to the beginning of lines. Applied in order: Up, Down.
    MoveLines { up: u16, down: u16 },
    /// Toggle off all styles.
    ResetStyle,
    /// Toggle on the underline style.
    Underline,
    /// Clear the part of the line on the right of the cursor.
    ClearCursorToEndOfLine,
    /// Clear the part of the line on the left of the cursor.
    ClearCursorToBeginningOfLine,
    /// Clear the line on which the cursor stands.
    ClearLine,
    /// Clear the terminal under the cursor.
    ClearCursorToEndOfScreen,
    /// Clear the terminal over the cursor.
    ClearCursorToBeginningOfScreen,
    /// Clear the whole terminal.
    ClearAllScreen,
    /// Show or hide the cursor.
    ShowAndHideCursor { show: bool },
    /// Set the cursor's column.
    AbsoluteMove { horizontal: u16 },
}

/// The control sequence introducer: the escape character, then `[`.
pub open spec fn introducer(style: EscapeStyle) -> Seq<char> {
    match style {
        EscapeStyle::Control => seq!['\u{1b}', '['],
        EscapeStyle::Printable => seq!['\\', 'e', '['],
    }
}

/// One sequence: the introducer followed by `code`.
pub open spec fn sequence(style: EscapeStyle, code: Seq<char>) -> Seq<char> {
    introducer(style) + code
}

/// A sequence with a count `n` and a final letter, or nothing when `n` is zero.
pub open spec fn counted(style: EscapeStyle, n: u16, letter: char) -> Seq<char> {
    if n == 0 {
        Seq::empty()
    } else {
        sequence(style, decimal(n as nat).push(letter))
    }
}

impl AnsiSeq {
    /// The text that renders this operation.
    pub open spec fn spec_render(self, style: EscapeStyle) -> Seq<char> {
        match self {
            AnsiSeq::Move { up, down, left, right } => counted(style, up, 'A') + counted(style, left, 'D')
                + counted(style, down, 'B') + counted(style, right, 'C'),
            AnsiSeq::MoveLines { up, down } => counted(style, up, 'F') + counted(style, down, 'E'),
            AnsiSeq::ResetStyle => sequence(style, seq!['0', 'm']),
            AnsiSeq::Underline => sequence(style, seq!['4', 'm']),
            AnsiSeq::ClearCursorToEndOfLine => sequence(style, seq!['0', 'K']),
            AnsiSeq::ClearCursorToBeginningOfLine => sequence(style, seq!['1', 'K']),
            AnsiSeq::ClearLine => sequence(style, seq!['2', 'K']),
            AnsiSeq::ClearCursorToEndOfScreen => sequence(style, seq!['0', 'J']),
            AnsiSeq::ClearCursorToBeginningOfScreen => sequence(style, seq!['1', 'J']),
            AnsiSeq::ClearAllScreen => sequence(style, seq!['2', 'J']),
            AnsiSeq::ShowAndHideCursor { show } => if show {
                sequence(style, seq!['?', '2', '5', 'h'])
            } else {
                sequence(style, seq!['?', '2', '5', 'l'])
            },
            AnsiSeq::AbsoluteMove { horizontal } => sequence(
                style,
                decimal(horizontal as nat).push('G'),
            ),
        }
    }

    /// Appends the rendering of this operation to `out`.
    pub fn write_to(&self, style: EscapeStyle, out: &mut String)
        ensures
            final(out)@ == old(out)@ + self.spec_render(style),
    {
        match *self {
            AnsiSeq::Move { up, down, left, right } => {
                push_counted(out, style, up, 'A');
                push_counted(out, style, left, 'D');
                push_counted(out, style, down, 'B');
                push_counted(out, style, right, 'C');
            },
            AnsiSeq::MoveLines { up, down } => {
                push_counted(out, style, up, 'F');
                push_counted(out, style, down, 'E');
            },
            AnsiSeq::ResetStyle => push_code(out, style, '0', 'm'),
            AnsiSeq::Underline => push_code(out, style, '4', 'm'),
            AnsiSeq::ClearCursorToEndOfLine => push_code(out, style, '0', 'K'),
            AnsiSeq::ClearCursorToBeginningOfLine => push_code(out, style, '1', 'K'),
            AnsiSeq::ClearLine => push_code(out, style, '2', 'K'),
            AnsiSeq::ClearCursorToEndOfScreen => push_code(out, style, '0', 'J'),
            AnsiSeq::ClearCursorToBeginningOfScreen => push_code(out, style, '1', 'J'),
            AnsiSeq::ClearAllScreen => push_code(out, style, '2', 'J'),
            AnsiSeq::ShowAndHideCursor { show } => {
                push_introducer(out, style);
                push_char(out, '?');
                push_char(out, '2');
                push_char(out, '5');
                push_char(out, if show { 'h' } else { 'l' });
            },
            AnsiSeq::AbsoluteMove { horizontal } => {
                push_introducer(out, style);
                push_decimal(out, horizontal);
                push_char(out, 'G');
            },
        }
        assert(final(out)@ =~= old(out)@ + self.spec_render(style));
    }

    /// The rendering of this operation in the given style.
    pub fn render(&self, style: EscapeStyle) -> (r: String)
        ensures
            r@ == self.spec_render(style),
    {
        let mut out = String::new();
        self.write_to(style, &mut out);
        assert(out@ =~= self.spec_render(style));
        out
    }

    /// The rendering of this operation as a terminal reads it.
    pub fn to_string(&self) -> (r: String)
        ensures
            r@ == self.spec_render(EscapeStyle::Control),
    {
        self.render(EscapeStyle::Control)
    }
}

/// Appends the introducer to `out`.
fn push_introducer(out: &mut String, style: EscapeStyle)
    ensures
        final(out)@ == old(out)@ + introducer(style),
{
    match style {
        EscapeStyle::Control => push_char(out, '\u{1b}'),
        EscapeStyle::Printable => {
            push_char(out, '\\');
            push_char(out, 'e');
        },
    }
    push_char(out, '[');
    assert(final(out)@ =~= old(out)@ + introducer(style));
}

/// Appends a sequence whose code is the two characters `a` and `b`.
fn push_code(out: &mut String, style: EscapeStyle, a: char, b: char)
    ensures
        final(out)@ == old(out)@ + sequence(style, seq![a, b]),
{
    push_introducer(out, style);
    push_char(out, a);
    push_char(out, b);
    assert(final(out)@ =~= old(out)@ + sequence(style, seq![a, b]));
}

/// Appends a counted sequence, or nothing when `n` is zero.
fn push_counted(out: &mut String, style: EscapeStyle, n: u16, letter: char)
    ensures
        final(out)@ == old(out)@ + counted(style, n, letter),
{
    if n > 0 {
        push_introducer(out, style);
        push_decimal(out, n);
        push_char(out, letter);
    }
    assert(final(out)@ =~= old(out)@ + counted(style, n, letter));
}

} // verus!
