//! The terminal model behind the live dashboard.  A `View` accumulates
//! output in a buffer and tracks the printed width of every line of the
//! previous draw, so a redraw can erase exactly those lines with
//! cursor-up/erase-line control sequences.  What is painted is a closed
//! set of render commands consumed by one interpreter; the surrounding
//! application hands the buffer to the real terminal.

use vstd::prelude::*;
use vstd::string::*;
use vstd::view::View as ViewTrait;
use crate::strfmt::{dec_digits, format_u64};

verus! {

/// A dashboard surface: a pending output buffer plus the line-width
/// bookkeeping that differential redraws need.
pub struct View {
    /// The terminal width, in columns.
    pub width: usize,
    /// The printed width of each completed line since the last reset.
    pub lines: Vec<usize>,
    /// The printed width of the current, uncompleted line.
    pub line: usize,
    /// Output not yet handed to the terminal.
    pub buffer: String,
}

/// One thing to paint.
pub enum RenderCmd {
    /// Plain text; advances the current line by its character count.
    Text(String),
    /// Ends the current line.
    Newline,
    /// Switches the foreground to an RGB color; zero printed width.
    SetColor(u8, u8, u8),
    /// Returns to the default color; zero printed width.
    ResetColor,
    /// A labelled progress bar: prefix, amount done, and total; fills
    /// the terminal width up to a cap and ends the line.
    ProgressBar(String, usize, usize),
}

/// The control sequence that switches the foreground color.
pub open spec fn color_code_spec(r: u8, g: u8, b: u8) -> Seq<char> {
    "\u{1b}[38;2;"@ + dec_digits(r as nat) + ";"@ + dec_digits(g as nat) + ";"@ + dec_digits(
        b as nat,
    ) + "m"@
}

/// `n` copies of `c` (none for negative `n`).
pub open spec fn repeat_spec(c: char, n: int) -> Seq<char> {
    if n <= 0 {
        Seq::empty()
    } else {
        Seq::new(n as nat, |i: int| c)
    }
}

/// How many cells the bar itself may fill: what the prefix leaves of
/// the width, capped at 70.
pub open spec fn bar_len_spec(width: int, prefix_len: int) -> int {
    if width - prefix_len < 70 {
        width - prefix_len
    } else {
        70
    }
}

/// The filled cells: `current/total` of the bar, rounded to nearest
/// (half away from zero), never beyond the bar.
pub open spec fn bar_pos_spec(current: int, total: int, len: int) -> int {
    let pos = (2 * current * len + total) / (2 * total);
    if pos > len {
        len
    } else {
        pos
    }
}

/// What one command appends to the buffer of a view of width `width`.
pub open spec fn emitted_spec(cmd: RenderCmd, width: int) -> Seq<char> {
    match cmd {
        RenderCmd::Text(s) => s@,
        RenderCmd::Newline => "\n"@,
        RenderCmd::SetColor(r, g, b) => color_code_spec(r, g, b),
        RenderCmd::ResetColor => "\u{1b}[0m"@,
        RenderCmd::ProgressBar(p, c, t) => {
            let len = bar_len_spec(width, p@.len() as int);
            let pos = bar_pos_spec(c as int, t as int, len);
            p@ + color_code_spec(137, 114, 186) + repeat_spec('#', pos) + color_code_spec(
                119,
                116,
                125,
            ) + repeat_spec('-', len - pos) + "\u{1b}[0m"@ + "\n"@
        },
    }
}

/// Column arithmetic that stops at the machine bound instead of
/// wrapping: the column count is cosmetic and must never fault.
pub open spec fn sat_add(a: int, b: int) -> int {
    if a + b <= usize::MAX {
        a + b
    } else {
        usize::MAX as int
    }
}

/// The printed width of the current line after one command.
pub open spec fn line_after_spec(cmd: RenderCmd, line: int) -> int {
    match cmd {
        RenderCmd::Text(s) => sat_add(line, s@.len() as int),
        RenderCmd::Newline => 0,
        RenderCmd::SetColor(r, g, b) => line,
        RenderCmd::ResetColor => line,
        RenderCmd::ProgressBar(p, c, t) => 0,
    }
}

/// The completed-line widths after one command.
pub open spec fn lines_after_spec(
    cmd: RenderCmd,
    width: usize,
    lines: Seq<usize>,
    line: usize,
) -> Seq<usize> {
    match cmd {
        RenderCmd::Newline => lines.push(line),
        RenderCmd::ProgressBar(p, c, t) => lines.push(
            sat_add(sat_add(line as int, p@.len() as int), bar_len_spec(
                width as int,
                p@.len() as int,
            )) as usize,
        ),
        _ => lines,
    }
}

/// When a command may be applied: a bar needs a positive total and a
/// prefix that fits the width.
pub open spec fn can_apply(cmd: RenderCmd, width: usize, line: usize) -> bool {
    match cmd {
        RenderCmd::ProgressBar(p, c, t) => p@.len() <= width && t > 0,
        _ => true,
    }
}

/// The full effect of one command on a view.
pub open spec fn applied(pre: View, post: View, cmd: RenderCmd) -> bool {
    &&& post.width == pre.width
    &&& post.buffer@ == pre.buffer@ + emitted_spec(cmd, pre.width as int)
    &&& post.line == line_after_spec(cmd, pre.line as int)
    &&& post.lines@ == lines_after_spec(cmd, pre.width, pre.lines@, pre.line)
}

/// The erase/cursor-up sequence that takes the cursor back over
/// `count` drawn lines: an erase-line for each, a cursor-up between.
pub open spec fn rewind_spec(count: nat) -> Seq<char>
    decreases count,
{
    if count <= 1 {
        "\u{1b}[0K"@
    } else {
        "\u{1b}[0K\u{1b}[1A"@ + rewind_spec((count - 1) as nat)
    }
}

fn rewind_codes(count: usize) -> (r: String)
    ensures
        r@ == rewind_spec(count as nat),
    decreases count,
{
    if count <= 1 {
        "\u{1b}[0K".to_owned()
    } else {
        let mut s = "\u{1b}[0K\u{1b}[1A".to_owned();
        let rest = rewind_codes(count - 1);
        s.append(rest.as_str());
        s
    }
}

/// `n` copies of `c`.
pub fn repeat_char(c: char, n: usize) -> (r: String)
    ensures
        r@ == repeat_spec(c, n as int),
{
    let mut s = String::new();
    let mut i: usize = 0;
    while i < n
        invariant
            i <= n,
            s@ == repeat_spec(c, i as int),
        decreases n - i,
    {
        s.push(c);
        proof {
            assert(s@ =~= repeat_spec(c, (i + 1) as int));
        }
        i = i + 1;
    }
    s
}

/// The color control sequence for one RGB triple.
pub fn color_code(r: u8, g: u8, b: u8) -> (s: String)
    ensures
        s@ == color_code_spec(r, g, b),
{
    let mut s = "\u{1b}[38;2;".to_owned();
    let rd = format_u64(r as u64);
    s.append(rd.as_str());
    s.append(";");
    let gd = format_u64(g as u64);
    s.append(gd.as_str());
    s.append(";");
    let bd = format_u64(b as u64);
    s.append(bd.as_str());
    s.append("m");
    proof {
        assert(s@ =~= color_code_spec(r, g, b));
    }
    s
}

/// Saturating additions collapse: adding in two steps is adding the sum
/// in one.
pub proof fn lemma_sat_add_chain(a: int, b: int, c: int)
    requires
        0 <= a,
        0 <= b,
        0 <= c,
    ensures
        sat_add(sat_add(a, b), c) == sat_add(a, b + c),
{
}

impl View {
    /// A fresh surface for a terminal of the given width.  The width is
    /// measured by the surrounding application; everything else starts
    /// empty.
    pub fn new(width: usize) -> (r: View)
        ensures
            r.width == width,
            r.lines@.len() == 0,
            r.line == 0,
            r.buffer@.len() == 0,
    {
        View { width, lines: Vec::new(), line: 0, buffer: String::new() }
    }

    /// The terminal width, in columns.
    pub fn width(&self) -> (r: usize)
        ensures
            r == self.width,
    {
        self.width
    }

    /// Hands the pending output over (the application writes it to the
    /// terminal) and leaves the buffer empty.
    pub fn take_output(&mut self) -> (r: String)
        ensures
            r@ == old(self).buffer@,
            final(self).buffer@.len() == 0,
            final(self).width == old(self).width,
            final(self).lines@ == old(self).lines@,
            final(self).line == old(self).line,
    {
        let out = self.buffer.clone();
        self.buffer = String::new();
        out
    }

    /// Forgets the drawn-line bookkeeping: the next rewind will erase
    /// nothing drawn before this point.
    pub fn reset(&mut self)
        ensures
            final(self).lines@.len() == 0,
            final(self).line == 0,
            final(self).buffer@ == old(self).buffer@,
            final(self).width == old(self).width,
    {
        self.line = 0;
        self.lines = Vec::new();
    }

    /// Appends `data`, which fills `size` columns of the current line.
    pub fn print(&mut self, data: &str, size: usize)
        ensures
            final(self).buffer@ == old(self).buffer@ + data@,
            final(self).line == sat_add(old(self).line as int, size as int),
            final(self).lines@ == old(self).lines@,
            final(self).width == old(self).width,
    {
        self.buffer.append(data);
        self.line = if usize::MAX - size < self.line {
            usize::MAX
        } else {
            self.line + size
        };
    }

    /// Ends the current line and records its printed width.
    pub fn newline(&mut self)
        ensures
            final(self).buffer@ == old(self).buffer@ + "\n"@,
            final(self).lines@ == old(self).lines@.push(old(self).line),
            final(self).line == 0,
            final(self).width == old(self).width,
    {
        self.buffer.append("\n");
        self.lines.push(self.line);
        self.line = 0;
    }

    /// Erases every line drawn since the last reset (and the current
    /// one), moving the cursor back to where that draw began, and
    /// forgets the bookkeeping.
    pub fn rewind(&mut self)
        ensures
            final(self).buffer@ == old(self).buffer@ + rewind_spec(
                sat_add(old(self).lines@.len() as int, 1) as nat,
            ),
            final(self).lines@.len() == 0,
            final(self).line == 0,
            final(self).width == old(self).width,
    {
        let count = if self.lines.len() == usize::MAX {
            usize::MAX
        } else {
            self.lines.len() + 1
        };
        let codes = rewind_codes(count);
        self.buffer.append(codes.as_str());
        self.reset();
    }

    /// The one interpreter of render commands.
    #[verifier::rlimit(60)]
    pub fn apply(&mut self, cmd: &RenderCmd)
        requires
            can_apply(*cmd, old(self).width, old(self).line),
        ensures
            applied(*old(self), *final(self), *cmd),
    {
        match cmd {
            RenderCmd::Text(s) => {
                let n = s.as_str().unicode_len();
                self.print(s.as_str(), n);
            },
            RenderCmd::Newline => {
                self.newline();
            },
            RenderCmd::SetColor(r, g, b) => {
                let code = color_code(*r, *g, *b);
                self.print(code.as_str(), 0);
            },
            RenderCmd::ResetColor => {
                self.print("\u{1b}[0m", 0);
            },
            RenderCmd::ProgressBar(p, current, total) => {
                let ghost pre = *self;
                let prefix_len = p.as_str().unicode_len();
                let avail = self.width - prefix_len;
                let len: usize = if avail < 70 {
                    avail
                } else {
                    70
                };
                proof {
                    let c = *current as int;
                    let l = len as int;
                    let t = *total as int;
                    assert(0 <= 2 * c * l + t <= u128::MAX) by (nonlinear_arith)
                        requires
                            0 <= c <= usize::MAX as int,
                            0 <= l <= 70,
                            0 <= t <= usize::MAX as int,
                    ;
                }
                let num: u128 = 2 * (*current as u128) * (len as u128) + (*total as u128);
                let den: u128 = 2 * (*total as u128);
                let pos128: u128 = num / den;
                let pos: usize = if pos128 > (len as u128) {
                    len
                } else {
                    pos128 as usize
                };
                proof {
                    assert(len as int == bar_len_spec(pre.width as int, p@.len() as int));
                    assert(pos as int == bar_pos_spec(*current as int, *total as int, len as int));
                }
                self.print(p.as_str(), prefix_len);
                let c1 = color_code(137, 114, 186);
                self.print(c1.as_str(), 0);
                let filled = repeat_char('#', pos);
                self.print(filled.as_str(), pos);
                let c2 = color_code(119, 116, 125);
                self.print(c2.as_str(), 0);
                let empty_part = repeat_char('-', len - pos);
                self.print(empty_part.as_str(), len - pos);
                self.print("\u{1b}[0m", 0);
                self.newline();
                proof {
                    assert(repeat_spec('#', pos as int).len() == pos as int);
                    assert(repeat_spec('-', len - pos as int).len() == len - pos as int);
                    assert(self.buffer@ =~= pre.buffer@ + emitted_spec(*cmd, pre.width as int));
                    assert(self.lines@ =~= pre.lines@.push(
                        sat_add(sat_add(pre.line as int, p@.len() as int), bar_len_spec(
                            pre.width as int,
                            p@.len() as int,
                        )) as usize,
                    ));
                }
            },
        }
    }
}

/// Something that knows how to paint itself onto a view: it stands for
/// one render command and painting applies that command.
pub trait Viewable {
    /// The command this value stands for.
    spec fn as_cmd(&self) -> RenderCmd;

    fn paint(&self, v: &mut View)
        requires
            can_apply(self.as_cmd(), old(v).width, old(v).line),
        ensures
            applied(*old(v), *final(v), self.as_cmd()),
    ;
}

impl Viewable for RenderCmd {
    open spec fn as_cmd(&self) -> RenderCmd {
        *self
    }

    fn paint(&self, v: &mut View) {
        v.apply(self);
    }
}

impl Viewable for String {
    open spec fn as_cmd(&self) -> RenderCmd {
        RenderCmd::Text(*self)
    }

    fn paint(&self, v: &mut View) {
        v.apply(&RenderCmd::Text(self.clone()));
    }
}

/// Ends the current line.
pub fn newline() -> (r: RenderCmd)
    ensures
        r == RenderCmd::Newline,
{
    RenderCmd::Newline
}

/// Returns to the default foreground color.
pub fn default_color() -> (r: RenderCmd)
    ensures
        r == RenderCmd::ResetColor,
{
    RenderCmd::ResetColor
}

/// Switches the foreground to an RGB color.
pub fn color(r: u8, g: u8, b: u8) -> (c: RenderCmd)
    ensures
        c == RenderCmd::SetColor(r, g, b),
{
    RenderCmd::SetColor(r, g, b)
}

/// A labelled progress bar showing `current` of `total`.
pub fn progress_bar(prefix: &str, current: usize, total: usize) -> (c: RenderCmd)
    ensures
        c is ProgressBar,
        c->ProgressBar_0@ == prefix@,
        c->ProgressBar_1 == current,
        c->ProgressBar_2 == total,
{
    RenderCmd::ProgressBar(prefix.to_owned(), current, total)
}

} // verus!
