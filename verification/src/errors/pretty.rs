//! Pretty error formatting: colors, drawing characters, and boxed messages.

pub mod colors;

use vstd::prelude::*;
use super::{Diagnostic, DiagnosticLevel};
use crate::text::{
    byte_len, lines_of, lines_seq, push_char, push_repeat, push_str, repeat_seq, str_byte_len,
    string_of,
};

verus! {

/// Style configuration for error output.
pub struct ErrorStyle {
    pub use_color: bool,
    pub use_unicode: bool,
    pub compact: bool,
}

impl Default for ErrorStyle {
    fn default() -> (s: Self)
        ensures
            s.use_color,
            s.use_unicode,
            !s.compact,
    {
        ErrorStyle { use_color: true, use_unicode: true, compact: false }
    }
}

pub open spec fn level_name(level: DiagnosticLevel) -> Seq<char> {
    match level {
        DiagnosticLevel::Error => "error"@,
        DiagnosticLevel::Warning => "warning"@,
        DiagnosticLevel::Info => "info"@,
        DiagnosticLevel::Help => "help"@,
    }
}

pub open spec fn level_color(level: DiagnosticLevel) -> Seq<char> {
    match level {
        DiagnosticLevel::Error => colors::BRIGHT_RED@,
        DiagnosticLevel::Warning => colors::BRIGHT_YELLOW@,
        DiagnosticLevel::Info => colors::BRIGHT_CYAN@,
        DiagnosticLevel::Help => colors::BRIGHT_GREEN@,
    }
}

/// `BOLD` then `color` when colors are on, nothing otherwise.
pub open spec fn bold_start(use_color: bool, color: Seq<char>) -> Seq<char> {
    if use_color {
        colors::BOLD@ + color
    } else {
        Seq::empty()
    }
}

/// `RESET` when colors are on, nothing otherwise.
pub open spec fn reset_end(use_color: bool) -> Seq<char> {
    if use_color {
        colors::RESET@
    } else {
        Seq::empty()
    }
}

fn bold_with(color: &str) -> (s: String)
    ensures
        s@ == colors::BOLD@ + color@,
{
    let mut s = string_of(colors::BOLD);
    push_str(&mut s, color);
    s
}

impl ErrorStyle {
    /// The level's name, and the escape sequences that open and close it.
    pub fn level_style(&self, level: DiagnosticLevel) -> (r: (&'static str, String, &'static str))
        ensures
            r.0@ == level_name(level),
            r.1@ == bold_start(self.use_color, level_color(level)),
            r.2@ == reset_end(self.use_color),
    {
        proof {
            reveal_strlit("");
        }
        if !self.use_color {
            return match level {
                DiagnosticLevel::Error => ("error", String::new(), ""),
                DiagnosticLevel::Warning => ("warning", String::new(), ""),
                DiagnosticLevel::Info => ("info", String::new(), ""),
                DiagnosticLevel::Help => ("help", String::new(), ""),
            };
        }
        match level {
            DiagnosticLevel::Error => ("error", bold_with(colors::BRIGHT_RED), colors::RESET),
            DiagnosticLevel::Warning => (
                "warning",
                bold_with(colors::BRIGHT_YELLOW),
                colors::RESET,
            ),
            DiagnosticLevel::Info => ("info", bold_with(colors::BRIGHT_CYAN), colors::RESET),
            DiagnosticLevel::Help => ("help", bold_with(colors::BRIGHT_GREEN), colors::RESET),
        }
    }

    /// The style for file paths.
    pub fn path_style(&self) -> (r: (String, &'static str))
        ensures
            r.0@ == bold_start(self.use_color, colors::BLUE@),
            r.1@ == reset_end(self.use_color),
    {
        proof {
            reveal_strlit("");
        }
        if self.use_color {
            (bold_with(colors::BLUE), colors::RESET)
        } else {
            (String::new(), "")
        }
    }

    /// The style for line numbers.
    pub fn line_number_style(&self) -> (r: (&'static str, &'static str))
        ensures
            r.0@ == (if self.use_color {
                colors::BLUE@
            } else {
                Seq::empty()
            }),
            r.1@ == reset_end(self.use_color),
    {
        proof {
            reveal_strlit("");
        }
        if self.use_color {
            (colors::BLUE, colors::RESET)
        } else {
            ("", "")
        }
    }

    /// The style for error underlining.
    pub fn error_style(&self) -> (r: (String, &'static str))
        ensures
            r.0@ == bold_start(self.use_color, colors::BRIGHT_RED@),
            r.1@ == reset_end(self.use_color),
    {
        proof {
            reveal_strlit("");
        }
        if self.use_color {
            (bold_with(colors::BRIGHT_RED), colors::RESET)
        } else {
            (String::new(), "")
        }
    }

    /// The style for notes.
    pub fn note_style(&self) -> (r: (String, &'static str))
        ensures
            r.0@ == bold_start(self.use_color, colors::BRIGHT_CYAN@),
            r.1@ == reset_end(self.use_color),
    {
        proof {
            reveal_strlit("");
        }
        if self.use_color {
            (bold_with(colors::BRIGHT_CYAN), colors::RESET)
        } else {
            (String::new(), "")
        }
    }

    /// The style for suggestions.
    pub fn suggestion_style(&self) -> (r: (String, &'static str))
        ensures
            r.0@ == bold_start(self.use_color, colors::BRIGHT_GREEN@),
            r.1@ == reset_end(self.use_color),
    {
        proof {
            reveal_strlit("");
        }
        if self.use_color {
            (bold_with(colors::BRIGHT_GREEN), colors::RESET)
        } else {
            (String::new(), "")
        }
    }

    /// The style for dimmed context.
    pub fn dim_style(&self) -> (r: (&'static str, &'static str))
        ensures
            r.0@ == (if self.use_color {
                colors::DIM@
            } else {
                Seq::empty()
            }),
            r.1@ == reset_end(self.use_color),
    {
        proof {
            reveal_strlit("");
        }
        if self.use_color {
            (colors::DIM, colors::RESET)
        } else {
            ("", "")
        }
    }

    /// Unicode or ASCII characters for drawing.
    pub fn get_chars(&self) -> (c: DrawingChars)
        ensures
            c@ == (if self.use_unicode {
                unicode_chars()
            } else {
                ascii_chars()
            }),
    {
        if self.use_unicode {
            DrawingChars::unicode()
        } else {
            DrawingChars::ascii()
        }
    }
}

/// Characters used for drawing error indicators.
pub struct DrawingChars {
    pub vertical: &'static str,
    pub horizontal: &'static str,
    pub top_left: &'static str,
    pub arrow: &'static str,
    pub pointer_start: &'static str,
    pub pointer_line: &'static str,
}

pub ghost struct DrawingCharsView {
    pub vertical: Seq<char>,
    pub horizontal: Seq<char>,
    pub top_left: Seq<char>,
    pub arrow: Seq<char>,
    pub pointer_start: Seq<char>,
    pub pointer_line: Seq<char>,
}

impl View for DrawingChars {
    type V = DrawingCharsView;

    open spec fn view(&self) -> DrawingCharsView {
        DrawingCharsView {
            vertical: self.vertical@,
            horizontal: self.horizontal@,
            top_left: self.top_left@,
            arrow: self.arrow@,
            pointer_start: self.pointer_start@,
            pointer_line: self.pointer_line@,
        }
    }
}

pub open spec fn unicode_chars() -> DrawingCharsView {
    DrawingCharsView {
        vertical: "│"@,
        horizontal: "─"@,
        top_left: "┌"@,
        arrow: "→"@,
        pointer_start: "^"@,
        pointer_line: "─"@,
    }
}

pub open spec fn ascii_chars() -> DrawingCharsView {
    DrawingCharsView {
        vertical: "|"@,
        horizontal: "-"@,
        top_left: "+"@,
        arrow: "->"@,
        pointer_start: "^"@,
        pointer_line: "~"@,
    }
}

impl DrawingChars {
    pub fn unicode() -> (c: Self)
        ensures
            c@ == unicode_chars(),
    {
        DrawingChars {
            vertical: "│",
            horizontal: "─",
            top_left: "┌",
            arrow: "→",
            pointer_start: "^",
            pointer_line: "─",
        }
    }

    pub fn ascii() -> (c: Self)
        ensures
            c@ == ascii_chars(),
    {
        DrawingChars {
            vertical: "|",
            horizontal: "-",
            top_left: "+",
            arrow: "->",
            pointer_start: "^",
            pointer_line: "~",
        }
    }
}

/// The headline of a diagnostic: its level and its message, styled.
pub open spec fn headline(level: DiagnosticLevel, message: Seq<char>, use_color: bool) -> Seq<
    char,
> {
    if use_color {
        bold_start(true, level_color(level)) + level_name(level) + colors::RESET@ + ": "@
            + colors::BOLD@ + message + colors::RESET@
    } else {
        level_name(level) + ": "@ + message
    }
}

/// Format a diagnostic's headline with colors and formatting.
pub fn format_diagnostic(diagnostic: &Diagnostic, style: &ErrorStyle) -> (r: String)
    ensures
        r@ == headline(diagnostic.level, diagnostic.message@, style.use_color),
{
    let (level_text, level_start, level_end) = style.level_style(diagnostic.level);
    let mut output = String::new();
    if style.use_color {
        push_str(&mut output, level_start.as_str());
        push_str(&mut output, level_text);
        push_str(&mut output, level_end);
        push_str(&mut output, ": ");
        push_str(&mut output, colors::BOLD);
        push_str(&mut output, diagnostic.message.as_str());
        push_str(&mut output, colors::RESET);
    } else {
        push_str(&mut output, level_text);
        push_str(&mut output, ": ");
        push_str(&mut output, diagnostic.message.as_str());
    }
    output
}

// ---------------------------------------------------------------------------
// Boxed messages
// ---------------------------------------------------------------------------

/// The longest byte length among `lines` (0 for none).
pub open spec fn max_byte_len(lines: Seq<Seq<char>>) -> nat
    decreases lines.len(),
{
    if lines.len() == 0 {
        0
    } else {
        let rest = max_byte_len(lines.drop_last());
        let last = byte_len(lines.last());
        if last >= rest {
            last
        } else {
            rest
        }
    }
}

/// The inner width of a box: the widest content line, and at least the
/// title's length plus four.
pub open spec fn box_width(title: Seq<char>, content: Seq<char>) -> nat {
    let widest = max_byte_len(lines_seq(content));
    let for_title = byte_len(title) + 4;
    if widest >= for_title {
        widest
    } else {
        for_title
    }
}

/// `line` left-aligned in a field of `width` characters.
pub open spec fn pad_right(line: Seq<char>, width: nat) -> Seq<char> {
    if line.len() < width {
        line + repeat_seq(" "@, (width - line.len()) as nat)
    } else {
        line
    }
}

/// The content rows of a box, each framed by `vertical`.
pub open spec fn box_rows(lines: Seq<Seq<char>>, vertical: Seq<char>, width: nat) -> Seq<char>
    decreases lines.len(),
{
    if lines.len() == 0 {
        Seq::empty()
    } else {
        box_rows(lines.drop_last(), vertical, width) + vertical + " "@ + pad_right(
            lines.last(),
            width,
        ) + " "@ + vertical + "\n"@
    }
}

/// The full text of a box around `content`, headed by `title` when it is not
/// empty.
pub open spec fn boxed_text(
    title: Seq<char>,
    content: Seq<char>,
    chars: DrawingCharsView,
    use_color: bool,
) -> Seq<char> {
    let width = box_width(title, content);
    let rule = chars.top_left + repeat_seq(chars.horizontal, width + 2) + "\n"@;
    let head = if title.len() > 0 {
        chars.vertical + " "@ + bold_start(use_color, colors::BRIGHT_GREEN@) + " "@ + title
            + reset_end(use_color) + "\n"@ + chars.vertical + repeat_seq(
            chars.horizontal,
            width + 2,
        ) + "\n"@
    } else {
        Seq::empty()
    };
    rule + head + box_rows(lines_seq(content), chars.vertical, width) + rule
}

/// The widest of `lines`, in bytes.
fn widest_line(lines: &Vec<String>) -> (w: usize)
    ensures
        w == max_byte_len(lines@.map_values(|l: String| l@)),
        w <= isize::MAX,
{
    let ghost views = lines@.map_values(|l: String| l@);
    let mut widest: usize = 0;
    let mut i: usize = 0;
    while i < lines.len()
        invariant
            i <= lines.len(),
            views == lines@.map_values(|l: String| l@),
            widest == max_byte_len(views.take(i as int)),
            widest <= isize::MAX,
        decreases lines.len() - i,
    {
        let n = str_byte_len(lines[i].as_str());
        proof {
            assert(views.take(i + 1).drop_last() == views.take(i as int));
            assert(views.take(i + 1).last() == views[i as int]);
        }
        if n >= widest {
            widest = n;
        }
        i = i + 1;
    }
    assert(views.take(lines.len() as int) == views);
    widest
}

/// Append a horizontal rule: `start`, then `width` copies of `horizontal`,
/// then a newline.
fn push_rule(output: &mut String, start: &str, horizontal: &str, width: usize)
    ensures
        final(output)@ == old(output)@ + start@ + repeat_seq(horizontal@, width as nat) + "\n"@,
{
    push_str(output, start);
    push_repeat(output, horizontal, width);
    push_str(output, "\n");
}

/// Append one content row: the line framed by `vertical` and padded to
/// `width` characters.
fn push_row(output: &mut String, vertical: &str, line: &str, width: usize)
    ensures
        final(output)@ == old(output)@ + vertical@ + " "@ + pad_right(line@, width as nat) + " "@
            + vertical@ + "\n"@,
{
    push_str(output, vertical);
    push_str(output, " ");
    push_str(output, line);
    let count = crate::text::chars_of(line).len();
    if count < width {
        push_repeat(output, " ", width - count);
    }
    push_str(output, " ");
    push_str(output, vertical);
    push_str(output, "\n");
}

/// Append every content row.
fn push_rows(output: &mut String, vertical: &str, lines: &Vec<String>, width: usize)
    ensures
        final(output)@ == old(output)@ + box_rows(
            lines@.map_values(|l: String| l@),
            vertical@,
            width as nat,
        ),
{
    let ghost views = lines@.map_values(|l: String| l@);
    let ghost start = output@;
    let mut j: usize = 0;
    while j < lines.len()
        invariant
            j <= lines.len(),
            views == lines@.map_values(|l: String| l@),
            output@ == start + box_rows(views.take(j as int), vertical@, width as nat),
        decreases lines.len() - j,
    {
        push_row(output, vertical, lines[j].as_str(), width);
        proof {
            assert(views.take(j + 1).drop_last() == views.take(j as int));
            assert(views.take(j + 1).last() == views[j as int]);
        }
        j = j + 1;
    }
    assert(views.take(lines.len() as int) == views);
}

/// Append the title row and its separator, when there is a title.
fn push_title(output: &mut String, title: &str, chars: &DrawingChars, style: &ErrorStyle, width: usize)
    requires
        width + 2 <= usize::MAX,
    ensures
        final(output)@ == old(output)@ + (if title@.len() > 0 {
            chars.vertical@ + " "@ + bold_start(style.use_color, colors::BRIGHT_GREEN@) + " "@
                + title@ + reset_end(style.use_color) + "\n"@ + chars.vertical@ + repeat_seq(
                chars.horizontal@,
                (width + 2) as nat,
            ) + "\n"@
        } else {
            Seq::empty()
        }),
{
    let title_len = str_byte_len(title);
    proof {
        lemma_empty_bytes_means_empty(title@);
    }
    if title_len > 0 {
        let (suggestion_start, suggestion_end) = style.suggestion_style();
        push_str(output, chars.vertical);
        push_str(output, " ");
        push_str(output, suggestion_start.as_str());
        push_str(output, " ");
        push_str(output, title);
        push_str(output, suggestion_end);
        push_str(output, "\n");
        push_rule(output, chars.vertical, chars.horizontal, width + 2);
    } else {
        assert(old(output)@ + Seq::<char>::empty() =~= old(output)@);
    }
}

/// How many times `c` occurs in `s`.
pub open spec fn count_char(s: Seq<char>, c: char) -> nat
    decreases s.len(),
{
    if s.len() == 0 {
        0
    } else {
        count_char(s.drop_last(), c) + if s.last() == c {
            1nat
        } else {
            0nat
        }
    }
}

pub proof fn lemma_count_concat(a: Seq<char>, b: Seq<char>, c: char)
    ensures
        count_char(a + b, c) == count_char(a, c) + count_char(b, c),
    decreases b.len(),
{
    if b.len() == 0 {
        assert(a + b == a);
    } else {
        assert((a + b).drop_last() == a + b.drop_last());
        lemma_count_concat(a, b.drop_last(), c);
    }
}

proof fn lemma_count_absent(s: Seq<char>, c: char)
    requires
        forall|i: int| 0 <= i < s.len() ==> s[i] != c,
    ensures
        count_char(s, c) == 0,
    decreases s.len(),
{
    if s.len() > 0 {
        lemma_count_absent(s.drop_last(), c);
    }
}

proof fn lemma_count_repeat(s: Seq<char>, n: nat, c: char)
    requires
        count_char(s, c) == 0,
    ensures
        count_char(repeat_seq(s, n), c) == 0,
    decreases n,
{
    if n > 0 {
        lemma_count_repeat(s, (n - 1) as nat, c);
        lemma_count_concat(repeat_seq(s, (n - 1) as nat), s, c);
    }
}

/// No line that `lines_seq` yields holds a newline.
proof fn lemma_lines_hold_no_newline(s: Seq<char>)
    ensures
        forall|i: int| 0 <= i < lines_seq(s).len() ==> count_char(#[trigger] lines_seq(s)[i], '\n') == 0,
    decreases s.len(),
{
    if s.len() > 0 {
        crate::text::lemma_first_newline_bounds(s);
        match crate::text::first_newline(s) {
            Some(k) => {
                lemma_lines_hold_no_newline(s.skip(k + 1));
                let head = crate::text::strip_cr(s.take(k));
                lemma_count_absent(head, '\n');
                assert forall|i: int| 0 <= i < lines_seq(s).len() implies count_char(
                    #[trigger] lines_seq(s)[i],
                    '\n',
                ) == 0 by {
                    if i > 0 {
                        assert(lines_seq(s)[i] == lines_seq(s.skip(k + 1))[i - 1]);
                    }
                }
            },
            None => {
                lemma_count_absent(crate::text::strip_cr(s), '\n');
            },
        }
    }
}

/// Each row of a box ends its line: the rows of `lines` hold one newline
/// per line.
proof fn lemma_box_rows_newlines(lines: Seq<Seq<char>>, vertical: Seq<char>, width: nat)
    requires
        count_char(vertical, '\n') == 0,
        forall|i: int| 0 <= i < lines.len() ==> count_char(#[trigger] lines[i], '\n') == 0,
    ensures
        count_char(box_rows(lines, vertical, width), '\n') == lines.len(),
    decreases lines.len(),
{
    if lines.len() > 0 {
        let init = lines.drop_last();
        assert forall|i: int| 0 <= i < init.len() implies count_char(#[trigger] init[i], '\n') == 0 by {
            assert(init[i] == lines[i]);
        }
        lemma_box_rows_newlines(init, vertical, width);
        let line = lines.last();
        assert(count_char(line, '\n') == 0);
        let pad = if line.len() < width {
            repeat_seq(" "@, (width - line.len()) as nat)
        } else {
            Seq::empty()
        };
        reveal_strlit(" ");
        reveal_strlit("\n");
        lemma_count_absent(" "@, '\n');
        lemma_count_repeat(" "@, (width - line.len()) as nat, '\n');
        lemma_count_absent(Seq::<char>::empty(), '\n');
        assert(pad_right(line, width) == line + pad);
        lemma_count_concat(line, pad, '\n');
        let rest = box_rows(init, vertical, width);
        lemma_count_concat(rest, vertical, '\n');
        lemma_count_concat(rest + vertical, " "@, '\n');
        lemma_count_concat(rest + vertical + " "@, pad_right(line, width), '\n');
        lemma_count_concat(rest + vertical + " "@ + pad_right(line, width), " "@, '\n');
        lemma_count_concat(rest + vertical + " "@ + pad_right(line, width) + " "@, vertical, '\n');
        lemma_count_concat(
            rest + vertical + " "@ + pad_right(line, width) + " "@ + vertical,
            "\n"@,
            '\n',
        );
        assert(count_char("\n"@, '\n') == 1) by {
            assert("\n"@.drop_last() == Seq::<char>::empty());
        }
    }
}

/// A box has one line per line of its content, two rules, and two more
/// lines for a title when there is one; every line ends in a newline.
pub proof fn lemma_box_line_count(title: Seq<char>, content: Seq<char>, use_unicode: bool, use_color: bool)
    requires
        count_char(title, '\n') == 0,
    ensures
        count_char(
            boxed_text(
                title,
                content,
                if use_unicode {
                    unicode_chars()
                } else {
                    ascii_chars()
                },
                use_color,
            ),
            '\n',
        ) == 2 + lines_seq(content).len() + if title.len() > 0 {
            2nat
        } else {
            0nat
        },
{
    let chars = if use_unicode {
        unicode_chars()
    } else {
        ascii_chars()
    };
    reveal_strlit("│");
    reveal_strlit("─");
    reveal_strlit("┌");
    reveal_strlit("|");
    reveal_strlit("-");
    reveal_strlit("+");
    reveal_strlit(" ");
    reveal_strlit("\n");
    reveal_strlit("\x1b[1m");
    reveal_strlit("\x1b[92m");
    reveal_strlit("\x1b[0m");
    let nl = '\n';
    lemma_count_absent(chars.vertical, nl);
    lemma_count_absent(chars.horizontal, nl);
    lemma_count_absent(chars.top_left, nl);
    lemma_count_absent(" "@, nl);
    assert(count_char("\n"@, nl) == 1) by {
        reveal_strlit("\n");
        assert("\n"@.len() == 1);
        assert("\n"@.last() == '\n');
        assert("\n"@.drop_last() == Seq::<char>::empty());
        assert(count_char(Seq::<char>::empty(), '\n') == 0);
    }
    let width = box_width(title, content);
    let bar = repeat_seq(chars.horizontal, width + 2);
    lemma_count_repeat(chars.horizontal, width + 2, nl);
    let rule = chars.top_left + bar + "\n"@;
    lemma_count_concat(chars.top_left, bar, nl);
    lemma_count_concat(chars.top_left + bar, "\n"@, nl);
    lemma_lines_hold_no_newline(content);
    lemma_box_rows_newlines(lines_seq(content), chars.vertical, width);
    let rows = box_rows(lines_seq(content), chars.vertical, width);
    let head = if title.len() > 0 {
        chars.vertical + " "@ + bold_start(use_color, colors::BRIGHT_GREEN@) + " "@ + title
            + reset_end(use_color) + "\n"@ + chars.vertical + bar + "\n"@
    } else {
        Seq::empty()
    };
    if title.len() > 0 {
        let b = bold_start(use_color, colors::BRIGHT_GREEN@);
        let e = reset_end(use_color);
        lemma_count_absent(b, nl);
        lemma_count_absent(e, nl);
        let p1 = chars.vertical + " "@;
        lemma_count_concat(chars.vertical, " "@, nl);
        lemma_count_concat(p1, b, nl);
        lemma_count_concat(p1 + b, " "@, nl);
        lemma_count_concat(p1 + b + " "@, title, nl);
        lemma_count_concat(p1 + b + " "@ + title, e, nl);
        lemma_count_concat(p1 + b + " "@ + title + e, "\n"@, nl);
        let p2 = p1 + b + " "@ + title + e + "\n"@;
        lemma_count_concat(p2, chars.vertical, nl);
        lemma_count_concat(p2 + chars.vertical, bar, nl);
        lemma_count_concat(p2 + chars.vertical + bar, "\n"@, nl);
        assert(count_char(head, nl) == 2);
    } else {
        lemma_count_absent(head, nl);
    }
    lemma_count_concat(rule, head, nl);
    lemma_count_concat(rule + head, rows, nl);
    lemma_count_concat(rule + head + rows, rule, nl);
}

/// Every byte takes at least one character's worth: a string has no more
/// characters than bytes.
proof fn lemma_chars_at_most_bytes(s: Seq<char>)
    ensures
        s.len() <= byte_len(s),
    decreases s.len(),
{
    if s.len() > 0 {
        assert(vstd::utf8::encode_utf8(s) == vstd::utf8::encode_scalar(s[0] as u32)
            + vstd::utf8::encode_utf8(s.drop_first()));
        vstd::utf8::char_is_scalar(s[0]);
        lemma_chars_at_most_bytes(s.drop_first());
    }
}

proof fn lemma_widest_bounds(lines: Seq<Seq<char>>)
    ensures
        forall|i: int| 0 <= i < lines.len() ==> byte_len(#[trigger] lines[i]) <= max_byte_len(lines),
    decreases lines.len(),
{
    if lines.len() > 0 {
        lemma_widest_bounds(lines.drop_last());
        assert forall|i: int| 0 <= i < lines.len() implies byte_len(#[trigger] lines[i])
            <= max_byte_len(lines) by {
            if i < lines.len() - 1 {
                assert(lines.drop_last()[i] == lines[i]);
            }
        }
    }
}

/// Every content row of a box is equally wide: each line is padded to the
/// box's width, which no line exceeds, so a row is the width plus its two
/// borders and two spaces.
pub proof fn lemma_box_rows_equally_wide(title: Seq<char>, content: Seq<char>, vertical: Seq<char>)
    ensures
        forall|i: int| 0 <= i < lines_seq(content).len() ==> (vertical + " "@ + pad_right(
            #[trigger] lines_seq(content)[i],
            box_width(title, content),
        ) + " "@ + vertical).len() == 2 * vertical.len() + box_width(title, content) + 2,
{
    let lines = lines_seq(content);
    let w = box_width(title, content);
    lemma_widest_bounds(lines);
    reveal_strlit(" ");
    assert forall|i: int| 0 <= i < lines.len() implies (vertical + " "@ + pad_right(
        #[trigger] lines[i],
        w,
    ) + " "@ + vertical).len() == 2 * vertical.len() + w + 2 by {
        lemma_chars_at_most_bytes(lines[i]);
        lemma_repeat_len(" "@, (w - lines[i].len()) as nat);
    }
}

/// The first and the last line of a box are the same rule: the top-left
/// corner and `width + 2` horizontal strokes, where `width` is the widest of
/// the content lines and the title with its margin.
pub proof fn lemma_box_borders(
    title: Seq<char>,
    content: Seq<char>,
    chars: DrawingCharsView,
    use_color: bool,
)
    ensures
        ({
            let t = boxed_text(title, content, chars, use_color);
            let rule = chars.top_left + repeat_seq(chars.horizontal, box_width(title, content) + 2)
                + "\n"@;
            &&& 2 * rule.len() <= t.len()
            &&& t.subrange(0, rule.len() as int) == rule
            &&& t.subrange(t.len() - rule.len(), t.len() as int) == rule
        }),
{
    let t = boxed_text(title, content, chars, use_color);
    let width = box_width(title, content);
    let rule = chars.top_left + repeat_seq(chars.horizontal, width + 2) + "\n"@;
    let head = if title.len() > 0 {
        chars.vertical + " "@ + bold_start(use_color, colors::BRIGHT_GREEN@) + " "@ + title
            + reset_end(use_color) + "\n"@ + chars.vertical + repeat_seq(
            chars.horizontal,
            width + 2,
        ) + "\n"@
    } else {
        Seq::empty()
    };
    let middle = head + box_rows(lines_seq(content), chars.vertical, width);
    assert(t == rule + head + box_rows(lines_seq(content), chars.vertical, width) + rule);
    assert(t =~= rule + middle + rule);
    assert(t.subrange(0, rule.len() as int) =~= rule);
    assert(t.subrange(t.len() - rule.len(), t.len() as int) =~= rule);
}

proof fn lemma_repeat_len(s: Seq<char>, n: nat)
    ensures
        repeat_seq(s, n).len() == n * s.len(),
    decreases n,
{
    if n > 0 {
        let m = (n - 1) as nat;
        lemma_repeat_len(s, m);
        assert(repeat_seq(s, n) == repeat_seq(s, m) + s);
        let l = s.len();
        assert(repeat_seq(s, n).len() == m * l + l);
        assert(n * l == m * l + l) by (nonlinear_arith)
            requires
                n == m + 1,
        ;
    } else {
        assert(0 * s.len() == 0);
    }
}

proof fn lemma_empty_bytes_means_empty(s: Seq<char>)
    ensures
        (byte_len(s) == 0) == (s.len() == 0),
{
    if s.len() > 0 {
        assert(vstd::utf8::encode_utf8(s) == vstd::utf8::encode_scalar(s[0] as u32)
            + vstd::utf8::encode_utf8(s.drop_first()));
        vstd::utf8::char_is_scalar(s[0]);
    }
}

/// Create a box around an important message.
#[verifier::rlimit(50)]
#[verifier::spinoff_prover]
pub fn boxed_message(title: &str, content: &str, style: &ErrorStyle) -> (r: String)
    ensures
        r@ == boxed_text(
            title@,
            content@,
            if style.use_unicode {
                unicode_chars()
            } else {
                ascii_chars()
            },
            style.use_color,
        ),
        count_char(title@, '\n') == 0 ==> count_char(r@, '\n') == 2 + lines_seq(content@).len()
            + if title@.len() > 0 {
            2nat
        } else {
            0nat
        },
        forall|i: int| 0 <= i < lines_seq(content@).len() ==> ((if style.use_unicode {
            unicode_chars()
        } else {
            ascii_chars()
        }).vertical + " "@ + pad_right(
            #[trigger] lines_seq(content@)[i],
            box_width(title@, content@),
        ) + " "@ + (if style.use_unicode {
            unicode_chars()
        } else {
            ascii_chars()
        }).vertical).len() == 2 * (if style.use_unicode {
            unicode_chars()
        } else {
            ascii_chars()
        }).vertical.len() + box_width(title@, content@) + 2,
{
    proof {
        lemma_box_rows_equally_wide(
            title@,
            content@,
            (if style.use_unicode {
                unicode_chars()
            } else {
                ascii_chars()
            }).vertical,
        );
    }
    let chars = style.get_chars();
    let lines = lines_of(content);
    let widest = widest_line(&lines);
    let title_len = str_byte_len(title);
    let width: usize = if widest >= title_len + 4 {
        widest
    } else {
        title_len + 4
    };
    let ghost rule = chars.top_left@ + repeat_seq(chars.horizontal@, (width + 2) as nat) + "\n"@;
    let mut output = String::new();
    push_rule(&mut output, chars.top_left, chars.horizontal, width + 2);
    assert(output@ =~= rule);
    push_title(&mut output, title, &chars, style, width);
    push_rows(&mut output, chars.vertical, &lines, width);
    push_rule(&mut output, chars.top_left, chars.horizontal, width + 2);
    assert(output@ == boxed_text(
        title@,
        content@,
        if style.use_unicode {
            unicode_chars()
        } else {
            ascii_chars()
        },
        style.use_color,
    ));
    proof {
        if count_char(title@, '\n') == 0 {
            lemma_box_line_count(title@, content@, style.use_unicode, style.use_color);
            assert(count_char(output@, '\n') == 2 + lines_seq(content@).len() + if title@.len() > 0 {
                2nat
            } else {
                0nat
            });
        }
    }
    output
}

} // verus!
