//! What the terminal shows: the transcript wrapped into rows, the place it
//! is scrolled to, the cursor, and what the keys do.

use vstd::prelude::*;

use unicode_width::{UnicodeWidthChar, UnicodeWidthStr};

use crate::seqs::{group_views, views};
use crate::text::{
    chars_of,
    contains,
    copy_of,
    decimal,
    decimal_u64,
    holds,
    join2,
    join3,
    lemma_split_nonempty,
    split,
    split_by,
    string_of,
};
use crate::tui_app::{App, AppView, Line, LineView, OpenToolView};

verus! {

broadcast use group_views;

/// What `UnicodeWidthStr::width` returns for a text.
pub uninterp spec fn text_columns(s: Seq<char>) -> usize;

/// What `UnicodeWidthChar::width` returns for a character.
pub uninterp spec fn char_columns(c: char) -> Option<usize>;

/// `unicode_width::UnicodeWidthStr::width`: the columns that a text takes on
/// the display, a function of the text.
#[verifier::external_body]
fn width_of_text(s: &str) -> (r: usize)
    ensures
        r == text_columns(s@),
{
    UnicodeWidthStr::width(s)
}

/// `unicode_width::UnicodeWidthChar::width`: the columns that a character
/// takes on the display, a function of the character: none for a control
/// character, one for printable ASCII, and never more than three.
#[verifier::external_body]
fn width_of_char(c: char) -> (r: Option<usize>)
    ensures
        r == char_columns(c),
        r is None <==> (c as int) < 0x20 || 0x7f <= c as int && (c as int) < 0xa0,
        0x20 <= c as int && (c as int) < 0x7f ==> r == Some(1usize),
        match r {
            Some(w) => w <= 3,
            None => true,
        },
{
    UnicodeWidthChar::width(c)
}

/// The columns that a character adds to a line.
pub open spec fn columns(c: char) -> nat {
    match char_columns(c) {
        Some(w) => w as nat,
        None => 0,
    }
}

/// The columns that a character adds to a line.
fn columns_of(c: char) -> (r: usize)
    ensures
        r == columns(c),
        r <= 3,
        c == ' ' ==> r == 1,
{
    match width_of_char(c) {
        Some(w) => w,
        None => 0,
    }
}

/// The columns that a line takes, character by character.
pub open spec fn line_columns(s: Seq<char>) -> nat
    decreases s.len(),
{
    if s.len() == 0 {
        0
    } else {
        line_columns(s.drop_last()) + columns(s.last())
    }
}

/// A text partly wrapped: the lines that are done and the one being filled.
#[verifier::ext_equal]
pub struct Wrapping {
    pub done: Seq<Seq<char>>,
    pub line: Seq<char>,
}

impl Wrapping {
    /// The columns of the line being filled.
    pub open spec fn used(self) -> nat {
        line_columns(self.line)
    }

    /// The line being filled is done.
    pub open spec fn broken(self) -> Wrapping {
        Wrapping { done: self.done.push(self.line), line: Seq::empty() }
    }

    /// One character more, on a new line where the current one has text and
    /// no room.
    pub open spec fn put(self, c: char, width: nat) -> Wrapping {
        let w = if self.used() > 0 && self.used() + columns(c) > width {
            self.broken()
        } else {
            self
        };
        Wrapping { line: w.line.push(c), ..w }
    }

    /// Each character of a run, one after the other.
    pub open spec fn put_all(self, run: Seq<char>, width: nat) -> Wrapping
        decreases run.len(),
    {
        if run.len() == 0 {
            self
        } else {
            self.put_all(run.drop_last(), width).put(run.last(), width)
        }
    }

    /// The place at which a word begins: on a new line where it does not
    /// fit behind the text there is, else behind that text and a space.
    pub open spec fn before_word(self, word: Seq<char>, width: nat) -> Wrapping {
        if self.used() == 0 {
            self
        } else if self.used() + 1 + text_columns(word) > width {
            self.broken()
        } else {
            Wrapping { line: self.line.push(' '), ..self }
        }
    }

    /// The words, one after the other.
    pub open spec fn put_words(self, words: Seq<Seq<char>>, width: nat) -> Wrapping
        decreases words.len(),
    {
        if words.len() == 0 {
            self
        } else {
            self.put_words(words.drop_last(), width).before_word(words.last(), width).put_all(
                words.last(),
                width,
            )
        }
    }

    /// No line takes more columns than there are.
    pub open spec fn fits(self, width: nat) -> bool {
        &&& self.used() <= width
        &&& forall|i: int|
            0 <= i < self.done.len() ==> line_columns(#[trigger] self.done[i]) <= width
    }
}

/// The lines into which paragraphs are wrapped, each paragraph beginning on
/// a line of its own.
pub open spec fn wrap_paragraphs(paras: Seq<Seq<char>>, width: nat) -> Seq<Seq<char>>
    decreases paras.len(),
{
    if paras.len() == 0 {
        Seq::empty()
    } else {
        let w = Wrapping {
            done: wrap_paragraphs(paras.drop_last(), width),
            line: Seq::empty(),
        };
        w.put_words(split_by(paras.last(), ' '), width).broken().done
    }
}

/// The width that lines are wrapped to: a terminal that is narrower than
/// this is treated as if it were not.
pub open spec fn wrap_limit(width: nat) -> nat {
    if width < 4 {
        4
    } else {
        width
    }
}

/// The lines into which a text is wrapped: words go where they fit, and a
/// word wider than a line is broken.
pub open spec fn wrapped(text: Seq<char>, width: nat) -> Seq<Seq<char>> {
    wrap_paragraphs(split_by(text, '\n'), wrap_limit(width))
}

proof fn lemma_columns_push(s: Seq<char>, c: char)
    ensures
        line_columns(s.push(c)) == line_columns(s) + columns(c),
{
    assert(s.push(c).drop_last() =~= s);
}

proof fn lemma_break_fits(w: Wrapping, width: nat)
    requires
        w.fits(width),
    ensures
        w.broken().fits(width),
{
    let done = w.broken().done;
    assert forall|i: int| 0 <= i < done.len() implies line_columns(
        #[trigger] done[i],
    ) <= width by {
        if i < w.done.len() {
            assert(done[i] == w.done[i]);
        }
    }
}

/// Greedy word wrap, measured in display columns, with hard breaks for words
/// wider than a line.
#[verifier::loop_isolation(false)]
pub fn wrap_width(text: &str, width: usize) -> (r: Vec<String>)
    ensures
        views(r@) == wrapped(text@, width as nat),
        forall|i: int|
            0 <= i < r@.len() ==> line_columns((#[trigger] r@[i])@) <= wrap_limit(width as nat),
{
    let limit: usize = if width < 4 {
        4
    } else {
        width
    };
    let ghost lim = limit as nat;
    let space: usize = columns_of(' ');
    let paras = split(text, '\n');
    let mut out: Vec<String> = Vec::new();
    let np: usize = paras.len();
    for p in 0..np
        invariant
            views(out@) == wrap_paragraphs(views(paras@).take(p as int), lim),
            (Wrapping { done: views(out@), line: Seq::empty() }).fits(lim),
    {
        let ghost start = Wrapping { done: views(out@), line: Seq::empty() };
        let words = split(&paras[p], ' ');
        let mut line = String::new();
        let mut used: usize = 0;
        let nw: usize = words.len();
        assert(Wrapping { done: views(out@), line: line@ } =~= start);
        for k in 0..nw
            invariant
                start.put_words(views(words@).take(k as int), lim) == (Wrapping {
                    done: views(out@),
                    line: line@,
                }),
                used == line_columns(line@),
                (Wrapping { done: views(out@), line: line@ }).fits(lim),
        {
            let ghost before = Wrapping { done: views(out@), line: line@ };
            let ghost word = views(words@)[k as int];
            assert(views(words@).take(k + 1).drop_last() =~= views(words@).take(k as int));
            let ww: usize = width_of_text(&words[k]);
            if used > 0 {
                if used as u128 + space as u128 + ww as u128 > limit as u128 {
                    proof {
                        lemma_break_fits(before, lim);
                    }
                    out.push(line);
                    line = String::new();
                    used = 0;
                } else {
                    proof {
                        lemma_columns_push(line@, ' ');
                    }
                    line.push(' ');
                    used = used + space;
                }
            }
            let ghost placed = before.before_word(word, lim);
            assert(Wrapping { done: views(out@), line: line@ } =~= placed);
            let cs = chars_of(&words[k]);
            let nc: usize = cs.len();
            for j in 0..nc
                invariant
                    placed.put_all(word.take(j as int), lim) == (Wrapping {
                        done: views(out@),
                        line: line@,
                    }),
                    used == line_columns(line@),
                    (Wrapping { done: views(out@), line: line@ }).fits(lim),
            {
                let ghost sofar = Wrapping { done: views(out@), line: line@ };
                assert(word.take(j + 1).drop_last() =~= word.take(j as int));
                let c: char = cs[j];
                let cw: usize = columns_of(c);
                if used > 0 && used as u128 + cw as u128 > limit as u128 {
                    proof {
                        lemma_break_fits(sofar, lim);
                    }
                    out.push(line);
                    line = String::new();
                    used = 0;
                }
                proof {
                    lemma_columns_push(line@, c);
                }
                line.push(c);
                used = used + cw;
                assert(Wrapping { done: views(out@), line: line@ } =~= sofar.put(c, lim));
            }
            assert(word.take(nc as int) =~= word);
        }
        assert(views(words@).take(nw as int) =~= views(words@));
        proof {
            lemma_break_fits(Wrapping { done: views(out@), line: line@ }, lim);
        }
        out.push(line);
        assert(views(paras@).take(p + 1).drop_last() =~= views(paras@).take(p as int));
    }
    assert(views(paras@).take(np as int) =~= views(paras@));
    assert forall|i: int| 0 <= i < out@.len() implies line_columns((#[trigger] out@[i])@)
        <= wrap_limit(width as nat) by {
        assert(views(out@)[i] == out@[i]@);
    }
    out
}

/// A text without its spaces and line breaks.
pub open spec fn inked(s: Seq<char>) -> Seq<char>
    decreases s.len(),
{
    if s.len() == 0 {
        s
    } else if s.last() == ' ' || s.last() == '\n' {
        inked(s.drop_last())
    } else {
        inked(s.drop_last()).push(s.last())
    }
}

/// Lines put behind one another.
pub open spec fn joined(lines: Seq<Seq<char>>) -> Seq<char>
    decreases lines.len(),
{
    if lines.len() == 0 {
        Seq::empty()
    } else {
        joined(lines.drop_last()) + lines.last()
    }
}

proof fn lemma_inked_concat(a: Seq<char>, b: Seq<char>)
    ensures
        inked(a + b) == inked(a) + inked(b),
    decreases b.len(),
{
    if b.len() == 0 {
        assert(a + b =~= a);
        assert(inked(a) + inked(b) =~= inked(a));
    } else {
        assert((a + b).drop_last() =~= a + b.drop_last());
        lemma_inked_concat(a, b.drop_last());
        assert(inked(a) + inked(b.drop_last()).push(b.last()) =~= (inked(a) + inked(
            b.drop_last(),
        )).push(b.last()));
    }
}

proof fn lemma_joined_push(lines: Seq<Seq<char>>, l: Seq<char>)
    ensures
        joined(lines.push(l)) == joined(lines) + l,
{
    assert(lines.push(l).drop_last() =~= lines);
}

/// Splitting drops separators only.
proof fn lemma_inked_split(s: Seq<char>, sep: char)
    requires
        sep == ' ' || sep == '\n',
    ensures
        inked(joined(split_by(s, sep))) == inked(s),
    decreases s.len(),
{
    lemma_split_nonempty(s, sep);
    if s.len() == 0 {
        assert(joined(split_by(s, sep)) =~= s) by {
            reveal_with_fuel(joined, 2);
        }
    } else {
        let rest = split_by(s.drop_last(), sep);
        lemma_inked_split(s.drop_last(), sep);
        lemma_split_nonempty(s.drop_last(), sep);
        if s.last() == sep {
            lemma_joined_push(rest, seq![]);
            assert(joined(rest) + seq![] =~= joined(rest));
        } else {
            lemma_joined_push(rest.drop_last(), rest.last().push(s.last()));
            let all = joined(rest.drop_last()) + rest.last();
            assert(joined(rest.drop_last()) + rest.last().push(s.last()) =~= all.push(s.last()));
            assert(all.push(s.last()).drop_last() =~= all);
        }
    }
}

impl Wrapping {
    /// All the text there is.
    pub open spec fn all(self) -> Seq<char> {
        joined(self.done) + self.line
    }
}

proof fn lemma_put_keeps(w: Wrapping, run: Seq<char>, width: nat)
    ensures
        w.put_all(run, width).all() == w.all() + run,
    decreases run.len(),
{
    if run.len() == 0 {
        assert(w.all() + run =~= w.all());
    } else {
        lemma_put_keeps(w, run.drop_last(), width);
        let v = w.put_all(run.drop_last(), width);
        lemma_joined_push(v.done, v.line);
        assert(v.put(run.last(), width).all() =~= v.all().push(run.last()));
        assert(w.all() + run =~= (w.all() + run.drop_last()).push(run.last()));
    }
}

proof fn lemma_words_keep(w: Wrapping, words: Seq<Seq<char>>, width: nat)
    ensures
        inked(w.put_words(words, width).all()) == inked(w.all()) + inked(joined(words)),
    decreases words.len(),
{
    if words.len() == 0 {
        assert(inked(w.all()) + inked(joined(words)) =~= inked(w.all()));
    } else {
        let v = w.put_words(words.drop_last(), width);
        let word = words.last();
        lemma_words_keep(w, words.drop_last(), width);
        let u = v.before_word(word, width);
        lemma_joined_push(v.done, v.line);
        assert(inked(u.all()) == inked(v.all())) by {
            if v.used() > 0 {
                if v.used() + 1 + text_columns(word) > width {
                    assert(u.all() =~= v.all());
                } else {
                    assert(u.all() =~= v.all().push(' '));
                    assert(v.all().push(' ').drop_last() =~= v.all());
                }
            }
        }
        lemma_put_keeps(u, word, width);
        lemma_inked_concat(u.all(), word);
        lemma_inked_concat(joined(words.drop_last()), word);
        assert(inked(w.all()) + (inked(joined(words.drop_last())) + inked(word)) =~= (inked(w.all())
            + inked(joined(words.drop_last()))) + inked(word));
    }
}

proof fn lemma_paragraphs_keep(paras: Seq<Seq<char>>, width: nat)
    ensures
        inked(joined(wrap_paragraphs(paras, width))) == inked(joined(paras)),
    decreases paras.len(),
{
    if paras.len() > 0 {
        lemma_paragraphs_keep(paras.drop_last(), width);
        let w = Wrapping {
            done: wrap_paragraphs(paras.drop_last(), width),
            line: Seq::empty(),
        };
        let words = split_by(paras.last(), ' ');
        let v = w.put_words(words, width);
        lemma_words_keep(w, words, width);
        lemma_inked_split(paras.last(), ' ');
        lemma_joined_push(v.done, v.line);
        assert(w.all() =~= joined(w.done));
        lemma_inked_concat(joined(paras.drop_last()), paras.last());
    }
}

/// Wrapping loses nothing and makes nothing up: apart from spaces and line
/// breaks the lines hold exactly the text, in its order.
pub proof fn law_wrapping_keeps_the_text(text: Seq<char>, width: nat)
    ensures
        inked(joined(wrapped(text, width))) == inked(text),
{
    lemma_paragraphs_keep(split_by(text, '\n'), wrap_limit(width));
    lemma_inked_split(text, '\n');
}

/// How a row is drawn.
#[derive(Debug, Clone, Copy, PartialEq, Eq)]
pub enum Look {
    Plain,
    Green,
    GreenBold,
    White,
    Gray,
    Dim,
    DimItalic,
    Accent,
    AccentBold,
    Yellow,
    Red,
}

/// A row of the transcript, or a piece of text that is still to be wrapped.
#[derive(Debug)]
pub struct Row {
    pub text: String,
    pub look: Look,
}

/// What a [`Row`] stands for.
#[verifier::ext_equal]
pub struct RowView {
    pub text: Seq<char>,
    pub look: Look,
}

impl View for Row {
    type V = RowView;

    open spec fn view(&self) -> RowView {
        RowView { text: self.text@, look: self.look }
    }
}

/// Pieces of text under one look, each behind the same prefix.
pub open spec fn prefixed(parts: Seq<Seq<char>>, prefix: Seq<char>, look: Look) -> Seq<RowView> {
    Seq::new(parts.len(), |i: int| RowView { text: prefix + parts[i], look })
}

/// The most lines of a tool's output that are shown.
pub const MAX_TOOL_LINES: usize = 24;

/// The most characters of a running tool's output that are shown.
pub const LIVE_TAIL_CHARS: usize = 240;

/// The lines of a tool's output that are shown, with a note on the rest.
pub open spec fn output_pieces(output: Seq<char>) -> Seq<RowView> {
    let parts = split_by(output, '\n');
    if parts.len() <= MAX_TOOL_LINES {
        prefixed(parts, "  "@, Look::Gray)
    } else {
        prefixed(parts.take(MAX_TOOL_LINES as int), "  "@, Look::Gray).push(
            RowView {
                text: "  … "@ + decimal((parts.len() - MAX_TOOL_LINES) as nat) + " more lines"@,
                look: Look::Dim,
            },
        )
    }
}

/// What an entry of the transcript shows.
pub open spec fn line_pieces(line: LineView) -> Seq<RowView> {
    match line {
        LineView::User(text) => {
            let parts = split_by(text, '\n');
            prefixed(parts.take(1), "❯ "@, Look::GreenBold) + prefixed(
                parts.skip(1),
                "  "@,
                Look::Green,
            )
        },
        LineView::Assistant(text) => prefixed(split_by(text, '\n'), Seq::empty(), Look::White),
        LineView::Reasoning(text) => seq![
            RowView { text: "  ··· thought"@, look: Look::DimItalic },
        ] + prefixed(split_by(text, '\n'), "  · "@, Look::Dim),
        LineView::Tool { command, output, done } => seq![
            RowView {
                text: "⚙ "@ + command + (if done {
                    Seq::empty()
                } else {
                    " …"@
                }),
                look: Look::AccentBold,
            },
        ] + output_pieces(output),
        LineView::System(text) => seq![RowView { text: "— "@ + text, look: Look::Accent }],
        LineView::Warn(text) => seq![RowView { text: "⚠ "@ + text, look: Look::Yellow }],
        LineView::Error(text) => seq![RowView { text: "✗ "@ + text, look: Look::Red }],
    }
}

/// An empty row.
pub open spec fn blank() -> RowView {
    RowView { text: Seq::empty(), look: Look::Plain }
}

/// Whether an empty row follows an entry.
pub open spec fn has_gap(line: LineView) -> bool {
    line is User || line is Assistant || line is Tool
}

/// What the entries of the transcript show, with the gaps between them.
pub open spec fn lines_pieces(lines: Seq<LineView>) -> Seq<RowView>
    decreases lines.len(),
{
    if lines.len() == 0 {
        seq![blank()]
    } else {
        let before = lines_pieces(lines.drop_last()) + line_pieces(lines.last());
        if has_gap(lines.last()) {
            before.push(blank())
        } else {
            before
        }
    }
}

/// The last characters of a text.
pub open spec fn last_chars(s: Seq<char>, n: nat) -> Seq<char> {
    if s.len() <= n {
        s
    } else {
        s.skip(s.len() - n)
    }
}

/// What the running tool calls show.
pub open spec fn tools_pieces(tools: Seq<OpenToolView>) -> Seq<RowView>
    decreases tools.len(),
{
    if tools.len() == 0 {
        Seq::empty()
    } else {
        tools_pieces(tools.drop_last()).push(
            RowView { text: "  ⚙ "@ + tools.last().command, look: Look::AccentBold },
        ).push(
            RowView {
                text: "    "@ + last_chars(tools.last().output, LIVE_TAIL_CHARS as nat),
                look: Look::Accent,
            },
        )
    }
}

/// What the interface shows in the transcript area, before it is wrapped:
/// the entries, what is being streamed, and the running tool calls.
pub open spec fn pieces(app: AppView) -> Seq<RowView> {
    let thought = if app.reasoning.len() > 0 {
        prefixed(split_by(app.reasoning, '\n'), "  · "@, Look::DimItalic)
    } else {
        Seq::empty()
    };
    let answer = if app.assistant.len() > 0 {
        seq![blank(), RowView { text: app.assistant, look: Look::White }]
    } else {
        Seq::empty()
    };
    lines_pieces(app.lines) + thought + answer + tools_pieces(app.open_tools)
}

/// The rows into which pieces are wrapped.
pub open spec fn wrap_pieces(ps: Seq<RowView>, width: nat) -> Seq<RowView>
    decreases ps.len(),
{
    if ps.len() == 0 {
        Seq::empty()
    } else {
        wrap_pieces(ps.drop_last(), width) + prefixed(
            wrapped(ps.last().text, width),
            Seq::empty(),
            ps.last().look,
        )
    }
}

fn push_row(rows: &mut Vec<Row>, text: String, look: Look)
    ensures
        views(final(rows)@) == views(old(rows)@).push(RowView { text: text@, look }),
{
    rows.push(Row { text, look });
}

/// Appends pieces behind a prefix, from one index up to another.
fn push_prefixed(
    rows: &mut Vec<Row>,
    parts: &Vec<String>,
    from: usize,
    to: usize,
    prefix: &str,
    look: Look,
)
    requires
        from <= to <= parts@.len(),
    ensures
        views(final(rows)@) == views(old(rows)@) + prefixed(
            views(parts@).subrange(from as int, to as int),
            prefix@,
            look,
        ),
{
    let ghost before = views(rows@);
    let ghost all = prefixed(views(parts@).subrange(from as int, to as int), prefix@, look);
    assert(before + all.take(0) =~= before);
    for i in from..to
        invariant
            from <= to <= parts@.len(),
            all == prefixed(views(parts@).subrange(from as int, to as int), prefix@, look),
            views(rows@) == before + all.take(i - from),
    {
        push_row(rows, join2(prefix, &parts[i]), look);
        assert(all.take(i + 1 - from) =~= all.take(i - from).push(all[i - from]));
        assert(views(parts@).subrange(from as int, to as int)[i - from] == parts@[i as int]@);
        assert(views(rows@) =~= before + all.take(i + 1 - from));
    }
    assert(all.take(to - from) =~= all);
}

fn push_output(rows: &mut Vec<Row>, output: &str)
    ensures
        views(final(rows)@) == views(old(rows)@) + output_pieces(output@),
{
    let ghost before = views(rows@);
    let parts = split(output, '\n');
    let n: usize = parts.len();
    if n <= MAX_TOOL_LINES {
        push_prefixed(rows, &parts, 0, n, "  ", Look::Gray);
        assert(views(parts@).subrange(0, n as int) =~= views(parts@));
    } else {
        push_prefixed(rows, &parts, 0, MAX_TOOL_LINES, "  ", Look::Gray);
        assert(views(parts@).subrange(0, MAX_TOOL_LINES as int) =~= views(parts@).take(
            MAX_TOOL_LINES as int,
        ));
        let rest: u64 = (n - MAX_TOOL_LINES) as u64;
        push_row(rows, join3("  … ", &decimal_u64(rest), " more lines"), Look::Dim);
    }
    assert(views(rows@) =~= before + output_pieces(output@));
}

/// Appends what an entry of the transcript shows.
fn render_line(line: &Line, rows: &mut Vec<Row>)
    ensures
        views(final(rows)@) == views(old(rows)@) + line_pieces(line@),
{
    let ghost before = views(rows@);
    match line {
        Line::User(text) => {
            let parts = split(text, '\n');
            let n: usize = parts.len();
            proof {
                lemma_split_nonempty(text@, '\n');
                assert(views(parts@).len() == n);
                assert(views(parts@).subrange(0, 1) =~= views(parts@).take(1));
                assert(views(parts@).subrange(1, n as int) =~= views(parts@).skip(1));
            }
            push_prefixed(rows, &parts, 0, 1, "❯ ", Look::GreenBold);
            push_prefixed(rows, &parts, 1, n, "  ", Look::Green);
        },
        Line::Assistant(text) => {
            let parts = split(text, '\n');
            let n: usize = parts.len();
            proof {
                reveal_strlit("");
                assert(""@ =~= Seq::<char>::empty());
                assert(views(parts@).subrange(0, n as int) =~= views(parts@));
            }
            push_prefixed(rows, &parts, 0, n, "", Look::White);
        },
        Line::Reasoning(text) => {
            push_row(rows, copy_of("  ··· thought"), Look::DimItalic);
            let parts = split(text, '\n');
            let n: usize = parts.len();
            assert(views(parts@).subrange(0, n as int) =~= views(parts@));
            push_prefixed(rows, &parts, 0, n, "  · ", Look::Dim);
        },
        Line::Tool { command, output, done } => {
            let end = if *done {
                ""
            } else {
                " …"
            };
            proof {
                reveal_strlit("");
                assert(""@ =~= Seq::<char>::empty());
            }
            push_row(rows, join3("⚙ ", command, end), Look::AccentBold);
            push_output(rows, output);
        },
        Line::System(text) => {
            push_row(rows, join2("— ", text), Look::Accent);
        },
        Line::Warn(text) => {
            push_row(rows, join2("⚠ ", text), Look::Yellow);
        },
        Line::Error(text) => {
            push_row(rows, join2("✗ ", text), Look::Red);
        },
    }
    assert(views(rows@) =~= before + line_pieces(line@));
}

fn push_blank(rows: &mut Vec<Row>)
    ensures
        views(final(rows)@) == views(old(rows)@).push(blank()),
{
    let nothing = String::new();
    assert(nothing@ =~= Seq::empty());
    push_row(rows, nothing, Look::Plain);
}

fn render_lines(lines: &Vec<Line>) -> (r: Vec<Row>)
    ensures
        views(r@) == lines_pieces(views(lines@)),
{
    let mut rows: Vec<Row> = Vec::new();
    push_blank(&mut rows);
    let n: usize = lines.len();
    assert(views(rows@) =~= seq![blank()]);
    for i in 0..n
        invariant
            n == lines@.len(),
            views(rows@) == lines_pieces(views(lines@).take(i as int)),
    {
        assert(views(lines@).take(i + 1).drop_last() =~= views(lines@).take(i as int));
        let line = &lines[i];
        render_line(line, &mut rows);
        if matches!(line, Line::User(_) | Line::Assistant(_) | Line::Tool { .. }) {
            push_blank(&mut rows);
        }
    }
    assert(views(lines@).take(n as int) =~= views(lines@));
    rows
}

/// The last characters of a text.
fn tail_of(s: &str, n: usize) -> (r: String)
    ensures
        r@ == last_chars(s@, n as nat),
{
    let v = chars_of(s);
    let len: usize = v.len();
    if len <= n {
        copy_of(s)
    } else {
        let r = string_of(&v, len - n, len);
        assert(r@ =~= s@.skip(len - n));
        r
    }
}

fn render_tools(app: &App, rows: &mut Vec<Row>)
    ensures
        views(final(rows)@) == views(old(rows)@) + tools_pieces(app@.open_tools),
{
    let ghost before = views(rows@);
    let ghost tools = app@.open_tools;
    let open = app.open_tools.entries();
    let n: usize = open.len();
    assert(before + tools_pieces(tools.take(0)) =~= before);
    for i in 0..n
        invariant
            n == open@.len(),
            views(open@) == tools,
            views(rows@) == before + tools_pieces(tools.take(i as int)),
    {
        assert(tools.take(i + 1).drop_last() =~= tools.take(i as int));
        assert(views(open@)[i as int] == open@[i as int]@);
        push_row(rows, join2("  ⚙ ", &open[i].command), Look::AccentBold);
        push_row(
            rows,
            join2("    ", &tail_of(&open[i].output, LIVE_TAIL_CHARS)),
            Look::Accent,
        );
        assert(views(rows@) =~= before + tools_pieces(tools.take(i + 1)));
    }
    assert(tools.take(n as int) =~= tools);
}

fn wrap_rows(rows: &Vec<Row>, width: usize) -> (r: Vec<Row>)
    ensures
        views(r@) == wrap_pieces(views(rows@), width as nat),
        forall|i: int|
            0 <= i < r@.len() ==> line_columns((#[trigger] r@[i])@.text) <= wrap_limit(
                width as nat,
            ),
{
    let mut out: Vec<Row> = Vec::new();
    let n: usize = rows.len();
    for i in 0..n
        invariant
            n == rows@.len(),
            views(out@) == wrap_pieces(views(rows@).take(i as int), width as nat),
            forall|k: int|
                0 <= k < out@.len() ==> line_columns((#[trigger] out@[k])@.text) <= wrap_limit(
                    width as nat,
                ),
    {
        assert(views(rows@).take(i + 1).drop_last() =~= views(rows@).take(i as int));
        let lines = wrap_width(&rows[i].text, width);
        let m: usize = lines.len();
        let look = rows[i].look;
        let ghost before = views(out@);
        let ghost old_out = out@;
        proof {
            reveal_strlit("");
            assert(""@ =~= Seq::<char>::empty());
            assert(views(lines@).subrange(0, m as int) =~= views(lines@));
        }
        push_prefixed(&mut out, &lines, 0, m, "", look);
        assert(views(out@).len() == out@.len());
        assert(out@.len() == before.len() + m);
        assert forall|k: int| 0 <= k < out@.len() implies line_columns((#[trigger] out@[k])@.text)
            <= wrap_limit(width as nat) by {
            assert(views(out@)[k] == out@[k]@);
            if k < before.len() {
                assert(before[k] == old_out[k]@);
            } else {
                let j = k - before.len();
                assert(views(lines@)[j] == lines@[j]@);
                assert(out@[k]@.text =~= lines@[j]@);
            }
        }
    }
    assert(views(rows@).take(n as int) =~= views(rows@));
    out
}

/// What the transcript area shows: its rows and how many of them lie above
/// the area.
#[derive(Debug)]
pub struct Screen {
    pub rows: Vec<Row>,
    pub scroll: u16,
}

/// The columns or rows inside a border.
pub open spec fn inside(n: u16) -> nat {
    if n < 2 {
        0
    } else {
        (n - 2) as nat
    }
}

/// The rows of the transcript in an area of the given outer width.
pub open spec fn transcript_rows(app: AppView, width: u16) -> Seq<RowView> {
    wrap_pieces(pieces(app), inside(width))
}

/// Where the view of some content begins: `from_bottom` rows above the
/// bottom, but never above the top.
pub open spec fn offset_of(total: int, visible: int, from_bottom: int) -> int {
    if total - visible - from_bottom > 0 && total > visible {
        total - visible - from_bottom
    } else {
        0
    }
}

/// How many rows lie above the view; `from_bottom` is how many rows the
/// view sits above the newest content, 0 following it.
pub fn scroll_offset(total: u16, visible: u16, from_bottom: u16) -> (r: u16)
    ensures
        r == offset_of(total as int, visible as int, from_bottom as int),
{
    total.saturating_sub(visible).saturating_sub(from_bottom)
}

/// Following the newest content shows the bottom row last; scrolling up
/// moves the view by as many rows until the top is reached.
pub proof fn law_scroll_is_anchored_at_the_bottom(total: u16, visible: u16, from_bottom: u16)
    ensures
        visible <= total ==> offset_of(total as int, visible as int, 0) + visible == total,
        visible + from_bottom <= total ==> offset_of(
            total as int,
            visible as int,
            from_bottom as int,
        ) == offset_of(total as int, visible as int, 0) - from_bottom,
        visible + from_bottom >= total ==> offset_of(
            total as int,
            visible as int,
            from_bottom as int,
        ) == 0,
{
}

/// The rows of the transcript, and the place at which the view begins, in
/// an area of the given outer size.
pub fn transcript(app: &App, width: u16, height: u16) -> (r: Screen)
    ensures
        views(r.rows@) == transcript_rows(app@, width),
        r.scroll == offset_of(
            if r.rows@.len() > u16::MAX {
                u16::MAX as int
            } else {
                r.rows@.len() as int
            },
            inside(height) as int,
            app.scroll_from_bottom as int,
        ),
        forall|i: int|
            0 <= i < r.rows@.len() ==> line_columns((#[trigger] r.rows@[i])@.text) <= wrap_limit(
                inside(width),
            ),
{
    let mut rows = render_lines(&app.lines);
    let ghost first = views(rows@);
    if !app.streaming_reasoning.as_str().is_empty() {
        let parts = split(&app.streaming_reasoning, '\n');
        let n: usize = parts.len();
        assert(views(parts@).subrange(0, n as int) =~= views(parts@));
        push_prefixed(&mut rows, &parts, 0, n, "  · ", Look::DimItalic);
    }
    let ghost second = views(rows@);
    if !app.streaming_assistant.as_str().is_empty() {
        push_blank(&mut rows);
        push_row(&mut rows, copy_of(&app.streaming_assistant), Look::White);
    }
    let ghost third = views(rows@);
    render_tools(app, &mut rows);
    proof {
        let v = app@;
        let thought = if v.reasoning.len() > 0 {
            prefixed(split_by(v.reasoning, '\n'), "  · "@, Look::DimItalic)
        } else {
            Seq::empty()
        };
        let answer = if v.assistant.len() > 0 {
            seq![blank(), RowView { text: v.assistant, look: Look::White }]
        } else {
            Seq::empty()
        };
        assert(second =~= first + thought);
        assert(third =~= second + answer);
        assert(views(rows@) =~= pieces(v));
    }
    let rows = wrap_rows(&rows, width.saturating_sub(2) as usize);
    let n: usize = rows.len();
    let total: u16 = if n > u16::MAX as usize {
        u16::MAX
    } else {
        n as u16
    };
    let scroll: u16 = scroll_offset(total, height.saturating_sub(2), app.scroll_from_bottom);
    Screen { rows, scroll }
}

/// The prompt in front of the input.
pub open spec fn prompt_text(busy: bool) -> Seq<char> {
    if busy {
        " ● "@
    } else {
        " ❯ "@
    }
}

/// The prompt in front of the input and its color.
pub fn prompt(busy: bool) -> (r: (String, Look))
    ensures
        r.0@ == prompt_text(busy),
        r.1 == (if busy {
            Look::Yellow
        } else {
            Look::Green
        }),
{
    if busy {
        (copy_of(" ● "), Look::Yellow)
    } else {
        (copy_of(" ❯ "), Look::Green)
    }
}

/// The columns that the input takes.
pub fn input_width(s: &str) -> (r: usize)
    ensures
        r == text_columns(s@),
{
    width_of_text(s)
}

/// Where the cursor stands: behind the input, unless that is outside the
/// bordered area, which begins at `(x, y)`.
pub fn cursor(app: &App, x: u16, y: u16, width: u16) -> (r: Option<(u16, u16)>)
    requires
        x + width <= u16::MAX,
        y < u16::MAX,
    ensures
        r == ({
            let column = x + 1 + text_columns(prompt_text(app@.busy)) + text_columns(app@.input);
            if column < x + width - 1 {
                Some((column as u16, (y + 1) as u16))
            } else {
                None
            }
        }),
{
    let label = prompt(app.busy).0;
    let before: u128 = x as u128 + 1 + width_of_text(&label) as u128;
    let column: u128 = before + input_width(&app.input) as u128;
    if column + 1 < x as u128 + width as u128 {
        Some((column as u16, y + 1))
    } else {
        None
    }
}

/// The color behind the status: an error stays visible, whether or not a
/// turn is running.
pub fn status_look(app: &App) -> (r: Look)
    ensures
        r == (if holds(app@.status, "error"@) {
            Look::Red
        } else if app@.busy {
            Look::Yellow
        } else {
            Look::Green
        }),
{
    if contains(&app.status, "error") {
        Look::Red
    } else if app.busy {
        Look::Yellow
    } else {
        Look::Green
    }
}

/// A key that the user pressed.
#[derive(Debug, Clone, Copy, PartialEq, Eq)]
pub enum Key {
    Enter,
    Backspace,
    /// A character, with whether the control key was held.
    Char(char, bool),
    Up,
    Down,
    Esc,
    Other,
}

/// The rows that one press of an arrow key scrolls by.
pub const SCROLL_STEP: u16 = 3;

impl AppView {
    /// What a key does.
    pub open spec fn keyed(self, key: Key) -> AppView {
        match key {
            Key::Enter | Key::Other => self,
            Key::Backspace => if self.input.len() == 0 {
                self
            } else {
                AppView { input: self.input.drop_last(), ..self }
            },
            Key::Char(c, control) => if c == 'c' && control {
                AppView { should_quit: true, ..self }
            } else {
                AppView { input: self.input.push(c), ..self }
            },
            Key::Up => AppView {
                scroll_from_bottom: if self.scroll_from_bottom + SCROLL_STEP > u16::MAX {
                    u16::MAX
                } else {
                    (self.scroll_from_bottom + SCROLL_STEP) as u16
                },
                ..self
            },
            Key::Down => AppView {
                scroll_from_bottom: if self.scroll_from_bottom < SCROLL_STEP {
                    0
                } else {
                    (self.scroll_from_bottom - SCROLL_STEP) as u16
                },
                ..self
            },
            Key::Esc => AppView { cancel_requested: self.cancel_requested || self.busy, ..self },
        }
    }
}

/// Handles a key; returns whether the input is to be submitted.
pub fn on_key(app: &mut App, key: Key) -> (r: bool)
    ensures
        r == (key is Enter),
        final(app)@ == old(app)@.keyed(key),
{
    match key {
        Key::Enter => {
            return true;
        },
        Key::Other => {},
        Key::Backspace => {
            let v = chars_of(&app.input);
            let n: usize = v.len();
            if n > 0 {
                app.input = string_of(&v, 0, n - 1);
                assert(app.input@ =~= old(app).input@.drop_last());
            }
        },
        Key::Char(c, control) => {
            if c == 'c' && control {
                app.should_quit = true;
            } else {
                app.input.push(c);
            }
        },
        Key::Up => {
            app.scroll_from_bottom = app.scroll_from_bottom.saturating_add(SCROLL_STEP);
        },
        Key::Down => {
            app.scroll_from_bottom = app.scroll_from_bottom.saturating_sub(SCROLL_STEP);
        },
        Key::Esc => {
            if app.busy {
                app.cancel_requested = true;
            }
        },
    }
    false
}

/// Cancelling is not quitting: the key that cancels the running turn leaves
/// the interface open, and without a running turn it does nothing.
pub proof fn law_cancelling_is_not_quitting(app: AppView)
    ensures
        app.keyed(Key::Esc).should_quit == app.should_quit,
        app.busy ==> app.keyed(Key::Esc).cancel_requested,
        !app.busy ==> app.keyed(Key::Esc) == app,
{
}

/// What is typed goes behind the input, and the last character is taken back
/// again; with the control key held, c quits. Keys that scroll move the view
/// and leave the input alone.
pub proof fn law_keys_edit_the_input(app: AppView, c: char, control: bool)
    ensures
        !(c == 'c' && control) ==> app.keyed(Key::Char(c, control)) == (AppView {
            input: app.input.push(c),
            ..app
        }),
        !(c == 'c' && control) ==> app.keyed(Key::Char(c, control)).keyed(Key::Backspace) == app,
        app.keyed(Key::Char('c', true)) == (AppView { should_quit: true, ..app }),
        app.input.len() == 0 ==> app.keyed(Key::Backspace) == app,
        app.keyed(Key::Up).input == app.input && app.keyed(Key::Down).input == app.input,
        app.scroll_from_bottom <= u16::MAX - 3 ==> app.keyed(Key::Up).scroll_from_bottom
            == app.scroll_from_bottom + 3 && app.keyed(Key::Up).keyed(Key::Down) == app,
        app.scroll_from_bottom <= 3 ==> app.keyed(Key::Down).scroll_from_bottom == 0,
        app.keyed(Key::Enter) == app,
        app.keyed(Key::Other) == app,
{
    assert(app.input.push(c).drop_last() =~= app.input);
    let back = app.keyed(Key::Char(c, control)).keyed(Key::Backspace);
    if !(c == 'c' && control) {
        assert(back =~= app);
    }
    if app.scroll_from_bottom <= u16::MAX - 3 {
        assert(app.keyed(Key::Up).keyed(Key::Down) =~= app);
    }
}

/// Whether the rows are the lines of the text, in order, each behind the
/// prefix.
pub open spec fn are_lines_of(
    rows: Seq<RowView>,
    text: Seq<char>,
    prefix: Seq<char>,
) -> bool {
    &&& rows.len() == split_by(text, '\n').len()
    &&& forall|i: int|
        0 <= i < rows.len() ==> (#[trigger] rows[i]).text == prefix + split_by(text, '\n')[i]
}

/// What is said is shown, line by line: the user's text, the model's text
/// and its thoughts; of a tool its command and, up to a limit, its output,
/// with a note on how much is missing; and every notice in a row of its own.
pub proof fn law_entries_are_shown(text: Seq<char>, command: Seq<char>, done: bool)
    ensures
        are_lines_of(line_pieces(LineView::Assistant(text)), text, Seq::empty()),
        ({
            let rows = line_pieces(LineView::User(text));
            let parts = split_by(text, '\n');
            &&& rows.len() == parts.len()
            &&& rows[0].text == "❯ "@ + parts[0]
            &&& forall|i: int| 0 < i < rows.len() ==> (#[trigger] rows[i]).text == "  "@ + parts[i]
        }),
        are_lines_of(line_pieces(LineView::Reasoning(text)).drop_first(), text, "  · "@),
        ({
            let rows = line_pieces(LineView::Tool { command, output: text, done });
            let parts = split_by(text, '\n');
            &&& rows[0].text == if done {
                "⚙ "@ + command
            } else {
                "⚙ "@ + command + " …"@
            }
            &&& parts.len() <= 24 ==> rows.len() == parts.len() + 1
            &&& parts.len() > 24 ==> rows.len() == 26 && rows.last().text == "  … "@ + decimal(
                (parts.len() - 24) as nat,
            ) + " more lines"@
            &&& forall|i: int|
                0 <= i < parts.len() && i < 24 ==> rows[i + 1].text == "  "@ + (
                #[trigger] parts[i])
        }),
        line_pieces(LineView::System(text)) == seq![
            RowView { text: "— "@ + text, look: Look::Accent },
        ],
        line_pieces(LineView::Warn(text)) == seq![
            RowView { text: "⚠ "@ + text, look: Look::Yellow },
        ],
        line_pieces(LineView::Error(text)) == seq![RowView { text: "✗ "@ + text, look: Look::Red }],
{
    lemma_split_nonempty(text, '\n');
    let parts = split_by(text, '\n');
    let tool = line_pieces(LineView::Tool { command, output: text, done });
    assert("⚙ "@ + command + Seq::<char>::empty() =~= "⚙ "@ + command);
    assert forall|i: int| 0 <= i < parts.len() && i < 24 implies tool[i + 1].text == "  "@ + (
    #[trigger] parts[i]) by {
        assert(tool[i + 1] == output_pieces(text)[i]);
    }
    let user = line_pieces(LineView::User(text));
    assert forall|i: int| 0 < i < user.len() implies (#[trigger] user[i]).text == "  "@
        + parts[i] by {
        assert(parts.skip(1)[i - 1] == parts[i]);
    }
    assert(parts.take(1)[0] == parts[0]);
}

/// The transcript is shown entry by entry, oldest first, and what is being
/// streamed and the calls that run stand behind it.
pub proof fn law_transcript_is_shown_in_order(app: AppView, lines: Seq<LineView>, line: LineView)
    ensures
        lines_pieces(lines.push(line)) == if line is User || line is Assistant || line is Tool {
            (lines_pieces(lines) + line_pieces(line)).push(blank())
        } else {
            lines_pieces(lines) + line_pieces(line)
        },
        ({
            let all = pieces(app);
            let n = lines_pieces(app.lines).len();
            &&& all.len() >= n
            &&& all.take(n as int) == lines_pieces(app.lines)
            &&& app.assistant.len() > 0 ==> exists|i: int|
                n <= i < all.len() && (#[trigger] all[i]).text == app.assistant
            &&& app.reasoning.len() > 0 ==> all.len() > n && all[n as int].text == "  · "@
                + split_by(app.reasoning, '\n')[0]
        }),
        forall|i: int|
            0 <= i < app.open_tools.len() ==> exists|k: int|
                0 <= k < pieces(app).len() && (#[trigger] pieces(app)[k]).text == "  ⚙ "@ + (
                #[trigger] app.open_tools[i]).command,
{
    assert(lines.push(line).drop_last() =~= lines);
    let all = pieces(app);
    let first = lines_pieces(app.lines);
    let n = first.len() as int;
    assert(all.take(n) =~= first);
    let thought = if app.reasoning.len() > 0 {
        prefixed(split_by(app.reasoning, '\n'), "  · "@, Look::DimItalic)
    } else {
        Seq::empty()
    };
    let answer = if app.assistant.len() > 0 {
        seq![blank(), RowView { text: app.assistant, look: Look::White }]
    } else {
        Seq::empty()
    };
    lemma_split_nonempty(app.reasoning, '\n');
    if app.assistant.len() > 0 {
        assert(all[n + thought.len() + 1].text == app.assistant);
    }
    if app.reasoning.len() > 0 {
        assert(all[n] == thought[0]);
    }
    let at = n + thought.len() + answer.len();
    let tools = tools_pieces(app.open_tools);
    lemma_tools_pieces(app.open_tools);
    assert forall|i: int| 0 <= i < app.open_tools.len() implies exists|k: int|
        0 <= k < pieces(app).len() && (#[trigger] pieces(app)[k]).text == "  ⚙ "@ + (
        #[trigger] app.open_tools[i]).command by {
        assert(all[at + 2 * i] == tools[2 * i]);
    }
}

proof fn lemma_tools_pieces(tools: Seq<OpenToolView>)
    ensures
        tools_pieces(tools).len() == 2 * tools.len(),
        forall|i: int|
            0 <= i < tools.len() ==> tools_pieces(tools)[2 * i].text == "  ⚙ "@ + (
            #[trigger] tools[i]).command,
        forall|i: int|
            0 <= i < tools.len() ==> tools_pieces(tools)[2 * i + 1].text == "    "@ + last_chars(
                (#[trigger] tools[i]).output,
                240,
            ),
    decreases tools.len(),
{
    if tools.len() > 0 {
        let head = tools.drop_last();
        let before = tools_pieces(head);
        lemma_tools_pieces(head);
        assert forall|i: int| 0 <= i < tools.len() implies tools_pieces(tools)[2 * i].text
            == "  ⚙ "@ + (#[trigger] tools[i]).command by {
            if i < head.len() {
                assert(head[i] == tools[i]);
                assert(tools_pieces(tools)[2 * i] == before[2 * i]);
            }
        }
        assert forall|i: int| 0 <= i < tools.len() implies tools_pieces(tools)[2 * i + 1].text
            == "    "@ + last_chars((#[trigger] tools[i]).output, 240) by {
            if i < head.len() {
                assert(head[i] == tools[i]);
                assert(tools_pieces(tools)[2 * i + 1] == before[2 * i + 1]);
            }
        }
    }
}

/// Each running call is shown with its command and the latest of its output.
pub proof fn law_running_calls_are_shown(tools: Seq<OpenToolView>, i: int)
    requires
        0 <= i < tools.len(),
    ensures
        tools_pieces(tools).len() == 2 * tools.len(),
        tools_pieces(tools)[2 * i].text == "  ⚙ "@ + tools[i].command,
        tools[i].output.len() <= 240 ==> tools_pieces(tools)[2 * i + 1].text == "    "@
            + tools[i].output,
        tools[i].output.len() > 240 ==> tools_pieces(tools)[2 * i + 1].text == "    "@
            + tools[i].output.skip(tools[i].output.len() - 240),
{
    lemma_tools_pieces(tools);
}

proof fn lemma_put_behind(w: Wrapping, run: Seq<char>, width: nat, before: Seq<Seq<char>>)
    ensures
        ({
            let v = Wrapping { done: before + w.done, ..w };
            v.put_all(run, width) == (Wrapping {
                done: before + w.put_all(run, width).done,
                line: w.put_all(run, width).line,
            })
        }),
    decreases run.len(),
{
    let v = Wrapping { done: before + w.done, ..w };
    if run.len() > 0 {
        lemma_put_behind(w, run.drop_last(), width, before);
        let x = w.put_all(run.drop_last(), width);
        let y = v.put_all(run.drop_last(), width);
        assert(y.done.push(y.line) =~= before + x.done.push(x.line));
        assert(y.put(run.last(), width) =~= Wrapping {
            done: before + x.put(run.last(), width).done,
            line: x.put(run.last(), width).line,
        });
    }
}

proof fn lemma_words_behind(
    w: Wrapping,
    words: Seq<Seq<char>>,
    width: nat,
    before: Seq<Seq<char>>,
)
    ensures
        ({
            let v = Wrapping { done: before + w.done, ..w };
            v.put_words(words, width) == (Wrapping {
                done: before + w.put_words(words, width).done,
                line: w.put_words(words, width).line,
            })
        }),
    decreases words.len(),
{
    let v = Wrapping { done: before + w.done, ..w };
    if words.len() > 0 {
        let word = words.last();
        lemma_words_behind(w, words.drop_last(), width, before);
        let x = w.put_words(words.drop_last(), width);
        let y = v.put_words(words.drop_last(), width);
        assert(y.done.push(y.line) =~= before + x.done.push(x.line));
        let p = x.before_word(word, width);
        let q = y.before_word(word, width);
        assert(q =~= Wrapping { done: before + p.done, line: p.line });
        lemma_put_behind(p, word, width, before);
    }
}

proof fn lemma_paragraphs_apart(a: Seq<Seq<char>>, b: Seq<Seq<char>>, width: nat)
    ensures
        wrap_paragraphs(a + b, width) == wrap_paragraphs(a, width) + wrap_paragraphs(b, width),
    decreases b.len(),
{
    if b.len() == 0 {
        assert(a + b =~= a);
        assert(wrap_paragraphs(a, width) + wrap_paragraphs(b, width) =~= wrap_paragraphs(a, width));
    } else {
        let head = b.drop_last();
        lemma_paragraphs_apart(a, head, width);
        assert((a + b).drop_last() =~= a + head);
        let first = wrap_paragraphs(a, width);
        let w = Wrapping { done: wrap_paragraphs(head, width), line: Seq::empty() };
        let words = split_by(b.last(), ' ');
        lemma_words_behind(w, words, width, first);
        let x = w.put_words(words, width);
        assert((first + x.done).push(x.line) =~= first + x.done.push(x.line));
        assert((a + b).last() == b.last());
    }
}

proof fn lemma_split_concat(a: Seq<char>, b: Seq<char>, sep: char)
    ensures
        split_by(a.push(sep) + b, sep) == split_by(a, sep) + split_by(b, sep),
    decreases b.len(),
{
    let s = a.push(sep) + b;
    lemma_split_nonempty(a, sep);
    if b.len() == 0 {
        assert(s.drop_last() =~= a);
        assert(split_by(b, sep) =~= seq![seq![]]);
        assert(split_by(s, sep) =~= split_by(a, sep) + split_by(b, sep));
    } else {
        let head = b.drop_last();
        lemma_split_concat(a, head, sep);
        lemma_split_nonempty(head, sep);
        assert(s.drop_last() =~= a.push(sep) + head);
        assert(s.last() == b.last());
        assert(split_by(s, sep) =~= split_by(a, sep) + split_by(b, sep));
    }
}

/// A line break of the text is kept: what stands before it and what stands
/// behind it are wrapped each for itself.
pub proof fn law_line_breaks_are_kept(a: Seq<char>, b: Seq<char>, width: nat)
    ensures
        wrapped(a.push('\n') + b, width) == wrapped(a, width) + wrapped(b, width),
        wrapped(a, width).len() > 0,
{
    lemma_split_concat(a, b, '\n');
    lemma_paragraphs_apart(split_by(a, '\n'), split_by(b, '\n'), wrap_limit(width));
    lemma_split_nonempty(a, '\n');
}

proof fn lemma_put_short(run: Seq<char>, width: nat, done: Seq<Seq<char>>)
    requires
        line_columns(run) <= width,
    ensures
        (Wrapping { done, line: Seq::empty() }).put_all(run, width) == (Wrapping {
            done,
            line: run,
        }),
    decreases run.len(),
{
    let w = Wrapping { done, line: Seq::empty() };
    if run.len() == 0 {
        assert(run =~= Seq::empty());
    } else {
        lemma_put_short(run.drop_last(), width, done);
        assert(run.drop_last().push(run.last()) =~= run);
    }
}

proof fn lemma_one_piece(s: Seq<char>, sep: char)
    requires
        !s.contains(sep),
    ensures
        split_by(s, sep) == seq![s],
    decreases s.len(),
{
    if s.len() == 0 {
        assert(s =~= seq![]);
        assert(split_by(s, sep) =~= seq![s]);
    } else {
        let head = s.drop_last();
        assert(!head.contains(sep)) by {
            if head.contains(sep) {
                let k = choose|k: int| 0 <= k < head.len() && head[k] == sep;
                assert(s[k] == sep);
            }
        }
        assert(s.last() != sep) by {
            if s.last() == sep {
                assert(s[s.len() - 1] == sep);
                assert(s.contains(sep));
            }
        }
        lemma_one_piece(head, sep);
        assert(head.push(s.last()) =~= s);
        assert(split_by(s, sep) =~= seq![s]);
    }
}

/// A word that fits on a line is not broken: it is a line of its own where
/// nothing else is there.
pub proof fn law_short_word_is_not_broken(word: Seq<char>, width: nat)
    requires
        !word.contains(' '),
        !word.contains('\n'),
        line_columns(word) <= wrap_limit(width),
    ensures
        wrapped(word, width) == seq![word],
{
    lemma_one_piece(word, '\n');
    lemma_one_piece(word, ' ');
    let limit = wrap_limit(width);
    let none = Seq::<Seq<char>>::empty();
    let w = Wrapping { done: none, line: Seq::empty() };
    assert(seq![word].drop_last() =~= none);
    assert(wrap_paragraphs(none, limit) =~= none);
    assert(w.put_words(none, limit) == w);
    lemma_put_short(word, limit, none);
    assert(w.used() == 0);
    assert(w.put_words(seq![word], limit) == (Wrapping { done: none, line: word }));
    assert(wrapped(word, width) =~= seq![word]);
}

/// Rows keep their looks, and every piece is wrapped for itself: rows come
/// in the order of the pieces.
pub proof fn law_pieces_are_wrapped_in_order(ps: Seq<RowView>, p: RowView, width: nat)
    ensures
        ({
            let before = wrap_pieces(ps, width);
            let after = wrap_pieces(ps.push(p), width);
            let lines = wrapped(p.text, width);
            &&& after.len() == before.len() + lines.len()
            &&& after.take(before.len() as int) == before
            &&& forall|i: int|
                0 <= i < lines.len() ==> after[before.len() + i] == (RowView {
                    text: #[trigger] lines[i],
                    look: p.look,
                })
        }),
{
    assert(ps.push(p).drop_last() =~= ps);
    let before = wrap_pieces(ps, width);
    let after = wrap_pieces(ps.push(p), width);
    let lines = wrapped(p.text, width);
    assert(after.take(before.len() as int) =~= before);
    assert forall|i: int| 0 <= i < lines.len() implies after[before.len() + i] == (RowView {
        text: #[trigger] lines[i],
        look: p.look,
    }) by {
        assert(Seq::<char>::empty() + lines[i] =~= lines[i]);
    }
}

/// Words share a line where they fit, with a space between them, and the
/// second goes to a line of its own where they do not.
pub proof fn law_words_share_a_line(a: Seq<char>, b: Seq<char>, width: nat)
    requires
        !a.contains(' ') && !a.contains('\n'),
        !b.contains(' ') && !b.contains('\n'),
        0 < line_columns(a) <= wrap_limit(width),
        line_columns(b) <= wrap_limit(width),
    ensures
        line_columns(a) + 1 + text_columns(b) > wrap_limit(width) ==> wrapped(
            a.push(' ') + b,
            width,
        ) == seq![a, b],
        line_columns(a) + 1 + text_columns(b) <= wrap_limit(width) && line_columns(a.push(' ') + b)
            <= wrap_limit(width) ==> wrapped(a.push(' ') + b, width) == seq![a.push(' ') + b],
{
    let s = a.push(' ') + b;
    let limit = wrap_limit(width);
    let none = Seq::<Seq<char>>::empty();
    assert(!s.contains('\n')) by {
        if s.contains('\n') {
            let k = choose|k: int| 0 <= k < s.len() && s[k] == '\n';
            if k < a.len() {
                assert(a[k] == '\n');
            } else {
                assert(b[k - a.len() - 1] == '\n');
            }
        }
    }
    lemma_one_piece(s, '\n');
    lemma_one_piece(a, ' ');
    lemma_one_piece(b, ' ');
    lemma_split_concat(a, b, ' ');
    let words = seq![a] + seq![b];
    assert(split_by(s, ' ') == words);
    assert(words.drop_last() =~= seq![a]);
    assert(seq![a].drop_last() =~= none);
    let w = Wrapping { done: none, line: Seq::empty() };
    assert(wrap_paragraphs(none, limit) =~= none);
    assert(seq![s].drop_last() =~= none);
    assert(w.put_words(none, limit) == w);
    lemma_put_short(a, limit, none);
    assert(w.used() == 0);
    let v = Wrapping { done: none, line: a };
    assert(w.put_words(seq![a], limit) == v);
    if line_columns(a) + 1 + text_columns(b) > limit {
        let u = v.before_word(b, limit);
        assert(u =~= Wrapping { done: seq![a], line: Seq::empty() });
        lemma_put_short(b, limit, seq![a]);
        assert(w.put_words(words, limit) == (Wrapping { done: seq![a], line: b }));
        assert(wrapped(s, width) =~= seq![a, b]);
    } else if line_columns(s) <= limit {
        let u = v.before_word(b, limit);
        assert(u == (Wrapping { done: none, line: a.push(' ') }));
        lemma_put_on(a.push(' '), b, limit, none);
        assert(w.put_words(words, limit) == (Wrapping { done: none, line: s }));
        assert(wrapped(s, width) =~= seq![s]);
    }
}

proof fn lemma_put_on(line: Seq<char>, run: Seq<char>, width: nat, done: Seq<Seq<char>>)
    requires
        line_columns(line + run) <= width,
    ensures
        (Wrapping { done, line }).put_all(run, width) == (Wrapping { done, line: line + run }),
    decreases run.len(),
{
    if run.len() == 0 {
        assert(line + run =~= line);
    } else {
        let head = run.drop_last();
        assert((line + run).drop_last() =~= line + head);
        assert((line + run).last() == run.last());
        lemma_put_on(line, head, width, done);
        assert((line + head).push(run.last()) =~= line + run);
    }
}

/// The transcript is wrapped to the columns inside the border, and begins
/// with what is said.
pub proof fn law_transcript_is_wrapped_to_its_area(app: AppView, width: u16)
    ensures
        width >= 2 ==> transcript_rows(app, width) == wrap_pieces(pieces(app), (width - 2) as nat),
        width < 2 ==> transcript_rows(app, width) == wrap_pieces(pieces(app), 0),
        width >= 2 ==> inside(width) == width - 2,
{
}

} // verus!
