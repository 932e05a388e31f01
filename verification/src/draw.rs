//! Greedy word wrap: splits a text into words, packs the measured words into
//! lines under a width limit, and centres every line in the window.

use vstd::prelude::*;

verus! {

/// A colour, as four channels.
#[derive(Clone, Copy, Debug, PartialEq, Eq, Structural)]
pub struct Color {
    pub r: u8,
    pub g: u8,
    pub b: u8,
    pub a: u8,
}

/// A word together with its width in pixels at the font size in use.
#[derive(Clone, Debug, PartialEq, Eq)]
pub struct MeasuredWord {
    pub text: String,
    pub width: i32,
}

/// One line of text to draw, with the position of its left end.
#[derive(Clone, Debug, PartialEq, Eq)]
pub struct LineDraw {
    pub text: String,
    pub x: i32,
    pub y: i32,
    pub font_size: i32,
    pub color: Color,
}

/// Whether a character is white space, as `char::is_whitespace` tells.
pub uninterp spec fn white_space(c: char) -> bool;

/// `char::is_whitespace`: whether the character has the Unicode property
/// `White_Space`. Which characters have it is left to the standard library;
/// the answer depends on the character alone.
pub assume_specification[ char::is_whitespace ](c: char) -> (b: bool)
    ensures
        b == white_space(c),
;

/// `String::push`: appends one character to the end of the string.
pub assume_specification[ String::push ](s: &mut String, c: char)
    ensures
        final(s)@ == old(s)@.push(c),
;

/// Whether no character of `s` is white space.
pub open spec fn solid(s: Seq<char>) -> bool {
    forall|k: int| 0 <= k < s.len() ==> !white_space(#[trigger] s[k])
}

/// Length of the word that opens `s`: the characters before the first white
/// space.
pub open spec fn word_len(s: Seq<char>) -> nat
    decreases s.len(),
{
    if s.len() == 0 || white_space(s[0]) {
        0
    } else {
        1 + word_len(s.drop_first())
    }
}

/// The word that opens `s` does not reach past the end of `s`.
pub proof fn lemma_word_len_bound(s: Seq<char>)
    ensures
        word_len(s) <= s.len(),
    decreases s.len(),
{
    if s.len() > 0 && !white_space(s[0]) {
        lemma_word_len_bound(s.drop_first());
    }
}

/// The words of a text: its longest runs of characters that are not white
/// space, in order. White space separates words and belongs to none.
pub open spec fn words_of(s: Seq<char>) -> Seq<Seq<char>>
    decreases s.len(),
{
    if s.len() == 0 {
        Seq::empty()
    } else if white_space(s[0]) {
        words_of(s.drop_first())
    } else {
        proof {
            lemma_word_len_bound(s);
        }
        seq![s.take(word_len(s) as int)] + words_of(s.skip(word_len(s) as int))
    }
}

/// A text of white space alone, or of nothing, has no words.
pub proof fn lemma_blank_text_has_no_words(s: Seq<char>)
    requires
        forall|k: int| 0 <= k < s.len() ==> white_space(#[trigger] s[k]),
    ensures
        words_of(s) == Seq::<Seq<char>>::empty(),
    decreases s.len(),
{
    if s.len() > 0 {
        let rest = s.drop_first();
        assert forall|k: int| 0 <= k < rest.len() implies white_space(#[trigger] rest[k]) by {
            assert(rest[k] == s[k + 1]);
        }
        lemma_blank_text_has_no_words(rest);
    }
}

/// Every word has a character, and none of its characters is white space.
pub proof fn lemma_words_are_solid(s: Seq<char>)
    ensures
        forall|k: int|
            0 <= k < words_of(s).len() ==> (#[trigger] words_of(s)[k]).len() > 0 && solid(
                words_of(s)[k],
            ),
    decreases s.len(),
{
    if s.len() == 0 {
        assert(words_of(s).len() == 0);
    } else {
        if white_space(s[0]) {
            lemma_words_are_solid(s.drop_first());
            assert(words_of(s) == words_of(s.drop_first()));
        } else {
            let first = s.take(word_len(s) as int);
            let others = words_of(s.skip(word_len(s) as int));
            lemma_word_is_solid(s);
            lemma_words_are_solid(s.skip(word_len(s) as int));
            assert(words_of(s) == seq![first] + others);
            assert forall|k: int| 0 <= k < words_of(s).len() implies (#[trigger] words_of(
                s,
            )[k]).len() > 0 && solid(words_of(s)[k]) by {
                if k > 0 {
                    assert(words_of(s)[k] == others[k - 1]);
                }
            }
        }
    }
}

/// The word that opens `s` holds no white space.
proof fn lemma_word_is_solid(s: Seq<char>)
    ensures
        word_len(s) <= s.len(),
        solid(s.take(word_len(s) as int)),
    decreases s.len(),
{
    if s.len() > 0 && !white_space(s[0]) {
        let rest = s.drop_first();
        lemma_word_is_solid(rest);
        let word = s.take(word_len(s) as int);
        assert forall|k: int| 0 <= k < word.len() implies !white_space(#[trigger] word[k]) by {
            if k > 0 {
                assert(word[k] == rest.take(word_len(rest) as int)[k - 1]);
            }
        }
    }
}

/// A run without white space that ends the text, or that white space
/// follows, is the first word; the rest of the words come from what follows.
proof fn lemma_first_word(word: Seq<char>, rest: Seq<char>)
    requires
        word.len() > 0,
        solid(word),
        rest.len() == 0 || white_space(rest[0]),
    ensures
        word_len(word + rest) == word.len(),
        words_of(word + rest) == seq![word] + words_of(rest),
    decreases word.len(),
{
    let s = word + rest;
    assert(s[0] == word[0]);
    if word.len() == 1 {
        assert(s.drop_first() =~= rest);
        assert(word_len(rest) == 0);
    } else {
        let tail = word.drop_first();
        assert(solid(tail)) by {
            assert forall|k: int| 0 <= k < tail.len() implies !white_space(#[trigger] tail[k]) by {
                assert(tail[k] == word[k + 1]);
            }
        }
        lemma_first_word(tail, rest);
        assert(s.drop_first() =~= tail + rest);
    }
    assert(s.take(word.len() as int) =~= word);
    assert(s.skip(word.len() as int) =~= rest);
}

/// Splits a text into its words.
pub fn split_words(text: &str) -> (words: Vec<String>)
    ensures
        words.deep_view() == words_of(text@),
{
    let mut words: Vec<String> = Vec::new();
    let mut word = String::new();
    assert(word@ + text@.skip(0) =~= text@);
    assert(words.deep_view() =~= Seq::<Seq<char>>::empty());
    for c in it: text.chars()
        invariant
            it.seq() == text@,
            solid(word@),
            words_of(text@) == words.deep_view() + words_of(word@ + text@.skip(it.index())),
    {
        let ghost rest = text@.skip(it.index());
        let ghost after = text@.skip(it.index() + 1);
        assert(rest[0] == c);
        assert(rest.drop_first() =~= after);
        if c.is_whitespace() {
            assert(words_of(rest) == words_of(after));
            if !word.as_str().is_empty() {
                proof {
                    lemma_first_word(word@, rest);
                }
                let ghost before = words.deep_view();
                words.push(word);
                assert(words.deep_view() =~= before + seq![word@]);
                word = String::new();
            }
            assert(word@ + rest =~= rest);
            assert(word@ + after =~= after);
        } else {
            let ghost partial = word@;
            word.push(c);
            assert(word@ + after =~= partial + rest);
        }
    }
    assert(word@ + text@.skip(text@.len() as int) =~= word@);
    if !word.as_str().is_empty() {
        proof {
            lemma_first_word(word@, Seq::empty());
            assert(word@ + Seq::<char>::empty() =~= word@);
        }
        let ghost before = words.deep_view();
        words.push(word);
        assert(words.deep_view() =~= before + seq![word@]);
    }
    words
}

/// A measured word as the layout sees it.
pub ghost struct Word {
    pub text: Seq<char>,
    pub width: int,
}

/// A placed line as the layout sees it.
pub ghost struct Line {
    pub text: Seq<char>,
    pub x: int,
    pub y: int,
    pub font_size: int,
    pub color: Color,
}

impl View for MeasuredWord {
    type V = Word;

    open spec fn view(&self) -> Word {
        Word { text: self.text@, width: self.width as int }
    }
}

impl DeepView for MeasuredWord {
    type V = Word;

    open spec fn deep_view(&self) -> Word {
        self@
    }
}

impl View for LineDraw {
    type V = Line;

    open spec fn view(&self) -> Line {
        Line {
            text: self.text@,
            x: self.x as int,
            y: self.y as int,
            font_size: self.font_size as int,
            color: self.color,
        }
    }
}

impl DeepView for LineDraw {
    type V = Line;

    open spec fn deep_view(&self) -> Line {
        self@
    }
}

/// The quotient of `a` by a positive `b`, rounded toward zero.
pub open spec fn toward_zero(a: int, b: int) -> int
    recommends
        b > 0,
{
    if a >= 0 {
        a / b
    } else {
        -((-a) / b)
    }
}

/// What a block of text is laid out in.
pub ghost struct Page {
    /// Width of the window, in which each line is centred.
    pub screen_width: int,
    /// Width that a line's words may not reach once a second word joins it.
    pub max_width: int,
    /// Width of the space that follows every word.
    pub space_width: int,
    /// Vertical position of the first line.
    pub top: int,
    pub font_size: int,
    pub color: Color,
}

/// The layout so far: the lines that are complete, and the line being filled.
pub ghost struct Pen {
    pub lines: Seq<Line>,
    /// Text of the line being filled; every word in it is followed by a space.
    pub text: Seq<char>,
    /// Width of the line being filled, trailing space included.
    pub width: int,
    /// Vertical position of the line being filled.
    pub y: int,
}

impl Page {
    /// Distance from one line to the next: six fifths of the font size,
    /// rounded toward zero.
    pub open spec fn line_advance(self) -> int {
        toward_zero(self.font_size * 6, 5)
    }

    /// Where a line of the given width starts: centred, then moved 15 pixels
    /// to the left to make up for the space that ends the line.
    pub open spec fn line_x(self, width: int) -> int {
        toward_zero(self.screen_width - width, 2) - 15
    }

    /// The line that the pen is filling, placed.
    pub open spec fn place(self, pen: Pen) -> Line {
        Line {
            text: pen.text,
            x: self.line_x(pen.width),
            y: pen.y,
            font_size: self.font_size,
            color: self.color,
        }
    }

    /// The lines that are complete once the pen's line is closed. A line
    /// without text is not a line.
    pub open spec fn close(self, pen: Pen) -> Seq<Line> {
        if pen.text.len() > 0 {
            pen.lines.push(self.place(pen))
        } else {
            pen.lines
        }
    }

    /// The pen before the first word.
    pub open spec fn start(self) -> Pen {
        Pen { lines: Seq::empty(), text: Seq::empty(), width: 0, y: self.top }
    }

    /// Takes one word. It joins the line being filled if its width, added to
    /// the line's, stays under `max_width`; otherwise the line is closed and
    /// the word opens the next one, a line advance further down.
    pub open spec fn step(self, pen: Pen, word: Word) -> Pen {
        if pen.width + word.width < self.max_width {
            Pen {
                lines: pen.lines,
                text: pen.text + word.text.push(' '),
                width: pen.width + word.width + self.space_width,
                y: pen.y,
            }
        } else {
            Pen {
                lines: self.close(pen),
                text: word.text.push(' '),
                width: word.width + self.space_width,
                y: pen.y + self.line_advance(),
            }
        }
    }

    /// The pen after the first `n` words.
    pub open spec fn pen_after(self, words: Seq<Word>, n: nat) -> Pen
        decreases n,
    {
        if n == 0 {
            self.start()
        } else {
            self.step(self.pen_after(words, (n - 1) as nat), words[n - 1])
        }
    }

    /// The lines of the whole text.
    pub open spec fn lines(self, words: Seq<Word>) -> Seq<Line> {
        self.close(self.pen_after(words, words.len()))
    }
}

/// The page that the arguments of [`draw_wrapped_text_centered`] describe.
pub open spec fn page_of(
    space_width: i32,
    screen_width: i32,
    y: i32,
    font_size: i32,
    max_width: i32,
    color: Color,
) -> Page {
    Page {
        screen_width: screen_width as int,
        max_width: max_width as int,
        space_width: space_width as int,
        top: y as int,
        font_size: font_size as int,
        color,
    }
}

/// Whether a coordinate can be handed to a drawing surface.
pub open spec fn drawable(v: int) -> bool {
    i32::MIN <= v <= i32::MAX
}

impl Line {
    /// Whether the line starts at a position that can be drawn at.
    pub open spec fn drawable(self) -> bool {
        drawable(self.x) && drawable(self.y)
    }
}

/// Whether every line starts at a position that can be drawn at.
pub open spec fn all_drawable(lines: Seq<Line>) -> bool {
    forall|k: int| 0 <= k < lines.len() ==> (#[trigger] lines[k]).drawable()
}

/// Lines once complete stay: those after `n` words open the final layout.
pub proof fn lemma_lines_stay(page: Page, words: Seq<Word>, n: nat)
    requires
        n <= words.len(),
    ensures
        page.pen_after(words, n).lines.is_prefix_of(page.lines(words)),
    decreases words.len() - n,
{
    if n < words.len() {
        lemma_lines_stay(page, words, n + 1);
        let pen = page.pen_after(words, n);
        let next = page.pen_after(words, n + 1);
        assert(next == page.step(pen, words[n as int]));
        assert(pen.lines.is_prefix_of(next.lines));
    }
}

/// The limit is strict. A word joins the line being filled only while the
/// line's width and the word's together stay under `max_width`; a word that
/// brings them to `max_width` exactly, or past it, opens the next line and
/// leaves the line before it as it was.
pub proof fn lemma_wrap_boundary(page: Page, pen: Pen, word: Word)
    ensures
        pen.width + word.width < page.max_width ==> page.step(pen, word) == (Pen {
            text: pen.text + word.text.push(' '),
            width: pen.width + word.width + page.space_width,
            ..pen
        }),
        pen.width + word.width >= page.max_width ==> page.step(pen, word) == (Pen {
            lines: page.close(pen),
            text: word.text.push(' '),
            width: word.width + page.space_width,
            y: pen.y + page.line_advance(),
        }),
{
}

/// A word as wide as `max_width` or wider, alone in its text, makes exactly
/// one line, which holds that word, the space after it, and nothing else.
pub proof fn lemma_wide_word_alone(page: Page, word: Word)
    requires
        word.width >= page.max_width,
    ensures
        page.lines(seq![word]) == seq![
            Line {
                text: word.text.push(' '),
                x: page.line_x(word.width + page.space_width),
                y: page.top + page.line_advance(),
                font_size: page.font_size,
                color: page.color,
            },
        ],
{
    let words = seq![word];
    assert(page.pen_after(words, 0) == page.start());
    assert(page.pen_after(words, 1) == page.step(page.pen_after(words, 0), words[0]));
    assert(page.lines(words) =~= seq![page.place(page.pen_after(words, 1))]);
}

/// A text without words makes no line.
pub proof fn lemma_no_words_no_lines(page: Page)
    ensures
        page.lines(Seq::empty()) == Seq::<Line>::empty(),
{
}

/// Half of `v`, rounded toward zero.
fn half(v: i128) -> (h: i128)
    ensures
        h == toward_zero(v as int, 2),
{
    if v >= 0 {
        v / 2
    } else if v == i128::MIN {
        v / 2
    } else {
        -((-v) / 2)
    }
}

/// The distance between lines at a font size.
fn line_advance(font_size: i32) -> (advance: i64)
    ensures
        advance == toward_zero(font_size * 6, 5),
        -0x1_0000_0000 <= advance <= 0x1_0000_0000,
{
    let scaled: i64 = font_size as i64 * 6;
    if scaled >= 0 {
        scaled / 5
    } else {
        -((-scaled) / 5)
    }
}

/// Places a line that ends at the given width, if it can be drawn there.
fn place_line(
    text: String,
    width: i128,
    y: i128,
    screen_width: i32,
    font_size: i32,
    color: Color,
) -> (placed: Option<LineDraw>)
    requires
        -0x1_0000_0000_0000_0000_0000_0000_0000 <= width <= 0x1_0000_0000_0000_0000_0000_0000_0000,
    ensures
        placed is Some <==> drawable(toward_zero(screen_width - width, 2) - 15) && drawable(y as int),
        placed matches Some(line) ==> line@ == (Line {
            text: text@,
            x: toward_zero(screen_width - width, 2) - 15,
            y: y as int,
            font_size: font_size as int,
            color,
        }),
{
    let x: i128 = half(screen_width as i128 - width) - 15;
    if x < i32::MIN as i128 || x > i32::MAX as i128 || y < i32::MIN as i128 || y > i32::MAX as i128 {
        None
    } else {
        Some(LineDraw { text, x: x as i32, y: y as i32, font_size, color })
    }
}

/// Lays measured words out in centred lines, top to bottom.
///
/// Words fill a line while the line's width, the next word's added, stays
/// under `max_width`; a word that would reach it opens the next line, a line
/// advance below. No word is ever split, so a word wider than `max_width`
/// gets a line to itself. Each line is centred in `screen_width`.
///
/// The lines are returned when every one of them starts at a position that
/// fits the coordinates of a drawing surface, and not otherwise.
pub fn draw_wrapped_text_centered(
    words: &Vec<MeasuredWord>,
    space_width: i32,
    screen_width: i32,
    y: i32,
    font_size: i32,
    max_width: i32,
    color: Color,
) -> (result: Option<Vec<LineDraw>>)
    ensures
        result is Some <==> all_drawable(
            page_of(space_width, screen_width, y, font_size, max_width, color).lines(
                words.deep_view(),
            ),
        ),
        result matches Some(lines) ==> lines.deep_view() == page_of(
            space_width,
            screen_width,
            y,
            font_size,
            max_width,
            color,
        ).lines(words.deep_view()),
{
    let ghost page = page_of(space_width, screen_width, y, font_size, max_width, color);
    let ghost all = words.deep_view();
    let advance = line_advance(font_size);
    let mut lines: Vec<LineDraw> = Vec::new();
    let mut line = String::new();
    let mut width: i128 = 0;
    let mut pen_y: i128 = y as i128;
    let mut i: usize = 0;
    assert(lines.deep_view() =~= page.start().lines);
    while i < words.len()
        invariant
            i <= words.len(),
            all == words.deep_view(),
            page == page_of(space_width, screen_width, y, font_size, max_width, color),
            advance == page.line_advance(),
            -0x1_0000_0000 <= advance <= 0x1_0000_0000,
            lines.deep_view() == page.pen_after(all, i as nat).lines,
            line@ == page.pen_after(all, i as nat).text,
            width == page.pen_after(all, i as nat).width,
            pen_y == page.pen_after(all, i as nat).y,
            all_drawable(page.pen_after(all, i as nat).lines),
            -(i * 0x2_0000_0000) <= width <= 0x2_0000_0000,
            -(i * 0x1_0000_0000) - 0x1_0000_0000 <= pen_y <= i * 0x1_0000_0000 + 0x1_0000_0000,
        decreases words.len() - i,
    {
        let ghost pen = page.pen_after(all, i as nat);
        let word = &words[i];
        assert(all[i as int] == word@);
        proof {
            reveal_strlit(" ");
            assert(" "@ =~= seq![' ']);
        }
        if width + (word.width as i128) < max_width as i128 {
            line.append(word.text.as_str());
            line.append(" ");
            width = width + word.width as i128 + space_width as i128;
            assert(line@ =~= pen.text + word@.text.push(' '));
        } else {
            if !line.as_str().is_empty() {
                match place_line(line, width, pen_y, screen_width, font_size, color) {
                    Some(placed) => {
                        lines.push(placed);
                        assert(lines.deep_view() =~= page.close(pen));
                    },
                    None => {
                        proof {
                            lemma_lines_stay(page, all, (i + 1) as nat);
                            let closed = page.close(pen);
                            let last = closed.len() - 1;
                            assert(closed == page.pen_after(all, (i + 1) as nat).lines);
                            assert(closed[last] == page.place(pen));
                            assert(page.lines(all)[last] == page.place(pen));
                            assert(!page.lines(all)[last].drawable());
                        }
                        return None;
                    },
                }
            }
            line = String::new();
            line.append(word.text.as_str());
            line.append(" ");
            width = word.width as i128 + space_width as i128;
            pen_y = pen_y + advance as i128;
            assert(line@ =~= word@.text.push(' '));
        }
        i += 1;
    }
    let ghost pen = page.pen_after(all, i as nat);
    if !line.as_str().is_empty() {
        match place_line(line, width, pen_y, screen_width, font_size, color) {
            Some(placed) => {
                lines.push(placed);
                assert(lines.deep_view() =~= page.close(pen));
            },
            None => {
                proof {
                    let last = page.close(pen).len() - 1;
                    assert(page.lines(all)[last] == page.place(pen));
                    assert(!page.lines(all)[last].drawable());
                }
                return None;
            },
        }
    }
    Some(lines)
}

} // verus!
