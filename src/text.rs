//! The text buffer of one document and the translation between
//! (line, UTF-16 column) positions and character offsets.

use vstd::prelude::*;

use ropey::Rope;

verus! {

// ---------------------------------------------------------------------------
// Line model

/// A character that ends a line: LF, VT, FF, CR, NEL, LINE SEPARATOR and
/// PARAGRAPH SEPARATOR.
pub open spec fn is_break_char(c: char) -> bool {
    c == '\n' || c == '\u{0B}' || c == '\u{0C}' || c == '\r' || c == '\u{85}' || c == '\u{2028}'
        || c == '\u{2029}'
}

/// Offset `i` directly follows a complete line break (a CR followed by LF
/// counts as one break, which ends after the LF).
pub open spec fn ends_break(s: Seq<char>, i: int) -> bool {
    &&& 0 < i <= s.len()
    &&& is_break_char(s[i - 1])
    &&& !(s[i - 1] == '\r' && i < s.len() && s[i] == '\n')
}

/// Number of line breaks that end at or before offset `i`: the index of the
/// line that holds offset `i`.
pub open spec fn breaks_before(s: Seq<char>, i: int) -> nat
    decreases i,
{
    if i <= 0 {
        0
    } else {
        breaks_before(s, i - 1) + if ends_break(s, i) {
            1nat
        } else {
            0nat
        }
    }
}

/// The first offset after `i` at which a line starts (`s.len() + 1` if none).
pub open spec fn next_line_start(s: Seq<char>, i: int) -> int
    decreases s.len() - i,
{
    if i >= s.len() {
        s.len() + 1int
    } else if ends_break(s, i + 1) {
        i + 1
    } else {
        next_line_start(s, i + 1)
    }
}

/// Offset of the first character of line `n`.
pub open spec fn line_start(s: Seq<char>, n: nat) -> int
    decreases n,
{
    if n == 0 {
        0
    } else {
        next_line_start(s, line_start(s, (n - 1) as nat))
    }
}

/// Number of lines of `s` (one more than its line breaks).
pub open spec fn line_count(s: Seq<char>) -> nat {
    breaks_before(s, s.len() as int) + 1
}

// ---------------------------------------------------------------------------
// UTF-16 columns

/// UTF-16 code units that encode `c`.
pub open spec fn utf16_width(c: char) -> nat {
    if (c as u32) < 0x10000 {
        1
    } else {
        2
    }
}

/// UTF-16 code units that encode `t`.
pub open spec fn utf16_len(t: Seq<char>) -> nat
    decreases t.len(),
{
    if t.len() == 0 {
        0
    } else {
        utf16_width(t[0]) + utf16_len(t.drop_first())
    }
}

/// The offset reached from `i` by moving forward over `units` UTF-16 code
/// units; a column inside a surrogate pair lands after that character.
pub open spec fn advance(s: Seq<char>, i: int, units: int) -> Option<int>
    decreases s.len() - i,
{
    if units <= 0 {
        Some(i)
    } else if i < 0 || i >= s.len() {
        None
    } else {
        advance(s, i + 1, units - utf16_width(s[i]))
    }
}

/// The character offset of (line, column), or `None` when the line does not
/// exist or the column runs past the end of the text.
pub open spec fn offset_of(s: Seq<char>, line: nat, column: nat) -> Option<int> {
    if line < line_count(s) {
        advance(s, line_start(s, line), column as int)
    } else {
        None
    }
}

/// The (line, UTF-16 column) position of offset `o`.
pub open spec fn position_of(s: Seq<char>, o: int) -> (nat, nat) {
    let line = breaks_before(s, o);
    (line, utf16_len(s.subrange(line_start(s, line), o)))
}

proof fn lemma_advance_ge(s: Seq<char>, i: int, units: int)
    ensures
        advance(s, i, units) matches Some(o) ==> i <= o,
    decreases s.len() - i,
{
    if units > 0 && 0 <= i < s.len() {
        lemma_advance_ge(s, i + 1, units - utf16_width(s[i]));
    }
}

proof fn lemma_next_line_start_bound(s: Seq<char>, x: int, o: int)
    requires
        0 <= x < o <= s.len(),
        ends_break(s, o),
    ensures
        x < next_line_start(s, x) <= o,
    decreases o - x,
{
    if !ends_break(s, x + 1) {
        lemma_next_line_start_bound(s, x + 1, o);
    }
}

proof fn lemma_line_start_bound(s: Seq<char>, o: int, n: nat)
    requires
        0 <= o <= s.len(),
        n <= breaks_before(s, o),
    ensures
        0 <= line_start(s, n) <= o,
    decreases o,
{
    if o > 0 {
        if n <= breaks_before(s, o - 1) {
            lemma_line_start_bound(s, o - 1, n);
        } else {
            lemma_line_start_bound(s, o - 1, (n - 1) as nat);
            let x = line_start(s, (n - 1) as nat);
            lemma_next_line_start_bound(s, x, o);
        }
    }
}

proof fn lemma_breaks_monotone(s: Seq<char>, o: int, p: int)
    requires
        o <= p,
    ensures
        breaks_before(s, o) <= breaks_before(s, p),
    decreases p - o,
{
    if o < p {
        lemma_breaks_monotone(s, o, p - 1);
    }
}

proof fn lemma_advance_over(s: Seq<char>, a: int, o: int)
    requires
        0 <= a <= o <= s.len(),
    ensures
        advance(s, a, utf16_len(s.subrange(a, o)) as int) == Some(o),
    decreases o - a,
{
    let sub = s.subrange(a, o);
    if a < o {
        assert(sub.drop_first() =~= s.subrange(a + 1, o));
        lemma_advance_over(s, a + 1, o);
    } else {
        assert(sub.len() == 0);
    }
}

/// Translating an offset to its position and back gives the offset again.
pub proof fn lemma_offset_position_round_trip(s: Seq<char>, o: int)
    requires
        0 <= o <= s.len(),
    ensures
        offset_of(s, position_of(s, o).0, position_of(s, o).1) == Some(o),
{
    lemma_breaks_monotone(s, o, s.len() as int);
    lemma_line_start_bound(s, o, breaks_before(s, o));
    lemma_advance_over(s, line_start(s, breaks_before(s, o)), o);
}

// ---------------------------------------------------------------------------
// The rope behind a buffer

#[verifier::external_type_specification]
#[verifier::external_body]
pub struct ExRope(Rope);

/// The characters held by a rope.
pub uninterp spec fn rope_chars(r: Rope) -> Seq<char>;

/// Relies on `Rope::from_str`: the rope holds the characters of `s`.
#[verifier::external_body]
fn rope_from_str(s: &str) -> (r: Rope)
    ensures
        rope_chars(r) == s@,
{
    Rope::from_str(s)
}

/// Relies on `Rope::len_chars`: the number of characters.
#[verifier::external_body]
fn rope_len_chars(r: &Rope) -> (n: usize)
    ensures
        n == rope_chars(*r).len(),
{
    r.len_chars()
}

/// Relies on `Rope::len_lines`: one more than the number of line breaks.
#[verifier::external_body]
fn rope_len_lines(r: &Rope) -> (n: usize)
    ensures
        n == line_count(rope_chars(*r)),
{
    r.len_lines()
}

/// Relies on `Rope::line_to_char`: the offset where line `line` starts.
#[verifier::external_body]
fn rope_line_to_char(r: &Rope, line: usize) -> (o: usize)
    requires
        line < line_count(rope_chars(*r)),
    ensures
        o == line_start(rope_chars(*r), line as nat),
{
    r.line_to_char(line)
}

/// Relies on `Rope::char_to_line`: the number of line breaks ending at or
/// before offset `o`.
#[verifier::external_body]
fn rope_char_to_line(r: &Rope, o: usize) -> (line: usize)
    requires
        o <= rope_chars(*r).len(),
    ensures
        line == breaks_before(rope_chars(*r), o as int),
{
    r.char_to_line(o)
}

/// Relies on `Rope::char`: the character at offset `i`.
#[verifier::external_body]
fn rope_char(r: &Rope, i: usize) -> (c: char)
    requires
        i < rope_chars(*r).len(),
    ensures
        c == rope_chars(*r)[i as int],
{
    r.char(i)
}

/// Relies on `Rope::remove`: the characters in `[start, end)` are taken out.
#[verifier::external_body]
fn rope_remove(r: &mut Rope, start: usize, end: usize)
    requires
        start <= end <= rope_chars(*old(r)).len(),
    ensures
        rope_chars(*final(r)) == rope_chars(*old(r)).subrange(0, start as int)
            + rope_chars(*old(r)).subrange(end as int, rope_chars(*old(r)).len() as int),
{
    r.remove(start..end)
}

/// Relies on `Rope::insert`: the characters of `s` are put at offset `i`.
#[verifier::external_body]
fn rope_insert(r: &mut Rope, i: usize, s: &str)
    requires
        i <= rope_chars(*old(r)).len(),
    ensures
        rope_chars(*final(r)) == rope_chars(*old(r)).subrange(0, i as int) + s@
            + rope_chars(*old(r)).subrange(i as int, rope_chars(*old(r)).len() as int),
{
    r.insert(i, s)
}

/// Relies on `Rope`'s `Display`: the string of its characters.
#[verifier::external_body]
fn rope_to_string(r: &Rope) -> (s: String)
    ensures
        s@ == rope_chars(*r),
{
    r.to_string()
}

// ---------------------------------------------------------------------------
// Buffer

/// A line/column position; the column counts UTF-16 code units.
#[derive(Clone, Copy, Debug, PartialEq, Eq, Structural)]
pub struct Position {
    pub line: usize,
    pub character: usize,
}

/// The text of `s` with `[start, end)` replaced by `t`.
pub open spec fn splice(s: Seq<char>, start: int, end: int, t: Seq<char>) -> Seq<char> {
    s.subrange(0, start) + t + s.subrange(end, s.len() as int)
}

/// The editable text of one document.
pub struct TextBuffer {
    rope: Rope,
}

impl View for TextBuffer {
    type V = Seq<char>;

    closed spec fn view(&self) -> Seq<char> {
        rope_chars(self.rope)
    }
}

impl TextBuffer {
    /// A buffer that holds `text`.
    pub fn from_text(text: &str) -> (b: TextBuffer)
        ensures
            b@ == text@,
    {
        TextBuffer { rope: rope_from_str(text) }
    }

    /// Number of characters.
    pub fn len_chars(&self) -> (n: usize)
        ensures
            n == self@.len(),
    {
        rope_len_chars(&self.rope)
    }

    /// The whole text.
    pub fn to_text(&self) -> (s: String)
        ensures
            s@ == self@,
    {
        rope_to_string(&self.rope)
    }

    /// The character offset of `pos`, or `None` when its line does not exist
    /// or its column runs past the end of the text.
    pub fn offset_of(&self, pos: Position) -> (r: Option<usize>)
        ensures
            r is Some <==> offset_of(self@, pos.line as nat, pos.character as nat) is Some,
            r matches Some(o) ==> offset_of(self@, pos.line as nat, pos.character as nat) == Some(
                o as int,
            ) && o <= self@.len(),
    {
        let s = Ghost(self@);
        let lines = rope_len_lines(&self.rope);
        if pos.line >= lines {
            return None;
        }
        let start = rope_line_to_char(&self.rope, pos.line);
        let len = rope_len_chars(&self.rope);
        let mut i: usize = start;
        let mut rem: usize = pos.character;
        proof {
            lemma_line_start_bound(s@, len as int, pos.line as nat);
        }
        while rem > 0
            invariant
                s@ == self@,
                len == s@.len(),
                i <= len,
                advance(s@, i as int, rem as int) == advance(s@, line_start(s@, pos.line as nat),
                    pos.character as int),
            decreases rem,
        {
            if i >= len {
                return None;
            }
            let c = rope_char(&self.rope, i);
            let w: usize = if (c as u32) < 0x10000 {
                1
            } else {
                2
            };
            assert(advance(s@, i as int, rem as int) == advance(s@, i + 1, rem - w));
            if w >= rem {
                rem = 0;
            } else {
                rem = rem - w;
            }
            i = i + 1;
        }
        Some(i)
    }

    /// The (line, UTF-16 column) position of offset `o`.
    pub fn position_of(&self, o: usize) -> (pos: Position)
        requires
            o <= self@.len(),
            2 * self@.len() <= usize::MAX,
        ensures
            pos.line == position_of(self@, o as int).0,
            pos.character == position_of(self@, o as int).1,
    {
        let s = Ghost(self@);
        let line = rope_char_to_line(&self.rope, o);
        proof {
            lemma_breaks_monotone(s@, o as int, s@.len() as int);
        }
        let start = rope_line_to_char(&self.rope, line);
        proof {
            lemma_line_start_bound(s@, o as int, line as nat);
        }
        let mut i: usize = start;
        let mut col: usize = 0;
        while i < o
            invariant
                s@ == self@,
                start <= i <= o <= s@.len(),
                2 * s@.len() <= usize::MAX,
                col + utf16_len(s@.subrange(i as int, o as int)) == utf16_len(
                    s@.subrange(start as int, o as int),
                ),
                col <= 2 * (i - start),
            decreases o - i,
        {
            let c = rope_char(&self.rope, i);
            assert(s@.subrange(i as int, o as int).drop_first() =~= s@.subrange(
                i + 1,
                o as int,
            ));
            if (c as u32) < 0x10000 {
                col = col + 1;
            } else {
                col = col + 2;
            }
            i = i + 1;
        }
        assert(s@.subrange(i as int, o as int).len() == 0);
        Position { line, character: col }
    }

    /// The characters in `[start, end)`.
    pub fn slice_chars(&self, start: usize, end: usize) -> (r: Vec<char>)
        requires
            start <= end <= self@.len(),
        ensures
            r@ == self@.subrange(start as int, end as int),
    {
        let mut r: Vec<char> = Vec::new();
        let mut i: usize = start;
        while i < end
            invariant
                start <= i <= end <= self@.len(),
                r@ == self@.subrange(start as int, i as int),
            decreases end - i,
        {
            r.push(rope_char(&self.rope, i));
            i = i + 1;
            assert(r@ =~= self@.subrange(start as int, i as int));
        }
        r
    }

    /// The text of `pos`'s line from the line's start up to `pos`, or `None`
    /// when `pos` lies outside the text.
    pub fn line_prefix(&self, pos: Position) -> (r: Option<Vec<char>>)
        ensures
            r is Some <==> offset_of(self@, pos.line as nat, pos.character as nat) is Some,
            r matches Some(v) ==> offset_of(self@, pos.line as nat, pos.character as nat) matches Some(
                o,
            ) && v@ == self@.subrange(line_start(self@, pos.line as nat), o),
    {
        match self.offset_of(pos) {
            None => None,
            Some(o) => {
                let start = rope_line_to_char(&self.rope, pos.line);
                proof {
                    lemma_advance_ge(self@, start as int, pos.character as int);
                }
                Some(self.slice_chars(start, o))
            },
        }
    }

    /// Replaces the characters in `[start, end)` by `text`.
    pub fn replace(&mut self, start: usize, end: usize, text: &str)
        requires
            start <= end <= old(self)@.len(),
        ensures
            final(self)@ == splice(old(self)@, start as int, end as int, text@),
    {
        rope_remove(&mut self.rope, start, end);
        proof {
            assert(rope_chars(self.rope).subrange(0, start as int) =~= old(self)@.subrange(
                0,
                start as int,
            ));
            assert(rope_chars(self.rope).subrange(start as int, rope_chars(self.rope).len() as int)
                =~= old(self)@.subrange(end as int, old(self)@.len() as int));
        }
        rope_insert(&mut self.rope, start, text);
    }
}

} // verus!
