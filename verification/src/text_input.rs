//! Single-line text input: cursor, selection, composition by an input method, clipboard, optional
//! masking (passwords) and a digits-only filter.
//!
//! Positions are counted in characters. The text system counts bytes of UTF-8 and the input
//! method counts units of UTF-16; both are converted at the edge.
use vstd::prelude::*;
use vstd::string::*;

use crate::text;

verus! {

/// What is shown in place of each character of a masked text.
pub const MASK_CHAR: char = '\u{2022}';

/// Bytes of [`MASK_CHAR`] in UTF-8.
pub const MASK_LEN: usize = 3;

/// Bytes of a character in UTF-8.
pub open spec fn utf8_len(c: char) -> nat {
    let u = c as u32;
    if u < 0x80 {
        1
    } else if u < 0x800 {
        2
    } else if u < 0x1_0000 {
        3
    } else {
        4
    }
}

/// Units of a character in UTF-16.
pub open spec fn utf16_len(c: char) -> nat {
    if (c as u32) < 0x1_0000 {
        1
    } else {
        2
    }
}

/// Bytes of the first `n` characters in UTF-8.
pub open spec fn utf8_offset(s: Seq<char>, n: int) -> nat
    decreases n,
{
    if n <= 0 {
        0
    } else {
        utf8_offset(s, n - 1) + utf8_len(s[n - 1])
    }
}

/// Units of the first `n` characters in UTF-16.
pub open spec fn utf16_offset(s: Seq<char>, n: int) -> nat
    decreases n,
{
    if n <= 0 {
        0
    } else {
        utf16_offset(s, n - 1) + utf16_len(s[n - 1])
    }
}

/// The first position, from `from` on, before which there are at least `units` units of UTF-16,
/// or the end.
pub open spec fn utf16_position(s: Seq<char>, units: nat, from: int) -> int
    decreases s.len() - from,
{
    if from >= s.len() || utf16_offset(s, from) >= units {
        from
    } else {
        utf16_position(s, units, from + 1)
    }
}

/// The last position, from `from` on, before which there are at most `bytes` bytes of UTF-8.
pub open spec fn utf8_position(s: Seq<char>, bytes: nat, from: int) -> int
    decreases s.len() - from,
{
    if from >= s.len() || utf8_offset(s, from + 1) > bytes {
        from
    } else {
        utf8_position(s, bytes, from + 1)
    }
}

/// The start of the word that ends at or before `i`: back over everything that is not part of a
/// word, then over the word.
pub open spec fn word_start(s: Seq<char>, i: int) -> int
    decreases i,
{
    if i <= 0 {
        0
    } else if !text::alphanumeric(s[i - 1]) {
        word_start(s, i - 1)
    } else {
        letters_start(s, i)
    }
}

/// The start of the run of letters and digits that ends at `i`.
pub open spec fn letters_start(s: Seq<char>, i: int) -> int
    decreases i,
{
    if i <= 0 {
        0
    } else if text::alphanumeric(s[i - 1]) {
        letters_start(s, i - 1)
    } else {
        i
    }
}

/// The end of the word that starts at or after `i`.
pub open spec fn word_end(s: Seq<char>, i: int) -> int
    decreases s.len() - i,
{
    if i >= s.len() {
        i
    } else if !text::alphanumeric(s[i]) {
        word_end(s, i + 1)
    } else {
        letters_end(s, i)
    }
}

/// The end of the run of letters and digits that starts at `i`.
pub open spec fn letters_end(s: Seq<char>, i: int) -> int
    decreases s.len() - i,
{
    if i >= s.len() {
        i
    } else if text::alphanumeric(s[i]) {
        letters_end(s, i + 1)
    } else {
        i
    }
}

proof fn lemma_offset_steps(s: Seq<char>, n: int, m: int)
    requires
        0 <= n <= m <= s.len(),
    ensures
        utf8_offset(s, n) + (m - n) <= utf8_offset(s, m),
        utf16_offset(s, n) + (m - n) <= utf16_offset(s, m),
        utf16_offset(s, m) - utf16_offset(s, n) <= utf8_offset(s, m) - utf8_offset(s, n),
        m - n <= utf8_offset(s, m) - utf8_offset(s, n),
    decreases m - n,
{
    if n < m {
        lemma_offset_steps(s, n, m - 1);
    }
}

proof fn lemma_utf16_position(s: Seq<char>, units: nat, from: int)
    requires
        0 <= from <= s.len(),
    ensures
        from <= utf16_position(s, units, from) <= s.len(),
    decreases s.len() - from,
{
    if from < s.len() && utf16_offset(s, from) < units {
        lemma_utf16_position(s, units, from + 1);
    }
}

proof fn lemma_utf8_position(s: Seq<char>, bytes: nat, from: int)
    requires
        0 <= from <= s.len(),
    ensures
        from <= utf8_position(s, bytes, from) <= s.len(),
    decreases s.len() - from,
{
    if from < s.len() && utf8_offset(s, from + 1) <= bytes {
        lemma_utf8_position(s, bytes, from + 1);
    }
}

/// Units of the first `n` characters in UTF-16.
fn count_utf16(s: &Vec<char>, n: usize) -> (res: usize)
    requires
        n <= s@.len(),
        utf8_offset(s@, s@.len() as int) <= usize::MAX,
    ensures
        res == utf16_offset(s@, n as int),
{
    let mut units: usize = 0;
    let mut i: usize = 0;
    while i < n
        invariant
            i <= n <= s@.len(),
            utf8_offset(s@, s@.len() as int) <= usize::MAX,
            units == utf16_offset(s@, i as int),
        decreases n - i,
    {
        proof {
            lemma_offset_steps(s@, i + 1, s@.len() as int);
            lemma_offset_steps(s@, 0, i + 1);
        }
        units = units + if (s[i] as u32) < 0x1_0000 {
            1
        } else {
            2
        };
        i = i + 1;
    }
    units
}

/// Bytes of the first `n` characters in UTF-8.
fn count_utf8(s: &Vec<char>, n: usize) -> (res: usize)
    requires
        n <= s@.len(),
        utf8_offset(s@, s@.len() as int) <= usize::MAX,
    ensures
        res == utf8_offset(s@, n as int),
{
    let mut bytes: usize = 0;
    let mut i: usize = 0;
    while i < n
        invariant
            i <= n <= s@.len(),
            utf8_offset(s@, s@.len() as int) <= usize::MAX,
            bytes == utf8_offset(s@, i as int),
        decreases n - i,
    {
        proof {
            lemma_offset_steps(s@, i + 1, s@.len() as int);
        }
        let u: u32 = s[i] as u32;
        bytes = bytes + if u < 0x80 {
            1
        } else if u < 0x800 {
            2
        } else if u < 0x1_0000 {
            3
        } else {
            4
        };
        i = i + 1;
    }
    bytes
}

/// The first position before which there are at least `units` units of UTF-16, or the end.
fn find_utf16(s: &Vec<char>, units: usize) -> (res: usize)
    requires
        utf8_offset(s@, s@.len() as int) <= usize::MAX,
    ensures
        res == utf16_position(s@, units as nat, 0),
        res <= s@.len(),
{
    let mut count: usize = 0;
    let mut i: usize = 0;
    while i < s.len() && count < units
        invariant
            i <= s@.len(),
            utf8_offset(s@, s@.len() as int) <= usize::MAX,
            count == utf16_offset(s@, i as int),
            utf16_position(s@, units as nat, 0) == utf16_position(s@, units as nat, i as int),
        decreases s@.len() - i,
    {
        proof {
            lemma_offset_steps(s@, i + 1, s@.len() as int);
            lemma_offset_steps(s@, 0, i + 1);
        }
        count = count + if (s[i] as u32) < 0x1_0000 {
            1
        } else {
            2
        };
        i = i + 1;
    }
    i
}

/// The last position before which there are at most `bytes` bytes of UTF-8.
fn find_utf8(s: &Vec<char>, bytes: usize) -> (res: usize)
    requires
        utf8_offset(s@, s@.len() as int) <= usize::MAX,
    ensures
        res == utf8_position(s@, bytes as nat, 0),
        res <= s@.len(),
{
    let mut count: usize = 0;
    let mut i: usize = 0;
    while i < s.len()
        invariant
            i <= s@.len(),
            utf8_offset(s@, s@.len() as int) <= usize::MAX,
            count == utf8_offset(s@, i as int),
            utf8_position(s@, bytes as nat, 0) == utf8_position(s@, bytes as nat, i as int),
        decreases s@.len() - i,
    {
        proof {
            lemma_offset_steps(s@, i + 1, s@.len() as int);
        }
        let u: u32 = s[i] as u32;
        count = count + if u < 0x80 {
            1
        } else if u < 0x800 {
            2
        } else if u < 0x1_0000 {
            3
        } else {
            4
        };
        if count > bytes {
            return i;
        }
        i = i + 1;
    }
    i
}

#[derive(Clone, Copy, Debug, PartialEq, Eq, Structural)]
pub enum TextInputEvent {
    /// The text changed because of user input (not `set_text`).
    Change,
    /// Enter was pressed.
    Submit,
}

/// What came of an edit.
#[derive(Clone, Copy, Debug, PartialEq, Eq, Structural)]
pub enum Edit {
    /// There was nothing to edit: ring the bell.
    Bell,
    /// The text is what it was.
    Same,
    /// The text changed: [`TextInputEvent::Change`] is due.
    Changed,
}

/// Where the mouse is.
#[derive(Clone, Copy, Debug, PartialEq, Eq, Structural)]
pub enum MouseAt {
    /// The text has not been laid out yet.
    Nowhere,
    Above,
    Below,
    /// At this byte of the shown text.
    Byte(usize),
}

/// A text input.
pub struct TextInput {
    content: Vec<char>,
    placeholder: String,
    /// The selected characters: from `start` up to `end`.
    start: usize,
    end: usize,
    /// The cursor is at the start of the selection.
    reversed: bool,
    /// The characters that an input method is composing.
    marked: Option<(usize, usize)>,
    selecting: bool,
    masked: bool,
    digits_only: bool,
    max_len: Option<usize>,
}

/// What a [`TextInput`] holds.
pub struct InputView {
    pub content: Seq<char>,
    pub placeholder: Seq<char>,
    pub start: int,
    pub end: int,
    pub reversed: bool,
    pub marked: Option<(int, int)>,
    pub selecting: bool,
    pub masked: bool,
    pub digits_only: bool,
    pub max_len: Option<usize>,
}

impl View for TextInput {
    type V = InputView;

    closed spec fn view(&self) -> InputView {
        InputView {
            content: self.content@,
            placeholder: self.placeholder@,
            start: self.start as int,
            end: self.end as int,
            reversed: self.reversed,
            marked: match self.marked {
                Some((a, b)) => Some((a as int, b as int)),
                None => None,
            },
            selecting: self.selecting,
            masked: self.masked,
            digits_only: self.digits_only,
            max_len: self.max_len,
        }
    }
}

/// Bytes of a text in UTF-8.
pub open spec fn utf8_size(s: Seq<char>) -> nat {
    utf8_offset(s, s.len() as int)
}

/// Whether a character can be typed or pasted.
pub open spec fn typeable(c: char, digits_only: bool) -> bool {
    c != '\n' && c != '\r' && (digits_only ==> text::ascii_digit(c))
}

/// The characters of a text that can be typed or pasted.
pub open spec fn typed(s: Seq<char>, digits_only: bool) -> Seq<char> {
    s.filter(|c: char| typeable(c, digits_only))
}

/// `n - m`, or zero.
pub open spec fn less(n: int, m: int) -> int {
    if n > m {
        n - m
    } else {
        0
    }
}

/// The first `n` characters of a text.
pub open spec fn at_most(s: Seq<char>, n: int) -> Seq<char> {
    if s.len() > n {
        s.take(n)
    } else {
        s
    }
}

impl InputView {
    /// The selection and the composed text lie in the text, and the text, shown in whatever way,
    /// fits in memory.
    pub open spec fn wf(self) -> bool {
        &&& 0 <= self.start <= self.end <= self.content.len()
        &&& match self.marked {
            Some((a, b)) => 0 <= a < b <= self.content.len(),
            None => true,
        }
        &&& MASK_LEN * utf8_size(self.content) <= usize::MAX
    }

    /// Whether `s` fits in memory beside the text.
    pub open spec fn has_room(self, s: Seq<char>) -> bool {
        MASK_LEN * (utf8_size(self.content) + utf8_size(s)) <= usize::MAX
    }

    /// Where the cursor is.
    pub open spec fn cursor(self) -> int {
        if self.reversed {
            self.start
        } else {
            self.end
        }
    }

    /// With the cursor at `i` and nothing selected.
    pub open spec fn moved_to(self, i: int) -> InputView {
        InputView { start: i, end: i, reversed: false, ..self }
    }

    /// With the selection drawn from where it was begun to `i`.
    pub open spec fn selected_to(self, i: int) -> InputView {
        let anchor = if self.reversed {
            self.end
        } else {
            self.start
        };
        if i < anchor {
            InputView { start: i, end: anchor, reversed: true, ..self }
        } else if anchor < i {
            InputView { start: anchor, end: i, reversed: false, ..self }
        } else {
            InputView { start: i, end: i, ..self }
        }
    }

    /// Position before `i`.
    pub open spec fn previous(self, i: int) -> int {
        if i > 0 {
            i - 1
        } else {
            0
        }
    }

    /// Position after `i`.
    pub open spec fn next(self, i: int) -> int {
        if i < self.content.len() {
            i + 1
        } else {
            i
        }
    }

    /// What of `s` can take the place of the characters from `a` up to `b`.
    pub open spec fn fitting(self, s: Seq<char>, a: int, b: int) -> Seq<char> {
        let typed = typed(s, self.digits_only);
        match self.max_len {
            Some(max) => at_most(typed, less(max as int, self.content.len() - (b - a))),
            None => typed,
        }
    }

    /// The text with `s` in place of the characters from `a` up to `b`.
    pub open spec fn spliced(self, a: int, b: int, s: Seq<char>) -> Seq<char> {
        self.content.take(a) + s + self.content.skip(b)
    }

    /// The characters that input replaces: those asked for, in units of UTF-16, or those being
    /// composed, or the selected ones.
    pub open spec fn target(self, range: Option<(usize, usize)>) -> (int, int) {
        match range {
            Some((a, b)) => self.from_utf16(a as nat, b as nat),
            None => match self.marked {
                Some(marked) => marked,
                None => (self.start, self.end),
            },
        }
    }

    /// The positions of a range in units of UTF-16.
    pub open spec fn from_utf16(self, a: nat, b: nat) -> (int, int) {
        let start = utf16_position(self.content, a, 0);
        let end = utf16_position(self.content, b, 0);
        (
            start,
            if end < start {
                start
            } else {
                end
            },
        )
    }

    /// After `s` was typed over the characters from `a` up to `b`.
    pub open spec fn replaced(self, a: int, b: int, s: Seq<char>) -> InputView {
        let new = self.fitting(s, a, b);
        let cursor = a + new.len();
        InputView {
            content: self.spliced(a, b, new),
            start: cursor,
            end: cursor,
            reversed: false,
            marked: None,
            ..self
        }
    }

    /// After an input method composed `s` over the characters from `a` up to `b` and selected
    /// `selected` of it, in units of UTF-16.
    pub open spec fn composed(
        self,
        a: int,
        b: int,
        s: Seq<char>,
        selected: Option<(usize, usize)>,
    ) -> InputView {
        let new = self.fitting(s, a, b);
        let end = a + new.len();
        let (from, to) = match selected {
            Some((x, y)) => {
                let first = a + utf16_position(new, x as nat, 0);
                let last = a + utf16_position(new, y as nat, 0);
                (
                    first,
                    if last < first {
                        first
                    } else {
                        last
                    },
                )
            },
            None => (end, end),
        };
        InputView {
            content: self.spliced(a, b, new),
            start: from,
            end: to,
            marked: if new.len() > 0 {
                Some((a, end))
            } else {
                None
            },
            ..self
        }
    }

    /// After the characters being composed, or else the selected ones, were deleted.
    pub open spec fn deleted(self) -> InputView {
        let (a, b) = self.target(None);
        self.replaced(a, b, Seq::empty())
    }

    /// With the selection drawn to `i`, unless something is selected.
    pub open spec fn reaching(self, i: int) -> InputView {
        if self.start == self.end {
            self.selected_to(i)
        } else {
            self
        }
    }

    /// After Backspace.
    pub open spec fn backspaced(self) -> InputView {
        if self.start == self.end && self.cursor() == 0 {
            self
        } else {
            self.reaching(self.previous(self.cursor())).deleted()
        }
    }

    /// After Delete.
    pub open spec fn deleted_ahead(self) -> InputView {
        if self.start == self.end && self.cursor() == self.content.len() {
            self
        } else {
            self.reaching(self.next(self.cursor())).deleted()
        }
    }

    /// After the cursor went one character back, or to the start of the selection.
    pub open spec fn went_left(self) -> InputView {
        if self.start == self.end {
            self.moved_to(self.previous(self.cursor()))
        } else {
            self.moved_to(self.start)
        }
    }

    /// After the cursor went one character on, or to the end of the selection.
    pub open spec fn went_right(self) -> InputView {
        if self.start == self.end {
            self.moved_to(self.next(self.end))
        } else {
            self.moved_to(self.end)
        }
    }

    /// What can be put on the clipboard.
    pub open spec fn copied(self) -> Option<Seq<char>> {
        if self.start != self.end && !self.masked {
            Some(self.content.subrange(self.start, self.end))
        } else {
            None
        }
    }

    /// After the selection was cut out.
    pub open spec fn cut_out(self) -> InputView {
        if self.start == self.end {
            self
        } else {
            self.deleted()
        }
    }

    /// After the left button was pressed.
    pub open spec fn pressed(self, at: MouseAt, clicks: usize, shift: bool) -> InputView {
        if clicks >= 2 {
            InputView { selecting: false, ..self }.moved_to(0).selected_to(
                self.content.len() as int,
            )
        } else if shift {
            InputView { selecting: true, ..self }.selected_to(self.mouse_position(at))
        } else {
            InputView { selecting: true, ..self }.moved_to(self.mouse_position(at))
        }
    }

    /// After the mouse moved.
    pub open spec fn dragged(self, at: MouseAt) -> InputView {
        if self.selecting {
            self.selected_to(self.mouse_position(at))
        } else {
            self
        }
    }

    /// Byte of the shown text at position `i`.
    pub open spec fn shown_offset(self, i: int) -> nat {
        if self.masked {
            (i * MASK_LEN) as nat
        } else {
            utf8_offset(self.content, i)
        }
    }

    /// The position at byte `b` of the shown text.
    pub open spec fn shown_position(self, b: nat) -> int {
        if self.masked {
            if b / (MASK_LEN as nat) < self.content.len() {
                (b / (MASK_LEN as nat)) as int
            } else {
                self.content.len() as int
            }
        } else {
            utf8_position(self.content, b, 0)
        }
    }

    /// The shown text.
    pub open spec fn shown(self) -> Seq<char> {
        if self.masked {
            Seq::new(self.content.len(), |i: int| MASK_CHAR)
        } else {
            self.content
        }
    }

    /// The position that the mouse points to.
    pub open spec fn mouse_position(self, at: MouseAt) -> int {
        match at {
            MouseAt::Nowhere => 0,
            MouseAt::Above => 0,
            MouseAt::Below => self.content.len() as int,
            MouseAt::Byte(b) => if self.content.len() == 0 {
                0
            } else {
                self.shown_position(b as nat)
            },
        }
    }
}

/// What came of an edit that made `after` of `before`.
pub open spec fn edit_of(before: InputView, after: InputView) -> Edit {
    if before.content == after.content {
        Edit::Same
    } else {
        Edit::Changed
    }
}

proof fn lemma_offset_of_part(s: Seq<char>, t: Seq<char>, n: int)
    requires
        0 <= n <= s.len(),
        n <= t.len(),
        forall|i: int| 0 <= i < n ==> s[i] == t[i],
    ensures
        utf8_offset(s, n) == utf8_offset(t, n),
    decreases n,
{
    if n > 0 {
        lemma_offset_of_part(s, t, n - 1);
    }
}

proof fn lemma_size_of_sum(a: Seq<char>, b: Seq<char>)
    ensures
        utf8_size(a + b) == utf8_size(a) + utf8_size(b),
    decreases b.len(),
{
    if b.len() == 0 {
        assert(a + b =~= a);
    } else {
        let fewer = b.drop_last();
        lemma_size_of_sum(a, fewer);
        assert((a + b).drop_last() =~= a + fewer);
        lemma_offset_of_part(a + b, a + fewer, (a + fewer).len() as int);
        lemma_offset_of_part(b, fewer, fewer.len() as int);
    }
}

proof fn lemma_size_of_typed(s: Seq<char>, digits_only: bool)
    ensures
        utf8_size(typed(s, digits_only)) <= utf8_size(s),
        typed(s, digits_only).len() <= s.len(),
    decreases s.len(),
{
    reveal(Seq::filter);
    if s.len() > 0 {
        let fewer = s.drop_last();
        lemma_size_of_typed(fewer, digits_only);
        lemma_offset_of_part(s, fewer, fewer.len() as int);
        let kept = typed(fewer, digits_only);
        if typeable(s.last(), digits_only) {
            lemma_offset_of_part(kept.push(s.last()), kept, kept.len() as int);
        }
    }
}

proof fn lemma_size_of_take(s: Seq<char>, n: int)
    requires
        0 <= n <= s.len(),
    ensures
        utf8_size(s.take(n)) <= utf8_size(s),
        utf8_size(s.skip(n)) <= utf8_size(s),
        utf8_size(s.take(n)) + utf8_size(s.skip(n)) == utf8_size(s),
{
    lemma_size_of_sum(s.take(n), s.skip(n));
    assert(s.take(n) + s.skip(n) =~= s);
}

/// Whatever takes the place of some characters, the text stays within its limits.
proof fn lemma_replacement_fits(input: InputView, a: int, b: int, s: Seq<char>)
    requires
        input.wf(),
        input.has_room(s),
        0 <= a <= b <= input.content.len(),
    ensures
        utf8_size(input.spliced(a, b, input.fitting(s, a, b))) <= utf8_size(input.content)
            + utf8_size(s),
        input.spliced(a, b, input.fitting(s, a, b)).len() == input.content.len() - (b - a)
            + input.fitting(s, a, b).len(),
        utf8_size(input.fitting(s, a, b)) <= utf8_size(s),
        input.fitting(s, a, b).len() <= s.len(),
{
    let content = input.content;
    let new = input.fitting(s, a, b);
    lemma_size_of_typed(s, input.digits_only);
    let typed = typed(s, input.digits_only);
    if new != typed {
        lemma_size_of_take(typed, new.len() as int);
    }
    lemma_size_of_take(content, a);
    lemma_size_of_take(content, b);
    lemma_size_of_take(content.take(b), a);
    assert(content.take(b).take(a) =~= content.take(a));
    lemma_size_of_sum(content.take(a), new);
    lemma_size_of_sum(content.take(a) + new, content.skip(b));
}

proof fn lemma_target(input: InputView, range: Option<(usize, usize)>)
    requires
        input.wf(),
    ensures
        0 <= input.target(range).0 <= input.target(range).1 <= input.content.len(),
{
    if let Some((a, b)) = range {
        lemma_utf16_position(input.content, a as nat, 0);
        lemma_utf16_position(input.content, b as nat, 0);
    }
}

/// Whether two texts are the same.
fn same_chars(a: &Vec<char>, b: &Vec<char>) -> (res: bool)
    ensures
        res == (a@ == b@),
{
    if a.len() != b.len() {
        return false;
    }
    let mut i: usize = 0;
    while i < a.len()
        invariant
            a@.len() == b@.len(),
            i <= a@.len(),
            forall|k: int| 0 <= k < i ==> a@[k] == b@[k],
        decreases a@.len() - i,
    {
        if a[i] != b[i] {
            return false;
        }
        i = i + 1;
    }
    assert(a@ =~= b@);
    true
}

impl TextInput {
    /// An empty input.
    pub fn new(placeholder: &str) -> (res: TextInput)
        ensures
            res@ == (InputView {
                content: Seq::empty(),
                placeholder: placeholder@,
                start: 0,
                end: 0,
                reversed: false,
                marked: None,
                selecting: false,
                masked: false,
                digits_only: false,
                max_len: None,
            }),
            res@.wf(),
    {
        TextInput {
            content: Vec::new(),
            placeholder: placeholder.to_owned(),
            start: 0,
            end: 0,
            reversed: false,
            marked: None,
            selecting: false,
            masked: false,
            digits_only: false,
            max_len: None,
        }
    }

    /// Shows bullets instead of the text (passwords).
    pub fn masked(self, masked: bool) -> (res: TextInput)
        ensures
            res@ == (InputView { masked, ..self@ }),
    {
        let mut input = self;
        input.masked = masked;
        input
    }

    /// Only ASCII digits can be typed or pasted.
    pub fn digits_only(self, digits_only: bool) -> (res: TextInput)
        ensures
            res@ == (InputView { digits_only, ..self@ }),
    {
        let mut input = self;
        input.digits_only = digits_only;
        input
    }

    /// Maximum number of characters.
    pub fn max_len(self, max_len: usize) -> (res: TextInput)
        ensures
            res@ == (InputView { max_len: Some(max_len), ..self@ }),
    {
        let mut input = self;
        input.max_len = Some(max_len);
        input
    }

    pub fn text(&self) -> (res: String)
        ensures
            res@ == self@.content,
    {
        let res = text::string_of(&self.content, 0, self.content.len());
        assert(res@ =~= self@.content);
        res
    }

    pub fn is_masked(&self) -> (res: bool)
        ensures
            res == self@.masked,
    {
        self.masked
    }

    pub fn set_masked(&mut self, masked: bool)
        ensures
            final(self)@ == (InputView { masked, ..old(self)@ }),
    {
        self.masked = masked;
    }

    /// Replaces the content without announcing a change; the cursor goes to the end, with nothing
    /// selected or being composed. Neither the filter nor the limit applies.
    pub fn set_text(&mut self, text: &str)
        requires
            old(self)@.wf(),
            MASK_LEN * utf8_size(text@) <= usize::MAX,
        ensures
            final(self)@.wf(),
            final(self)@ == (InputView {
                content: text@,
                start: text@.len() as int,
                end: text@.len() as int,
                reversed: false,
                marked: None,
                ..old(self)@
            }),
    {
        let chars = text::chars_of(text);
        self.start = chars.len();
        self.end = chars.len();
        self.content = chars;
        self.reversed = false;
        self.marked = None;
    }

    /// What of `s` can take the place of the characters from `a` up to `b`.
    fn sanitize(&self, s: &Vec<char>, a: usize, b: usize) -> (res: Vec<char>)
        requires
            a <= b <= self@.content.len(),
        ensures
            res@ == self@.fitting(s@, a as int, b as int),
    {
        let ghost digits_only = self.digits_only;
        let mut out: Vec<char> = Vec::new();
        let mut i: usize = 0;
        assert(typed(s@.take(0), digits_only) =~= Seq::<char>::empty()) by {
            reveal(Seq::filter);
        }
        while i < s.len()
            invariant
                i <= s@.len(),
                digits_only == self.digits_only,
                out@ == typed(s@.take(i as int), digits_only),
            decreases s@.len() - i,
        {
            let c: char = s[i];
            assert(s@.take(i + 1).drop_last() =~= s@.take(i as int));
            assert(typed(s@.take(i + 1), digits_only) == (if typeable(c, digits_only) {
                typed(s@.take(i as int), digits_only).push(c)
            } else {
                typed(s@.take(i as int), digits_only)
            })) by {
                reveal(Seq::filter);
            }
            if c != '\n' && c != '\r' && (!self.digits_only || text::is_ascii_digit(c)) {
                out.push(c);
            }
            i = i + 1;
        }
        assert(s@.take(i as int) =~= s@);
        if let Some(max) = self.max_len {
            let others: usize = self.content.len() - (b - a);
            let room: usize = if max > others {
                max - others
            } else {
                0
            };
            if out.len() > room {
                let ghost all = out@;
                out.truncate(room);
                assert(out@ =~= all.take(room as int));
            }
        }
        out
    }

    /// Puts `new` in the place of the characters from `a` up to `b`. Whether that changed the
    /// text.
    fn splice(&mut self, a: usize, b: usize, new: &Vec<char>) -> (res: bool)
        requires
            a <= b <= old(self)@.content.len(),
        ensures
            final(self)@ == (InputView {
                content: old(self)@.spliced(a as int, b as int, new@),
                ..old(self)@
            }),
            res == (final(self)@.content != old(self)@.content),
    {
        let ghost all = self.content@;
        let mut out: Vec<char> = Vec::new();
        let mut i: usize = 0;
        while i < a
            invariant
                i <= a <= b <= all.len(),
                *self == *old(self),
                all == self.content@,
                out@ == all.take(i as int),
            decreases a - i,
        {
            out.push(self.content[i]);
            assert(all.take(i + 1) =~= all.take(i as int).push(all[i as int]));
            i = i + 1;
        }
        let mut j: usize = 0;
        assert(all.take(a as int) + new@.take(0) =~= all.take(a as int));
        while j < new.len()
            invariant
                j <= new@.len(),
                a <= b <= all.len(),
                out@ == all.take(a as int) + new@.take(j as int),
            decreases new@.len() - j,
        {
            out.push(new[j]);
            assert(out@ =~= all.take(a as int) + new@.take(j + 1));
            j = j + 1;
        }
        assert(new@.take(j as int) =~= new@);
        let mut k: usize = b;
        assert(out@ + all.subrange(b as int, b as int) =~= out@);
        while k < self.content.len()
            invariant
                a <= b <= k <= all.len(),
                *self == *old(self),
                all == self.content@,
                out@ == all.take(a as int) + new@ + all.subrange(b as int, k as int),
            decreases self.content@.len() - k,
        {
            out.push(self.content[k]);
            assert(out@ =~= all.take(a as int) + new@ + all.subrange(b as int, k + 1));
            k = k + 1;
        }
        assert(all.subrange(b as int, k as int) =~= all.skip(b as int));
        let changed = !same_chars(&self.content, &out);
        self.content = out;
        changed
    }

    /// The characters that input replaces.
    fn find_target(&self, range: Option<(usize, usize)>) -> (res: (usize, usize))
        requires
            self@.wf(),
        ensures
            (res.0 as int, res.1 as int) == self@.target(range),
            res.0 <= res.1 <= self@.content.len(),
    {
        proof {
            lemma_target(self@, range);
        }
        match range {
            Some((a, b)) => self.find_range(a, b),
            None => match self.marked {
                Some((a, b)) => (a, b),
                None => (self.start, self.end),
            },
        }
    }

    /// The positions of a range in units of UTF-16.
    fn find_range(&self, a: usize, b: usize) -> (res: (usize, usize))
        requires
            self@.wf(),
        ensures
            (res.0 as int, res.1 as int) == self@.from_utf16(a as nat, b as nat),
            res.0 <= res.1 <= self@.content.len(),
    {
        let start: usize = find_utf16(&self.content, a);
        let end: usize = find_utf16(&self.content, b);
        if end < start {
            (start, start)
        } else {
            (start, end)
        }
    }

    /// Types `s` over the characters of `range`, in units of UTF-16, or those being composed, or
    /// the selected ones.
    pub fn replace_text_in_range(&mut self, range: Option<(usize, usize)>, s: &str) -> (res: Edit)
        requires
            old(self)@.wf(),
            old(self)@.has_room(s@),
        ensures
            final(self)@.wf(),
            ({
                let (a, b) = old(self)@.target(range);
                final(self)@ == old(self)@.replaced(a, b, s@)
            }),
            res == edit_of(old(self)@, final(self)@),
    {
        let (a, b) = self.find_target(range);
        proof {
            lemma_replacement_fits(self@, a as int, b as int, s@);
            lemma_offset_steps(
                self@.spliced(a as int, b as int, self@.fitting(s@, a as int, b as int)),
                0,
                self@.spliced(
                    a as int,
                    b as int,
                    self@.fitting(s@, a as int, b as int),
                ).len() as int,
            );
        }
        let new = self.sanitize(&text::chars_of(s), a, b);
        let changed = self.splice(a, b, &new);
        let cursor: usize = a + new.len();
        self.start = cursor;
        self.end = cursor;
        self.reversed = false;
        self.marked = None;
        if changed {
            Edit::Changed
        } else {
            Edit::Same
        }
    }

    /// Composes `s` over the characters of `range`, in units of UTF-16, or those being composed,
    /// or the selected ones. `selected` is the part of `s` to select, in units of UTF-16.
    pub fn replace_and_mark_text_in_range(
        &mut self,
        range: Option<(usize, usize)>,
        s: &str,
        selected: Option<(usize, usize)>,
    ) -> (res: Edit)
        requires
            old(self)@.wf(),
            old(self)@.has_room(s@),
        ensures
            final(self)@.wf(),
            ({
                let (a, b) = old(self)@.target(range);
                final(self)@ == old(self)@.composed(a, b, s@, selected)
            }),
            res == edit_of(old(self)@, final(self)@),
    {
        let (a, b) = self.find_target(range);
        let ghost before = self@;
        let ghost fitting = before.fitting(s@, a as int, b as int);
        proof {
            lemma_replacement_fits(before, a as int, b as int, s@);
            let all = before.spliced(a as int, b as int, fitting);
            lemma_offset_steps(all, 0, all.len() as int);
        }
        let new = self.sanitize(&text::chars_of(s), a, b);
        let changed = self.splice(a, b, &new);
        let end: usize = a + new.len();
        self.marked = if new.len() > 0 {
            Some((a, end))
        } else {
            None
        };
        match selected {
            Some((x, y)) => {
                let first: usize = a + find_utf16(&new, x);
                let last: usize = a + find_utf16(&new, y);
                self.start = first;
                self.end = if last < first {
                    first
                } else {
                    last
                };
            },
            None => {
                self.start = end;
                self.end = end;
            },
        }
        if changed {
            Edit::Changed
        } else {
            Edit::Same
        }
    }
}

impl TextInput {
    fn move_to(&mut self, i: usize)
        requires
            old(self)@.wf(),
            i <= old(self)@.content.len(),
        ensures
            final(self)@.wf(),
            final(self)@ == old(self)@.moved_to(i as int),
    {
        self.start = i;
        self.end = i;
        self.reversed = false;
    }

    fn select_to(&mut self, i: usize)
        requires
            old(self)@.wf(),
            i <= old(self)@.content.len(),
        ensures
            final(self)@.wf(),
            final(self)@ == old(self)@.selected_to(i as int),
    {
        if self.reversed {
            self.start = i;
        } else {
            self.end = i;
        }
        if self.end < self.start {
            self.reversed = !self.reversed;
            let end: usize = self.end;
            self.end = self.start;
            self.start = end;
        }
    }

    fn cursor(&self) -> (res: usize)
        requires
            self@.wf(),
        ensures
            res == self@.cursor(),
            res <= self@.content.len(),
    {
        if self.reversed {
            self.start
        } else {
            self.end
        }
    }

    fn previous_boundary(&self, i: usize) -> (res: usize)
        ensures
            res == self@.previous(i as int),
    {
        if i > 0 {
            i - 1
        } else {
            0
        }
    }

    fn next_boundary(&self, i: usize) -> (res: usize)
        ensures
            res == self@.next(i as int),
    {
        if i < self.content.len() {
            i + 1
        } else {
            i
        }
    }

    fn previous_word_boundary(&self, i: usize) -> (res: usize)
        requires
            i <= self@.content.len(),
        ensures
            res == word_start(self@.content, i as int),
            res <= i,
    {
        let mut k: usize = i;
        while k > 0 && !self.content[k - 1].is_alphanumeric()
            invariant
                k <= i <= self.content@.len(),
                word_start(self.content@, i as int) == word_start(self.content@, k as int),
            decreases k,
        {
            k = k - 1;
        }
        let ghost last = k;
        assert(k > 0 ==> word_start(self.content@, k as int) == letters_start(
            self.content@,
            k as int,
        ));
        while k > 0 && self.content[k - 1].is_alphanumeric()
            invariant
                k <= last <= i <= self.content@.len(),
                last > 0 ==> word_start(self.content@, i as int) == letters_start(
                    self.content@,
                    k as int,
                ),
                last == 0 ==> word_start(self.content@, i as int) == 0,
            decreases k,
        {
            k = k - 1;
        }
        k
    }

    fn next_word_boundary(&self, i: usize) -> (res: usize)
        requires
            i <= self@.content.len(),
        ensures
            res == word_end(self@.content, i as int),
            i <= res <= self@.content.len(),
    {
        let mut k: usize = i;
        while k < self.content.len() && !self.content[k].is_alphanumeric()
            invariant
                i <= k <= self.content@.len(),
                word_end(self.content@, i as int) == word_end(self.content@, k as int),
            decreases self.content@.len() - k,
        {
            k = k + 1;
        }
        let ghost first = k;
        while k < self.content.len() && self.content[k].is_alphanumeric()
            invariant
                i <= first <= k <= self.content@.len(),
                word_end(self.content@, i as int) == letters_end(self.content@, k as int),
            decreases self.content@.len() - k,
        {
            k = k + 1;
        }
        k
    }

    /// Deletes the characters being composed, or else the selected ones.
    fn delete_target(&mut self) -> (res: Edit)
        requires
            old(self)@.wf(),
        ensures
            final(self)@.wf(),
            final(self)@ == old(self)@.deleted(),
            res == edit_of(old(self)@, final(self)@),
    {
        proof {
            reveal_strlit("");
            assert(""@ =~= Seq::<char>::empty());
        }
        self.replace_text_in_range(None, "")
    }

    /// Deletes the selection, or the character before the cursor.
    pub fn backspace(&mut self) -> (res: Edit)
        requires
            old(self)@.wf(),
        ensures
            final(self)@.wf(),
            final(self)@ == old(self)@.backspaced(),
            old(self)@.start == old(self)@.end && old(self)@.cursor() == 0 ==> res == Edit::Bell,
            old(self)@.start != old(self)@.end || old(self)@.cursor() > 0 ==> res == edit_of(
                old(self)@,
                final(self)@,
            ),
    {
        if self.start == self.end {
            let prev: usize = self.previous_boundary(self.cursor());
            if self.cursor() == prev {
                return Edit::Bell;
            }
            self.select_to(prev);
        }
        self.delete_target()
    }

    /// Deletes the selection, or the character after the cursor.
    pub fn delete(&mut self) -> (res: Edit)
        requires
            old(self)@.wf(),
        ensures
            final(self)@.wf(),
            final(self)@ == old(self)@.deleted_ahead(),
            old(self)@.start == old(self)@.end && old(self)@.cursor() == old(self)@.content.len()
                ==> res == Edit::Bell,
            old(self)@.start != old(self)@.end || old(self)@.cursor() < old(self)@.content.len()
                ==> res == edit_of(old(self)@, final(self)@),
    {
        if self.start == self.end {
            let next: usize = self.next_boundary(self.cursor());
            if self.cursor() == next {
                return Edit::Bell;
            }
            self.select_to(next);
        }
        self.delete_target()
    }

    /// Deletes the selection, or back to the start of the word.
    pub fn delete_word_left(&mut self) -> (res: Edit)
        requires
            old(self)@.wf(),
        ensures
            final(self)@.wf(),
            final(self)@ == old(self)@.reaching(
                word_start(old(self)@.content, old(self)@.cursor()),
            ).deleted(),
            res == edit_of(old(self)@, final(self)@),
    {
        if self.start == self.end {
            let to: usize = self.previous_word_boundary(self.cursor());
            self.select_to(to);
        }
        self.delete_target()
    }

    /// Deletes the selection, or up to the end of the word.
    pub fn delete_word_right(&mut self) -> (res: Edit)
        requires
            old(self)@.wf(),
        ensures
            final(self)@.wf(),
            final(self)@ == old(self)@.reaching(
                word_end(old(self)@.content, old(self)@.cursor()),
            ).deleted(),
            res == edit_of(old(self)@, final(self)@),
    {
        if self.start == self.end {
            let to: usize = self.next_word_boundary(self.cursor());
            self.select_to(to);
        }
        self.delete_target()
    }

    /// Deletes the selection, or everything before the cursor.
    pub fn delete_to_start(&mut self) -> (res: Edit)
        requires
            old(self)@.wf(),
        ensures
            final(self)@.wf(),
            final(self)@ == old(self)@.reaching(0).deleted(),
            res == edit_of(old(self)@, final(self)@),
    {
        if self.start == self.end {
            self.select_to(0);
        }
        self.delete_target()
    }

    /// Enter was pressed.
    pub fn submit(&self) -> (res: TextInputEvent)
        ensures
            res == TextInputEvent::Submit,
    {
        TextInputEvent::Submit
    }

    /// Moves the cursor one character back, or to the start of the selection.
    pub fn left(&mut self)
        requires
            old(self)@.wf(),
        ensures
            final(self)@.wf(),
            final(self)@ == old(self)@.went_left(),
    {
        if self.start == self.end {
            let to: usize = self.previous_boundary(self.cursor());
            self.move_to(to);
        } else {
            self.move_to(self.start);
        }
    }

    /// Moves the cursor one character on, or to the end of the selection.
    pub fn right(&mut self)
        requires
            old(self)@.wf(),
        ensures
            final(self)@.wf(),
            final(self)@ == old(self)@.went_right(),
    {
        if self.start == self.end {
            let to: usize = self.next_boundary(self.end);
            self.move_to(to);
        } else {
            self.move_to(self.end);
        }
    }

    /// Moves the cursor back to the start of the word.
    pub fn word_left(&mut self)
        requires
            old(self)@.wf(),
        ensures
            final(self)@.wf(),
            final(self)@ == old(self)@.moved_to(word_start(old(self)@.content, old(self)@.cursor())),
    {
        let to: usize = self.previous_word_boundary(self.cursor());
        self.move_to(to);
    }

    /// Moves the cursor on to the end of the word.
    pub fn word_right(&mut self)
        requires
            old(self)@.wf(),
        ensures
            final(self)@.wf(),
            final(self)@ == old(self)@.moved_to(word_end(old(self)@.content, old(self)@.cursor())),
    {
        let to: usize = self.next_word_boundary(self.cursor());
        self.move_to(to);
    }

    /// Draws the selection one character back.
    pub fn select_left(&mut self)
        requires
            old(self)@.wf(),
        ensures
            final(self)@.wf(),
            final(self)@ == old(self)@.selected_to(old(self)@.previous(old(self)@.cursor())),
    {
        let to: usize = self.previous_boundary(self.cursor());
        self.select_to(to);
    }

    /// Draws the selection one character on.
    pub fn select_right(&mut self)
        requires
            old(self)@.wf(),
        ensures
            final(self)@.wf(),
            final(self)@ == old(self)@.selected_to(old(self)@.next(old(self)@.cursor())),
    {
        let to: usize = self.next_boundary(self.cursor());
        self.select_to(to);
    }

    /// Draws the selection back to the start of the word.
    pub fn select_word_left(&mut self)
        requires
            old(self)@.wf(),
        ensures
            final(self)@.wf(),
            final(self)@ == old(self)@.selected_to(word_start(old(self)@.content, old(self)@.cursor())),
    {
        let to: usize = self.previous_word_boundary(self.cursor());
        self.select_to(to);
    }

    /// Draws the selection on to the end of the word.
    pub fn select_word_right(&mut self)
        requires
            old(self)@.wf(),
        ensures
            final(self)@.wf(),
            final(self)@ == old(self)@.selected_to(word_end(old(self)@.content, old(self)@.cursor())),
    {
        let to: usize = self.next_word_boundary(self.cursor());
        self.select_to(to);
    }

    /// Selects everything.
    pub fn select_all(&mut self)
        requires
            old(self)@.wf(),
        ensures
            final(self)@.wf(),
            final(self)@ == old(self)@.moved_to(0).selected_to(old(self)@.content.len() as int),
    {
        self.move_to(0);
        self.select_to(self.content.len());
    }

    /// Moves the cursor to the start.
    pub fn home(&mut self)
        requires
            old(self)@.wf(),
        ensures
            final(self)@.wf(),
            final(self)@ == old(self)@.moved_to(0),
    {
        self.move_to(0);
    }

    /// Moves the cursor to the end.
    pub fn end(&mut self)
        requires
            old(self)@.wf(),
        ensures
            final(self)@.wf(),
            final(self)@ == old(self)@.moved_to(old(self)@.content.len() as int),
    {
        self.move_to(self.content.len());
    }

    /// Draws the selection to the start.
    pub fn select_to_home(&mut self)
        requires
            old(self)@.wf(),
        ensures
            final(self)@.wf(),
            final(self)@ == old(self)@.selected_to(0),
    {
        self.select_to(0);
    }

    /// Draws the selection to the end.
    pub fn select_to_end(&mut self)
        requires
            old(self)@.wf(),
        ensures
            final(self)@.wf(),
            final(self)@ == old(self)@.selected_to(old(self)@.content.len() as int),
    {
        self.select_to(self.content.len());
    }

    /// Pastes `s`; its line breaks become spaces.
    pub fn paste(&mut self, s: &str) -> (res: Edit)
        requires
            old(self)@.wf(),
            old(self)@.has_room(s@),
        ensures
            final(self)@.wf(),
            ({
                let (a, b) = old(self)@.target(None);
                final(self)@ == old(self)@.replaced(a, b, on_one_line(s@))
            }),
            res == edit_of(old(self)@, final(self)@),
    {
        let chars = text::chars_of(s);
        let mut out = String::new();
        let mut i: usize = 0;
        while i < chars.len()
            invariant
                chars@ == s@,
                i <= chars@.len(),
                out@ == on_one_line(s@.take(i as int)),
            decreases chars@.len() - i,
        {
            let c: char = chars[i];
            out.push(if c == '\n' {
                ' '
            } else {
                c
            });
            assert(on_one_line(s@.take(i + 1)) =~= on_one_line(s@.take(i as int)).push(
                spaced(c),
            ));
            i = i + 1;
        }
        assert(s@.take(i as int) =~= s@);
        proof {
            lemma_size_on_one_line(s@);
        }
        self.replace_text_in_range(None, out.as_str())
    }

    /// What to put on the clipboard. A masked text is never exposed through it.
    pub fn copy(&self) -> (res: Option<String>)
        requires
            self@.wf(),
        ensures
            match self@.copied() {
                Some(copied) => res is Some && (res->0)@ == copied,
                None => res is None,
            },
    {
        if self.start != self.end && !self.masked {
            Some(text::string_of(&self.content, self.start, self.end))
        } else {
            None
        }
    }

    /// Deletes the selection. What to put on the clipboard, and what came of it.
    pub fn cut(&mut self) -> (res: (Option<String>, Edit))
        requires
            old(self)@.wf(),
        ensures
            final(self)@.wf(),
            match old(self)@.copied() {
                Some(copied) => res.0 is Some && (res.0->0)@ == copied,
                None => res.0 is None,
            },
            final(self)@ == old(self)@.cut_out(),
            res.1 == edit_of(old(self)@, final(self)@),
    {
        if self.start == self.end {
            return (None, Edit::Same);
        }
        let copied = self.copy();
        let edit = self.delete_target();
        (copied, edit)
    }

    /// The position that the mouse points to.
    fn mouse_position(&self, at: MouseAt) -> (res: usize)
        requires
            self@.wf(),
        ensures
            res == self@.mouse_position(at),
            res <= self@.content.len(),
    {
        match at {
            MouseAt::Nowhere => 0,
            MouseAt::Above => 0,
            MouseAt::Below => self.content.len(),
            MouseAt::Byte(b) => {
                if self.content.len() == 0 {
                    0
                } else {
                    self.content_offset(b)
                }
            },
        }
    }

    /// The left button was pressed: a double click selects everything, a click with shift draws
    /// the selection, any other one moves the cursor.
    pub fn on_mouse_down(&mut self, at: MouseAt, clicks: usize, shift: bool)
        requires
            old(self)@.wf(),
        ensures
            final(self)@.wf(),
            final(self)@ == old(self)@.pressed(at, clicks, shift),
    {
        let i: usize = self.mouse_position(at);
        self.selecting = clicks < 2;
        if clicks >= 2 {
            self.select_all();
        } else if shift {
            self.select_to(i);
        } else {
            self.move_to(i);
        }
    }

    /// The left button was released.
    pub fn on_mouse_up(&mut self)
        ensures
            final(self)@ == (InputView { selecting: false, ..old(self)@ }),
    {
        self.selecting = false;
    }

    /// The mouse moved: draws the selection while the left button is down.
    pub fn on_mouse_move(&mut self, at: MouseAt)
        requires
            old(self)@.wf(),
        ensures
            final(self)@.wf(),
            final(self)@ == old(self)@.dragged(at),
    {
        if self.selecting {
            let i: usize = self.mouse_position(at);
            self.select_to(i);
        }
    }

    /// Byte of the shown text at position `i`.
    fn display_offset(&self, i: usize) -> (res: usize)
        requires
            self@.wf(),
            i <= self@.content.len(),
        ensures
            res == self@.shown_offset(i as int),
            res <= self@.shown_offset(self@.content.len() as int),
    {
        proof {
            lemma_offset_steps(self.content@, 0, self.content@.len() as int);
            lemma_offset_steps(self.content@, i as int, self.content@.len() as int);
        }
        if self.masked {
            i * MASK_LEN
        } else {
            count_utf8(&self.content, i)
        }
    }

    /// The position at byte `b` of the shown text.
    fn content_offset(&self, b: usize) -> (res: usize)
        requires
            self@.wf(),
        ensures
            res == self@.shown_position(b as nat),
            res <= self@.content.len(),
    {
        if self.masked {
            let i: usize = b / MASK_LEN;
            if i < self.content.len() {
                i
            } else {
                self.content.len()
            }
        } else {
            find_utf8(&self.content, b)
        }
    }

    /// The shown text.
    pub fn display_text(&self) -> (res: String)
        ensures
            res@ == self@.shown(),
    {
        if !self.masked {
            return self.text();
        }
        let mut out = String::new();
        let mut i: usize = 0;
        while i < self.content.len()
            invariant
                i <= self.content@.len(),
                out@.len() == i,
                forall|k: int| 0 <= k < i ==> out@[k] == MASK_CHAR,
            decreases self.content@.len() - i,
        {
            out.push(MASK_CHAR);
            i = i + 1;
        }
        assert(out@ =~= self@.shown());
        out
    }

    /// The text of a range in units of UTF-16, and the range that it really is.
    pub fn text_for_range(&self, a: usize, b: usize) -> (res: (String, (usize, usize)))
        requires
            self@.wf(),
        ensures
            ({
                let (start, end) = self@.from_utf16(a as nat, b as nat);
                &&& res.0@ == self@.content.subrange(start, end)
                &&& res.1.0 == utf16_offset(self@.content, start)
                &&& res.1.1 == utf16_offset(self@.content, end)
            }),
    {
        let (start, end) = self.find_range(a, b);
        (
            text::string_of(&self.content, start, end),
            (count_utf16(&self.content, start), count_utf16(&self.content, end)),
        )
    }

    /// The selection in units of UTF-16, and whether the cursor is at its start.
    pub fn selected_text_range(&self) -> (res: ((usize, usize), bool))
        requires
            self@.wf(),
        ensures
            res.0.0 == utf16_offset(self@.content, self@.start),
            res.0.1 == utf16_offset(self@.content, self@.end),
            res.1 == self@.reversed,
    {
        (
            (count_utf16(&self.content, self.start), count_utf16(&self.content, self.end)),
            self.reversed,
        )
    }

    /// The characters being composed, in units of UTF-16.
    pub fn marked_text_range(&self) -> (res: Option<(usize, usize)>)
        requires
            self@.wf(),
        ensures
            match self@.marked {
                Some((a, b)) => res is Some && (res->0).0 == utf16_offset(self@.content, a) && (
                res->0).1 == utf16_offset(self@.content, b),
                None => res is None,
            },
    {
        match self.marked {
            Some((a, b)) => Some(
                (count_utf16(&self.content, a), count_utf16(&self.content, b)),
            ),
            None => None,
        }
    }

    /// Nothing is being composed any more.
    pub fn unmark_text(&mut self)
        requires
            old(self)@.wf(),
        ensures
            final(self)@.wf(),
            final(self)@ == (InputView { marked: None, ..old(self)@ }),
    {
        self.marked = None;
    }

    /// The bytes of the shown text for a range in units of UTF-16.
    pub fn bounds_for_range(&self, a: usize, b: usize) -> (res: (usize, usize))
        requires
            self@.wf(),
        ensures
            ({
                let (start, end) = self@.from_utf16(a as nat, b as nat);
                &&& res.0 == self@.shown_offset(start)
                &&& res.1 == self@.shown_offset(end)
            }),
    {
        let (start, end) = self.find_range(a, b);
        (self.display_offset(start), self.display_offset(end))
    }

    /// The unit of UTF-16 for a byte of the shown text.
    pub fn character_index_for_byte(&self, b: usize) -> (res: usize)
        requires
            self@.wf(),
        ensures
            res == utf16_offset(self@.content, self@.shown_position(b as nat)),
    {
        let i: usize = self.content_offset(b);
        count_utf16(&self.content, i)
    }
}

/// `c`, or a space for a line break.
pub open spec fn spaced(c: char) -> char {
    if c == '\n' {
        ' '
    } else {
        c
    }
}

/// `s` with spaces for its line breaks.
pub open spec fn on_one_line(s: Seq<char>) -> Seq<char> {
    s.map_values(|c: char| spaced(c))
}

proof fn lemma_size_on_one_line(s: Seq<char>)
    ensures
        utf8_size(on_one_line(s)) == utf8_size(s),
    decreases s.len(),
{
    let line = on_one_line(s);
    if s.len() > 0 {
        lemma_size_on_one_line(s.drop_last());
        assert(line.drop_last() =~= on_one_line(s.drop_last()));
        lemma_offset_of_part(s, s.drop_last(), s.len() - 1);
        lemma_offset_of_part(line, line.drop_last(), s.len() - 1);
    }
}

/// A stretch of the shown text.
#[derive(Clone, Copy, Debug, PartialEq, Eq, Structural)]
pub struct Run {
    /// Bytes of the shown text.
    pub len: usize,
    /// Whether it is being composed.
    pub underlined: bool,
}

/// What is drawn of a text input. Positions are bytes of the shown text.
pub enum Look {
    /// There is no text: the placeholder, with the cursor in front of it.
    Placeholder(String),
    /// The text in stretches, with the selection or else the cursor.
    Text { text: String, runs: Vec<Run>, selection: Option<(usize, usize)>, cursor: usize },
}

/// The stretches of a text of `total` bytes of which those from `a` up to `b` are being composed:
/// none is empty.
pub open spec fn runs_of(total: int, marked: Option<(int, int)>) -> Seq<Run> {
    match marked {
        Some((a, b)) => nonempty(a, false) + nonempty(b - a, true) + nonempty(total - b, false),
        None => seq![Run { len: total as usize, underlined: false }],
    }
}

/// A stretch of `len` bytes, unless that is none.
pub open spec fn nonempty(len: int, underlined: bool) -> Seq<Run> {
    if len > 0 {
        seq![Run { len: len as usize, underlined }]
    } else {
        Seq::empty()
    }
}

/// Whether `look` is what is drawn of `input`.
pub open spec fn looks(look: Look, input: InputView) -> bool {
    match look {
        Look::Placeholder(text) => input.content.len() == 0 && text@ == input.placeholder,
        Look::Text { text, runs, selection, cursor } => {
            &&& input.content.len() > 0
            &&& text@ == input.shown()
            &&& runs@ == runs_of(
                input.shown_offset(input.content.len() as int) as int,
                match input.marked {
                    Some((a, b)) => Some(
                        (input.shown_offset(a) as int, input.shown_offset(b) as int),
                    ),
                    None => None,
                },
            )
            &&& match selection {
                Some((a, b)) => input.start != input.end && a == input.shown_offset(input.start)
                    && b == input.shown_offset(input.end),
                None => input.start == input.end,
            }
            &&& cursor == input.shown_offset(input.cursor())
        },
    }
}

proof fn lemma_shown_offset_grows(input: InputView, i: int, j: int)
    requires
        0 <= i <= j <= input.content.len(),
    ensures
        input.shown_offset(i) <= input.shown_offset(j),
        i < j ==> input.shown_offset(i) < input.shown_offset(j),
{
    lemma_offset_steps(input.content, i, j);
}

impl TextInput {
    /// What is drawn.
    pub fn look(&self) -> (res: Look)
        requires
            self@.wf(),
        ensures
            looks(res, self@),
    {
        if self.content.len() == 0 {
            return Look::Placeholder(self.placeholder.clone());
        }
        let total: usize = self.display_offset(self.content.len());
        let mut runs: Vec<Run> = Vec::new();
        match self.marked {
            Some((a, b)) => {
                proof {
                    lemma_shown_offset_grows(self@, a as int, b as int);
                    lemma_shown_offset_grows(self@, b as int, self@.content.len() as int);
                }
                let from: usize = self.display_offset(a);
                let to: usize = self.display_offset(b);
                if from > 0 {
                    runs.push(Run { len: from, underlined: false });
                }
                runs.push(Run { len: to - from, underlined: true });
                if total > to {
                    runs.push(Run { len: total - to, underlined: false });
                }
                assert(runs@ =~= nonempty(from as int, false) + nonempty(to - from, true)
                    + nonempty(total - to, false));
            },
            None => {
                runs.push(Run { len: total, underlined: false });
                assert(runs@ =~= seq![Run { len: total, underlined: false }]);
            },
        }
        let selection = if self.start == self.end {
            None
        } else {
            Some((self.display_offset(self.start), self.display_offset(self.end)))
        };
        let cursor: usize = self.display_offset(self.cursor());
        Look::Text { text: self.display_text(), runs, selection, cursor }
    }
}

/// Room that the cursor needs at the right edge, in the units of [`crate::config::POINT`].
pub const CURSOR_ROOM: i64 = 131_072;

/// Whether a length is one that a screen can have.
pub open spec fn on_screen(x: i64) -> bool {
    -0x1000_0000_0000_0000 <= x <= 0x1000_0000_0000_0000
}

/// How far the text is scrolled to the left so that the cursor is visible, when it was scrolled
/// by `scroll`. No further than needed to show the end of the text.
pub open spec fn scrolled(cursor: int, scroll: int, width: int, line: int) -> int {
    let right = if cursor - scroll > width - CURSOR_ROOM {
        cursor - width + CURSOR_ROOM
    } else {
        scroll
    };
    let left = if cursor - right < 0 {
        cursor
    } else {
        right
    };
    let most = if line - width + CURSOR_ROOM > 0 {
        line - width + CURSOR_ROOM
    } else {
        0
    };
    if left < most {
        left
    } else {
        most
    }
}

/// How far the text is scrolled to the left so that the cursor is visible.
pub fn scroll_for(cursor: i64, scroll: i64, width: i64, line: i64) -> (res: i64)
    requires
        on_screen(cursor),
        on_screen(scroll),
        on_screen(width),
        on_screen(line),
    ensures
        res == scrolled(cursor as int, scroll as int, width as int, line as int),
{
    let mut res: i64 = scroll;
    if cursor - res > width - CURSOR_ROOM {
        res = cursor - width + CURSOR_ROOM;
    }
    if cursor - res < 0 {
        res = cursor;
    }
    let most: i64 = if line - width + CURSOR_ROOM > 0 {
        line - width + CURSOR_ROOM
    } else {
        0
    };
    if res < most {
        res
    } else {
        most
    }
}

/// The cursor of a text is always visible, and no more is scrolled away than there is.
pub proof fn lemma_cursor_is_visible(cursor: int, scroll: int, width: int, line: int)
    requires
        0 <= cursor <= line,
        width >= CURSOR_ROOM,
    ensures
        0 <= cursor - scrolled(cursor, scroll, width, line) <= width - CURSOR_ROOM,
{
}

/// What is shown of a masked text tells nothing but its length.
pub proof fn lemma_mask_hides_text(a: InputView, b: InputView)
    requires
        a.masked,
        b.masked,
        a.content.len() == b.content.len(),
    ensures
        a.shown() == b.shown(),
        forall|i: int| a.shown_offset(i) == b.shown_offset(i),
{
    assert(a.shown() =~= b.shown());
}

/// A position survives the way to units of UTF-16 and back.
pub proof fn lemma_utf16_round_trip(s: Seq<char>, i: int)
    requires
        0 <= i <= s.len(),
    ensures
        utf16_position(s, utf16_offset(s, i), 0) == i,
{
    lemma_utf16_round_trip_from(s, i, 0);
}

proof fn lemma_utf16_round_trip_from(s: Seq<char>, i: int, from: int)
    requires
        0 <= from <= i <= s.len(),
    ensures
        utf16_position(s, utf16_offset(s, i), from) == i,
    decreases i - from,
{
    lemma_offset_steps(s, from, i);
    if from < i {
        lemma_utf16_round_trip_from(s, i, from + 1);
    }
}

/// A position survives the way to bytes of the shown text and back.
pub proof fn lemma_shown_round_trip(input: InputView, i: int)
    requires
        0 <= i <= input.content.len(),
    ensures
        input.shown_position(input.shown_offset(i)) == i,
{
    if input.masked {
        assert((i * 3) / 3 == i);
    } else {
        lemma_utf8_round_trip_from(input.content, i, 0);
    }
}

proof fn lemma_utf8_round_trip_from(s: Seq<char>, i: int, from: int)
    requires
        0 <= from <= i <= s.len(),
    ensures
        utf8_position(s, utf8_offset(s, i), from) == i,
    decreases i - from,
{
    if from < i {
        lemma_offset_steps(s, from + 1, i);
        lemma_utf8_round_trip_from(s, i, from + 1);
    } else if from < s.len() {
        lemma_offset_steps(s, from, from + 1);
    }
}

/// Whether every character of a text can be typed.
pub open spec fn all_typeable(s: Seq<char>, digits_only: bool) -> bool {
    forall|i: int| 0 <= i < s.len() ==> typeable(#[trigger] s[i], digits_only)
}

proof fn lemma_typed_is_typeable(s: Seq<char>, digits_only: bool)
    ensures
        all_typeable(typed(s, digits_only), digits_only),
    decreases s.len(),
{
    reveal(Seq::filter);
    if s.len() > 0 {
        lemma_typed_is_typeable(s.drop_last(), digits_only);
        let before = typed(s.drop_last(), digits_only);
        let after = typed(s, digits_only);
        assert forall|i: int| 0 <= i < after.len() implies typeable(
            #[trigger] after[i],
            digits_only,
        ) by {
            if i < before.len() {
                assert(after[i] == before[i]);
            }
        }
    }
}

/// Typing, pasting and composing keep to the filter and to the limit: no line break and, where
/// only digits are allowed, nothing but digits gets in, and the text does not grow beyond its
/// limit.
pub proof fn lemma_input_keeps_to_the_rules(
    input: InputView,
    range: Option<(usize, usize)>,
    s: Seq<char>,
    selected: Option<(usize, usize)>,
)
    requires
        input.wf(),
        all_typeable(input.content, input.digits_only),
    ensures
        ({
            let (a, b) = input.target(range);
            let typed = input.replaced(a, b, s).content;
            &&& all_typeable(typed, input.digits_only)
            &&& input.composed(a, b, s, selected).content == typed
            &&& input.max_len is Some && input.content.len() <= input.max_len->0 ==> typed.len()
                <= input.max_len->0
        }),
{
    lemma_target(input, range);
    lemma_typed_is_typeable(s, input.digits_only);
    let (a, b) = input.target(range);
    let new = input.fitting(s, a, b);
    let kept = typed(s, input.digits_only);
    assert forall|i: int| 0 <= i < new.len() implies typeable(
        #[trigger] new[i],
        input.digits_only,
    ) by {
        assert(new[i] == kept[i]);
    }
    let all = input.spliced(a, b, new);
    assert forall|i: int| 0 <= i < all.len() implies typeable(
        #[trigger] all[i],
        input.digits_only,
    ) by {
        if i < a {
            assert(all[i] == input.content[i]);
        } else if i < a + new.len() {
            assert(all[i] == new[i - a]);
        } else {
            assert(all[i] == input.content[b + (i - a - new.len())]);
        }
    }
}

/// A backspace takes back one typed character.
pub proof fn lemma_backspace_undoes_typing(input: InputView, c: char)
    requires
        input.wf(),
        input.start == input.end,
        input.marked is None,
        typeable(c, input.digits_only),
        input.max_len is Some ==> input.content.len() < input.max_len->0,
    ensures
        ({
            let typed = input.replaced(input.start, input.end, seq![c]);
            let back = typed.reaching(typed.previous(typed.cursor())).deleted();
            &&& typed.content == input.content.insert(input.start, c)
            &&& back.content == input.content
            &&& back.cursor() == input.cursor()
        }),
{
    reveal_with_fuel(Seq::filter, 2);
    let at = input.start;
    assert(seq![c].drop_last() =~= Seq::<char>::empty());
    assert(typed(seq![c], input.digits_only) =~= seq![c]);
    let after = input.replaced(at, at, seq![c]);
    assert(after.content =~= input.content.insert(at, c));
    let selected = after.reaching(after.previous(after.cursor()));
    assert(selected.start == at && selected.end == at + 1);
    assert(typed(Seq::<char>::empty(), input.digits_only) =~= Seq::<char>::empty());
    let back = selected.deleted();
    assert(back.content =~= input.content);
}

/// A line break never gets in, and where only digits are allowed nothing but `0` to `9` does;
/// every other character does, in its order.
pub proof fn lemma_filter_takes_what_can_be_typed(s: Seq<char>, c: char, digits_only: bool)
    ensures
        typed(Seq::empty(), digits_only).len() == 0,
        c == '\n' || c == '\r' ==> typed(s.push(c), digits_only) == typed(s, digits_only),
        digits_only && !('0' <= c <= '9') ==> typed(s.push(c), digits_only) == typed(
            s,
            digits_only,
        ),
        '0' <= c <= '9' ==> typed(s.push(c), digits_only) == typed(s, digits_only).push(c),
        !digits_only && c != '\n' && c != '\r' ==> typed(s.push(c), digits_only) == typed(
            s,
            digits_only,
        ).push(c),
{
    reveal(Seq::filter);
    assert(s.push(c).drop_last() =~= s);
}

proof fn lemma_all_of_it_is_typed(s: Seq<char>, digits_only: bool)
    requires
        forall|i: int|
            0 <= i < s.len() ==> (#[trigger] s[i]) != '\n' && s[i] != '\r' && (digits_only ==> '0'
                <= s[i] <= '9'),
    ensures
        typed(s, digits_only) == s,
    decreases s.len(),
{
    if s.len() > 0 {
        let fewer = s.drop_last();
        assert forall|i: int| 0 <= i < fewer.len() implies (#[trigger] fewer[i]) != '\n' && fewer[i]
            != '\r' && (digits_only ==> '0' <= fewer[i] <= '9') by {
            assert(fewer[i] == s[i]);
        }
        lemma_all_of_it_is_typed(fewer, digits_only);
        assert(s[s.len() - 1] == s.last());
        lemma_filter_takes_what_can_be_typed(fewer, s.last(), digits_only);
        assert(fewer.push(s.last()) =~= s);
    } else {
        lemma_filter_takes_what_can_be_typed(s, 'a', digits_only);
        assert(s =~= Seq::empty());
        assert(typed(s, digits_only) =~= s);
    }
}

/// Nothing is cut off without need. Where every character of `s` can be typed, and the text with
/// `s` in place of the replaced characters is within the limit, it is exactly what stood before
/// them, `s`, and what stood after them. The replaced characters do not count. The cursor stands
/// behind `s`.
pub proof fn lemma_typed_text_takes_the_place(input: InputView, a: int, b: int, s: Seq<char>)
    requires
        input.wf(),
        0 <= a <= b <= input.content.len(),
        forall|i: int|
            0 <= i < s.len() ==> (#[trigger] s[i]) != '\n' && s[i] != '\r' && (input.digits_only
                ==> '0' <= s[i] <= '9'),
        input.max_len is Some ==> a + s.len() + (input.content.len() - b) <= input.max_len->0,
    ensures
        ({
            let after = input.replaced(a, b, s);
            &&& after.content == input.content.take(a) + s + input.content.skip(b)
            &&& after.content.len() == a + s.len() + (input.content.len() - b)
            &&& after.start == a + s.len()
            &&& after.end == a + s.len()
            &&& !after.reversed
            &&& after.marked is None
            &&& after.cursor() == a + s.len()
            &&& input.composed(a, b, s, None).content == after.content
        }),
{
    lemma_all_of_it_is_typed(s, input.digits_only);
    assert(input.fitting(s, a, b) =~= s);
}

/// What does not fit is cut off at its end, and no more of it than needed: the text is then as
/// long as it may be.
pub proof fn lemma_long_text_fills_the_field(input: InputView, a: int, b: int, s: Seq<char>)
    requires
        input.wf(),
        0 <= a <= b <= input.content.len(),
        input.max_len is Some,
        input.content.len() - (b - a) <= input.max_len->0,
        input.content.len() - (b - a) + typed(s, input.digits_only).len() > input.max_len->0,
    ensures
        ({
            let after = input.replaced(a, b, s);
            let room = input.max_len->0 - (input.content.len() - (b - a));
            &&& after.content.len() == input.max_len->0
            &&& after.content == input.content.take(a) + typed(s, input.digits_only).take(room)
                + input.content.skip(b)
            &&& after.cursor() == a + room
        }),
{
}

/// Input goes to the characters that are being composed, or else to the selection, unless the input
/// method asks for others.
pub proof fn lemma_input_goes_to_the_selection(input: InputView, s: Seq<char>)
    requires
        input.wf(),
    ensures
        input.marked is None ==> input.target(None) == (input.start, input.end),
        input.marked is Some ==> input.target(None) == input.marked->0,
        forall|i: int, j: int|
            0 <= i <= j <= input.content.len() ==> #[trigger] input.from_utf16(
                utf16_offset(input.content, i),
                utf16_offset(input.content, j),
            ) == (i, j),
{
    assert forall|i: int, j: int| 0 <= i <= j <= input.content.len() implies (
    #[trigger] input.from_utf16(
        utf16_offset(input.content, i),
        utf16_offset(input.content, j),
    )) == (i, j) by {
        lemma_utf16_round_trip(input.content, i);
        lemma_utf16_round_trip(input.content, j);
    }
}

/// Text that is typed after everything was selected is the whole text, if it fits.
pub proof fn lemma_typing_over_everything(input: InputView, s: Seq<char>)
    requires
        input.wf(),
        input.marked is None,
        forall|i: int|
            0 <= i < s.len() ==> (#[trigger] s[i]) != '\n' && s[i] != '\r' && (input.digits_only
                ==> '0' <= s[i] <= '9'),
        input.max_len is Some ==> s.len() <= input.max_len->0,
    ensures
        ({
            let all = input.moved_to(0).selected_to(input.content.len() as int);
            &&& all.start == 0
            &&& all.end == input.content.len()
            &&& all.replaced(all.target(None).0, all.target(None).1, s).content == s
        }),
{
    let n = input.content.len() as int;
    let all = input.moved_to(0).selected_to(n);
    lemma_typed_text_takes_the_place(all, 0, n, s);
    assert(input.content.take(0) + s + input.content.skip(n) =~= s);
}

/// What is pasted is the same text on one line: line breaks become spaces, and carriage returns
/// are left out by the filter.
pub proof fn lemma_pasted_text_is_on_one_line(s: Seq<char>)
    ensures
        on_one_line(s).len() == s.len(),
        forall|i: int|
            0 <= i < s.len() ==> (#[trigger] on_one_line(s)[i]) == if s[i] == '\n' {
                ' '
            } else {
                s[i]
            },
        typed(seq!['\r'], false).len() == 0,
{
    lemma_filter_takes_what_can_be_typed(Seq::empty(), '\r', false);
    assert(Seq::<char>::empty().push('\r') =~= seq!['\r']);
}

/// A composition stands for what is typed in the end: whatever an input method composed in
/// between, committing `t` gives the text that typing `t` at once would have given. What is
/// composed is marked, and nothing else.
pub proof fn lemma_composition_is_taken_over(
    input: InputView,
    a: int,
    b: int,
    s: Seq<char>,
    selected: Option<(usize, usize)>,
    t: Seq<char>,
)
    requires
        input.wf(),
        0 <= a <= b <= input.content.len(),
        input.fitting(s, a, b).len() > 0,
    ensures
        ({
            let composed = input.composed(a, b, s, selected);
            &&& composed.marked is Some
            &&& composed.target(None) == composed.marked->0
            &&& (composed.marked->0).0 == a
            &&& composed.content.skip((composed.marked->0).1) == input.content.skip(b)
            &&& composed.content.take(a) == input.content.take(a)
            &&& composed.replaced(a, (composed.marked->0).1, t).content == input.replaced(
                a,
                b,
                t,
            ).content
            &&& composed.replaced(a, (composed.marked->0).1, t).marked is None
        }),
{
    let new = input.fitting(s, a, b);
    let composed = input.composed(a, b, s, selected);
    let end = a + new.len();
    assert(composed.content.len() == input.content.len() - (b - a) + new.len());
    assert(composed.content.skip(end) =~= input.content.skip(b));
    assert(composed.content.take(a) =~= input.content.take(a));
    assert(composed.fitting(t, a, end) == input.fitting(t, a, b));
}

/// Deleting takes out exactly the selection where there is one. Without one, backspace takes the
/// character before the cursor, delete the one after it, and deleting to the start all that stands
/// before it. Nothing else of the text changes, and nothing does where no such character stands.
pub proof fn lemma_deleting_takes_out_no_more(input: InputView)
    requires
        input.wf(),
        input.marked is None,
    ensures
        input.start != input.end ==> {
            let rest = input.content.take(input.start) + input.content.skip(input.end);
            &&& input.reaching(0).deleted().content == rest
            &&& input.backspaced().content == rest
            &&& input.deleted_ahead().content == rest
            &&& input.cut_out().content == rest
            &&& input.deleted().content == rest
            &&& input.deleted().cursor() == input.start
        },
        input.start == input.end && input.start > 0 ==> {
            let back = input.backspaced();
            &&& back.content == input.content.remove(input.start - 1)
            &&& back.cursor() == input.start - 1
        },
        input.start == input.end && input.start < input.content.len() ==> {
            let forth = input.deleted_ahead();
            &&& forth.content == input.content.remove(input.start)
            &&& forth.cursor() == input.start
        },
        input.start == input.end && input.start == 0 ==> input.backspaced() == input,
        input.start == input.end && input.start == input.content.len() ==> input.deleted_ahead()
            == input,
        input.start == input.end ==> {
            let line = input.reaching(0).deleted();
            &&& line.content == input.content.skip(input.start)
            &&& line.cursor() == 0
        },
{
    lemma_all_of_it_is_typed(Seq::empty(), input.digits_only);
    let at = input.start;
    let content = input.content;
    if input.start == input.end {
        if at > 0 {
            let back = input.reaching(at - 1);
            assert(back.start == at - 1 && back.end == at);
            assert(content.take(at - 1) + Seq::<char>::empty() + content.skip(at)
                =~= content.remove(at - 1));
        }
        if at < content.len() {
            let forth = input.reaching(at + 1);
            assert(forth.start == at && forth.end == at + 1);
            assert(content.take(at) + Seq::<char>::empty() + content.skip(at + 1)
                =~= content.remove(at));
        }
        assert(content.take(0) + Seq::<char>::empty() + content.skip(at) =~= content.skip(at));
    } else {
        assert(content.take(at) + Seq::<char>::empty() + content.skip(input.end)
            =~= content.take(at) + content.skip(input.end));
    }
}

proof fn lemma_letters_start(s: Seq<char>, i: int)
    requires
        0 <= i <= s.len(),
    ensures
        0 <= letters_start(s, i) <= i,
        forall|j: int| letters_start(s, i) <= j < i ==> text::alphanumeric(#[trigger] s[j]),
        letters_start(s, i) > 0 ==> !text::alphanumeric(s[letters_start(s, i) - 1]),
    decreases i,
{
    if i > 0 && text::alphanumeric(s[i - 1]) {
        lemma_letters_start(s, i - 1);
    }
}

proof fn lemma_letters_end(s: Seq<char>, i: int)
    requires
        0 <= i <= s.len(),
    ensures
        i <= letters_end(s, i) <= s.len(),
        forall|j: int| i <= j < letters_end(s, i) ==> text::alphanumeric(#[trigger] s[j]),
        letters_end(s, i) < s.len() ==> !text::alphanumeric(s[letters_end(s, i)]),
    decreases s.len() - i,
{
    if i < s.len() && text::alphanumeric(s[i]) {
        lemma_letters_end(s, i + 1);
    }
}

/// Going back by a word passes over whatever is no letter or digit and then over one whole word:
/// `middle` parts the two. It stops where the word starts, and never on the way.
pub proof fn lemma_back_by_one_word(s: Seq<char>, i: int) -> (middle: int)
    requires
        0 <= i <= s.len(),
    ensures
        0 <= word_start(s, i) <= middle <= i,
        forall|j: int| middle <= j < i ==> !text::alphanumeric(#[trigger] s[j]),
        forall|j: int| word_start(s, i) <= j < middle ==> text::alphanumeric(#[trigger] s[j]),
        word_start(s, i) > 0 ==> !text::alphanumeric(s[word_start(s, i) - 1]) && word_start(s, i)
            < middle,
    decreases i,
{
    if i <= 0 {
        i
    } else if !text::alphanumeric(s[i - 1]) {
        lemma_back_by_one_word(s, i - 1)
    } else {
        lemma_letters_start(s, i);
        i
    }
}

/// Going on by a word passes over whatever is no letter or digit and then over one whole word.
pub proof fn lemma_on_by_one_word(s: Seq<char>, i: int) -> (middle: int)
    requires
        0 <= i <= s.len(),
    ensures
        i <= middle <= word_end(s, i) <= s.len(),
        forall|j: int| i <= j < middle ==> !text::alphanumeric(#[trigger] s[j]),
        forall|j: int| middle <= j < word_end(s, i) ==> text::alphanumeric(#[trigger] s[j]),
        word_end(s, i) < s.len() ==> !text::alphanumeric(s[word_end(s, i)]) && middle < word_end(
            s,
            i,
        ),
    decreases s.len() - i,
{
    if i >= s.len() {
        i
    } else if !text::alphanumeric(s[i]) {
        lemma_on_by_one_word(s, i + 1)
    } else {
        lemma_letters_end(s, i);
        i
    }
}

/// Deleting by a word takes out what going by a word passes over, between there and the cursor.
pub proof fn lemma_deleting_a_word(input: InputView)
    requires
        input.wf(),
        input.marked is None,
        input.start == input.end,
    ensures
        ({
            let at = input.start;
            let from = word_start(input.content, at);
            let to = word_end(input.content, at);
            &&& input.reaching(from).deleted().content == input.content.take(from)
                + input.content.skip(at)
            &&& input.reaching(from).deleted().cursor() == from
            &&& input.reaching(to).deleted().content == input.content.take(at)
                + input.content.skip(to)
            &&& input.reaching(to).deleted().cursor() == at
        }),
{
    let at = input.start;
    let content = input.content;
    let from = word_start(content, at);
    let to = word_end(content, at);
    let left = lemma_back_by_one_word(content, at);
    let right = lemma_on_by_one_word(content, at);
    lemma_all_of_it_is_typed(Seq::empty(), input.digits_only);
    assert(content.take(from) + Seq::<char>::empty() + content.skip(at) =~= content.take(from)
        + content.skip(at));
    assert(content.take(at) + Seq::<char>::empty() + content.skip(to) =~= content.take(at)
        + content.skip(to));
}

/// The end of the selection that was not drawn stays where it is, and the cursor is where it was
/// drawn to; drawn back to where it began, nothing is selected. Moving the cursor selects nothing.
pub proof fn lemma_selection_is_drawn_from_its_anchor(input: InputView, i: int, j: int)
    requires
        input.wf(),
        0 <= i <= input.content.len(),
        0 <= j <= input.content.len(),
    ensures
        ({
            let anchor = if input.reversed {
                input.end
            } else {
                input.start
            };
            let drawn = input.selected_to(i);
            &&& drawn.cursor() == i
            &&& drawn.start <= drawn.end
            &&& drawn.start == anchor || drawn.end == anchor
            &&& i == anchor ==> drawn.start == drawn.end
            &&& drawn.content == input.content
            &&& input.moved_to(j).cursor() == j
            &&& input.moved_to(j).start == input.moved_to(j).end
            &&& i != j ==> {
                let (low, high) = if i < j {
                    (i, j)
                } else {
                    (j, i)
                };
                &&& input.moved_to(j).selected_to(i).start == low
                &&& input.moved_to(j).selected_to(i).end == high
            }
        }),
{
}

/// The neighbours of a position are one character away, within the text.
pub proof fn lemma_neighbours_are_one_character_away(input: InputView, i: int)
    requires
        0 <= i <= input.content.len(),
    ensures
        i > 0 ==> input.previous(i) == i - 1,
        input.previous(0) == 0,
        i < input.content.len() ==> input.next(i) == i + 1,
        input.next(input.content.len() as int) == input.content.len(),
        0 < i ==> input.next(input.previous(i)) == i,
{
}

/// The mouse points to the character at its byte of the shown text: a click at the byte where a
/// character is shown puts the cursor in front of it. Above the text it points to the start, and
/// below it to the end.
pub proof fn lemma_mouse_points_to_what_is_shown(input: InputView, i: int, byte: usize)
    requires
        0 <= i <= input.content.len(),
        byte == input.shown_offset(i),
    ensures
        input.mouse_position(MouseAt::Byte(byte)) == i,
        input.mouse_position(MouseAt::Above) == 0,
        input.mouse_position(MouseAt::Nowhere) == 0,
        input.mouse_position(MouseAt::Below) == input.content.len(),
{
    lemma_shown_round_trip(input, i);
}

/// The sizes of a character: one to four bytes of UTF-8, and one or two units of UTF-16, of which
/// two are four bytes.
pub proof fn lemma_character_sizes(s: Seq<char>, c: char)
    ensures
        (c as u32) <= 0x7f ==> utf8_len(c) == 1 && utf16_len(c) == 1,
        0x80 <= (c as u32) <= 0x7ff ==> utf8_len(c) == 2 && utf16_len(c) == 1,
        0x800 <= (c as u32) <= 0xffff ==> utf8_len(c) == 3 && utf16_len(c) == 1,
        0x1_0000 <= (c as u32) ==> utf8_len(c) == 4 && utf16_len(c) == 2,
        utf8_size(s.push(c)) == utf8_size(s) + utf8_len(c),
        utf8_size(Seq::empty()) == 0,
        utf8_len(MASK_CHAR) == MASK_LEN,
{
    lemma_offset_of_part(s.push(c), s, s.len() as int);
}

/// A masked text shows one dot for each of its characters, and any other text shows itself.
pub proof fn lemma_shown_text(input: InputView, i: int)
    ensures
        !input.masked ==> input.shown() == input.content,
        input.masked ==> input.shown().len() == input.content.len(),
        input.masked && 0 <= i < input.content.len() ==> input.shown()[i] == '\u{2022}',
        input.masked && i >= 0 ==> input.shown_offset(i) == 3 * i,
        !input.masked ==> input.shown_offset(i) == utf8_offset(input.content, i),
{
}

/// The text is not scrolled without need: where the cursor is visible and nothing but text is in
/// view, it stays where it is. A text that fits is not scrolled at all.
pub proof fn lemma_text_is_not_scrolled_without_need(
    cursor: int,
    scroll: int,
    width: int,
    line: int,
)
    requires
        0 <= cursor <= line,
        width >= 131_072,
    ensures
        0 <= cursor - scroll <= width - 131_072 && 0 <= scroll <= line - width + 131_072
            ==> scrolled(cursor, scroll, width, line) == scroll,
        line <= width - 131_072 && scroll >= 0 ==> scrolled(cursor, scroll, width, line) == 0,
        line > width - 131_072 ==> scrolled(cursor, scroll, width, line) <= line - width + 131_072,
{
}

/// The stretches of the shown text cover it, with the composed one underlined and none empty.
pub proof fn lemma_stretches_cover_the_text(total: int, a: int, b: int)
    requires
        0 <= a < b <= total <= usize::MAX,
    ensures
        ({
            let runs = runs_of(total, Some((a, b)));
            let at: int = if a > 0 {
                1
            } else {
                0
            };
            &&& runs.len() == at + 1 + if b < total {
                1int
            } else {
                0int
            }
            &&& runs[at] == Run { len: (b - a) as usize, underlined: true }
            &&& a > 0 ==> runs[0] == Run { len: a as usize, underlined: false }
            &&& b < total ==> runs[at + 1] == Run { len: (total - b) as usize, underlined: false }
            &&& runs_of(total, None) == seq![Run { len: total as usize, underlined: false }]
        }),
{
}

/// The cursor goes one character at a time, stops at the ends of the text, and leaves a selection
/// at its start or its end. Nothing is selected afterwards, and the text stays.
pub proof fn lemma_cursor_goes_one_character(input: InputView)
    requires
        input.wf(),
    ensures
        input.start == input.end && input.start > 0 ==> input.went_left().start == input.start - 1,
        input.start == input.end && input.start == 0 ==> input.went_left().start == 0,
        input.start == input.end && input.end < input.content.len() ==> input.went_right().start
            == input.end + 1,
        input.start == input.end && input.end == input.content.len() ==> input.went_right().start
            == input.content.len(),
        input.start < input.end ==> input.went_left().start == input.start
            && input.went_right().start == input.end,
        input.went_left().start == input.went_left().end,
        input.went_right().start == input.went_right().end,
        input.went_left().content == input.content,
        input.went_right().content == input.content,
        input.start == input.end && 0 < input.start ==> input.went_left().went_right().start
            == input.start,
{
}

/// Exactly what is selected goes to the clipboard. Of a masked text nothing does, also when it is cut.
pub proof fn lemma_clipboard_gets_the_selection(input: InputView, i: int)
    requires
        input.wf(),
    ensures
        input.masked ==> input.copied() is None,
        input.start == input.end ==> input.copied() is None && input.cut_out() == input,
        !input.masked && input.start < input.end ==> {
            &&& input.copied() is Some
            &&& input.copied()->0.len() == input.end - input.start
            &&& 0 <= i < input.end - input.start ==> input.copied()->0[i] == input.content[input.start
                + i]
        },
{
}

/// A click puts the cursor where the mouse is, and with shift draws the selection to there; moving
/// draws it on until the button is let go. A double click selects everything.
pub proof fn lemma_mouse_selects(input: InputView, at: MouseAt, to: MouseAt, clicks: usize)
    requires
        input.wf(),
    ensures
        clicks < 2 ==> {
            let pressed = input.pressed(at, clicks, false);
            let dragged = pressed.dragged(to);
            let (a, b) = (input.mouse_position(at), input.mouse_position(to));
            &&& pressed.start == a && pressed.end == a && pressed.selecting
            &&& a <= b ==> dragged.start == a && dragged.end == b
            &&& b <= a ==> dragged.start == b && dragged.end == a
            &&& dragged.cursor() == b
            &&& input.pressed(at, clicks, true).cursor() == a
        },
        clicks >= 2 ==> {
            let pressed = input.pressed(at, clicks, false);
            &&& pressed.start == 0 && pressed.end == input.content.len() && !pressed.selecting
            &&& pressed.dragged(to) == pressed
        },
        !input.selecting ==> input.dragged(to) == input,
        input.pressed(at, clicks, false).content == input.content,
{
    if let MouseAt::Byte(byte) = at {
        lemma_utf8_position(input.content, byte as nat, 0);
    }
    if let MouseAt::Byte(byte) = to {
        lemma_utf8_position(input.content, byte as nat, 0);
    }
}

/// The part of a composition that an input method selects is what is selected of the text. Without
/// one the cursor stands behind the composition.
pub proof fn lemma_composition_is_selected_in(
    input: InputView,
    a: int,
    b: int,
    s: Seq<char>,
    i: int,
    j: int,
    x: usize,
    y: usize,
)
    requires
        input.wf(),
        0 <= a <= b <= input.content.len(),
        0 <= i <= j <= input.fitting(s, a, b).len(),
        x == utf16_offset(input.fitting(s, a, b), i),
        y == utf16_offset(input.fitting(s, a, b), j),
    ensures
        ({
            let composed = input.composed(a, b, s, Some((x, y)));
            let plain = input.composed(a, b, s, None);
            let len = input.fitting(s, a, b).len();
            &&& composed.start == a + i && composed.end == a + j
            &&& plain.start == a + len && plain.end == a + len
            &&& len == 0 ==> composed.marked is None
        }),
{
    let new = input.fitting(s, a, b);
    lemma_utf16_round_trip(new, i);
    lemma_utf16_round_trip(new, j);
}

/// An empty field shows its placeholder, and any other one its text, with the cursor or the
/// selection where they are.
pub proof fn lemma_what_a_field_shows(look: Look, input: InputView)
    requires
        looks(look, input),
    ensures
        look is Placeholder <==> input.content.len() == 0,
        look is Placeholder ==> look->Placeholder_0@ == input.placeholder,
        look is Text ==> look->text@ == input.shown(),
        look is Text ==> look->cursor == input.shown_offset(input.cursor()),
        look is Text ==> (look->selection is Some <==> input.start != input.end),
        look is Text && look->selection is Some ==> (look->selection->0).0 == input.shown_offset(
            input.start,
        ) && (look->selection->0).1 == input.shown_offset(input.end),
{
}

}
