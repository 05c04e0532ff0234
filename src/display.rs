//! Text shaping for the view layer: marquee scrolling of long fields, with a
//! per-frame memo, and duration formatting.
use vstd::prelude::*;
use crate::text::{chars_of, string_of};

verus! {

/// Blank columns between the end of a scrolling text and its next start.
pub const SCROLL_GAP: usize = 3;

/// `t` followed by the gap.
pub open spec fn padded(t: Seq<char>) -> Seq<char> {
    t + seq![' ', ' ', ' ']
}

/// The `width` characters shown at `frame` for a text that does not fit: the
/// padded text repeated endlessly, read from an offset that advances one
/// character every two frames.
pub open spec fn scrolled(t: Seq<char>, width: nat, frame: nat) -> Seq<char> {
    let total = t.len() + 3;
    let start = (frame as int / 2) % (total as int);
    Seq::new(width, |i: int| padded(t)[(start + i) % total as int])
}

/// What a field of `width` columns shows at `frame`: the text itself when it
/// fits, else its scrolled window.
pub open spec fn shown(t: Seq<char>, width: nat, frame: nat) -> Seq<char> {
    if t.len() <= width {
        t
    } else {
        scrolled(t, width, frame)
    }
}

/// The text shown for `text` in a field of `width` columns at `frame`.
pub fn scroll_text(text: &str, width: usize, frame: u32) -> (r: String)
    ensures
        r@ == shown(text@, width as nat, frame as nat),
{
    let c = chars_of(text);
    let n = c.len();
    if n <= width {
        return string_of(&c, 0, n);
    }
    let total: u128 = n as u128 + SCROLL_GAP as u128;
    let start: u128 = (frame as u128 / 2) % total;
    let mut r = String::new();
    let mut pos: u128 = start;
    let mut i: usize = 0;
    let ghost t = text@;
    assert(c@.subrange(0, n as int) =~= c@);
    proof {
        vstd::arithmetic::div_mod::lemma_small_mod(start as nat, total as nat);
    }
    while i < width
        invariant
            c@ == t,
            n == t.len(),
            total == n + 3,
            n > width,
            start == (frame as int / 2) % (total as int),
            start < total,
            i <= width,
            pos < total,
            pos == (start + i) % (total as int),
            r@ =~= Seq::new(i as nat, |j: int| padded(t)[(start + j) % (total as int)]),
        decreases width - i,
    {
        let ch = if pos < n as u128 {
            c[pos as usize]
        } else {
            ' '
        };
        assert(ch == padded(t)[pos as int]);
        r.push(ch);
        proof {
            vstd::arithmetic::div_mod::lemma_add_mod_noop(start + i, 1, total as int);
            vstd::arithmetic::div_mod::lemma_small_mod(1, total as nat);
            if pos + 1 == total {
                vstd::arithmetic::div_mod::lemma_mod_self_0(total as int);
            } else {
                vstd::arithmetic::div_mod::lemma_small_mod((pos + 1) as nat, total as nat);
            }
        }
        pos = if pos + 1 == total {
            0
        } else {
            pos + 1
        };
        i = i + 1;
    }
    r
}

/// Decimal digits of `n`, with no leading zeros (`0` for zero).
pub open spec fn decimal(n: nat) -> Seq<char>
    decreases n,
{
    if n < 10 {
        seq![digit_char(n)]
    } else {
        decimal(n / 10).push(digit_char(n % 10))
    }
}

pub open spec fn digit_char(d: nat) -> char {
    if d == 0 { '0' } else if d == 1 { '1' } else if d == 2 { '2' } else if d == 3 { '3' }
    else if d == 4 { '4' } else if d == 5 { '5' } else if d == 6 { '6' } else if d == 7 { '7' }
    else if d == 8 { '8' } else { '9' }
}

/// `n` in decimal, padded with a leading zero to at least two digits.
pub open spec fn two_digits(n: nat) -> Seq<char> {
    if n < 10 {
        seq!['0'] + decimal(n)
    } else {
        decimal(n)
    }
}

fn digit_to_char(d: u64) -> (r: char)
    requires
        d < 10,
    ensures
        r == digit_char(d as nat),
{
    if d == 0 { '0' } else if d == 1 { '1' } else if d == 2 { '2' } else if d == 3 { '3' }
    else if d == 4 { '4' } else if d == 5 { '5' } else if d == 6 { '6' } else if d == 7 { '7' }
    else if d == 8 { '8' } else { '9' }
}

/// Appends the decimal digits of `n` to `s`.
fn push_decimal(s: &mut String, n: u64)
    ensures
        final(s)@ == old(s)@ + decimal(n as nat),
    decreases n,
{
    if n < 10 {
        s.push(digit_to_char(n));
    } else {
        push_decimal(s, n / 10);
        s.push(digit_to_char(n % 10));
    }
}

/// Milliseconds shown as whole seconds: `"42s"`.
pub fn format_duration_seconds(millis: u64) -> (r: String)
    ensures
        r@ == decimal((millis / 1000) as nat).push('s'),
{
    let mut r = String::new();
    push_decimal(&mut r, millis / 1000);
    r.push('s');
    assert(r@ =~= decimal((millis / 1000) as nat).push('s'));
    r
}

/// Milliseconds shown as `mm:ss` (minutes grow past two digits as needed).
pub fn format_duration(millis: u64) -> (r: String)
    ensures
        r@ == two_digits((millis / 1000 / 60) as nat) + seq![':'] + two_digits(
            (millis / 1000 % 60) as nat,
        ),
{
    let total = millis / 1000;
    let minutes = total / 60;
    let seconds = total % 60;
    let mut r = String::new();
    if minutes < 10 {
        r.push('0');
    }
    push_decimal(&mut r, minutes);
    r.push(':');
    if seconds < 10 {
        r.push('0');
    }
    push_decimal(&mut r, seconds);
    assert(r@ =~= two_digits(minutes as nat) + seq![':'] + two_digits(seconds as nat));
    r
}

/// One memoised window: the field and width it was made for, the source
/// text, and the text shown.
struct ScrollEntry {
    index: usize,
    width: usize,
    source: String,
    shown: String,
}

spec fn entry_ok(e: ScrollEntry, frame: u32) -> bool {
    e.shown@ == shown(e.source@, e.width as nat, frame as nat)
}

/// Per-frame memo of scrolled windows, keyed by field index and width. It is
/// cleared whenever the frame changes, and an entry is reused only for the
/// same source text.
pub struct ScrollCache {
    last_frame: u32,
    entries: Vec<ScrollEntry>,
}

impl ScrollCache {
    /// Every memoised window is the one its source shows at the current frame.
    pub closed spec fn wf(&self) -> bool {
        forall|i: int|
            0 <= i < self.entries.len() ==> entry_ok(#[trigger] self.entries@[i], self.last_frame)
    }

    pub closed spec fn frame(&self) -> u32 {
        self.last_frame
    }

    pub closed spec fn len(&self) -> nat {
        self.entries.len() as nat
    }

    /// An empty memo.
    pub fn new() -> (r: ScrollCache)
        ensures
            r.wf(),
            r.len() == 0,
    {
        ScrollCache { last_frame: 0, entries: Vec::new() }
    }

    /// The text field `index` shows for `text` in `width` columns at `frame`;
    /// the same as `scroll_text`, reusing the window made earlier in this frame
    /// for the same field, width and text.
    pub fn get(&mut self, text: &str, width: usize, frame: u32, index: usize) -> (r: String)
        requires
            old(self).wf(),
        ensures
            final(self).wf(),
            final(self).frame() == frame,
            r@ == shown(text@, width as nat, frame as nat),
    {
        if frame != self.last_frame {
            self.entries = Vec::new();
            self.last_frame = frame;
        }
        let c = chars_of(text);
        if c.len() <= width {
            return string_of(&c, 0, c.len());
        }
        let source = string_of(&c, 0, c.len());
        assert(source@ =~= text@);
        let mut i: usize = 0;
        while i < self.entries.len()
            invariant
                self.wf(),
                self.last_frame == frame,
                source@ == text@,
                c.len() > width,
                i <= self.entries.len(),
                forall|j: int|
                    0 <= j < i ==> !((#[trigger] self.entries@[j]).index == index
                        && self.entries@[j].width == width),
            decreases self.entries.len() - i,
        {
            if self.entries[i].index == index && self.entries[i].width == width {
                if self.entries[i].source == source {
                    assert(entry_ok(self.entries@[i as int], frame));
                    return self.entries[i].shown.clone();
                }
                let s = scroll_text(text, width, frame);
                let entry = ScrollEntry { index, width, source, shown: s.clone() };
                self.entries.set(i, entry);
                assert(entry_ok(self.entries@[i as int], frame));
                assert(forall|j: int|
                    0 <= j < self.entries.len() ==> entry_ok(
                        #[trigger] self.entries@[j],
                        self.last_frame,
                    ));
                return s;
            }
            i = i + 1;
        }
        let s = scroll_text(text, width, frame);
        self.entries.push(ScrollEntry { index, width, source, shown: s.clone() });
        assert(forall|j: int|
            0 <= j < self.entries.len() ==> entry_ok(#[trigger] self.entries@[j], self.last_frame));
        s
    }
}

} // verus!
