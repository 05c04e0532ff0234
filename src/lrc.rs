//! Parser for the line-timed lyrics format (`[mm:ss.cc]text`, `[key:value]`).
use vstd::prelude::*;
use crate::lyrics::{
    LyricLine, Lyrics, LyricsModel, lines_view, meta_view, meta_set, key_index, sorted_by_time,
    lemma_key_index, lemma_key_index_bound,
};
use crate::text::{trim, chars_of, string_of, trim_bounds};

verus! {

broadcast use vstd::seq_lib::group_seq_properties;

/// Why a lyrics document was rejected.
#[derive(Clone, Copy, Debug, PartialEq, Eq, Structural)]
pub enum LrcError {
    /// A line opens with a tag that looks like a timestamp but is not of the
    /// form `[mm:ss.cc]` or `[mm:ss.ccc]` with digits in every field: it
    /// starts with `[` and a digit, or it has the timestamp's shape (two
    /// characters, `:`, two characters, `.`, two or three characters, `]`)
    /// without opening like a metadata key (two lowercase letters).
    MalformedTimestamp,
}

/// Largest time a tag can spell: `[99:99.999]`.
pub const MAX_STAMP: u64 = 6039999;

pub open spec fn is_digit(c: char) -> bool {
    '0' <= c && c <= '9'
}

pub open spec fn digit(c: char) -> int {
    (c as u32) as int - 48
}

pub open spec fn is_lower(c: char) -> bool {
    'a' <= c && c <= 'z'
}

/// Length of the well-formed timestamp tag that opens `l`, or 0.
pub open spec fn stamp_len(l: Seq<char>) -> int {
    if l.len() >= 10 && l[0] == '[' && is_digit(l[1]) && is_digit(l[2]) && l[3] == ':' && is_digit(
        l[4],
    ) && is_digit(l[5]) && l[6] == '.' && is_digit(l[7]) && is_digit(l[8]) {
        if l[9] == ']' {
            10
        } else if l.len() >= 11 && is_digit(l[9]) && l[10] == ']' {
            11
        } else {
            0
        }
    } else {
        0
    }
}

/// Milliseconds spelled by the timestamp tag that opens `l`; two fraction
/// digits are hundredths, three are thousandths.
pub open spec fn stamp_ms(l: Seq<char>) -> int {
    let minutes = 10 * digit(l[1]) + digit(l[2]);
    let seconds = 10 * digit(l[4]) + digit(l[5]);
    let frac = if stamp_len(l) == 10 {
        10 * (10 * digit(l[7]) + digit(l[8]))
    } else {
        100 * digit(l[7]) + 10 * digit(l[8]) + digit(l[9])
    };
    (minutes * 60 + seconds) * 1000 + frac
}

/// `l` opens with a tag shaped like a timestamp: `[`, two characters, `:`,
/// two characters, `.`, two or three characters, `]`.
pub open spec fn stamp_shaped(l: Seq<char>) -> bool {
    &&& l.len() >= 10
    &&& l[0] == '['
    &&& l[3] == ':'
    &&& l[6] == '.'
    &&& (l[9] == ']' || (l.len() >= 11 && l[10] == ']'))
}

/// `l` opens like a timestamp tag but is not a well-formed one: it starts
/// with `[` and a digit, or it has the timestamp's shape with a field that is
/// not all digits (unless it opens like a metadata key, two lowercase letters).
pub open spec fn bad_stamp(l: Seq<char>) -> bool {
    &&& stamp_len(l) == 0
    &&& l.len() >= 2
    &&& l[0] == '['
    &&& (is_digit(l[1]) || (stamp_shaped(l) && !(is_lower(l[1]) && is_lower(l[2]))))
}

pub open spec fn prepend(
    ts: Seq<int>,
    r: Option<(Seq<int>, Seq<char>)>,
) -> Option<(Seq<int>, Seq<char>)> {
    match r {
        Some(p) => Some((ts + p.0, p.1)),
        None => None,
    }
}

/// The timestamp tags that open `l` and what follows them; `None` when one
/// of them is malformed.
pub open spec fn lead_stamps(l: Seq<char>) -> Option<(Seq<int>, Seq<char>)>
    decreases l.len(),
{
    if stamp_len(l) > 0 {
        prepend(seq![stamp_ms(l)], lead_stamps(l.subrange(stamp_len(l), l.len() as int)))
    } else if bad_stamp(l) {
        None
    } else {
        Some((seq![], l))
    }
}

/// Number of lowercase ASCII letters that open `s`.
pub open spec fn lower_run(s: Seq<char>) -> int
    decreases s.len(),
{
    if s.len() > 0 && is_lower(s[0]) {
        1 + lower_run(s.drop_first())
    } else {
        0
    }
}

/// Index of the first `]` in `l`, or `l.len()` when there is none.
pub open spec fn first_close(l: Seq<char>) -> int
    decreases l.len(),
{
    if l.len() == 0 || l[0] == ']' {
        0
    } else {
        1 + first_close(l.drop_first())
    }
}

pub proof fn lemma_first_close(s: Seq<char>, i: int)
    requires
        0 <= i <= s.len(),
        forall|j: int| 0 <= j < i ==> s[j] != ']',
        i < s.len() ==> s[i] == ']',
    ensures
        first_close(s) == i,
    decreases i,
{
    if i > 0 {
        lemma_first_close(s.drop_first(), i - 1);
    }
}

/// `l` opens with a metadata tag `[key:value]`: a key of lowercase letters,
/// a colon, and a value running to the first `]` of the line.
pub open spec fn is_meta(l: Seq<char>) -> bool {
    let k = lower_run(l.drop_first());
    &&& l.len() > 0
    &&& l[0] == '['
    &&& k >= 1
    &&& k + 1 < l.len()
    &&& l[k + 1] == ':'
    &&& k + 1 < first_close(l) < l.len()
}

pub open spec fn meta_key(l: Seq<char>) -> Seq<char> {
    l.subrange(1, lower_run(l.drop_first()) + 1)
}

pub open spec fn meta_value(l: Seq<char>) -> Seq<char> {
    trim(l.subrange(lower_run(l.drop_first()) + 2, first_close(l)))
}

/// What follows a line's metadata tag, trimmed.
pub open spec fn meta_rest(l: Seq<char>) -> Seq<char> {
    trim(l.subrange(first_close(l) + 1, l.len() as int))
}

pub open spec fn offset_key() -> Seq<char> {
    seq!['o', 'f', 'f', 's', 'e', 't']
}

/// What one physical line contributes: metadata (key and value) with the
/// times and text of any timestamp tags after it, or times and text alone.
pub enum LineKind {
    Skip,
    Meta(Seq<char>, Seq<char>, Seq<int>, Seq<char>),
    Timed(Seq<int>, Seq<char>),
    Malformed,
}

pub open spec fn classify(raw: Seq<char>) -> LineKind {
    let l = trim(raw);
    if l.len() == 0 {
        LineKind::Skip
    } else if is_meta(l) {
        match lead_stamps(meta_rest(l)) {
            None => LineKind::Malformed,
            Some(p) => if p.0.len() == 0 || trim(p.1).len() == 0 {
                LineKind::Meta(meta_key(l), meta_value(l), seq![], seq![])
            } else {
                LineKind::Meta(meta_key(l), meta_value(l), p.0, trim(p.1))
            },
        }
    } else {
        match lead_stamps(l) {
            None => LineKind::Malformed,
            Some(p) => if p.0.len() == 0 || trim(p.1).len() == 0 {
                LineKind::Skip
            } else {
                LineKind::Timed(p.0, trim(p.1))
            },
        }
    }
}

/// Digits only, as read in base ten.
pub open spec fn digits_value(s: Seq<char>) -> int
    decreases s.len(),
{
    if s.len() == 0 {
        0
    } else {
        digits_value(s.drop_last()) * 10 + digit(s.last())
    }
}

pub open spec fn all_digits(s: Seq<char>) -> bool {
    forall|i: int| 0 <= i < s.len() ==> is_digit(#[trigger] s[i])
}

/// `s` without its leading sign, if it has one.
pub open spec fn unsigned_part(s: Seq<char>) -> Seq<char> {
    if s.len() > 0 && (s[0] == '-' || s[0] == '+') {
        s.drop_first()
    } else {
        s
    }
}

/// What `str::parse::<i64>` accepts: an optional sign, then one or more ASCII
/// digits, with a value in range.
pub open spec fn parse_int(s: Seq<char>) -> Option<int> {
    let body = unsigned_part(s);
    let v = if s.len() > 0 && s[0] == '-' {
        -digits_value(body)
    } else {
        digits_value(body)
    };
    if body.len() > 0 && all_digits(body) && i64::MIN <= v <= i64::MAX {
        Some(v)
    } else {
        None
    }
}

/// What has been read so far: the lines in document order, the offset and
/// the metadata.
pub struct ParseState {
    pub lines: Seq<(int, Seq<char>)>,
    pub offset: int,
    pub meta: Seq<(Seq<char>, Seq<char>)>,
}

pub open spec fn initial_state() -> ParseState {
    ParseState { lines: seq![], offset: 0, meta: seq![] }
}

pub open spec fn stamp_lines(ts: Seq<int>, text: Seq<char>) -> Seq<(int, Seq<char>)> {
    ts.map_values(|t: int| (t, text))
}

pub open spec fn apply_meta(st: ParseState, key: Seq<char>, value: Seq<char>) -> ParseState {
    if key == offset_key() {
        ParseState {
            offset: match parse_int(value) {
                Some(v) => v,
                None => 0,
            },
            ..st
        }
    } else {
        ParseState { meta: meta_set(st.meta, key, value), ..st }
    }
}

pub open spec fn apply(st: ParseState, k: LineKind) -> ParseState {
    match k {
        LineKind::Meta(key, value, ts, text) => apply_meta(
            ParseState { lines: st.lines + stamp_lines(ts, text), ..st },
            key,
            value,
        ),
        LineKind::Timed(ts, text) => ParseState { lines: st.lines + stamp_lines(ts, text), ..st },
        _ => st,
    }
}

/// Length of the first line of `s` (up to, not including, the first `\n`).
pub open spec fn line_end(s: Seq<char>) -> int
    decreases s.len(),
{
    if s.len() == 0 || s[0] == '\n' {
        0
    } else {
        1 + line_end(s.drop_first())
    }
}

pub proof fn lemma_line_end(s: Seq<char>, i: int)
    requires
        0 <= i <= s.len(),
        forall|j: int| 0 <= j < i ==> s[j] != '\n',
        i < s.len() ==> s[i] == '\n',
    ensures
        line_end(s) == i,
    decreases i,
{
    if i > 0 {
        lemma_line_end(s.drop_first(), i - 1);
    }
}

/// Reads the lines of `s` in order, starting from `st`.
pub open spec fn parse_lines(s: Seq<char>, st: ParseState) -> Option<ParseState>
    decreases s.len(),
{
    let i = line_end(s);
    if 0 <= i <= s.len() {
        let k = classify(s.subrange(0, i));
        if k is Malformed {
            None
        } else if i >= s.len() {
            Some(apply(st, k))
        } else {
            parse_lines(s.subrange(i + 1, s.len() as int), apply(st, k))
        }
    } else {
        None
    }
}

/// Where a line with time `t` goes in `s`: after every line whose time is at
/// most `t`.
pub open spec fn insert_pos(s: Seq<(int, Seq<char>)>, t: int) -> int
    decreases s.len(),
{
    if s.len() == 0 {
        0
    } else if s.last().0 <= t {
        s.len() as int
    } else {
        insert_pos(s.drop_last(), t)
    }
}

/// Stable sort by time: each line is inserted after the earlier lines whose
/// time is not greater.
pub open spec fn sort_lines(s: Seq<(int, Seq<char>)>) -> Seq<(int, Seq<char>)>
    decreases s.len(),
{
    if s.len() == 0 {
        s
    } else {
        let r = sort_lines(s.drop_last());
        r.insert(insert_pos(r, s.last().0), s.last())
    }
}

/// Time `t` moved by `offset` milliseconds, never below zero.
pub open spec fn shift(t: int, offset: int) -> int {
    if t + offset < 0 {
        0
    } else {
        t + offset
    }
}

pub open spec fn shift_lines(s: Seq<(int, Seq<char>)>, offset: int) -> Seq<(int, Seq<char>)> {
    s.map_values(|p: (int, Seq<char>)| (shift(p.0, offset), p.1))
}

/// The document `content` denotes, or `None` when it is rejected.
pub open spec fn parse_lrc_spec(content: Seq<char>) -> Option<LyricsModel> {
    match parse_lines(content, initial_state()) {
        Some(st) => Some(
            LyricsModel {
                lines: shift_lines(sort_lines(st.lines), st.offset),
                offset: st.offset,
                metadata: st.meta,
            },
        ),
        None => None,
    }
}

pub proof fn lemma_insert_pos(s: Seq<(int, Seq<char>)>, t: int)
    requires
        sorted_by_time(s),
    ensures
        0 <= insert_pos(s, t) <= s.len(),
        forall|i: int| 0 <= i < insert_pos(s, t) ==> (#[trigger] s[i]).0 <= t,
        forall|i: int| insert_pos(s, t) <= i < s.len() ==> (#[trigger] s[i]).0 > t,
    decreases s.len(),
{
    if s.len() > 0 {
        if s.last().0 > t {
            let d = s.drop_last();
            lemma_insert_pos(d, t);
            assert forall|i: int| 0 <= i < insert_pos(s, t) implies (#[trigger] s[i]).0 <= t by {
                assert(s[i] == d[i]);
            }
            assert forall|i: int| insert_pos(s, t) <= i < s.len() implies (#[trigger] s[i]).0
                > t by {
                if i < d.len() {
                    assert(s[i] == d[i]);
                }
            }
        } else {
            assert forall|i: int| 0 <= i < insert_pos(s, t) implies (#[trigger] s[i]).0 <= t by {
                assert(s[i].0 <= s[s.len() - 1].0);
            }
        }
    }
}

/// Sorting yields lines in time order holding the same lines.
pub proof fn lemma_sort_lines(s: Seq<(int, Seq<char>)>)
    ensures
        sorted_by_time(sort_lines(s)),
        sort_lines(s).to_multiset() == s.to_multiset(),
    decreases s.len(),
{
    if s.len() > 0 {
        let r = sort_lines(s.drop_last());
        lemma_sort_lines(s.drop_last());
        let x = s.last();
        lemma_insert_pos(r, x.0);
        let p = insert_pos(r, x.0);
        let q = r.insert(p, x);
        assert forall|i: int, j: int| 0 <= i <= j < q.len() implies q[i].0 <= q[j].0 by {
            if j < p {
            } else if j == p {
            } else if i < p {
            } else if i == p {
            } else {
                assert(q[i] == r[i - 1] && q[j] == r[j - 1]);
            }
        }
        vstd::seq_lib::to_multiset_insert(r, p, x);
        vstd::seq_lib::to_multiset_build(s.drop_last(), x);
        assert(s.drop_last().push(x) =~= s);
    }
}

/// A line that does not open with a timestamp tag contributes no lyric line,
/// whatever else it holds.
pub proof fn lemma_untagged_line_yields_nothing(raw: Seq<char>)
    requires
        stamp_len(trim(raw)) == 0,
    ensures
        !(classify(raw) is Timed),
{
}

/// Moving every line by the same offset keeps them in time order.
pub proof fn lemma_shift_sorted(s: Seq<(int, Seq<char>)>, offset: int)
    requires
        sorted_by_time(s),
    ensures
        sorted_by_time(shift_lines(s, offset)),
{
}


fn is_digit_char(c: char) -> (r: bool)
    ensures
        r == is_digit(c),
{
    '0' <= c && c <= '9'
}

fn digit_of(c: char) -> (r: u64)
    requires
        is_digit(c),
    ensures
        r as int == digit(c),
        r <= 9,
{
    (c as u32 - 48) as u64
}

fn is_lower_char(c: char) -> (r: bool)
    ensures
        r == is_lower(c),
{
    'a' <= c && c <= 'z'
}

/// Whether `c[p..hi]` opens with a malformed timestamp tag, given that it
/// does not open with a well-formed one.
fn bad_stamp_at(c: &Vec<char>, p: usize, hi: usize) -> (r: bool)
    requires
        p <= hi <= c.len(),
        stamp_len(c@.subrange(p as int, hi as int)) == 0,
    ensures
        r == bad_stamp(c@.subrange(p as int, hi as int)),
{
    if hi - p < 2 || c[p] != '[' {
        return false;
    }
    if is_digit_char(c[p + 1]) {
        return true;
    }
    let shaped = hi - p >= 10 && c[p + 3] == ':' && c[p + 6] == '.' && (c[p + 9] == ']' || (hi
        - p >= 11 && c[p + 10] == ']'));
    shaped && !(is_lower_char(c[p + 1]) && is_lower_char(c[p + 2]))
}

/// Length and time of the timestamp tag at `c[p..hi]`.
fn stamp_at(c: &Vec<char>, p: usize, hi: usize) -> (r: (usize, u64))
    requires
        p <= hi <= c.len(),
    ensures
        r.0 as int == stamp_len(c@.subrange(p as int, hi as int)),
        r.0 > 0 ==> r.1 as int == stamp_ms(c@.subrange(p as int, hi as int)),
        r.0 > 0 ==> r.1 <= MAX_STAMP,
{
    let ghost l = c@.subrange(p as int, hi as int);
    if hi - p >= 10 && c[p] == '[' && is_digit_char(c[p + 1]) && is_digit_char(c[p + 2]) && c[p
        + 3] == ':' && is_digit_char(c[p + 4]) && is_digit_char(c[p + 5]) && c[p + 6] == '.'
        && is_digit_char(c[p + 7]) && is_digit_char(c[p + 8]) {
        let minutes = 10 * digit_of(c[p + 1]) + digit_of(c[p + 2]);
        let seconds = 10 * digit_of(c[p + 4]) + digit_of(c[p + 5]);
        let whole = (minutes * 60 + seconds) * 1000;
        if c[p + 9] == ']' {
            let frac = 10 * (10 * digit_of(c[p + 7]) + digit_of(c[p + 8]));
            (10, whole + frac)
        } else if hi - p >= 11 && is_digit_char(c[p + 9]) && c[p + 10] == ']' {
            let frac = 100 * digit_of(c[p + 7]) + 10 * digit_of(c[p + 8]) + digit_of(c[p + 9]);
            (11, whole + frac)
        } else {
            (0, 0)
        }
    } else {
        (0, 0)
    }
}

/// The timestamp tags opening `c[lo..hi]`, and where the rest begins.
fn lead_stamps_at(c: &Vec<char>, lo: usize, hi: usize) -> (r: Option<(Vec<u64>, usize)>)
    requires
        lo <= hi <= c.len(),
    ensures
        r.is_none() == lead_stamps(c@.subrange(lo as int, hi as int)).is_none(),
        r.is_some() ==> ({
            let (ts, p) = r.unwrap();
            let sp = lead_stamps(c@.subrange(lo as int, hi as int)).unwrap();
            &&& lo <= p <= hi
            &&& ts@.map_values(|t: u64| t as int) == sp.0
            &&& c@.subrange(p as int, hi as int) == sp.1
            &&& forall|i: int| 0 <= i < ts.len() ==> ts@[i] <= MAX_STAMP
        }),
{
    let mut ts: Vec<u64> = Vec::new();
    let mut p: usize = lo;
    loop
        invariant
            lo <= p <= hi <= c.len(),
            lead_stamps(c@.subrange(lo as int, hi as int)) == prepend(
                ts@.map_values(|t: u64| t as int),
                lead_stamps(c@.subrange(p as int, hi as int)),
            ),
            forall|i: int| 0 <= i < ts.len() ==> ts@[i] <= MAX_STAMP,
        decreases hi - p,
    {
        let ghost l = c@.subrange(p as int, hi as int);
        let (n, ms) = stamp_at(c, p, hi);
        if n == 0 {
            if bad_stamp_at(c, p, hi) {
                return None;
            }
            assert(!bad_stamp(l));
            assert(ts@.map_values(|t: u64| t as int) + seq![] =~= ts@.map_values(
                |t: u64| t as int,
            ));
            return Some((ts, p));
        }
        let ghost old_ts = ts@.map_values(|t: u64| t as int);
        assert(l.subrange(n as int, l.len() as int) =~= c@.subrange(p + n, hi as int));
        ts.push(ms);
        proof {
            let new_ts = ts@.map_values(|t: u64| t as int);
            assert(new_ts =~= old_ts + seq![ms as int]);
            match lead_stamps(c@.subrange(p + n, hi as int)) {
                Some(q) => {
                    assert(old_ts + (seq![ms as int] + q.0) =~= new_ts + q.0);
                },
                None => {},
            }
        }
        p = p + n;
    }
}

/// For a line `c[lo..hi]` that opens with a metadata tag: the end of its key
/// and the position of its first `]`.
fn meta_at(c: &Vec<char>, lo: usize, hi: usize) -> (r: Option<(usize, usize)>)
    requires
        lo <= hi <= c.len(),
    ensures
        r.is_some() == is_meta(c@.subrange(lo as int, hi as int)),
        r.is_some() ==> ({
            let l = c@.subrange(lo as int, hi as int);
            let (k, close) = r.unwrap();
            &&& k == lo + lower_run(l.drop_first()) + 1
            &&& close == lo + first_close(l)
            &&& lo < k < close < hi
        }),
{
    let ghost l = c@.subrange(lo as int, hi as int);
    if lo == hi || c[lo] != '[' {
        return None;
    }
    let mut k: usize = lo + 1;
    assert(c@.subrange(k as int, hi as int) =~= l.drop_first());
    while k < hi && 'a' <= c[k] && c[k] <= 'z'
        invariant
            lo < k <= hi <= c.len(),
            l == c@.subrange(lo as int, hi as int),
            lower_run(l.drop_first()) == (k - lo - 1) + lower_run(c@.subrange(k as int, hi as int)),
        decreases hi - k,
    {
        assert(c@.subrange(k as int, hi as int).drop_first() =~= c@.subrange(k + 1, hi as int));
        k = k + 1;
    }
    assert(lower_run(c@.subrange(k as int, hi as int)) == 0);
    if k == lo + 1 || k >= hi || c[k] != ':' {
        return None;
    }
    let mut e: usize = lo;
    while e < hi && c[e] != ']'
        invariant
            lo <= e <= hi <= c.len(),
            l == c@.subrange(lo as int, hi as int),
            forall|j: int| lo <= j < e ==> c@[j] != ']',
        decreases hi - e,
    {
        e = e + 1;
    }
    proof {
        assert forall|j: int| 0 <= j < e - lo implies l[j] != ']' by {
            assert(l[j] == c@[lo + j]);
        }
        lemma_first_close(l, e - lo);
    }
    if e <= k || e >= hi {
        return None;
    }
    Some((k, e))
}

/// `c[lo..hi]` read as `str::parse::<i64>` reads it.
fn parse_i64_at(c: &Vec<char>, lo: usize, hi: usize) -> (r: Option<i64>)
    requires
        lo <= hi <= c.len(),
    ensures
        r.is_some() == parse_int(c@.subrange(lo as int, hi as int)).is_some(),
        r.is_some() ==> r.unwrap() as int == parse_int(c@.subrange(lo as int, hi as int)).unwrap(),
{
    let ghost s = c@.subrange(lo as int, hi as int);
    let neg = lo < hi && c[lo] == '-';
    let start: usize = if lo < hi && (c[lo] == '-' || c[lo] == '+') {
        lo + 1
    } else {
        lo
    };
    let ghost body = c@.subrange(start as int, hi as int);
    assert(body =~= unsigned_part(s));
    if start == hi {
        return None;
    }
    let limit: u64 = 9223372036854775808;
    let mut acc: u64 = 0;
    let mut big = false;
    let mut i: usize = start;
    while i < hi
        invariant
            start <= i <= hi <= c.len(),
            body == c@.subrange(start as int, hi as int),
            s == c@.subrange(lo as int, hi as int),
            body == unsigned_part(s),
            forall|j: int| start <= j < i ==> is_digit(#[trigger] c@[j]),
            big ==> digits_value(c@.subrange(start as int, i as int)) > limit,
            !big ==> acc as int == digits_value(c@.subrange(start as int, i as int)),
            !big ==> acc <= limit,
            limit == 9223372036854775808,
        decreases hi - i,
    {
        let ch = c[i];
        if !is_digit_char(ch) {
            assert(body[i - start] == ch);
            return None;
        }
        let d = digit_of(ch);
        let ghost prev = c@.subrange(start as int, i as int);
        assert(c@.subrange(start as int, i + 1).drop_last() =~= prev);
        assert(digits_value(c@.subrange(start as int, i + 1)) == digits_value(prev) * 10 + d);
        if big {
            assert(digits_value(prev) * 10 + d > limit) by (nonlinear_arith)
                requires
                    digits_value(prev) > limit,
                    d >= 0,
            ;
        } else if acc > 922337203685477580 {
            big = true;
        } else {
            acc = acc * 10 + d;
            if acc > limit {
                big = true;
            }
        }
        i = i + 1;
    }
    assert forall|j: int| 0 <= j < body.len() implies is_digit(#[trigger] body[j]) by {
        assert(body[j] == c@[start + j]);
    }
    if big {
        None
    } else if neg {
        if acc == limit {
            Some(-9223372036854775807i64 - 1)
        } else {
            Some(-(acc as i64))
        }
    } else if acc == limit {
        None
    } else {
        Some(acc as i64)
    }
}


fn is_offset_key(key: &String) -> (r: bool)
    ensures
        r == (key@ == offset_key()),
{
    let k = chars_of(key.as_str());
    let r = k.len() == 6 && k[0] == 'o' && k[1] == 'f' && k[2] == 'f' && k[3] == 's' && k[4] == 'e'
        && k[5] == 't';
    assert(r ==> k@ =~= offset_key());
    r
}

enum LineClass {
    Skip,
    Meta(String, String, Vec<u64>, String),
    Timed(Vec<u64>, String),
    Malformed,
}

spec fn class_view(k: LineClass) -> LineKind {
    match k {
        LineClass::Skip => LineKind::Skip,
        LineClass::Meta(key, value, ts, text) => LineKind::Meta(
            key@,
            value@,
            ts@.map_values(|t: u64| t as int),
            text@,
        ),
        LineClass::Timed(ts, text) => LineKind::Timed(ts@.map_values(|t: u64| t as int), text@),
        LineClass::Malformed => LineKind::Malformed,
    }
}

/// What the physical line `c[start..end]` contributes.
fn classify_line(c: &Vec<char>, start: usize, end: usize) -> (r: LineClass)
    requires
        start <= end <= c.len(),
    ensures
        class_view(r) == classify(c@.subrange(start as int, end as int)),
        r matches LineClass::Timed(ts, _) ==> forall|i: int|
            0 <= i < ts.len() ==> ts@[i] <= MAX_STAMP,
        r matches LineClass::Meta(_, _, ts, _) ==> forall|i: int|
            0 <= i < ts.len() ==> ts@[i] <= MAX_STAMP,
{
    let (lo, hi) = trim_bounds(c, start, end);
    let ghost l = c@.subrange(lo as int, hi as int);
    if lo == hi {
        return LineClass::Skip;
    }
    match meta_at(c, lo, hi) {
        Some((k, close)) => {
            let key = string_of(c, lo + 1, k);
            let (vlo, vhi) = trim_bounds(c, k + 1, close);
            let value = string_of(c, vlo, vhi);
            assert(key@ =~= meta_key(l));
            assert(c@.subrange(k + 1, close as int) =~= l.subrange(
                lower_run(l.drop_first()) + 2,
                first_close(l),
            ));
            let (alo, ahi) = trim_bounds(c, close + 1, hi);
            assert(c@.subrange(close + 1, hi as int) =~= l.subrange(
                first_close(l) + 1,
                l.len() as int,
            ));
            match lead_stamps_at(c, alo, ahi) {
                None => LineClass::Malformed,
                Some((ts, p)) => {
                    let (tlo, thi) = trim_bounds(c, p, ahi);
                    if ts.len() == 0 || tlo == thi {
                        let none: Vec<u64> = Vec::new();
                        assert(none@.map_values(|t: u64| t as int) =~= Seq::<int>::empty());
                        LineClass::Meta(key, value, none, String::new())
                    } else {
                        let text = string_of(c, tlo, thi);
                        LineClass::Meta(key, value, ts, text)
                    }
                },
            }
        },
        None => match lead_stamps_at(c, lo, hi) {
            None => LineClass::Malformed,
            Some((ts, p)) => {
                let (tlo, thi) = trim_bounds(c, p, hi);
                if ts.len() == 0 || tlo == thi {
                    LineClass::Skip
                } else {
                    let text = string_of(c, tlo, thi);
                    LineClass::Timed(ts, text)
                }
            },
        },
    }
}

/// Binds `key` to `value` in `m`, replacing an existing entry for `key`.
fn set_meta(m: &mut Vec<(String, String)>, key: String, value: String)
    ensures
        meta_view(final(m)@) == meta_set(meta_view(old(m)@), key@, value@),
{
    let ghost mv = meta_view(m@);
    let mut i: usize = 0;
    while i < m.len()
        invariant
            i <= m.len(),
            m@ == old(m)@,
            mv == meta_view(m@),
            forall|j: int| 0 <= j < i ==> (#[trigger] mv[j]).0 != key@,
        decreases m.len() - i,
    {
        if m[i].0 == key {
            proof {
                lemma_key_index(mv, key@, i as int);
            }
            m.set(i, (key, value));
            assert(meta_view(m@) =~= meta_set(mv, key@, value@));
            return;
        }
        i = i + 1;
    }
    proof {
        lemma_key_index(mv, key@, i as int);
    }
    m.push((key, value));
    assert(meta_view(m@) =~= meta_set(mv, key@, value@));
}

/// Inserts `x` after every line whose time is at most `x`'s.
fn insert_line(lines: &mut Vec<LyricLine>, x: LyricLine)
    ensures
        lines_view(final(lines)@) == lines_view(old(lines)@).insert(
            insert_pos(lines_view(old(lines)@), x.timestamp as int),
            x@,
        ),
{
    let ghost s = lines_view(lines@);
    let t = x.timestamp;
    let mut p: usize = lines.len();
    assert(s.subrange(0, p as int) =~= s);
    while p > 0 && lines[p - 1].timestamp > t
        invariant
            p <= lines.len(),
            lines@ == old(lines)@,
            s == lines_view(lines@),
            insert_pos(s, t as int) == insert_pos(s.subrange(0, p as int), t as int),
        decreases p,
    {
        assert(s.subrange(0, p as int).drop_last() =~= s.subrange(0, p - 1));
        p = p - 1;
    }
    lines.insert(p, x);
    assert(lines_view(lines@) =~= s.insert(p as int, x@));
}

/// Adds one line per time in `ts`, each with `text`, keeping `lines` the
/// stable sort of the lines read so far.
fn add_lines(
    lines: &mut Vec<LyricLine>,
    ts: &Vec<u64>,
    text: &String,
    produced: Ghost<Seq<(int, Seq<char>)>>,
) -> (r: Ghost<Seq<(int, Seq<char>)>>)
    requires
        lines_view(old(lines)@) == sort_lines(produced@),
        forall|j: int| 0 <= j < ts.len() ==> ts@[j] <= MAX_STAMP,
        forall|j: int| 0 <= j < produced@.len() ==> 0 <= (#[trigger] produced@[j]).0 <= MAX_STAMP,
    ensures
        r@ == produced@ + stamp_lines(ts@.map_values(|t: u64| t as int), text@),
        lines_view(final(lines)@) == sort_lines(r@),
        forall|j: int| 0 <= j < r@.len() ==> 0 <= (#[trigger] r@[j]).0 <= MAX_STAMP,
{
    let ghost start = produced@;
    let ghost mut cur = produced@;
    let mut i: usize = 0;
    while i < ts.len()
        invariant
            i <= ts.len(),
            lines_view(lines@) == sort_lines(cur),
            cur == start + stamp_lines(ts@.map_values(|t: u64| t as int), text@).subrange(
                0,
                i as int,
            ),
            forall|j: int| 0 <= j < ts.len() ==> ts@[j] <= MAX_STAMP,
            forall|j: int| 0 <= j < cur.len() ==> 0 <= (#[trigger] cur[j]).0 <= MAX_STAMP,
        decreases ts.len() - i,
    {
        let line = LyricLine { text: text.clone(), timestamp: ts[i] };
        proof {
            let old_p = cur;
            cur = cur.push(line@);
            assert(cur.drop_last() =~= old_p);
        }
        insert_line(lines, line);
        assert(start + stamp_lines(ts@.map_values(|t: u64| t as int), text@).subrange(0, i + 1)
            =~= cur);
        i = i + 1;
    }
    assert(stamp_lines(ts@.map_values(|t: u64| t as int), text@).subrange(0, ts.len() as int)
        =~= stamp_lines(ts@.map_values(|t: u64| t as int), text@));
    Ghost(cur)
}

/// Parses a lyrics document.
///
/// Each line is trimmed. A line that opens with `[key:value]` (lowercase key,
/// value up to the first `]`) sets metadata, or the offset when the key is
/// `offset` (a malformed offset reads as 0); timestamp tags after it are read
/// as below. A line that opens with timestamp tags `[mm:ss.cc]` or
/// `[mm:ss.ccc]` yields one lyric line per tag, each carrying the trimmed text
/// after the tags; other lines, and tagged lines with no text, yield nothing.
/// Lines are then sorted by time (stable), and every time is moved by the
/// offset, never below zero. A leading tag that looks like a timestamp but has
/// a field that is not all digits (see `LrcError::MalformedTimestamp`) rejects
/// the whole document.
pub fn parse_lrc(content: &str) -> (r: Result<Lyrics, LrcError>)
    ensures
        match parse_lrc_spec(content@) {
            Some(m) => r is Ok && r->Ok_0.model() == m,
            None => r is Err,
        },
        r is Ok ==> sorted_by_time(r->Ok_0.model().lines),
{
    let c = chars_of(content);
    let n = c.len();
    let mut lines: Vec<LyricLine> = Vec::new();
    let mut offset: i64 = 0;
    let mut metadata: Vec<(String, String)> = Vec::new();
    let ghost mut produced: Seq<(int, Seq<char>)> = seq![];
    let mut pos: usize = 0;
    let mut more = true;
    assert(c@.subrange(0, n as int) =~= c@);
    assert(meta_view(metadata@) =~= seq![]);
    assert(lines_view(lines@) =~= seq![]);
    while more
        invariant
            pos <= n == c.len(),
            c@ == content@,
            more ==> parse_lines(c@, initial_state()) == parse_lines(
                c@.subrange(pos as int, n as int),
                ParseState { lines: produced, offset: offset as int, meta: meta_view(metadata@) },
            ),
            !more ==> parse_lines(c@, initial_state()) == Some(
                ParseState { lines: produced, offset: offset as int, meta: meta_view(metadata@) },
            ),
            lines_view(lines@) == sort_lines(produced),
            forall|i: int| 0 <= i < produced.len() ==> 0 <= (#[trigger] produced[i]).0 <= MAX_STAMP,
        decreases n - pos + (if more {
            1int
        } else {
            0int
        }),
    {
        let ghost rest = c@.subrange(pos as int, n as int);
        let ghost st = ParseState {
            lines: produced,
            offset: offset as int,
            meta: meta_view(metadata@),
        };
        let mut end: usize = pos;
        while end < n && c[end] != '\n'
            invariant
                pos <= end <= n == c.len(),
                forall|j: int| pos <= j < end ==> c@[j] != '\n',
            decreases n - end,
        {
            end = end + 1;
        }
        proof {
            assert forall|j: int| 0 <= j < end - pos implies rest[j] != '\n' by {
                assert(rest[j] == c@[pos + j]);
            }
            lemma_line_end(rest, end - pos);
            assert(rest.subrange(0, end - pos) =~= c@.subrange(pos as int, end as int));
        }
        let class = classify_line(&c, pos, end);
        match class {
            LineClass::Malformed => {
                return Err(LrcError::MalformedTimestamp);
            },
            LineClass::Skip => {},
            LineClass::Meta(key, value, ts, text) => {
                let added = add_lines(&mut lines, &ts, &text, Ghost(produced));
                proof {
                    produced = added@;
                }
                if is_offset_key(&key) {
                    let vc = chars_of(value.as_str());
                    assert(vc@.subrange(0, vc.len() as int) =~= value@);
                    offset = match parse_i64_at(&vc, 0, vc.len()) {
                        Some(v) => v,
                        None => 0,
                    };
                } else {
                    set_meta(&mut metadata, key, value);
                }
            },
            LineClass::Timed(ts, text) => {
                let added = add_lines(&mut lines, &ts, &text, Ghost(produced));
                proof {
                    produced = added@;
                }
            },
        }
        if end == n {
            more = false;
        } else {
            assert(rest.subrange(end - pos + 1, rest.len() as int) =~= c@.subrange(
                end + 1,
                n as int,
            ));
            pos = end + 1;
        }
    }
    proof {
        lemma_sort_lines(produced);
    }
    let mut shifted: Vec<LyricLine> = Vec::new();
    let mut i: usize = 0;
    while i < lines.len()
        invariant
            i <= lines.len(),
            lines_view(lines@) == sort_lines(produced),
            sorted_by_time(sort_lines(produced)),
            sort_lines(produced).to_multiset() == produced.to_multiset(),
            forall|j: int| 0 <= j < produced.len() ==> 0 <= (#[trigger] produced[j]).0 <= MAX_STAMP,
            lines_view(shifted@) == shift_lines(lines_view(lines@), offset as int).subrange(
                0,
                i as int,
            ),
        decreases lines.len() - i,
    {
        let t = lines[i].timestamp;
        proof {
            let e = lines_view(lines@)[i as int];
            assert(sort_lines(produced).to_multiset().count(e) > 0);
            assert(produced.to_multiset().count(e) > 0);
            let k = choose|k: int| 0 <= k < produced.len() && produced[k] == e;
            assert(t <= MAX_STAMP);
        }
        let moved: u64 = if offset >= 0 {
            t + offset as u64
        } else {
            let back: u64 = if offset == -9223372036854775807i64 - 1 {
                9223372036854775808
            } else {
                (-offset) as u64
            };
            if t >= back {
                t - back
            } else {
                0
            }
        };
        assert(moved as int == shift(t as int, offset as int));
        let ghost old_shifted = lines_view(shifted@);
        let line = LyricLine { text: lines[i].text.clone(), timestamp: moved };
        assert(line@ == shift_lines(lines_view(lines@), offset as int)[i as int]);
        shifted.push(line);
        assert(lines_view(shifted@) =~= old_shifted.push(line@));
        assert(lines_view(shifted@) =~= shift_lines(lines_view(lines@), offset as int).subrange(
            0,
            i + 1,
        ));
        i = i + 1;
    }
    assert(shift_lines(lines_view(lines@), offset as int).subrange(0, lines.len() as int)
        =~= shift_lines(lines_view(lines@), offset as int));
    proof {
        lemma_shift_sorted(sort_lines(produced), offset as int);
    }
    Ok(Lyrics { lines: shifted, offset, metadata })
}

} // verus!
