//! The lyrics document model: timestamped lines, a signed offset and free
//! metadata tags.
use vstd::prelude::*;

verus! {

/// One lyric line; `timestamp` is in milliseconds since the track started.
#[derive(Clone, Debug)]
pub struct LyricLine {
    pub text: String,
    pub timestamp: u64,
}

impl View for LyricLine {
    type V = (int, Seq<char>);

    open spec fn view(&self) -> (int, Seq<char>) {
        (self.timestamp as int, self.text@)
    }
}

/// Abstract value of a lyrics document.
pub struct LyricsModel {
    pub lines: Seq<(int, Seq<char>)>,
    pub offset: int,
    pub metadata: Seq<(Seq<char>, Seq<char>)>,
}

/// A parsed lyrics document. `lines` is sorted ascending by timestamp;
/// `metadata` holds each key once, in order of first appearance.
#[derive(Clone, Debug)]
pub struct Lyrics {
    pub lines: Vec<LyricLine>,
    pub offset: i64,
    pub metadata: Vec<(String, String)>,
}

pub open spec fn lines_view(v: Seq<LyricLine>) -> Seq<(int, Seq<char>)> {
    v.map_values(|l: LyricLine| l@)
}

pub open spec fn meta_view(v: Seq<(String, String)>) -> Seq<(Seq<char>, Seq<char>)> {
    v.map_values(|e: (String, String)| (e.0@, e.1@))
}

/// Lines ordered by non-decreasing timestamp.
pub open spec fn sorted_by_time(s: Seq<(int, Seq<char>)>) -> bool {
    forall|i: int, j: int| 0 <= i <= j < s.len() ==> s[i].0 <= s[j].0
}

/// Index of the first entry of `m` with key `k`, or -1.
pub open spec fn key_index(m: Seq<(Seq<char>, Seq<char>)>, k: Seq<char>) -> int
    decreases m.len(),
{
    if m.len() == 0 {
        -1
    } else if m[0].0 == k {
        0
    } else {
        let r = key_index(m.drop_first(), k);
        if r < 0 {
            -1
        } else {
            r + 1
        }
    }
}

/// Value stored under `k` in `m`, if any.
pub open spec fn meta_lookup(m: Seq<(Seq<char>, Seq<char>)>, k: Seq<char>) -> Option<Seq<char>> {
    let i = key_index(m, k);
    if i < 0 {
        None
    } else {
        Some(m[i].1)
    }
}

/// `m` with `k` bound to `v`: the existing entry is replaced, or a new one appended.
pub open spec fn meta_set(m: Seq<(Seq<char>, Seq<char>)>, k: Seq<char>, v: Seq<char>) -> Seq<
    (Seq<char>, Seq<char>),
> {
    let i = key_index(m, k);
    if i < 0 {
        m.push((k, v))
    } else {
        m.update(i, (k, v))
    }
}

pub proof fn lemma_key_index(m: Seq<(Seq<char>, Seq<char>)>, k: Seq<char>, i: int)
    requires
        0 <= i <= m.len(),
        forall|j: int| 0 <= j < i ==> (#[trigger] m[j]).0 != k,
        i < m.len() ==> m[i].0 == k,
    ensures
        key_index(m, k) == if i < m.len() {
            i
        } else {
            -1
        },
    decreases i,
{
    if i > 0 {
        assert forall|j: int| 0 <= j < i - 1 implies (#[trigger] m.drop_first()[j]).0 != k by {
            assert(m.drop_first()[j] == m[j + 1]);
        }
        lemma_key_index(m.drop_first(), k, i - 1);
    }
}

pub proof fn lemma_key_index_bound(m: Seq<(Seq<char>, Seq<char>)>, k: Seq<char>)
    ensures
        -1 <= key_index(m, k) < m.len(),
        key_index(m, k) >= 0 ==> m[key_index(m, k)].0 == k,
    decreases m.len(),
{
    if m.len() > 0 && m[0].0 != k {
        lemma_key_index_bound(m.drop_first(), k);
    }
}

/// Index of the last line whose time is at most `pos`, or 0 when there is none.
pub open spec fn current_index(s: Seq<(int, Seq<char>)>, pos: int) -> int
    decreases s.len(),
{
    if s.len() == 0 {
        0
    } else if s.last().0 <= pos {
        s.len() - 1
    } else {
        current_index(s.drop_last(), pos)
    }
}

impl Lyrics {
    pub open spec fn model(&self) -> LyricsModel {
        LyricsModel {
            lines: lines_view(self.lines@),
            offset: self.offset as int,
            metadata: meta_view(self.metadata@),
        }
    }

    /// An empty document.
    pub fn new() -> (r: Lyrics)
        ensures
            r.model().lines.len() == 0,
            r.model().offset == 0,
            r.model().metadata.len() == 0,
    {
        Lyrics { lines: Vec::new(), offset: 0, metadata: Vec::new() }
    }

    /// Index of the line being sung at `position` (milliseconds): the last line
    /// whose timestamp is at most `position`, or 0 before the first line.
    pub fn find_index(&self, position: u64) -> (r: usize)
        ensures
            r == current_index(lines_view(self.lines@), position as int),
    {
        let ghost s = lines_view(self.lines@);
        let mut n: usize = self.lines.len();
        assert(s.subrange(0, n as int) =~= s);
        while n > 0 && self.lines[n - 1].timestamp > position
            invariant
                n <= self.lines.len(),
                s == lines_view(self.lines@),
                current_index(s, position as int) == current_index(
                    s.subrange(0, n as int),
                    position as int,
                ),
            decreases n,
        {
            assert(s.subrange(0, n as int).drop_last() =~= s.subrange(0, n - 1));
            n = n - 1;
        }
        if n == 0 {
            0
        } else {
            n - 1
        }
    }

    /// The value of metadata tag `key`, if the document declared one.
    pub fn metadata_value(&self, key: &str) -> (r: Option<String>)
        ensures
            r.is_some() == meta_lookup(self.model().metadata, key@).is_some(),
            r.is_some() ==> r.unwrap()@ == meta_lookup(self.model().metadata, key@).unwrap(),
    {
        let ghost m = self.model().metadata;
        let k = key.to_owned();
        let mut i: usize = 0;
        while i < self.metadata.len()
            invariant
                i <= self.metadata.len(),
                m == meta_view(self.metadata@),
                k@ == key@,
                forall|j: int| 0 <= j < i ==> (#[trigger] m[j]).0 != key@,
            decreases self.metadata.len() - i,
        {
            if self.metadata[i].0 == k {
                proof {
                    lemma_key_index(m, key@, i as int);
                }
                return Some(self.metadata[i].1.clone());
            }
            i = i + 1;
        }
        proof {
            lemma_key_index(m, key@, i as int);
        }
        None
    }
}

} // verus!
