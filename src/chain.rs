//! The lyrics provider chain: providers are tried in ascending priority
//! (ties in registration order) until one returns a non-empty document.
//!
//! The providers themselves do I/O and run outside this crate; the chain
//! decides which one to try next from the outcome of the last attempt.
use vstd::prelude::*;
use crate::lyrics::Lyrics;

verus! {

/// A registered provider: lower `priority` is tried first.
#[derive(Clone, Debug)]
pub struct ProviderInfo {
    pub name: String,
    pub priority: u8,
}

/// Registry of lyrics providers.
pub struct LyricsManager {
    providers: Vec<ProviderInfo>,
    capacity: usize,
}

/// Indices `i < n` whose priority is `p`, ascending.
pub open spec fn with_priority(prios: Seq<u8>, p: int, n: int) -> Seq<int>
    decreases n,
{
    if n <= 0 {
        seq![]
    } else if prios[n - 1] as int == p {
        with_priority(prios, p, n - 1).push(n - 1)
    } else {
        with_priority(prios, p, n - 1)
    }
}

/// Indices ordered by priority `p`, `p + 1`, ... 255; ties keep index order.
pub open spec fn order_from(prios: Seq<u8>, p: int) -> Seq<int>
    decreases 256 - p,
{
    if p > 255 {
        seq![]
    } else {
        with_priority(prios, p, prios.len() as int) + order_from(prios, p + 1)
    }
}

/// The order in which providers with priorities `prios` are tried.
pub open spec fn attempt_order(prios: Seq<u8>) -> Seq<int> {
    order_from(prios, 0)
}

pub open spec fn by_priority(prios: Seq<u8>, order: Seq<int>) -> bool {
    &&& forall|i: int| 0 <= i < order.len() ==> 0 <= #[trigger] order[i] < prios.len()
    &&& forall|i: int, j: int|
        0 <= i < j < order.len() ==> prios[order[i]] <= prios[order[j]]
}

proof fn lemma_with_priority(prios: Seq<u8>, p: int, n: int)
    requires
        0 <= n <= prios.len(),
    ensures
        forall|i: int|
            0 <= i < with_priority(prios, p, n).len() ==> {
                let x = #[trigger] with_priority(prios, p, n)[i];
                0 <= x < n && prios[x] as int == p
            },
    decreases n,
{
    if n > 0 {
        lemma_with_priority(prios, p, n - 1);
        let w = with_priority(prios, p, n - 1);
        if prios[n - 1] as int == p {
            assert forall|i: int| 0 <= i < w.len() + 1 implies {
                let x = #[trigger] w.push(n - 1)[i];
                0 <= x < n && prios[x] as int == p
            } by {
                if i < w.len() {
                    assert(w.push(n - 1)[i] == w[i]);
                }
            }
        }
    }
}

proof fn lemma_order_from(prios: Seq<u8>, p: int)
    requires
        0 <= p,
    ensures
        forall|i: int|
            0 <= i < order_from(prios, p).len() ==> {
                let x = #[trigger] order_from(prios, p)[i];
                0 <= x < prios.len() && prios[x] >= p
            },
        by_priority(prios, order_from(prios, p)),
    decreases 256 - p,
{
    if p <= 255 {
        let a = with_priority(prios, p, prios.len() as int);
        let b = order_from(prios, p + 1);
        lemma_with_priority(prios, p, prios.len() as int);
        lemma_order_from(prios, p + 1);
        let o = a + b;
        assert forall|i: int| 0 <= i < o.len() implies {
            let x = #[trigger] o[i];
            0 <= x < prios.len() && prios[x] >= p
        } by {
            if i < a.len() {
                assert(o[i] == a[i]);
            } else {
                assert(o[i] == b[i - a.len()]);
            }
        }
        assert forall|i: int, j: int| 0 <= i < j < o.len() implies prios[o[i]] <= prios[o[j]] by {
            if j < a.len() {
                assert(o[i] == a[i] && o[j] == a[j]);
            } else if i < a.len() {
                assert(o[i] == a[i] && o[j] == b[j - a.len()]);
            } else {
                assert(o[i] == b[i - a.len()] && o[j] == b[j - a.len()]);
            }
        }
    }
}

/// Providers are tried strictly in ascending priority.
pub proof fn lemma_attempt_order_ascending(prios: Seq<u8>)
    ensures
        by_priority(prios, attempt_order(prios)),
{
    lemma_order_from(prios, 0);
}

proof fn lemma_with_priority_each(prios: Seq<u8>, p: int, n: int)
    requires
        0 <= n <= prios.len(),
    ensures
        forall|a: int, b: int|
            0 <= a < b < with_priority(prios, p, n).len() ==> with_priority(prios, p, n)[a]
                < with_priority(prios, p, n)[b],
        forall|i: int|
            0 <= i < n && prios[i] as int == p ==> with_priority(prios, p, n).contains(i),
    decreases n,
{
    lemma_with_priority(prios, p, n);
    if n > 0 {
        lemma_with_priority_each(prios, p, n - 1);
        lemma_with_priority(prios, p, n - 1);
        let w = with_priority(prios, p, n - 1);
        if prios[n - 1] as int == p {
            let v = w.push(n - 1);
            assert forall|a: int, b: int| 0 <= a < b < v.len() implies v[a] < v[b] by {
                assert(v[a] == w[a]);
                if b < w.len() {
                    assert(v[b] == w[b]);
                }
            }
            assert forall|i: int| 0 <= i < n && prios[i] as int == p implies v.contains(i) by {
                if i < n - 1 {
                    let j = choose|j: int| 0 <= j < w.len() && w[j] == i;
                    assert(v[j] == i);
                } else {
                    assert(v[w.len() as int] == i);
                }
            }
        }
    }
}

proof fn lemma_order_from_each(prios: Seq<u8>, p: int)
    requires
        0 <= p,
    ensures
        order_from(prios, p).no_duplicates(),
        forall|i: int|
            0 <= i < prios.len() && prios[i] >= p ==> order_from(prios, p).contains(i),
    decreases 256 - p,
{
    if p <= 255 {
        let n = prios.len() as int;
        let a = with_priority(prios, p, n);
        let b = order_from(prios, p + 1);
        lemma_with_priority(prios, p, n);
        lemma_with_priority_each(prios, p, n);
        lemma_order_from(prios, p + 1);
        lemma_order_from_each(prios, p + 1);
        let o = a + b;
        assert forall|x: int, y: int| 0 <= x < o.len() && 0 <= y < o.len() && x != y implies o[x]
            != o[y] by {
            if x < a.len() && y < a.len() {
                if x < y {
                    assert(a[x] < a[y]);
                } else {
                    assert(a[y] < a[x]);
                }
            } else if x < a.len() {
                assert(o[y] == b[y - a.len()]);
                assert(prios[o[y]] >= p + 1);
            } else if y < a.len() {
                assert(o[x] == b[x - a.len()]);
                assert(prios[o[x]] >= p + 1);
            } else {
                assert(o[x] == b[x - a.len()] && o[y] == b[y - a.len()]);
            }
        }
        assert forall|i: int| 0 <= i < prios.len() && prios[i] >= p implies o.contains(i) by {
            if prios[i] as int == p {
                let j = choose|j: int| 0 <= j < a.len() && a[j] == i;
                assert(o[j] == i);
            } else {
                assert(prios[i] >= p + 1);
                assert(order_from(prios, p + 1).contains(i));
                let j = choose|j: int| 0 <= j < b.len() && b[j] == i;
                assert(o[a.len() + j] == i);
            }
        }
    } else {
        assert forall|i: int| 0 <= i < prios.len() && prios[i] >= p implies order_from(
            prios,
            p,
        ).contains(i) by {
            assert(prios[i] <= 255);
        }
    }
}

/// Every registered provider is in the attempt order exactly once.
pub proof fn lemma_attempt_order_complete(prios: Seq<u8>)
    ensures
        attempt_order(prios).no_duplicates(),
        forall|i: int| 0 <= i < prios.len() ==> attempt_order(prios).contains(i),
{
    lemma_order_from_each(prios, 0);
}

/// What one provider attempt produced.
pub enum ProviderOutcome {
    /// The provider returned a document.
    Found(Lyrics),
    /// The provider has no lyrics for the track, or could not be reached.
    NotFound,
    /// The provider failed in some other way; the chain goes on regardless.
    Failed,
}

/// What the caller does next.
pub enum ChainStep {
    /// Ask the provider registered at this index.
    Attempt(usize),
    /// The lookup is over, with the document found, if any.
    Finished(Option<Lyrics>),
}

/// One lookup in progress over a fixed attempt order.
pub struct LyricsLookup {
    order: Vec<usize>,
    pos: usize,
}

pub open spec fn step_at(order: Seq<int>, pos: int) -> Option<int> {
    if 0 <= pos < order.len() {
        Some(order[pos])
    } else {
        None
    }
}

impl LyricsLookup {
    pub closed spec fn order(&self) -> Seq<int> {
        self.order@.map_values(|i: usize| i as int)
    }

    /// Position in the order of the provider being asked.
    pub closed spec fn pos(&self) -> int {
        self.pos as int
    }

    fn next_step(&self) -> (r: ChainStep)
        ensures
            match r {
                ChainStep::Attempt(i) => step_at(self.order(), self.pos()) == Some(i as int),
                ChainStep::Finished(d) => d is None && step_at(self.order(), self.pos()) is None,
            },
    {
        if self.pos < self.order.len() {
            ChainStep::Attempt(self.order[self.pos])
        } else {
            ChainStep::Finished(None)
        }
    }

    /// Takes the outcome of the attempt just made. A document with at least
    /// one line ends the lookup with that document; anything else moves on
    /// to the next provider, and past the last one the lookup ends with
    /// nothing found.
    pub fn on_outcome(&mut self, outcome: ProviderOutcome) -> (r: ChainStep)
        ensures
            final(self).order() == old(self).order(),
            match outcome {
                ProviderOutcome::Found(doc) if doc.lines.len() > 0 => {
                    &&& r matches ChainStep::Finished(Some(d)) && d == doc
                    &&& step_at(final(self).order(), final(self).pos()) is None
                },
                _ => {
                    &&& final(self).pos() == if old(self).pos() < old(self).order().len() {
                        old(self).pos() + 1
                    } else {
                        old(self).pos()
                    }
                    &&& match r {
                        ChainStep::Attempt(i) => step_at(final(self).order(), final(self).pos())
                            == Some(i as int),
                        ChainStep::Finished(d) => d is None && step_at(
                            final(self).order(),
                            final(self).pos(),
                        ) is None,
                    }
                },
            },
    {
        match outcome {
            ProviderOutcome::Found(doc) => {
                if doc.lines.len() > 0 {
                    self.pos = self.order.len();
                    return ChainStep::Finished(Some(doc));
                }
            },
            _ => {},
        }
        if self.pos < self.order.len() {
            self.pos = self.pos + 1;
        }
        self.next_step()
    }
}

impl LyricsManager {
    pub closed spec fn priorities(&self) -> Seq<u8> {
        self.providers@.map_values(|p: ProviderInfo| p.priority)
    }

    pub closed spec fn names(&self) -> Seq<Seq<char>> {
        self.providers@.map_values(|p: ProviderInfo| p.name@)
    }

    /// An empty registry. `capacity` bounds the lookups kept in memory by
    /// callers; the registry itself only records it.
    pub fn new(capacity: usize) -> (r: LyricsManager)
        ensures
            r.priorities().len() == 0,
            r.names().len() == 0,
            r.spec_capacity() == capacity,
    {
        LyricsManager { providers: Vec::new(), capacity }
    }

    /// The capacity given at construction.
    pub fn capacity(&self) -> (r: usize)
        ensures
            r == self.spec_capacity(),
    {
        self.capacity
    }

    pub closed spec fn spec_capacity(&self) -> usize {
        self.capacity
    }

    /// Registers a provider; returns its index, by which the chain asks for it.
    pub fn add_provider(&mut self, name: String, priority: u8) -> (index: usize)
        ensures
            index == old(self).priorities().len(),
            final(self).priorities() == old(self).priorities().push(priority),
            final(self).names() == old(self).names().push(name@),
            final(self).spec_capacity() == old(self).spec_capacity(),
    {
        let index = self.providers.len();
        let ghost old_prios = self.priorities();
        let ghost old_names = self.names();
        self.providers.push(ProviderInfo { name, priority });
        assert(self.priorities() =~= old_prios.push(priority));
        assert(self.names() =~= old_names.push(name@));
        index
    }

    /// Number of registered providers.
    pub fn provider_count(&self) -> (r: usize)
        ensures
            r == self.priorities().len(),
    {
        self.providers.len()
    }

    /// Indices of the providers in the order they are tried: ascending
    /// priority, ties in registration order.
    pub fn attempt_order(&self) -> (r: Vec<usize>)
        ensures
            r@.map_values(|i: usize| i as int) == attempt_order(self.priorities()),
            by_priority(self.priorities(), r@.map_values(|i: usize| i as int)),
            attempt_order(self.priorities()).no_duplicates(),
            forall|i: int|
                0 <= i < self.priorities().len() ==> attempt_order(self.priorities()).contains(i),
    {
        let ghost prios = self.priorities();
        let n = self.providers.len();
        let mut r: Vec<usize> = Vec::new();
        let mut p: u64 = 0;
        assert(order_from(prios, 0) =~= seq![] + order_from(prios, 0));
        while p <= 255
            invariant
                p <= 256,
                n == prios.len(),
                prios == self.priorities(),
                attempt_order(prios) == r@.map_values(|i: usize| i as int) + order_from(
                    prios,
                    p as int,
                ),
            decreases 256 - p,
        {
            let ghost before = r@.map_values(|i: usize| i as int);
            let mut i: usize = 0;
            while i < n
                invariant
                    i <= n,
                    n == prios.len(),
                    prios == self.priorities(),
                    p <= 255,
                    r@.map_values(|i: usize| i as int) == before + with_priority(
                        prios,
                        p as int,
                        i as int,
                    ),
                decreases n - i,
            {
                let ghost old_r = r@.map_values(|i: usize| i as int);
                assert(prios[i as int] == self.providers[i as int].priority);
                if self.providers[i].priority as u64 == p {
                    r.push(i);
                    assert(r@.map_values(|i: usize| i as int) =~= old_r.push(i as int));
                } else {
                    assert(r@.map_values(|i: usize| i as int) =~= old_r);
                }
                assert(r@.map_values(|i: usize| i as int) =~= before + with_priority(
                    prios,
                    p as int,
                    i + 1,
                ));
                i = i + 1;
            }
            assert(before + (with_priority(prios, p as int, n as int) + order_from(prios, p + 1))
                =~= r@.map_values(|i: usize| i as int) + order_from(prios, p + 1));
            p = p + 1;
        }
        assert(r@.map_values(|i: usize| i as int) + order_from(prios, 256) =~= r@.map_values(
            |i: usize| i as int,
        ));
        proof {
            lemma_attempt_order_ascending(prios);
            lemma_attempt_order_complete(prios);
        }
        r
    }

    /// Starts a lookup: the first step asks the provider tried first, or
    /// finishes at once when none is registered.
    pub fn start_lookup(&self) -> (r: (LyricsLookup, ChainStep))
        ensures
            r.0.order() == attempt_order(self.priorities()),
            r.0.pos() == 0,
            match r.1 {
                ChainStep::Attempt(i) => step_at(r.0.order(), 0) == Some(i as int),
                ChainStep::Finished(d) => d is None && step_at(r.0.order(), 0) is None,
            },
    {
        let lookup = LyricsLookup { order: self.attempt_order(), pos: 0 };
        let step = lookup.next_step();
        (lookup, step)
    }
}

/// A source of lyrics. The lookup itself does I/O and is made by the caller;
/// what the chain needs of a provider is its priority and its name.
pub trait LyricsProvider {
    spec fn spec_priority(&self) -> u8;

    /// Lower is tried first.
    fn priority(&self) -> (r: u8)
        ensures
            r == self.spec_priority(),
    ;

    fn name(&self) -> &'static str;
}

/// The provider that looks for lyrics files in a local directory.
pub struct LocalProvider {
    dir: String,
}

impl LocalProvider {
    pub closed spec fn spec_dir(&self) -> Seq<char> {
        self.dir@
    }

    /// A provider reading from `dir`.
    pub fn new(dir: String) -> (r: LocalProvider)
        ensures
            r.spec_dir() == dir@,
    {
        LocalProvider { dir }
    }

    /// The directory searched.
    pub fn dir(&self) -> (r: &String)
        ensures
            r@ == self.spec_dir(),
    {
        &self.dir
    }
}

impl LyricsProvider for LocalProvider {
    open spec fn spec_priority(&self) -> u8 {
        0
    }

    /// Local files are tried before any network source.
    fn priority(&self) -> (r: u8) {
        0
    }

    fn name(&self) -> &'static str {
        "local"
    }
}

} // verus!
