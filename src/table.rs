//! The aggregation table: per call-site signature, how many allocations and
//! frees were seen there and how many bytes they carried.

use vstd::prelude::*;

verus! {

/// Totals of one call site. The counters only grow; at `usize::MAX` they stay.
#[derive(Clone, Copy, Debug, PartialEq, Eq)]
pub struct Status {
    pub nr_alloc: usize,
    pub alloc_size: usize,
    pub nr_free: usize,
    pub free_size: usize,
}

/// `a + b`, held at `usize::MAX` where it would pass it.
pub open spec fn sat_add(a: usize, b: int) -> usize {
    if a + b > usize::MAX {
        usize::MAX
    } else {
        (a + b) as usize
    }
}

/// `n`, held at `usize::MAX` where it would pass it.
pub open spec fn capped(n: int) -> usize {
    if n > usize::MAX {
        usize::MAX
    } else {
        n as usize
    }
}

/// The totals of a call site that has seen nothing yet.
pub open spec fn empty_status() -> Status {
    Status { nr_alloc: 0, alloc_size: 0, nr_free: 0, free_size: 0 }
}

/// `s` after one event of `size` bytes: an allocation where `is_alloc`, else a free.
pub open spec fn bumped(s: Status, size: usize, is_alloc: bool) -> Status {
    if is_alloc {
        Status { nr_alloc: sat_add(s.nr_alloc, 1), alloc_size: sat_add(s.alloc_size, size as int), ..s }
    } else {
        Status { nr_free: sat_add(s.nr_free, 1), free_size: sat_add(s.free_size, size as int), ..s }
    }
}

/// The table `m` after one event at call site `sig`.
pub open spec fn record_spec(
    m: Map<Seq<char>, Status>,
    sig: Seq<char>,
    size: usize,
    is_alloc: bool,
) -> Map<Seq<char>, Status> {
    let before = if m.contains_key(sig) {
        m[sig]
    } else {
        empty_status()
    };
    m.insert(sig, bumped(before, size, is_alloc))
}

impl Status {
    /// The totals after one event of `size` bytes.
    pub fn bump(&self, size: usize, is_alloc: bool) -> (r: Status)
        ensures
            r == bumped(*self, size, is_alloc),
    {
        if is_alloc {
            Status {
                nr_alloc: self.nr_alloc.saturating_add(1),
                alloc_size: self.alloc_size.saturating_add(size),
                ..*self
            }
        } else {
            Status {
                nr_free: self.nr_free.saturating_add(1),
                free_size: self.free_size.saturating_add(size),
                ..*self
            }
        }
    }
}

proof fn lemma_unique_index(s: Seq<Seq<char>>, k: int)
    requires
        s.no_duplicates(),
        0 <= k < s.len(),
    ensures
        s.index_of(s[k]) == k,
{
    assert(s.contains(s[k]));
}

/// Call sites and their totals, in the order in which each site was first seen.
pub struct AggregationTable {
    sigs: Vec<String>,
    stats: Vec<Status>,
}

impl View for AggregationTable {
    type V = Map<Seq<char>, Status>;

    closed spec fn view(&self) -> Map<Seq<char>, Status> {
        Map::new(
            |s: Seq<char>| self.order().contains(s),
            |s: Seq<char>| self.stats@[self.order().index_of(s)],
        )
    }
}

impl AggregationTable {
    /// The signatures of the table, in table order.
    pub closed spec fn order(&self) -> Seq<Seq<char>> {
        self.sigs@.map_values(|s: String| s@)
    }

    /// Signatures are unique and each has its totals.
    pub closed spec fn wf(&self) -> bool {
        &&& self.sigs@.len() == self.stats@.len()
        &&& self.order().no_duplicates()
    }

    /// An empty table.
    pub fn new() -> (r: AggregationTable)
        ensures
            r.wf(),
            r@ == Map::<Seq<char>, Status>::empty(),
            r.order() == Seq::<Seq<char>>::empty(),
    {
        let r = AggregationTable { sigs: Vec::new(), stats: Vec::new() };
        assert(r.order() =~= Seq::<Seq<char>>::empty());
        assert(r@ =~= Map::<Seq<char>, Status>::empty());
        r
    }

    /// The order lists exactly the signatures of the table, once each.
    pub proof fn lemma_order(&self)
        requires
            self.wf(),
        ensures
            self.order().no_duplicates(),
            self.order().to_set() == self@.dom(),
            forall|i: int| 0 <= i < self.order().len() ==> #[trigger] self@.contains_key(self.order()[i]),
    {
        assert forall|i: int| 0 <= i < self.order().len() implies #[trigger] self@.contains_key(self.order()[i]) by {
            assert(self.order().contains(self.order()[i]));
        }
        assert(self.order().to_set() =~= self@.dom());
    }

    proof fn lemma_index(&self, i: int)
        requires
            self.wf(),
            0 <= i < self.order().len(),
        ensures
            self@.contains_key(self.order()[i]),
            self@[self.order()[i]] == self.stats@[i],
    {
        let s = self.order()[i];
        assert(self.order().contains(s));
        let j = self.order().index_of(s);
        assert(self.order()[j] == s);
    }

    /// Number of call sites.
    pub fn len(&self) -> (r: usize)
        requires
            self.wf(),
        ensures
            r == self.order().len(),
    {
        self.sigs.len()
    }

    /// The `i`-th call site in table order, with its totals.
    pub fn entry(&self, i: usize) -> (r: (&String, Status))
        requires
            self.wf(),
            i < self.order().len(),
        ensures
            r.0@ == self.order()[i as int],
            r.1 == self@[self.order()[i as int]],
    {
        proof {
            self.lemma_index(i as int);
        }
        (&self.sigs[i], self.stats[i])
    }

    /// The totals of call site `sig`, if it was seen.
    pub fn get(&self, sig: &String) -> (r: Option<Status>)
        requires
            self.wf(),
        ensures
            r is Some <==> self@.contains_key(sig@),
            r matches Some(s) ==> s == self@[sig@],
    {
        match self.position(sig) {
            Some(i) => {
                proof {
                    self.lemma_index(i as int);
                }
                Some(self.stats[i])
            },
            None => None,
        }
    }

    fn position(&self, sig: &String) -> (r: Option<usize>)
        requires
            self.wf(),
        ensures
            r matches Some(i) ==> i < self.order().len() && self.order()[i as int] == sig@,
            r is None <==> !self@.contains_key(sig@),
    {
        let mut i: usize = 0;
        while i < self.sigs.len()
            invariant
                self.wf(),
                i <= self.sigs@.len(),
                forall|k: int| 0 <= k < i ==> self.order()[k] != sig@,
            decreases self.sigs@.len() - i,
        {
            if self.sigs[i] == *sig {
                assert(self.order()[i as int] == sig@);
                assert(self.order().contains(sig@));
                return Some(i);
            }
            i = i + 1;
        }
        proof {
            if self.order().contains(sig@) {
                let k = choose|k: int| 0 <= k < self.order().len() && self.order()[k] == sig@;
                assert(false);
            }
        }
        None
    }

    /// Counts one event of `size` bytes at call site `sig`: an allocation
    /// where `is_alloc`, else a free. A site seen for the first time goes
    /// last in table order.
    pub fn record(&mut self, sig: &String, size: usize, is_alloc: bool)
        requires
            old(self).wf(),
        ensures
            final(self).wf(),
            final(self)@ == record_spec(old(self)@, sig@, size, is_alloc),
            final(self).order() == if old(self)@.contains_key(sig@) {
                old(self).order()
            } else {
                old(self).order().push(sig@)
            },
    {
        let ghost m0 = self@;
        match self.position(sig) {
            Some(i) => {
                proof {
                    self.lemma_index(i as int);
                }
                let s = self.stats[i].bump(size, is_alloc);
                self.stats.set(i, s);
                proof {
                    assert(self.order() =~= old(self).order());
                    assert forall|t: Seq<char>| #[trigger] self@.contains_key(t) implies self@[t]
                        == record_spec(m0, sig@, size, is_alloc)[t] by {
                        let j = self.order().index_of(t);
                        lemma_unique_index(self.order(), j);
                        if t != sig@ {
                            old(self).lemma_index(j);
                        } else {
                            lemma_unique_index(self.order(), i as int);
                        }
                    }
                    assert(self@ =~= record_spec(m0, sig@, size, is_alloc));
                }
            },
            None => {
                let s = Status { nr_alloc: 0, alloc_size: 0, nr_free: 0, free_size: 0 }.bump(size, is_alloc);
                self.sigs.push(sig.clone());
                self.stats.push(s);
                proof {
                    let n = old(self).order().len();
                    assert(self.order() =~= old(self).order().push(sig@));
                    assert(!old(self).order().contains(sig@));
                    assert(self.order().no_duplicates()) by {
                        assert forall|x: int, y: int|
                            0 <= x < self.order().len() && 0 <= y < self.order().len() && x != y
                            implies self.order()[x] != self.order()[y] by {
                            if x == n {
                                assert(old(self).order()[y] == self.order()[y]);
                            } else if y == n {
                                assert(old(self).order()[x] == self.order()[x]);
                            }
                        }
                    }
                    assert forall|t: Seq<char>| #[trigger] self@.contains_key(t) implies self@[t]
                        == record_spec(m0, sig@, size, is_alloc)[t] by {
                        if t != sig@ {
                            let k = old(self).order().index_of(t);
                            assert(old(self).order().contains(t)) by {
                                let x = choose|x: int| 0 <= x < self.order().len() && self.order()[x] == t;
                                assert(x != n);
                                assert(old(self).order()[x] == t);
                            }
                            old(self).lemma_index(k);
                            assert(self.order()[k] == t);
                            lemma_unique_index(self.order(), k);
                        } else {
                            assert(self.order()[n as int] == sig@);
                            lemma_unique_index(self.order(), n as int);
                        }
                    }
                    assert(self@.dom() =~= record_spec(m0, sig@, size, is_alloc).dom()) by {
                        assert forall|t: Seq<char>| #[trigger] old(self).order().contains(t) implies self.order().contains(t) by {
                            let x = choose|x: int| 0 <= x < old(self).order().len() && old(self).order()[x] == t;
                            assert(self.order()[x] == t);
                        }
                        assert(self.order()[n as int] == sig@);
                    }
                    assert(self@ =~= record_spec(m0, sig@, size, is_alloc));
                }
            },
        }
    }
}

/// One event at `sig` leaves every other call site as it was; below the cap
/// it adds exactly one to the count of its kind and its size to the bytes of
/// its kind, and leaves the other kind's totals alone. A site not yet in the
/// table starts from all zeros.
pub proof fn lemma_record_is_exact(
    m: Map<Seq<char>, Status>,
    sig: Seq<char>,
    size: usize,
    is_alloc: bool,
)
    ensures
        ({
            let o = if m.contains_key(sig) {
                m[sig]
            } else {
                empty_status()
            };
            let n = record_spec(m, sig, size, is_alloc);
            &&& n.contains_key(sig)
            &&& forall|k: Seq<char>|
                k != sig ==> (#[trigger] n.contains_key(k) == m.contains_key(k) && (m.contains_key(k)
                    ==> n[k] == m[k]))
            &&& is_alloc && o.nr_alloc < usize::MAX && o.alloc_size + size <= usize::MAX ==> n[sig]
                == Status {
                nr_alloc: (o.nr_alloc + 1) as usize,
                alloc_size: (o.alloc_size + size) as usize,
                ..o
            }
            &&& !is_alloc && o.nr_free < usize::MAX && o.free_size + size <= usize::MAX ==> n[sig]
                == Status {
                nr_free: (o.nr_free + 1) as usize,
                free_size: (o.free_size + size) as usize,
                ..o
            }
        }),
{
}

/// Counts one event at call site `sig` where the signature is not empty, and
/// hands the signature back; an empty signature leaves the table as it was.
pub fn trace(table: &mut AggregationTable, sig: String, size: usize, is_alloc: bool) -> (r: Option<
    String,
>)
    requires
        old(table).wf(),
    ensures
        final(table).wf(),
        sig@.len() == 0 ==> r is None && final(table)@ == old(table)@ && final(table).order()
            == old(table).order(),
        sig@.len() > 0 ==> r == Some(sig) && final(table)@ == record_spec(
            old(table)@,
            sig@,
            size,
            is_alloc,
        ) && final(table).order() == if old(table)@.contains_key(sig@) {
            old(table).order()
        } else {
            old(table).order().push(sig@)
        },
{
    if sig.as_str().is_empty() {
        None
    } else {
        table.record(&sig, size, is_alloc);
        Some(sig)
    }
}

/// The table after a run of events `(signature, size, is_alloc)` as `trace`
/// sees them, starting from `m`: events with an empty signature are not counted.
pub open spec fn replay(m: Map<Seq<char>, Status>, events: Seq<(Seq<char>, usize, bool)>) -> Map<
    Seq<char>,
    Status,
>
    decreases events.len(),
{
    if events.len() == 0 {
        m
    } else {
        let e = events.last();
        let before = replay(m, events.drop_last());
        if e.0.len() > 0 {
            record_spec(before, e.0, e.1, e.2)
        } else {
            before
        }
    }
}

/// How many of `events` are at call site `sig` and of the kind `is_alloc`.
pub open spec fn event_count(events: Seq<(Seq<char>, usize, bool)>, sig: Seq<char>, is_alloc: bool) -> nat
    decreases events.len(),
{
    if events.len() == 0 {
        0
    } else {
        let e = events.last();
        event_count(events.drop_last(), sig, is_alloc) + if e.0 == sig && e.2 == is_alloc {
            1nat
        } else {
            0nat
        }
    }
}

/// The bytes of the events that `event_count` counts.
pub open spec fn event_bytes(events: Seq<(Seq<char>, usize, bool)>, sig: Seq<char>, is_alloc: bool) -> nat
    decreases events.len(),
{
    if events.len() == 0 {
        0
    } else {
        let e = events.last();
        event_bytes(events.drop_last(), sig, is_alloc) + if e.0 == sig && e.2 == is_alloc {
            e.1 as nat
        } else {
            0nat
        }
    }
}

proof fn lemma_no_events_no_bytes(events: Seq<(Seq<char>, usize, bool)>, sig: Seq<char>, is_alloc: bool)
    ensures
        event_count(events, sig, is_alloc) == 0 ==> event_bytes(events, sig, is_alloc) == 0,
    decreases events.len(),
{
    if events.len() > 0 {
        lemma_no_events_no_bytes(events.drop_last(), sig, is_alloc);
    }
}

/// Over any run of events from an empty table, a non-empty call site is in the
/// table exactly when some event was at it, and its totals are the number of
/// allocation and free events at that exact signature and their bytes, nothing
/// counted twice and nothing lost (held at `usize::MAX`).
pub proof fn lemma_totals_match_events(events: Seq<(Seq<char>, usize, bool)>, sig: Seq<char>)
    requires
        sig.len() > 0,
    ensures
        ({
            let m = replay(Map::empty(), events);
            &&& m.contains_key(sig) <==> event_count(events, sig, true) + event_count(
                events,
                sig,
                false,
            ) > 0
            &&& m.contains_key(sig) ==> m[sig] == Status {
                nr_alloc: capped(event_count(events, sig, true) as int),
                alloc_size: capped(event_bytes(events, sig, true) as int),
                nr_free: capped(event_count(events, sig, false) as int),
                free_size: capped(event_bytes(events, sig, false) as int),
            }
        }),
    decreases events.len(),
{
    if events.len() > 0 {
        let rest = events.drop_last();
        let e = events.last();
        lemma_totals_match_events(rest, sig);
        lemma_no_events_no_bytes(rest, sig, true);
        lemma_no_events_no_bytes(rest, sig, false);
        let before = replay(Map::empty(), rest);
        if e.0 == sig {
            assert(replay(Map::empty(), events) == record_spec(before, sig, e.1, e.2));
        } else if e.0.len() > 0 {
            assert(replay(Map::empty(), events) == record_spec(before, e.0, e.1, e.2));
        } else {
            assert(replay(Map::empty(), events) == before);
        }
    } else {
        assert(replay(Map::empty(), events) == Map::<Seq<char>, Status>::empty());
    }
}

} // verus!
