//! Per-system execution timings shown by the profiler window.
use vstd::prelude::*;
use std::time::Duration;

verus! {

use crate::names::{
    compare_names, lex_lt, lemma_lex_lt_irreflexive, lemma_lex_lt_transitive, NameOrder,
};

/// Entries are in strictly increasing name order, so no name occurs twice.
pub open spec fn sorted_by_name(e: Seq<(String, Duration)>) -> bool {
    forall|i: int, j: int| 0 <= i < j < e.len() ==> lex_lt(#[trigger] e[i].0@, #[trigger] e[j].0@)
}

/// Some entry carries name `k`.
pub open spec fn has_name(e: Seq<(String, Duration)>, k: Seq<char>) -> bool {
    exists|i: int| 0 <= i < e.len() && e[i].0@ == k
}

/// Position of an entry named `k`.
pub open spec fn name_index(e: Seq<(String, Duration)>, k: Seq<char>) -> int {
    choose|i: int| 0 <= i < e.len() && e[i].0@ == k
}

/// The duration of an entry named `k`.
pub open spec fn duration_of(e: Seq<(String, Duration)>, k: Seq<char>) -> Duration {
    e[name_index(e, k)].1
}

/// The timing map held by a list of entries.
pub open spec fn timing_map(e: Seq<(String, Duration)>) -> Map<Seq<char>, Duration> {
    Map::new(|k: Seq<char>| has_name(e, k), |k: Seq<char>| duration_of(e, k))
}

/// The most recent execution time recorded for each named system.
pub struct Diagnostics {
    timings: Vec<(String, Duration)>,
}

impl View for Diagnostics {
    type V = Map<Seq<char>, Duration>;

    closed spec fn view(&self) -> Map<Seq<char>, Duration> {
        timing_map(self.timings@)
    }
}

proof fn lemma_sorted_unique(e: Seq<(String, Duration)>, i: int, j: int)
    requires
        sorted_by_name(e),
        0 <= i < e.len(),
        0 <= j < e.len(),
        e[i].0@ == e[j].0@,
    ensures
        i == j,
{
    if i < j {
        lemma_lex_lt_irreflexive(e[i].0@);
        assert(lex_lt(e[i].0@, e[j].0@));
    } else if j < i {
        lemma_lex_lt_irreflexive(e[i].0@);
        assert(lex_lt(e[j].0@, e[i].0@));
    }
}

proof fn lemma_timing_map_at(e: Seq<(String, Duration)>, n: int)
    requires
        sorted_by_name(e),
        0 <= n < e.len(),
    ensures
        timing_map(e).contains_key(e[n].0@),
        timing_map(e)[e[n].0@] == e[n].1,
{
    let k = e[n].0@;
    assert(has_name(e, k));
    assert(timing_map(e).contains_key(k));
    let c = name_index(e, k);
    assert(0 <= c < e.len() && e[c].0@ == k);
    lemma_sorted_unique(e, n, c);
}

/// Position of `name` among sorted entries: every entry before it has a
/// smaller name; the entry at it, if any, has `name` itself (`found`) or a
/// greater one.
fn find_slot(e: &Vec<(String, Duration)>, name: &str) -> (r: (usize, bool))
    requires
        sorted_by_name(e@),
    ensures
        r.0 <= e.len(),
        forall|i: int| 0 <= i < r.0 ==> lex_lt(#[trigger] e@[i].0@, name@),
        r.1 ==> r.0 < e.len() && e@[r.0 as int].0@ == name@,
        !r.1 ==> r.0 == e.len() || lex_lt(name@, e@[r.0 as int].0@),
{
    let len = e.len();
    let mut p: usize = 0;
    let mut done = false;
    let mut found = false;
    while !done && p < len
        invariant
            len == e.len(),
            p <= len,
            forall|i: int| 0 <= i < p ==> lex_lt(#[trigger] e@[i].0@, name@),
            found ==> done,
            done ==> p < len,
            done && found ==> e@[p as int].0@ == name@,
            done && !found ==> lex_lt(name@, e@[p as int].0@),
        decreases 2 * (len - p) + (if done {
            0int
        } else {
            1int
        }),
    {
        match compare_names(e[p].0.as_str(), name) {
            NameOrder::Less => {
                p = p + 1;
            },
            NameOrder::Equal => {
                found = true;
                done = true;
            },
            NameOrder::Greater => {
                done = true;
            },
        }
    }
    (p, found)
}

proof fn lemma_timing_map_update(e: Seq<(String, Duration)>, p: int, x: (String, Duration))
    requires
        sorted_by_name(e),
        0 <= p < e.len(),
        e[p].0@ == x.0@,
    ensures
        sorted_by_name(e.update(p, x)),
        timing_map(e.update(p, x)) == timing_map(e).insert(x.0@, x.1),
{
    let f = e.update(p, x);
    assert forall|i: int, j: int| 0 <= i < j < f.len() implies lex_lt(
        #[trigger] f[i].0@,
        #[trigger] f[j].0@,
    ) by {
        assert(f[i].0@ == e[i].0@);
        assert(f[j].0@ == e[j].0@);
    }
    let m = timing_map(e).insert(x.0@, x.1);
    assert forall|k: Seq<char>| #[trigger] timing_map(f).contains_key(k) <==> m.contains_key(k) by {
        if timing_map(f).contains_key(k) {
            let j = choose|j: int| 0 <= j < f.len() && f[j].0@ == k;
            assert(e[j].0@ == k);
        }
        if timing_map(e).contains_key(k) {
            let j = choose|j: int| 0 <= j < e.len() && e[j].0@ == k;
            assert(f[j].0@ == k);
        }
        if k == x.0@ {
            assert(f[p].0@ == k);
        }
    }
    assert forall|k: Seq<char>| #[trigger] timing_map(f).contains_key(k) implies timing_map(f)[k]
        == m[k] by {
        let j = choose|j: int| 0 <= j < f.len() && f[j].0@ == k;
        lemma_timing_map_at(f, j);
        if j == p {
            assert(f[j] == x);
        } else {
            assert(f[j] == e[j]);
            lemma_timing_map_at(e, j);
            assert(k != x.0@) by {
                if k == x.0@ {
                    lemma_sorted_unique(e, j, p);
                }
            }
        }
    }
    assert(timing_map(f) =~= m);
}

proof fn lemma_timing_map_insert(e: Seq<(String, Duration)>, p: int, x: (String, Duration))
    requires
        sorted_by_name(e),
        0 <= p <= e.len(),
        forall|i: int| 0 <= i < p ==> lex_lt(#[trigger] e[i].0@, x.0@),
        p == e.len() || lex_lt(x.0@, e[p].0@),
    ensures
        sorted_by_name(e.insert(p, x)),
        timing_map(e.insert(p, x)) == timing_map(e).insert(x.0@, x.1),
{
    let f = e.insert(p, x);
    assert forall|i: int, j: int| 0 <= i < j < f.len() implies lex_lt(
        #[trigger] f[i].0@,
        #[trigger] f[j].0@,
    ) by {
        if j < p {
            assert(f[i] == e[i] && f[j] == e[j]);
        } else if j == p {
            assert(f[i] == e[i] && f[j] == x);
        } else if i < p {
            assert(f[i] == e[i] && f[j] == e[j - 1]);
            assert(lex_lt(e[i].0@, x.0@));
            assert(lex_lt(x.0@, e[p].0@));
            if j - 1 > p {
                lemma_lex_lt_transitive(x.0@, e[p].0@, e[j - 1].0@);
            }
            lemma_lex_lt_transitive(e[i].0@, x.0@, e[j - 1].0@);
        } else if i == p {
            assert(f[i] == x && f[j] == e[j - 1]);
            if j - 1 > p {
                lemma_lex_lt_transitive(x.0@, e[p].0@, e[j - 1].0@);
            }
        } else {
            assert(f[i] == e[i - 1] && f[j] == e[j - 1]);
        }
    }
    let m = timing_map(e).insert(x.0@, x.1);
    assert forall|k: Seq<char>| #[trigger] timing_map(f).contains_key(k) <==> m.contains_key(k) by {
        if timing_map(f).contains_key(k) {
            let j = choose|j: int| 0 <= j < f.len() && f[j].0@ == k;
            if j < p {
                assert(e[j].0@ == k);
            } else if j > p {
                assert(e[j - 1].0@ == k);
            }
        }
        if timing_map(e).contains_key(k) {
            let j = choose|j: int| 0 <= j < e.len() && e[j].0@ == k;
            if j < p {
                assert(f[j].0@ == k);
            } else {
                assert(f[j + 1].0@ == k);
            }
        }
        if k == x.0@ {
            assert(f[p].0@ == k);
        }
    }
    assert forall|k: Seq<char>| #[trigger] timing_map(f).contains_key(k) implies timing_map(f)[k]
        == m[k] by {
        let j = choose|j: int| 0 <= j < f.len() && f[j].0@ == k;
        lemma_timing_map_at(f, j);
        lemma_timing_map_at(f, p);
        if j == p {
            assert(f[j] == x);
        } else {
            let i = if j < p {
                j
            } else {
                j - 1
            };
            assert(f[j] == e[i]);
            lemma_timing_map_at(e, i);
            assert(k != x.0@) by {
                if k == x.0@ {
                    lemma_sorted_unique(f, j, p);
                }
            }
        }
    }
    assert(timing_map(f) =~= m);
}

impl Diagnostics {
    #[verifier::type_invariant]
    spec fn inv(self) -> bool {
        sorted_by_name(self.timings@)
    }

    /// An empty set of timings.
    pub fn new() -> (d: Self)
        ensures
            d@ == Map::<Seq<char>, Duration>::empty(),
    {
        let d = Diagnostics { timings: Vec::new() };
        assert(d@ =~= Map::<Seq<char>, Duration>::empty());
        d
    }

    /// Records `duration` as the latest execution time of system `name`,
    /// replacing any earlier value for that name.
    pub fn record(&mut self, name: &str, duration: Duration)
        ensures
            final(self)@ == old(self)@.insert(name@, duration),
    {
        proof {
            use_type_invariant(&*self);
        }
        let mut e: Vec<(String, Duration)> = Vec::new();
        std::mem::swap(&mut e, &mut self.timings);
        let ghost old_e = e@;
        let (p, found) = find_slot(&e, name);
        let entry = (String::from_str(name), duration);
        if found {
            e.set(p, entry);
            proof {
                lemma_timing_map_update(old_e, p as int, entry);
            }
        } else {
            e.insert(p, entry);
            proof {
                lemma_timing_map_insert(old_e, p as int, entry);
            }
        }
        self.timings = e;
    }

    /// The latest execution time recorded for `name`, if any.
    pub fn get(&self, name: &str) -> (r: Option<Duration>)
        ensures
            r == (if self@.contains_key(name@) {
                Some(self@[name@])
            } else {
                None::<Duration>
            }),
    {
        proof {
            use_type_invariant(self);
        }
        let (p, found) = find_slot(&self.timings, name);
        if found {
            proof {
                lemma_timing_map_at(self.timings@, p as int);
            }
            Some(self.timings[p].1)
        } else {
            proof {
                if self@.contains_key(name@) {
                    let j = choose|j: int| 0 <= j < self.timings@.len() && self.timings@[j].0@ == name@;
                    if j < p {
                        lemma_lex_lt_irreflexive(name@);
                    } else {
                        lemma_lex_lt_irreflexive(name@);
                        if j > p {
                            lemma_lex_lt_transitive(name@, self.timings@[p as int].0@, name@);
                        }
                    }
                }
            }
            None
        }
    }

    /// All recorded timings in increasing order of name, each name once.
    pub fn sorted_timings(&self) -> (r: &Vec<(String, Duration)>)
        ensures
            sorted_by_name(r@),
            timing_map(r@) == self@,
    {
        proof {
            use_type_invariant(self);
        }
        &self.timings
    }
}

/// A timing read back after it was recorded is the one recorded, and
/// recording one system leaves the timings of every other system as they were.
pub proof fn lemma_record_then_read(
    timings: Map<Seq<char>, Duration>,
    name: Seq<char>,
    other: Seq<char>,
    duration: Duration,
)
    ensures
        timings.insert(name, duration).contains_key(name),
        timings.insert(name, duration)[name] == duration,
        other != name ==> (timings.insert(name, duration).contains_key(other)
            <==> timings.contains_key(other)),
        other != name && timings.contains_key(other) ==> timings.insert(name, duration)[other]
            == timings[other],
{
}

impl Default for Diagnostics {
    fn default() -> (d: Self)
        ensures
            d@ == Map::<Seq<char>, Duration>::empty(),
    {
        Diagnostics::new()
    }
}

} // verus!
