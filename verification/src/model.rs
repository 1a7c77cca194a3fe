//! The event materializer: a recurrence pattern and a date span become the
//! batch of dated review events a schedule expansion writes.

use vstd::prelude::*;

use crate::day::Day;
use crate::recurrence;

verus! {

/// A review event row to be written for a course: dated `j_0 + j` days,
/// indexed by the raw offset `j` itself, initially unmarked, and stamped
/// with the generation key of the expansion that produced it.
pub struct NewEvent {
    pub owner: u128,
    pub course: u128,
    pub j: i64,
    pub marking: Option<String>,
    pub date: Day,
    pub cache_key: u128,
}

/// How many leading offsets stay within the span: the length of the
/// longest prefix of `offsets` whose dates do not pass `j_end`.
pub open spec fn cutoff(offsets: Seq<u32>, j_0: int, j_end: int) -> int
    decreases offsets.len(),
{
    if offsets.len() == 0 {
        0
    } else if j_0 + offsets[0] > j_end {
        0
    } else {
        1 + cutoff(offsets.skip(1), j_0, j_end)
    }
}

/// The events an expansion produces: one per offset kept by the cutoff,
/// dated `j_0` plus the offset, indexed by the offset, unmarked, and
/// stamped with the generation key.
pub open spec fn materialize_spec(
    offsets: Seq<u32>,
    owner: u128,
    course: u128,
    j_0: int,
    j_end: int,
    cache_key: u128,
) -> Seq<NewEvent> {
    Seq::new(
        cutoff(offsets, j_0, j_end) as nat,
        |i: int| NewEvent {
            owner,
            course,
            j: offsets[i] as i64,
            marking: None,
            date: Day { num: (j_0 + offsets[i]) as i64 },
            cache_key,
        },
    )
}

pub proof fn lemma_cutoff_bounds(offsets: Seq<u32>, j_0: int, j_end: int)
    ensures
        0 <= cutoff(offsets, j_0, j_end) <= offsets.len(),
        forall|i: int| 0 <= i < cutoff(offsets, j_0, j_end) ==> j_0 + offsets[i] <= j_end,
        cutoff(offsets, j_0, j_end) < offsets.len()
            ==> j_0 + offsets[cutoff(offsets, j_0, j_end)] > j_end,
    decreases offsets.len(),
{
    if offsets.len() == 0 {
    } else if j_0 + offsets[0] > j_end {
    } else {
        lemma_cutoff_bounds(offsets.skip(1), j_0, j_end);
        assert forall|i: int| 0 <= i < cutoff(offsets, j_0, j_end) implies j_0 + offsets[i]
            <= j_end by {
            if i >= 1 {
                assert(offsets.skip(1)[i - 1] == offsets[i]);
            }
        }
        if cutoff(offsets, j_0, j_end) < offsets.len() {
            assert(offsets.skip(1)[cutoff(offsets, j_0, j_end) - 1]
                == offsets[cutoff(offsets, j_0, j_end)]);
        }
    }
}

/// The cutoff is exactly the first index whose date passes the span end.
proof fn lemma_cutoff_at(offsets: Seq<u32>, j_0: int, j_end: int, m: int)
    requires
        0 <= m <= offsets.len(),
        forall|i: int| 0 <= i < m ==> j_0 + offsets[i] <= j_end,
        m < offsets.len() ==> j_0 + offsets[m] > j_end,
    ensures
        cutoff(offsets, j_0, j_end) == m,
    decreases m,
{
    if m == 0 {
    } else {
        assert(j_0 + offsets[0] <= j_end);
        assert forall|i: int| 0 <= i < m - 1 implies j_0 + offsets.skip(1)[i] <= j_end by {
            assert(offsets.skip(1)[i] == offsets[i + 1]);
        }
        if m - 1 < offsets.skip(1).len() {
            assert(offsets.skip(1)[m - 1] == offsets[m]);
        }
        lemma_cutoff_at(offsets.skip(1), j_0, j_end, m - 1);
    }
}

/// A sequence of events that realizes the kept prefix of the offsets,
/// field by field, is the materialization itself.
proof fn lemma_materialized_prefix(
    offsets: Seq<u32>,
    owner: u128,
    course: u128,
    j_0: int,
    j_end: int,
    cache_key: u128,
    r: Seq<NewEvent>,
)
    requires
        i64::MIN <= j_0 <= i64::MAX,
        r.len() <= offsets.len(),
        forall|m: int| 0 <= m < r.len() ==> j_0 + offsets[m] <= j_end,
        r.len() < offsets.len() ==> j_0 + offsets[r.len() as int] > j_end,
        j_end <= i64::MAX,
        forall|m: int| 0 <= m < r.len() ==> {
            &&& (#[trigger] r[m]).owner == owner
            &&& r[m].course == course
            &&& r[m].j == offsets[m] as i64
            &&& r[m].marking is None
            &&& r[m].date.num == j_0 + offsets[m]
            &&& r[m].cache_key == cache_key
        },
    ensures
        r == materialize_spec(offsets, owner, course, j_0, j_end, cache_key),
{
    lemma_cutoff_at(offsets, j_0, j_end, r.len() as int);
    let evs = materialize_spec(offsets, owner, course, j_0, j_end, cache_key);
    assert forall|m: int| 0 <= m < r.len() implies r[m] == evs[m] by {
        assert(j_0 + offsets[m] <= j_end <= i64::MAX);
        assert(i64::MIN <= j_0 <= j_0 + offsets[m]);
        assert((j_0 + offsets[m]) as i64 == j_0 + offsets[m]);
        assert(evs[m].date.num == j_0 + offsets[m]);
    }
    assert(r =~= evs);
}

// ---------------------------------------------------------------------------
// Laws of the materializer
// ---------------------------------------------------------------------------

/// A pattern of the single offset `0` over a non-empty span materializes
/// to exactly one event, dated on the start date itself.
pub proof fn lemma_single_offset(
    owner: u128,
    course: u128,
    j_0: i64,
    j_end: i64,
    cache_key: u128,
)
    requires
        j_0 <= j_end,
    ensures
        ({
            let evs = materialize_spec(
                seq![0u32],
                owner,
                course,
                j_0 as int,
                j_end as int,
                cache_key,
            );
            &&& evs.len() == 1
            &&& evs[0].date.num == j_0
            &&& evs[0].j == 0
        }),
{
    let s = seq![0u32];
    assert(s.len() == 1 && s[0] == 0);
    assert(s.skip(1).len() == 0);
    assert(cutoff(s.skip(1), j_0 as int, j_end as int) == 0);
    assert(cutoff(s, j_0 as int, j_end as int) == 1);
}

/// With strictly ascending offsets the truncation is exact: an offset's
/// event is kept if and only if its date stays within the span.  So the
/// output length counts the offsets whose date does not pass `j_end`, and
/// the output is a gap-free prefix of the offset list.
pub proof fn lemma_cutoff_counts(offsets: Seq<u32>, j_0: int, j_end: int)
    requires
        recurrence::strictly_ascending(offsets),
    ensures
        forall|i: int| 0 <= i < offsets.len()
            ==> ((j_0 + offsets[i] <= j_end) <==> i < cutoff(offsets, j_0, j_end)),
{
    lemma_cutoff_bounds(offsets, j_0, j_end);
    let c = cutoff(offsets, j_0, j_end);
    assert forall|i: int| 0 <= i < offsets.len() implies ((j_0 + offsets[i] <= j_end)
        <==> i < c) by {
        if i >= c {
            assert(j_0 + offsets[c] > j_end);
            if i > c {
                assert(offsets[c] < offsets[i]);
            }
        }
    }
}

/// Re-materializing identical inputs under a fresh generation key yields
/// the same `(j, date)` pairs as the prior generation, each event again
/// unmarked; only the generation key differs.
pub proof fn lemma_rematerialize(
    offsets: Seq<u32>,
    owner: u128,
    course: u128,
    j_0: int,
    j_end: int,
    key_a: u128,
    key_b: u128,
)
    ensures
        ({
            let a = materialize_spec(offsets, owner, course, j_0, j_end, key_a);
            let b = materialize_spec(offsets, owner, course, j_0, j_end, key_b);
            &&& a.len() == b.len()
            &&& (forall|i: int| 0 <= i < a.len()
                ==> (#[trigger] a[i]).j == b[i].j && a[i].date == b[i].date
                    && a[i].marking == b[i].marking && a[i].owner == b[i].owner
                    && a[i].course == b[i].course)
            &&& (forall|i: int| 0 <= i < a.len()
                ==> (#[trigger] a[i]).cache_key == key_a && b[i].cache_key == key_b)
        }),
{
}

/// The materialized events follow the offset list without gaps: there are
/// at most as many events as offsets, and the i-th event realizes the
/// i-th offset.
pub proof fn lemma_materialize_prefix(
    offsets: Seq<u32>,
    owner: u128,
    course: u128,
    j_0: int,
    j_end: int,
    cache_key: u128,
)
    ensures
        materialize_spec(offsets, owner, course, j_0, j_end, cache_key).len() <= offsets.len(),
        forall|i: int|
            0 <= i < materialize_spec(offsets, owner, course, j_0, j_end, cache_key).len()
                ==> (#[trigger] materialize_spec(offsets, owner, course, j_0, j_end, cache_key)[i]).j
                == offsets[i] as i64,
{
    lemma_cutoff_bounds(offsets, j_0, j_end);
}

/// Every event of an expansion carries the supplied generation key and no
/// marking: a new generation starts with a clean slate.
pub proof fn lemma_fresh_generation(
    offsets: Seq<u32>,
    owner: u128,
    course: u128,
    j_0: int,
    j_end: int,
    cache_key: u128,
)
    ensures
        forall|i: int|
            0 <= i < materialize_spec(offsets, owner, course, j_0, j_end, cache_key).len()
                ==> {
                let e = #[trigger] materialize_spec(
                    offsets,
                    owner,
                    course,
                    j_0,
                    j_end,
                    cache_key,
                )[i];
                e.cache_key == cache_key && e.marking is None
            },
{
}

// ---------------------------------------------------------------------------
// The materializer
// ---------------------------------------------------------------------------

impl NewEvent {
    /// Decodes a recurrence pattern text into its ascending offsets,
    /// falling back to the single-offset pattern `[0]` on malformed input.
    pub fn parse_recurrence(text: &str) -> (r: Vec<u32>)
        ensures
            r@ == recurrence::parse_spec(text@),
    {
        recurrence::parse_pattern(text)
    }

    /// Expands offsets into dated events for a course: one event per
    /// offset, dated `j_0` plus the offset, truncated at the first date
    /// past `j_end`.  No event is ever dated after `j_end`.
    pub fn from_offsets(
        offsets: &Vec<u32>,
        owner: u128,
        course: u128,
        j_0: Day,
        j_end: Day,
        cache_key: u128,
    ) -> (r: Vec<NewEvent>)
        ensures
            r@ == materialize_spec(
                offsets@,
                owner,
                course,
                j_0.num as int,
                j_end.num as int,
                cache_key,
            ),
            forall|i: int| 0 <= i < r@.len() ==> (#[trigger] r@[i]).date.num <= j_end.num,
    {
        let ghost j0 = j_0.num as int;
        let ghost jend = j_end.num as int;
        let mut r: Vec<NewEvent> = Vec::new();
        let mut i: usize = 0;
        while i < offsets.len()
            invariant
                j0 == j_0.num as int,
                jend == j_end.num as int,
                0 <= i <= offsets@.len(),
                r@.len() == i,
                forall|m: int| 0 <= m < i ==> j0 + offsets@[m] <= jend,
                forall|m: int| 0 <= m < i ==> {
                    &&& (#[trigger] r@[m]).owner == owner
                    &&& r@[m].course == course
                    &&& r@[m].j == offsets@[m] as i64
                    &&& r@[m].marking is None
                    &&& r@[m].date.num == j0 + offsets@[m]
                    &&& r@[m].cache_key == cache_key
                },
            decreases offsets@.len() - i,
        {
            let off = offsets[i];
            match j_0.num.checked_add(off as i64) {
                Some(d) => {
                    if d <= j_end.num {
                        r.push(
                            NewEvent {
                                owner,
                                course,
                                j: off as i64,
                                marking: None,
                                date: Day { num: d },
                                cache_key,
                            },
                        );
                        i = i + 1;
                    } else {
                        // the first date past the span ends the expansion
                        proof {
                            assert(off == offsets@[i as int]);
                            assert(d == j_0.num + (off as i64));
                            assert(j0 + offsets@[i as int] > jend);
                            lemma_materialized_prefix(
                                offsets@, owner, course, j0, jend, cache_key, r@,
                            );
                        }
                        return r;
                    }
                },
                None => {
                    // the sum passes every representable day number, so it
                    // certainly passes the span end
                    proof {
                        assert(j0 + offsets@[i as int] > i64::MAX);
                        lemma_materialized_prefix(
                            offsets@, owner, course, j0, jend, cache_key, r@,
                        );
                    }
                    return r;
                },
            }
        }
        proof {
            lemma_materialized_prefix(offsets@, owner, course, j0, jend, cache_key, r@);
        }
        r
    }
}

} // verus!
