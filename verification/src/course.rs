//! Courses, their stored events, and the generation-key versioning rule.
//!
//! A schedule edit mints a fresh generation key, materializes the full new
//! event set under it, and leaves older rows in place; the events whose key
//! equals the course's current key are the sole authoritative schedule for
//! every read path.

use vstd::prelude::*;

use crate::day::Day;
use crate::model;
use crate::model::NewEvent;
use crate::recurrence;
use crate::text;

verus! {

/// A course row: a learning plan with a date span, the textual recurrence
/// pattern, the generation key of its current schedule expansion, and an
/// archived flag.
pub struct Course {
    pub id: u128,
    pub author: u128,
    pub name: String,
    pub description: Option<String>,
    pub j_0: Day,
    pub j_end: Day,
    pub recurrence: String,
    pub cache_key: u128,
    pub archived: bool,
}

/// A stored event row: one scheduled occurrence of one course, carrying
/// the user's marking and the generation key of the expansion that wrote
/// it.  Rows of superseded generations stay stored; the key tells them
/// apart.
#[derive(Clone)]
pub struct Event {
    pub owner: u128,
    pub course: u128,
    pub j: i64,
    pub marking: Option<String>,
    pub date: Day,
    pub cache_key: Option<u128>,
}

/// A course together with the occurrences a listing shows for it.
pub struct CourseAndOccurrences {
    pub id: u128,
    pub author: u128,
    pub name: String,
    pub description: Option<String>,
    pub j_0: Day,
    pub j_end: Day,
    pub recurrence: String,
    pub cache_key: u128,
    pub occurrences: Vec<(Day, i64, Option<String>)>,
}

impl From<(Course, Vec<(Day, i64, Option<String>)>)> for CourseAndOccurrences {
    fn from(parts: (Course, Vec<(Day, i64, Option<String>)>)) -> (r: Self) {
        let (c, occurrences) = parts;
        CourseAndOccurrences {
            id: c.id,
            author: c.author,
            name: c.name,
            description: c.description,
            j_0: c.j_0,
            j_end: c.j_end,
            recurrence: c.recurrence,
            cache_key: c.cache_key,
            occurrences,
        }
    }
}

impl vstd::std_specs::convert::FromSpecImpl<(Course, Vec<(Day, i64, Option<String>)>)>
    for CourseAndOccurrences {
    open spec fn obeys_from_spec() -> bool {
        true
    }

    open spec fn from_spec(parts: (Course, Vec<(Day, i64, Option<String>)>)) -> Self {
        CourseAndOccurrences {
            id: parts.0.id,
            author: parts.0.author,
            name: parts.0.name,
            description: parts.0.description,
            j_0: parts.0.j_0,
            j_end: parts.0.j_end,
            recurrence: parts.0.recurrence,
            cache_key: parts.0.cache_key,
            occurrences: parts.1,
        }
    }
}

// ---------------------------------------------------------------------------
// Creation and schedule edits
// ---------------------------------------------------------------------------

/// Relies on uuid's `Uuid::new_v4`, read out as its 128-bit value: a
/// freshly generated random key.  Nothing is promised of a random value;
/// callers state what holds whatever key came back.
#[verifier::external_body]
fn mint_cache_key() -> (r: u128) {
    uuid::Uuid::new_v4().as_u128()
}

impl Course {
    /// Plans a course creation: builds the course row — an empty
    /// description submission becomes no description, the archived flag
    /// starts clear — and materializes the event batch of its parsed
    /// pattern under the supplied generation key.
    pub fn create(
        owner: u128,
        id: u128,
        name: String,
        description: String,
        j_0: Day,
        j_end: Day,
        recurrence_text: String,
        cache_key: u128,
    ) -> (r: (Course, Vec<NewEvent>))
        ensures
            r.0.id == id,
            r.0.author == owner,
            r.0.name == name,
            r.0.description == (if description@.len() == 0 {
                Option::<String>::None
            } else {
                Option::Some(description)
            }),
            r.0.j_0 == j_0,
            r.0.j_end == j_end,
            r.0.recurrence == recurrence_text,
            r.0.cache_key == cache_key,
            !r.0.archived,
            r.1@ == model::materialize_spec(
                recurrence::parse_spec(recurrence_text@),
                owner,
                id,
                j_0.num as int,
                j_end.num as int,
                cache_key,
            ),
    {
        let offsets = NewEvent::parse_recurrence(recurrence_text.as_str());
        let events = NewEvent::from_offsets(&offsets, owner, id, j_0, j_end, cache_key);
        let course = Course {
            id,
            author: owner,
            name,
            description: text::nonempty_text(description),
            j_0,
            j_end,
            recurrence: recurrence_text,
            cache_key,
            archived: false,
        };
        (course, events)
    }

    /// Applies a schedule edit under the supplied generation key: stores
    /// the new pattern text and span, stamps the course with the key, and
    /// returns the full event batch materialized under it.  Name,
    /// description and archived flag stay untouched.  Events of earlier
    /// generations are left in place, distinguishable by their key.
    pub fn edit_schedule(
        &mut self,
        recurrence_text: String,
        j_0: Day,
        j_end: Day,
        cache_key: u128,
    ) -> (events: Vec<NewEvent>)
        ensures
            final(self).id == old(self).id,
            final(self).author == old(self).author,
            final(self).name == old(self).name,
            final(self).description == old(self).description,
            final(self).archived == old(self).archived,
            final(self).j_0 == j_0,
            final(self).j_end == j_end,
            final(self).recurrence == recurrence_text,
            final(self).cache_key == cache_key,
            events@ == model::materialize_spec(
                recurrence::parse_spec(recurrence_text@),
                old(self).author,
                old(self).id,
                j_0.num as int,
                j_end.num as int,
                cache_key,
            ),
    {
        let offsets = NewEvent::parse_recurrence(recurrence_text.as_str());
        let events = NewEvent::from_offsets(&offsets, self.author, self.id, j_0, j_end, cache_key);
        self.recurrence = recurrence_text;
        self.j_0 = j_0;
        self.j_end = j_end;
        self.cache_key = cache_key;
        events
    }

    /// A schedule edit as the route performs it: mints a fresh generation
    /// key, then applies the edit under it.  Whatever key was minted, the
    /// course now carries it, and the returned batch is the schedule
    /// materialized under it.
    pub fn edit_schedule_with_new_key(
        &mut self,
        recurrence_text: String,
        j_0: Day,
        j_end: Day,
    ) -> (r: (u128, Vec<NewEvent>))
        ensures
            final(self).id == old(self).id,
            final(self).author == old(self).author,
            final(self).name == old(self).name,
            final(self).description == old(self).description,
            final(self).archived == old(self).archived,
            final(self).j_0 == j_0,
            final(self).j_end == j_end,
            final(self).recurrence == recurrence_text,
            final(self).cache_key == r.0,
            r.1@ == model::materialize_spec(
                recurrence::parse_spec(recurrence_text@),
                old(self).author,
                old(self).id,
                j_0.num as int,
                j_end.num as int,
                r.0,
            ),
    {
        let cache_key = mint_cache_key();
        let events = self.edit_schedule(recurrence_text, j_0, j_end, cache_key);
        (cache_key, events)
    }

    /// Applies a partial edit of name and description, as the changeset
    /// write does: a missing field leaves the stored value, an empty
    /// description text clears the description.  Schedule, generation key
    /// and archived flag never move.
    pub fn update_details(&mut self, name: Option<String>, description: Option<String>)
        ensures
            final(self).name == (match name {
                Option::Some(n) => n,
                Option::None => old(self).name,
            }),
            final(self).description == (match description {
                Option::Some(d) => if d@.len() == 0 {
                    Option::<String>::None
                } else {
                    Option::Some(d)
                },
                Option::None => old(self).description,
            }),
            final(self).id == old(self).id,
            final(self).author == old(self).author,
            final(self).j_0 == old(self).j_0,
            final(self).j_end == old(self).j_end,
            final(self).recurrence == old(self).recurrence,
            final(self).cache_key == old(self).cache_key,
            final(self).archived == old(self).archived,
    {
        match name {
            Some(n) => {
                self.name = n;
            },
            None => {},
        }
        match description {
            Some(d) => {
                self.description = text::nonempty_text(d);
            },
            None => {},
        }
    }

    /// Sets or clears the archived flag; nothing else moves.
    pub fn set_archived(&mut self, archived: bool)
        ensures
            final(self).archived == archived,
            final(self).id == old(self).id,
            final(self).author == old(self).author,
            final(self).name == old(self).name,
            final(self).description == old(self).description,
            final(self).j_0 == old(self).j_0,
            final(self).j_end == old(self).j_end,
            final(self).recurrence == old(self).recurrence,
            final(self).cache_key == old(self).cache_key,
    {
        self.archived = archived;
    }
}

// ---------------------------------------------------------------------------
// Read paths: the current generation is the schedule
// ---------------------------------------------------------------------------

/// The event is part of the course's current schedule: it belongs to the
/// course and carries the course's current generation key.
pub open spec fn in_current_generation(c: Course, e: Event) -> bool {
    e.course == c.id && e.cache_key == Option::Some(c.cache_key)
}

/// The stored rows that form the course's authoritative schedule, in
/// stored order: exactly those of the current generation.
pub open spec fn current_of(c: Course, events: Seq<Event>) -> Seq<Event>
    decreases events.len(),
{
    if events.len() == 0 {
        Seq::empty()
    } else {
        let rest = current_of(c, events.drop_last());
        if in_current_generation(c, events.last()) {
            rest.push(events.last())
        } else {
            rest
        }
    }
}

/// Every event a current-schedule read returns belongs to the course and
/// carries its current generation key, and is one of the stored rows:
/// superseded generations are excluded from the read path.
pub proof fn lemma_current_only_current(c: Course, events: Seq<Event>)
    ensures
        forall|i: int| 0 <= i < current_of(c, events).len()
            ==> in_current_generation(c, #[trigger] current_of(c, events)[i]),
        forall|i: int| 0 <= i < current_of(c, events).len()
            ==> events.contains(#[trigger] current_of(c, events)[i]),
    decreases events.len(),
{
    if events.len() > 0 {
        lemma_current_only_current(c, events.drop_last());
        assert forall|i: int| 0 <= i < current_of(c, events).len() implies events.contains(
            #[trigger] current_of(c, events)[i],
        ) by {
            let rest = current_of(c, events.drop_last());
            if i < rest.len() {
                assert(events.drop_last().contains(rest[i]));
                let k = choose|k: int|
                    0 <= k < events.drop_last().len() && events.drop_last()[k] == rest[i];
                assert(events[k] == rest[i]);
            } else {
                assert(events[events.len() - 1] == events.last());
            }
        }
    }
}

impl Course {
    /// The authoritative schedule among stored rows: exactly the events
    /// of this course whose generation key equals the course's current
    /// one, in stored order.  Rows of superseded generations are excluded
    /// from every read path.
    pub fn current_schedule(&self, events: Vec<Event>) -> (r: Vec<Event>)
        ensures
            r@ == current_of(*self, events@),
    {
        let ghost all = events@;
        let mut rest = events;
        let mut r: Vec<Event> = Vec::new();
        while rest.len() > 0
            invariant
                rest@.len() <= all.len(),
                rest@ == all.skip(all.len() - rest@.len()),
                r@ == current_of(*self, all.take(all.len() - rest@.len())),
            decreases rest@.len(),
        {
            let ghost k = all.len() - rest@.len();
            let e = rest.remove(0);
            let keep = e.course == self.id && (match e.cache_key {
                Some(key) => key == self.cache_key,
                None => false,
            });
            proof {
                assert(e == all[k]);
                assert(rest@ =~= all.skip(k + 1));
                assert(all.take(k + 1).drop_last() =~= all.take(k));
                assert(all.take(k + 1).last() == all[k]);
                assert(keep == in_current_generation(*self, e));
            }
            if keep {
                r.push(e);
            }
        }
        proof {
            assert(all.take(all.len() as int) =~= all);
        }
        r
    }
}

/// The timeline predicate: the event belongs to the owner and falls on or
/// after the cutoff date.
pub open spec fn on_timeline(e: Event, owner: u128, after: int) -> bool {
    e.owner == owner && e.date.num >= after
}

/// The owner's stored events on or after the cutoff date, in stored
/// order, before the page limit is applied.
pub open spec fn timeline_of(events: Seq<Event>, owner: u128, after: int) -> Seq<Event>
    decreases events.len(),
{
    if events.len() == 0 {
        Seq::empty()
    } else {
        let rest = timeline_of(events.drop_last(), owner, after);
        if on_timeline(events.last(), owner, after) {
            rest.push(events.last())
        } else {
            rest
        }
    }
}

/// How many events one timeline page holds at most.
pub const TIMELINE_PAGE: usize = 50;

/// The timeline slice: the first `limit` stored events, in stored order,
/// that belong to `owner` and fall on or after `after`.
pub fn upcoming(events: Vec<Event>, owner: u128, after: Day, limit: usize) -> (r: Vec<Event>)
    ensures
        ({
            let full = timeline_of(events@, owner, after.num as int);
            r@ == (if full.len() <= limit {
                full
            } else {
                full.take(limit as int)
            })
        }),
{
    let ghost all = events@;
    let ghost aft = after.num as int;
    let mut rest = events;
    let mut r: Vec<Event> = Vec::new();
    while rest.len() > 0
        invariant
            aft == after.num as int,
            rest@.len() <= all.len(),
            rest@ == all.skip(all.len() - rest@.len()),
            ({
                let part = timeline_of(all.take(all.len() - rest@.len()), owner, aft);
                r@ == (if part.len() <= limit {
                    part
                } else {
                    part.take(limit as int)
                })
            }),
            r@.len() <= limit,
        decreases rest@.len(),
    {
        let ghost k = all.len() - rest@.len();
        let ghost part = timeline_of(all.take(k), owner, aft);
        let e = rest.remove(0);
        let keep = e.owner == owner && e.date.num >= after.num;
        proof {
            assert(e == all[k]);
            assert(rest@ =~= all.skip(k + 1));
            assert(all.take(k + 1).drop_last() =~= all.take(k));
            assert(all.take(k + 1).last() == all[k]);
            assert(keep == on_timeline(e, owner, aft));
        }
        if keep && r.len() < limit {
            r.push(e);
        } else {
            proof {
                let part2 = timeline_of(all.take(k + 1), owner, aft);
                if keep {
                    // the page is full: the slice keeps its first `limit`
                    assert(part2 == part.push(e));
                    assert(part2.take(limit as int) =~= part.take(limit as int));
                }
            }
        }
    }
    proof {
        assert(all.take(all.len() as int) =~= all);
    }
    r
}

/// The stored row a batch entry becomes when written: the same event,
/// its generation key now a stored, nullable column.
pub open spec fn stored_event(e: NewEvent) -> Event {
    Event {
        owner: e.owner,
        course: e.course,
        j: e.j,
        marking: e.marking,
        date: e.date,
        cache_key: Option::Some(e.cache_key),
    }
}

/// Appends a freshly materialized batch to the stored rows, as the atomic
/// write unit does: earlier rows — superseded generations among them —
/// stay in place, and the batch follows in order.
pub fn insert_events(rows: Vec<Event>, batch: Vec<NewEvent>) -> (r: Vec<Event>)
    ensures
        r@.len() == rows@.len() + batch@.len(),
        forall|i: int| 0 <= i < rows@.len() ==> r@[i] == rows@[i],
        forall|i: int| 0 <= i < batch@.len()
            ==> r@[rows@.len() + i] == stored_event(#[trigger] batch@[i]),
{
    let ghost all = batch@;
    let ghost base = rows@;
    let mut r = rows;
    let mut rest = batch;
    while rest.len() > 0
        invariant
            rest@.len() <= all.len(),
            rest@ == all.skip(all.len() - rest@.len()),
            r@.len() == base.len() + all.len() - rest@.len(),
            forall|i: int| 0 <= i < base.len() ==> r@[i] == base[i],
            forall|i: int| 0 <= i < all.len() - rest@.len()
                ==> r@[base.len() + i] == stored_event(#[trigger] all[i]),
        decreases rest@.len(),
    {
        let ghost k = all.len() - rest@.len();
        let e = rest.remove(0);
        proof {
            assert(e == all[k]);
            assert(rest@ =~= all.skip(k + 1));
        }
        r.push(
            Event {
                owner: e.owner,
                course: e.course,
                j: e.j,
                marking: e.marking,
                date: e.date,
                cache_key: Some(e.cache_key),
            },
        );
    }
    r
}

/// A current-schedule read over rows none of which is current returns
/// nothing.
proof fn lemma_current_of_none(c: Course, rows: Seq<Event>)
    requires
        forall|i: int| 0 <= i < rows.len() ==> !in_current_generation(c, #[trigger] rows[i]),
    ensures
        current_of(c, rows) == Seq::<Event>::empty(),
    decreases rows.len(),
{
    if rows.len() > 0 {
        assert forall|i: int| 0 <= i < rows.drop_last().len() implies !in_current_generation(
            c,
            #[trigger] rows.drop_last()[i],
        ) by {
            assert(rows.drop_last()[i] == rows[i]);
        }
        lemma_current_of_none(c, rows.drop_last());
        assert(rows.last() == rows[rows.len() - 1]);
    }
}

/// The versioning rule of a schedule edit: provided no stored row already
/// carries the fresh generation key — the freshness the atomic edit owes —
/// a current-schedule read over the old rows with the fresh batch appended
/// returns exactly the fresh batch.  Superseded rows, markings and all,
/// are left behind.
pub proof fn lemma_edit_supersedes(c: Course, old_rows: Seq<Event>, fresh: Seq<Event>)
    requires
        forall|i: int| 0 <= i < old_rows.len()
            ==> !in_current_generation(c, #[trigger] old_rows[i]),
        forall|i: int| 0 <= i < fresh.len() ==> in_current_generation(c, #[trigger] fresh[i]),
    ensures
        current_of(c, old_rows + fresh) == fresh,
    decreases fresh.len(),
{
    if fresh.len() == 0 {
        assert(old_rows + fresh =~= old_rows);
        lemma_current_of_none(c, old_rows);
        assert(fresh =~= Seq::<Event>::empty());
    } else {
        let shorter = fresh.drop_last();
        assert forall|i: int| 0 <= i < shorter.len() implies in_current_generation(
            c,
            #[trigger] shorter[i],
        ) by {
            assert(shorter[i] == fresh[i]);
        }
        lemma_edit_supersedes(c, old_rows, shorter);
        assert((old_rows + fresh).drop_last() =~= old_rows + shorter);
        assert((old_rows + fresh).last() == fresh.last());
        assert(current_of(c, old_rows + fresh) == shorter.push(fresh.last()));
        assert(shorter.push(fresh.last()) =~= fresh);
    }
}

// ---------------------------------------------------------------------------
// Markings
// ---------------------------------------------------------------------------

/// The row targeted by a marking write: the owner's event of this course
/// at offset index `j` — in whatever generation.
pub open spec fn mark_target(e: Event, owner: u128, course: u128, j: int) -> bool {
    e.owner == owner && e.course == course && e.j == j
}

/// `e`, re-marked.
pub open spec fn with_marking(e: Event, marking: Option<String>) -> Event {
    Event {
        owner: e.owner,
        course: e.course,
        j: e.j,
        marking: marking,
        date: e.date,
        cache_key: e.cache_key,
    }
}

/// A copy of an optional marking text.
fn clone_marking(marking: &Option<String>) -> (r: Option<String>)
    ensures
        r == *marking,
{
    match marking {
        Some(m) => Some(m.clone()),
        None => None,
    }
}

/// Stores a marking on every targeted row — the owner's events of the
/// course at offset index `j`, in every generation — and leaves every
/// other row untouched.  An empty marking text clears the marking.
pub fn mark(events: Vec<Event>, owner: u128, course: u128, j: i64, marking: String) -> (r: Vec<
    Event,
>)
    ensures
        ({
            let m = if marking@.len() == 0 {
                Option::<String>::None
            } else {
                Option::Some(marking)
            };
            &&& r@.len() == events@.len()
            &&& forall|i: int| 0 <= i < events@.len()
                ==> r@[i] == (if mark_target(#[trigger] events@[i], owner, course, j as int) {
                    with_marking(events@[i], m)
                } else {
                    events@[i]
                })
        }),
{
    let m = text::nonempty_text(marking);
    let ghost all = events@;
    let mut rest = events;
    let mut r: Vec<Event> = Vec::new();
    while rest.len() > 0
        invariant
            m == (if marking@.len() == 0 {
                Option::<String>::None
            } else {
                Option::Some(marking)
            }),
            rest@.len() <= all.len(),
            rest@ == all.skip(all.len() - rest@.len()),
            r@.len() == all.len() - rest@.len(),
            forall|i: int| 0 <= i < r@.len()
                ==> r@[i] == (if mark_target(#[trigger] all[i], owner, course, j as int) {
                    with_marking(all[i], m)
                } else {
                    all[i]
                }),
        decreases rest@.len(),
    {
        let ghost k = all.len() - rest@.len();
        let e = rest.remove(0);
        proof {
            assert(e == all[k]);
            assert(rest@ =~= all.skip(k + 1));
        }
        if e.owner == owner && e.course == course && e.j == j {
            let m2 = clone_marking(&m);
            r.push(
                Event {
                    owner: e.owner,
                    course: e.course,
                    j: e.j,
                    marking: m2,
                    date: e.date,
                    cache_key: e.cache_key,
                },
            );
        } else {
            r.push(e);
        }
    }
    r
}

// ---------------------------------------------------------------------------
// Listings
// ---------------------------------------------------------------------------

/// The occurrence tuples a course listing shows for a freshly written
/// event batch: the date and offset index of each, with no marking yet.
pub fn occurrences_of(events: &Vec<NewEvent>) -> (r: Vec<(Day, i64, Option<String>)>)
    ensures
        r@.len() == events@.len(),
        forall|i: int| 0 <= i < events@.len()
            ==> r@[i] == ((#[trigger] events@[i]).date, events@[i].j, Option::<String>::None),
{
    let mut r: Vec<(Day, i64, Option<String>)> = Vec::new();
    let mut i: usize = 0;
    while i < events.len()
        invariant
            0 <= i <= events@.len(),
            r@.len() == i,
            forall|k: int| 0 <= k < i
                ==> r@[k] == ((#[trigger] events@[k]).date, events@[k].j,
                Option::<String>::None),
        decreases events@.len() - i,
    {
        let e = &events[i];
        r.push((e.date, e.j, None));
        i = i + 1;
    }
    r
}

} // verus!
