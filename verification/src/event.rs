use vstd::prelude::*;
use crate::error::Error;
use crate::timestamp::civil_secs;
use crate::timestamp::compose_start_at;
use crate::timestamp::is_valid_date_time;
use crate::timestamp::Timestamp;
use crate::HasId;

verus! {

/// One scheduled reminder.
///
/// `start_at` is the only field scheduling decisions depend on; the
/// free-text fields are carried through untouched, and the audit
/// stamps are set once at construction and never revised.
#[derive(Debug)]
pub struct Event {
    pub id: u128,
    pub title: String,
    pub kind: String,
    pub description: String,
    pub start_at: Timestamp,
    pub end_at: Option<Timestamp>,
    pub created_at: Timestamp,
    pub updated_at: Timestamp,
}

/// An event is past when its start lies strictly before `now`.
pub open spec fn spec_is_past(e: Event, now: Timestamp) -> bool {
    e.start_at.secs < now.secs
}

/// Seconds from `now` until the event starts; negative once it is past.
pub open spec fn spec_start_in(e: Event, now: Timestamp) -> int {
    e.start_at.secs - now.secs
}

/// The events that survive a cut at `now`: those not yet past.
pub open spec fn upcoming_pred(now: Timestamp) -> spec_fn(Event) -> bool {
    |e: Event| !spec_is_past(e, now)
}

/// Events that start exactly at second `key`.
pub open spec fn same_start(key: int) -> spec_fn(Event) -> bool {
    |e: Event| e.start_at.secs == key
}

/// Ascending by start time.
pub open spec fn sorted_by_start(s: Seq<Event>) -> bool {
    forall|i: int, j: int|
        0 <= i <= j < s.len() ==> #[trigger] s[i].start_at.secs <= #[trigger] s[j].start_at.secs
}

/// Relies on chrono's `Local::now`: the current moment, read as whole
/// seconds of civil time in the machine's local time zone.
#[verifier::external_body]
fn now_timestamp() -> Timestamp {
    Timestamp { secs: chrono::Local::now().naive_local().and_utc().timestamp() }
}

/// Relies on uuid's `Uuid::new_v4`: a freshly drawn random identifier.
#[verifier::external_body]
fn fresh_id() -> u128 {
    uuid::Uuid::new_v4().as_u128()
}

/// An exact copy of the record.
pub(crate) fn clone_event(e: &Event) -> (r: Event)
    ensures
        r == *e,
{
    Event {
        id: e.id,
        title: e.title.clone(),
        kind: e.kind.clone(),
        description: e.description.clone(),
        start_at: e.start_at,
        end_at: e.end_at,
        created_at: e.created_at,
        updated_at: e.updated_at,
    }
}

/// Putting `ev` between the events that start no later and the events
/// that start strictly later appends it to the run of its own start
/// second and leaves every other run alone.
proof fn lemma_insert_keeps_key_runs(s: Seq<Event>, ev: Event, p: int)
    requires
        0 <= p <= s.len(),
        forall|k: int| 0 <= k < p ==> #[trigger] s[k].start_at.secs <= ev.start_at.secs,
        forall|k: int| p <= k < s.len() ==> #[trigger] s[k].start_at.secs > ev.start_at.secs,
    ensures
        forall|key: int| #[trigger] s.insert(p, ev).filter(same_start(key)) == (if key
            == ev.start_at.secs {
            s.filter(same_start(key)).push(ev)
        } else {
            s.filter(same_start(key))
        }),
{
    reveal(Seq::filter);
    let key0 = ev.start_at.secs;
    let t = s.insert(p, ev);
    let front = s.take(p);
    let back = s.skip(p);
    assert(s =~= front + back);
    assert(t =~= front + seq![ev] + back);
    assert forall|key: int| #[trigger] t.filter(same_start(key)) == (if key == key0 {
        s.filter(same_start(key)).push(ev)
    } else {
        s.filter(same_start(key))
    }) by {
        let pred = same_start(key);
        vstd::prelude::Seq::filter_distributes_over_add(front, seq![ev], pred);
        vstd::prelude::Seq::filter_distributes_over_add(front + seq![ev], back, pred);
        vstd::prelude::Seq::filter_distributes_over_add(front, back, pred);
        assert(seq![ev].drop_last() =~= Seq::<Event>::empty());
        assert(Seq::<Event>::empty().filter(pred) =~= Seq::<Event>::empty());
        assert(seq![ev].filter(pred) == (if pred(ev) {
            Seq::<Event>::empty().push(ev)
        } else {
            Seq::<Event>::empty()
        }));
        if key == key0 {
            assert(back.all(|x: Event| !pred(x)));
            back.lemma_all_neg_filter_empty(pred);
            assert(back.filter(pred) =~= Seq::<Event>::empty());
            assert(t.filter(pred) =~= front.filter(pred) + seq![ev].filter(pred));
            assert(s.filter(pred) =~= front.filter(pred));
            assert(t.filter(pred) =~= s.filter(pred).push(ev));
        } else {
            assert(seq![ev].filter(pred) =~= Seq::<Event>::empty());
            assert(t.filter(pred) =~= front.filter(pred) + back.filter(pred));
            assert(t.filter(pred) =~= s.filter(pred));
        }
    }
}

impl HasId for Event {
    fn get_id(&self) -> u128 {
        self.id
    }
}

impl Event {
    /// Builds a record for an event that starts at `start_at`. The
    /// identifier is drawn at random and both audit stamps are set to
    /// the moment of construction.
    pub fn new(
        title: String,
        kind: String,
        description: String,
        start_at: Timestamp,
        end_at: Option<Timestamp>,
    ) -> (e: Event)
        ensures
            e.title == title,
            e.kind == kind,
            e.description == description,
            e.start_at == start_at,
            e.end_at == end_at,
            e.created_at == e.updated_at,
    {
        let now = now_timestamp();
        Event {
            id: fresh_id(),
            title,
            kind,
            description,
            start_at,
            end_at,
            created_at: now,
            updated_at: now,
        }
    }

    /// True iff the event's start lies strictly before `now`.
    pub fn is_past(&self, now: Timestamp) -> (r: bool)
        ensures
            r == spec_is_past(*self, now),
    {
        self.start_at.secs < now.secs
    }

    /// Seconds from `now` until the event starts; negative once it is
    /// past.
    pub fn start_in(&self, now: Timestamp) -> (r: i128)
        ensures
            r == spec_start_in(*self, now),
    {
        (self.start_at.secs as i128) - (now.secs as i128)
    }

    /// Builds the start timestamp of an event from calendar
    /// components, the way the creation prompt asks for them; forwards
    /// to `compose_start_at` and rejects combinations that are not a
    /// real calendar moment.
    pub fn create_start_at(year: i32, month: u32, day: u32, hour: u32, minute: u32, second: u32)
        -> (r: Result<Timestamp, Error>)
        ensures
            r is Ok <==> is_valid_date_time(
                year as int,
                month as int,
                day as int,
                hour as int,
                minute as int,
                second as int,
            ),
            r matches Ok(t) ==> t.secs == civil_secs(
                year as int,
                month as int,
                day as int,
                hour as int,
                minute as int,
                second as int,
            ),
            r matches Err(e) ==> e == Error::InvalidDate,
    {
        compose_start_at(year, month, day, hour, minute, second)
    }

    /// A stable copy of `events` sorted ascending by start time: the
    /// result is a permutation of the input, events that share a start
    /// second keep their relative input order, and the input is left
    /// untouched.
    pub fn newest(events: &Vec<Event>) -> (r: Vec<Event>)
        ensures
            r@.to_multiset() == events@.to_multiset(),
            sorted_by_start(r@),
            forall|key: int| #[trigger] r@.filter(same_start(key)) == events@.filter(
                same_start(key),
            ),
    {
        let mut r: Vec<Event> = Vec::new();
        let mut i: usize = 0;
        proof {
            assert(events@.take(0) =~= r@);
        }
        while i < events.len()
            invariant
                i <= events.len(),
                r@.to_multiset() == events@.take(i as int).to_multiset(),
                sorted_by_start(r@),
                forall|key: int| #[trigger] r@.filter(same_start(key)) == events@.take(
                    i as int,
                ).filter(same_start(key)),
            decreases events.len() - i,
        {
            let e = clone_event(&events[i]);
            let mut p: usize = 0;
            while p < r.len() && r[p].start_at.secs <= e.start_at.secs
                invariant
                    p <= r.len(),
                    forall|k: int|
                        0 <= k < p ==> #[trigger] r@[k].start_at.secs <= e.start_at.secs,
                decreases r.len() - p,
            {
                p = p + 1;
            }
            let ghost old_r = r@;
            let ghost ev = events@[i as int];
            proof {
                assert(events@.take(i as int + 1) =~= events@.take(i as int).push(ev));
                vstd::seq_lib::to_multiset_build(events@.take(i as int), ev);
                vstd::seq_lib::to_multiset_insert(r@, p as int, e);
                assert forall|k: int|
                    p as int <= k < old_r.len() implies #[trigger] old_r[k].start_at.secs
                    > ev.start_at.secs by {
                    assert(old_r[p as int].start_at.secs > ev.start_at.secs);
                    assert(old_r[p as int].start_at.secs <= old_r[k].start_at.secs);
                }
                lemma_insert_keeps_key_runs(old_r, ev, p as int);
            }
            r.insert(p, e);
            proof {
                assert forall|key: int| #[trigger] r@.filter(same_start(key)) == events@.take(
                    i as int + 1,
                ).filter(same_start(key)) by {
                    assert(old_r.filter(same_start(key)) == events@.take(i as int).filter(
                        same_start(key),
                    ));
                    events@.take(i as int).lemma_filter_push(ev, same_start(key));
                }
            }
            i = i + 1;
        }
        proof {
            assert(events@.take(events@.len() as int) =~= events@);
        }
        r
    }

    /// A copy of `events` with every past event dropped; the survivors
    /// keep their relative order and the input is left untouched.
    pub fn filter_past(events: &Vec<Event>, now: Timestamp) -> (r: Vec<Event>)
        ensures
            r@ == events@.filter(upcoming_pred(now)),
    {
        let mut r: Vec<Event> = Vec::new();
        let mut i: usize = 0;
        while i < events.len()
            invariant
                i <= events.len(),
                r@ == events@.take(i as int).filter(upcoming_pred(now)),
            decreases events.len() - i,
        {
            proof {
                assert(events@.take(i as int + 1) =~= events@.take(i as int).push(
                    events@[i as int],
                ));
                events@.take(i as int).lemma_filter_push(events@[i as int], upcoming_pred(now));
            }
            if !events[i].is_past(now) {
                r.push(clone_event(&events[i]));
            }
            i = i + 1;
        }
        proof {
            assert(events@.take(events@.len() as int) =~= events@);
        }
        r
    }
}

/// The identifiers of the events picked out by `chosen`, in the order
/// they were picked; this is what a batch delete hands to the store.
pub fn chosen_ids(events: &Vec<Event>, chosen: &Vec<usize>) -> (r: Vec<u128>)
    requires
        forall|k: int| 0 <= k < chosen@.len() ==> #[trigger] chosen@[k] < events@.len(),
    ensures
        r@ == chosen@.map_values(|i: usize| events@[i as int].id),
{
    let mut r: Vec<u128> = Vec::new();
    let mut k: usize = 0;
    while k < chosen.len()
        invariant
            k <= chosen.len(),
            forall|j: int| 0 <= j < chosen@.len() ==> #[trigger] chosen@[j] < events@.len(),
            r@ == chosen@.take(k as int).map_values(|i: usize| events@[i as int].id),
        decreases chosen.len() - k,
    {
        let idx = chosen[k];
        r.push(events[idx].id);
        proof {
            assert(chosen@.take(k as int + 1) =~= chosen@.take(k as int).push(chosen@[k as int]));
            assert(chosen@.take(k as int + 1).map_values(|i: usize| events@[i as int].id)
                =~= chosen@.take(k as int).map_values(|i: usize| events@[i as int].id).push(
                events@[chosen@[k as int] as int].id,
            ));
        }
        k = k + 1;
    }
    proof {
        assert(chosen@.take(chosen@.len() as int) =~= chosen@);
    }
    r
}

/// Law: an event counts as past exactly when its remaining time has
/// gone negative.
pub proof fn lemma_is_past_iff_negative_remaining(e: Event, now: Timestamp)
    ensures
        spec_is_past(e, now) <==> spec_start_in(e, now) < 0,
{
}

} // verus!
