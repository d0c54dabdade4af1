use vstd::prelude::*;
use crate::event::Event;
use crate::event::spec_is_past;
use crate::event::spec_start_in;
use crate::event::sorted_by_start;
use crate::event::upcoming_pred;
use crate::timestamp::Timestamp;

verus! {

/// What one tick of the polling loop asks the surrounding application
/// to do.
pub enum TickAction {
    /// No upcoming events remain: announce that once, then stop.
    Halt,
    /// The next event starts at this very moment.
    EventNow { title: String },
    /// The next event starts in `minutes` whole minutes.
    StartsSoon { title: String, minutes: u64 },
    /// Nothing to announce this tick.
    Idle,
}

/// There is at least one event in `s` that is not yet past.
pub open spec fn has_upcoming(s: Seq<Event>, now: Timestamp) -> bool {
    exists|i: int| 0 <= i < s.len() && !spec_is_past(#[trigger] s[i], now)
}

/// `e` is a possible "next" event of `s` at `now`: it is one of the
/// events, it is not past, and no other upcoming event starts earlier.
pub open spec fn is_next_of(s: Seq<Event>, now: Timestamp, e: Event) -> bool {
    &&& s.contains(e)
    &&& !spec_is_past(e, now)
    &&& forall|i: int|
        0 <= i < s.len() && !spec_is_past(#[trigger] s[i], now) ==> e.start_at.secs
            <= s[i].start_at.secs
}

/// Per-run-session notification state: the remaining-minutes level at
/// or below which the next reminder may fire, and whether one may
/// still fire at that level.
pub struct Scheduler {
    pub threshold_minutes: i64,
    pub armed: bool,
}

/// How one tick transforms the scheduler state and what it announces,
/// given the next upcoming event `e`. Evaluated in priority order: an
/// event starting right now beats everything and re-arms the decaying
/// threshold; otherwise a reminder fires only while armed, and firing
/// lowers the threshold by five minutes and disarms.
pub open spec fn tick_step(st: Scheduler, e: Event, now: Timestamp) -> (Scheduler, TickAction) {
    let rem = spec_start_in(e, now);
    let mins = rem / 60;
    if rem == 0 {
        (
            Scheduler { threshold_minutes: 10, armed: true },
            TickAction::EventNow { title: e.title },
        )
    } else if st.armed && mins > 0 && mins <= st.threshold_minutes {
        (
            Scheduler { threshold_minutes: (st.threshold_minutes - 5) as i64, armed: false },
            TickAction::StartsSoon { title: e.title, minutes: mins as u64 },
        )
    } else {
        (st, TickAction::Idle)
    }
}

proof fn lemma_filter_keeps_sorted(s: Seq<Event>, pred: spec_fn(Event) -> bool)
    requires
        sorted_by_start(s),
    ensures
        sorted_by_start(s.filter(pred)),
    decreases s.len(),
{
    reveal(Seq::filter);
    broadcast use vstd::seq_lib::group_filter_ensures;

    if s.len() > 0 {
        let dl = s.drop_last();
        assert(sorted_by_start(dl));
        lemma_filter_keeps_sorted(dl, pred);
        if pred(s.last()) {
            assert forall|k: int| 0 <= k < dl.filter(pred).len() implies #[trigger] dl.filter(
                pred,
            )[k].start_at.secs <= s.last().start_at.secs by {
                assert(dl.filter(pred).contains(dl.filter(pred)[k]));
                dl.lemma_filter_contains_rev(pred, dl.filter(pred)[k]);
                assert(dl.contains(dl.filter(pred)[k]));
                let j = choose|j: int| 0 <= j < dl.len() && dl[j] == dl.filter(pred)[k];
                assert(s[j].start_at.secs <= s[s.len() - 1].start_at.secs);
            }
            assert(s.filter(pred) == dl.filter(pred).push(s.last()));
        }
    }
}

proof fn lemma_filter_to_multiset(s: Seq<Event>, pred: spec_fn(Event) -> bool)
    ensures
        s.filter(pred).to_multiset() == s.to_multiset().filter(pred),
    decreases s.len(),
{
    reveal(Seq::filter);
    broadcast use vstd::seq_lib::group_to_multiset_ensures;
    broadcast use vstd::multiset::group_multiset_axioms;

    if s.len() == 0 {
        assert(s.filter(pred) == s);
        assert(s.filter(pred).to_multiset() =~= s.to_multiset().filter(pred)) by {
            assert forall|v: Event| true implies s.to_multiset().filter(pred).count(v)
                == s.filter(pred).to_multiset().count(v) by {
                assert(!s.contains(v));
                assert(s.to_multiset().count(v) == 0);
            }
        }
    } else {
        let dl = s.drop_last();
        let l = s.last();
        lemma_filter_to_multiset(dl, pred);
        assert(s =~= dl.push(l));
        assert(s.to_multiset() == dl.to_multiset().insert(l));
        assert(s.filter(pred).to_multiset() =~= s.to_multiset().filter(pred)) by {
            assert forall|v: Event| true implies s.to_multiset().filter(pred).count(v)
                == s.filter(pred).to_multiset().count(v) by {
                if pred(l) {
                    assert(s.filter(pred) == dl.filter(pred).push(l));
                    assert(s.filter(pred).to_multiset() == dl.filter(pred).to_multiset().insert(
                        l,
                    ));
                }
            }
        }
    }
}

/// The events still worth watching at `now`: every event that is not
/// yet past, in ascending start order. The input is left untouched.
pub fn get_events(events: &Vec<Event>, now: Timestamp) -> (r: Vec<Event>)
    ensures
        sorted_by_start(r@),
        r@.to_multiset() == events@.to_multiset().filter(upcoming_pred(now)),
        forall|k: int| 0 <= k < r@.len() ==> !spec_is_past(#[trigger] r@[k], now),
        r@.len() > 0 <==> has_upcoming(events@, now),
{
    let sorted = Event::newest(events);
    let upcoming = Event::filter_past(&sorted, now);
    proof {
        broadcast use vstd::seq_lib::group_filter_ensures;
        broadcast use vstd::seq_lib::group_to_multiset_ensures;
        broadcast use vstd::multiset::group_multiset_axioms;

        let pred = upcoming_pred(now);
        lemma_filter_keeps_sorted(sorted@, pred);
        lemma_filter_to_multiset(sorted@, pred);
        if upcoming@.len() > 0 {
            assert(upcoming@.contains(upcoming@[0]));
            assert(upcoming@.to_multiset().count(upcoming@[0]) > 0);
            assert(events@.to_multiset().count(upcoming@[0]) > 0);
            assert(events@.contains(upcoming@[0]));
            let i = choose|i: int| 0 <= i < events@.len() && events@[i] == upcoming@[0];
            assert(pred(upcoming@[0]));
            assert(has_upcoming(events@, now));
        }
        if has_upcoming(events@, now) {
            let i = choose|i: int| 0 <= i < events@.len() && !spec_is_past(events@[i], now);
            assert(events@.contains(events@[i]));
            assert(events@.to_multiset().count(events@[i]) > 0);
            assert(sorted@.to_multiset().count(events@[i]) > 0);
            assert(sorted@.contains(events@[i]));
            let j = choose|j: int| 0 <= j < sorted@.len() && sorted@[j] == events@[i];
            assert(sorted@.filter(pred).contains(sorted@[j]));
        }
    }
    upcoming
}

/// The single next upcoming event (a copy), if any, together with how
/// many upcoming events there are in all.
pub fn get_next_event(events: &Vec<Event>, now: Timestamp) -> (r: (Option<Event>, usize))
    ensures
        r.1 == events@.to_multiset().filter(upcoming_pred(now)).len(),
        r.0 is Some <==> has_upcoming(events@, now),
        r.0 matches Some(e) ==> is_next_of(events@, now, e),
{
    let upcoming = get_events(events, now);
    proof {
        broadcast use vstd::seq_lib::group_to_multiset_ensures;
        broadcast use vstd::multiset::group_multiset_axioms;

        let pred = upcoming_pred(now);
        if upcoming@.len() > 0 {
            assert(upcoming@.contains(upcoming@[0]));
            assert(events@.to_multiset().filter(pred).count(upcoming@[0]) > 0);
            assert(events@.to_multiset().count(upcoming@[0]) > 0);
            assert(events@.contains(upcoming@[0]));
            assert forall|i: int|
                0 <= i < events@.len() && !spec_is_past(#[trigger] events@[i], now) implies
                upcoming@[0].start_at.secs <= events@[i].start_at.secs by {
                assert(events@.contains(events@[i]));
                assert(events@.to_multiset().count(events@[i]) > 0);
                assert(pred(events@[i]));
                assert(upcoming@.to_multiset().count(events@[i]) > 0);
                assert(upcoming@.contains(events@[i]));
                let j = choose|j: int| 0 <= j < upcoming@.len() && upcoming@[j] == events@[i];
                assert(upcoming@[0].start_at.secs <= upcoming@[j].start_at.secs);
            }
            assert(is_next_of(events@, now, upcoming@[0]));
        }
    }
    if upcoming.len() > 0 {
        let first = crate::event::clone_event(&upcoming[0]);
        (Some(first), upcoming.len())
    } else {
        (None, 0)
    }
}

/// Breaks a non-negative number of remaining seconds into whole
/// hours, minutes within the hour, and leftover seconds, the way the
/// status display shows them.
pub fn split_duration(total_secs: u64) -> (r: (u64, u64, u64))
    ensures
        r.0 == total_secs as int / 3600,
        r.1 == (total_secs as int % 3600) / 60,
        r.2 == total_secs as int % 60,
        r.0 * 3600 + r.1 * 60 + r.2 == total_secs,
        r.1 < 60,
        r.2 < 60,
{
    proof {
        vstd::arithmetic::div_mod::lemma_fundamental_div_mod(total_secs as int, 3600int);
        vstd::arithmetic::div_mod::lemma_fundamental_div_mod(total_secs as int % 3600, 60int);
        vstd::arithmetic::div_mod::lemma_mod_multiples_vanish(
            (-60) * (total_secs as int / 3600),
            total_secs as int,
            60int,
        );
    }
    (total_secs / 3600, (total_secs % 3600) / 60, total_secs % 60)
}

impl Scheduler {
    /// The states a run-session can be in: the threshold only decays
    /// in five-minute steps from ten, and while armed it has not
    /// decayed at all.
    pub open spec fn wf(self) -> bool {
        &&& 0 <= self.threshold_minutes <= 10
        &&& self.armed ==> self.threshold_minutes == 10
    }

    /// Fresh per-run-session state: threshold at ten minutes, armed.
    pub fn new() -> (s: Scheduler)
        ensures
            s.threshold_minutes == 10,
            s.armed,
            s.wf(),
    {
        Scheduler { threshold_minutes: 10, armed: true }
    }

    /// One tick of the polling loop at wall-clock `now`, over the full
    /// contents of the store. With no upcoming event left the session
    /// halts and the state is untouched; otherwise the state and the
    /// announcement follow `tick_step` for some next upcoming event
    /// (ties on the start time are broken arbitrarily).
    pub fn tick(&mut self, events: &Vec<Event>, now: Timestamp) -> (r: TickAction)
        requires
            old(self).wf(),
        ensures
            final(self).wf(),
            r is Halt <==> !has_upcoming(events@, now),
            !has_upcoming(events@, now) ==> *final(self) == *old(self),
            has_upcoming(events@, now) ==> exists|e: Event|
                #[trigger] is_next_of(events@, now, e) && tick_step(*old(self), e, now) == (
                *final(self),
                r,
                ),
    {
        let (next, _total) = get_next_event(events, now);
        match next {
            None => TickAction::Halt,
            Some(e) => {
                let ghost w = e;
                let rem_wide: i128 = e.start_in(now);
                let rem: u64 = rem_wide as u64;
                proof {
                    vstd::arithmetic::div_mod::lemma_fundamental_div_mod(rem as int, 60int);
                }
                let mins: u64 = rem / 60;
                if rem == 0 {
                    self.threshold_minutes = 10;
                    self.armed = true;
                    let r = TickAction::EventNow { title: e.title };
                    proof {
                        assert(is_next_of(events@, now, w) && tick_step(*old(self), w, now) == (
                        *self,
                        r,
                        ));
                    }
                    r
                } else if self.armed && mins > 0 && mins <= self.threshold_minutes as u64 {
                    self.threshold_minutes = self.threshold_minutes - 5;
                    self.armed = false;
                    let r = TickAction::StartsSoon { title: e.title, minutes: mins };
                    proof {
                        assert(is_next_of(events@, now, w) && tick_step(*old(self), w, now) == (
                        *self,
                        r,
                        ));
                    }
                    r
                } else {
                    let r = TickAction::Idle;
                    proof {
                        assert(is_next_of(events@, now, w) && tick_step(*old(self), w, now) == (
                        *self,
                        r,
                        ));
                    }
                    r
                }
            },
        }
    }
}

} // verus!
