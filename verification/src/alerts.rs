//! The alert queue: which alerts may be shown, in what order, and when an
//! alert that was shown may be shown again.
//!
//! The rules are functions of a reading of the manager's clock. Each method
//! that depends on time comes twice: with the reading as an argument, and
//! without, reading the clock itself.

use vstd::prelude::*;
use vstd::string::*;
use crate::clock::{elapsed_secs, seconds_between, MonotonicClock};
use crate::keyed::{fresh_stamps, KeySet, StampMap};
use crate::models::{alerts_view, clone_alerts, Alert, AlertView};

verus! {

/// Seconds during which an alert that was shown is not shown again.
pub const COOLDOWN_SECONDS: u64 = 300;

/// The most alerts that the queue holds.
pub const MAX_QUEUE_SIZE: usize = 10;

/// Seconds that must have passed since the last cleanup before the periodic
/// cleanup runs again.
pub const CLEANUP_INTERVAL_SECONDS: u64 = 60;

/// Characters of an alert's text that stand for its id where it has none.
pub const KEY_TEXT_CHARS: usize = 100;

/// The priority of an alert from the numeric code of its effect: the code
/// itself from 1 to 9, and 10, the least urgent, for every other code.
pub open spec fn effect_priority_spec(effect_value: int) -> int {
    if 1 <= effect_value <= 9 {
        effect_value
    } else {
        10
    }
}

/// The priority of an alert from the numeric code of its effect.
pub fn effect_priority(effect_value: i32) -> (p: i32)
    ensures
        p == effect_priority_spec(effect_value as int),
{
    if 1 <= effect_value && effect_value <= 9 {
        effect_value
    } else {
        10
    }
}

/// The key under which an alert is remembered: its id, or the first hundred
/// characters of its text where the id is empty.
pub open spec fn alert_key(alert: AlertView) -> Seq<char> {
    if alert.alert_id.len() > 0 {
        alert.alert_id
    } else if alert.text.len() > 100 {
        alert.text.subrange(0, 100)
    } else {
        alert.text
    }
}

/// Where an alert goes in a list sorted by priority: behind the last alert
/// that is at least as urgent.
pub open spec fn insert_position(sorted: Seq<AlertView>, priority: int) -> int
    decreases sorted.len(),
{
    if sorted.len() == 0 {
        0
    } else if sorted.last().priority <= priority {
        sorted.len() as int
    } else {
        insert_position(sorted.drop_last(), priority)
    }
}

/// The alerts in ascending order of priority; alerts of one priority keep
/// the order they came in.
pub open spec fn sort_by_priority(alerts: Seq<AlertView>) -> Seq<AlertView>
    decreases alerts.len(),
{
    if alerts.len() == 0 {
        Seq::empty()
    } else {
        let sorted = sort_by_priority(alerts.drop_last());
        sorted.insert(insert_position(sorted, alerts.last().priority), alerts.last())
    }
}

/// Priorities never fall along the list.
pub open spec fn ascending(alerts: Seq<AlertView>) -> bool {
    forall|i: int, j: int|
        0 <= i <= j < alerts.len() ==> (#[trigger] alerts[i]).priority <= (
        #[trigger] alerts[j]).priority
}

/// An alert goes behind every alert that is at least as urgent and in
/// front of every alert that is less urgent.
pub proof fn lemma_insert_position(sorted: Seq<AlertView>, priority: int)
    requires
        ascending(sorted),
    ensures
        0 <= insert_position(sorted, priority) <= sorted.len(),
        forall|i: int|
            0 <= i < insert_position(sorted, priority) ==> (#[trigger] sorted[i]).priority
                <= priority,
        forall|i: int|
            insert_position(sorted, priority) <= i < sorted.len() ==> (#[trigger] sorted[i]).priority
                > priority,
    decreases sorted.len(),
{
    if sorted.len() > 0 && sorted.last().priority > priority {
        let front = sorted.drop_last();
        assert forall|i: int, j: int| 0 <= i <= j < front.len() implies (
        #[trigger] front[i]).priority <= (#[trigger] front[j]).priority by {
            assert(front[i] == sorted[i]);
            assert(front[j] == sorted[j]);
        }
        lemma_insert_position(front, priority);
        let p = insert_position(front, priority);
        assert forall|i: int| 0 <= i < p implies (#[trigger] sorted[i]).priority <= priority by {
            assert(front[i] == sorted[i]);
        }
        assert forall|i: int| p <= i < sorted.len() implies (#[trigger] sorted[i]).priority
            > priority by {
            if i < front.len() {
                assert(front[i] == sorted[i]);
            }
        }
    } else if sorted.len() > 0 {
        assert forall|i: int| 0 <= i < sorted.len() implies (#[trigger] sorted[i]).priority
            <= priority by {
            assert(sorted[i].priority <= sorted.last().priority);
        }
    }
}

/// Sorting keeps every alert and puts the priorities in ascending order.
pub proof fn lemma_sort_by_priority(alerts: Seq<AlertView>)
    ensures
        sort_by_priority(alerts).len() == alerts.len(),
        ascending(sort_by_priority(alerts)),
        sort_by_priority(alerts).to_multiset() == alerts.to_multiset(),
    decreases alerts.len(),
{
    broadcast use vstd::seq_lib::group_to_multiset_ensures;

    if alerts.len() > 0 {
        let front = alerts.drop_last();
        lemma_sort_by_priority(front);
        let sorted = sort_by_priority(front);
        let a = alerts.last();
        lemma_insert_position(sorted, a.priority);
        let p = insert_position(sorted, a.priority);
        let out = sorted.insert(p, a);
        assert forall|i: int, j: int| 0 <= i <= j < out.len() implies (#[trigger] out[i]).priority
            <= (#[trigger] out[j]).priority by {
            if i < p {
                assert(out[i] == sorted[i]);
            } else if i > p {
                assert(out[i] == sorted[i - 1]);
            }
            if j < p {
                assert(out[j] == sorted[j]);
            } else if j > p {
                assert(out[j] == sorted[j - 1]);
            }
        }
        assert(alerts =~= front.push(a));
        vstd::seq_lib::to_multiset_insert(sorted, p, a);
        vstd::seq_lib::to_multiset_build(front, a);
    }
}

/// The mathematical value of an [`AlertManager`].
pub struct ManagerView {
    /// The alerts to show, in order.
    pub queue: Seq<AlertView>,
    /// The place in the queue where the search for the next alert starts.
    pub cursor: nat,
    /// For each key that was shown, the clock reading at that time.
    pub cooldowns: Map<Seq<char>, nat>,
    /// The keys shown since the cycle began.
    pub shown: Set<Seq<char>>,
    /// The clock reading at the last cleanup.
    pub last_cleanup: nat,
}

impl ManagerView {
    /// The queue is capped and the cursor points into it.
    pub open spec fn wf(self) -> bool {
        &&& self.queue.len() <= MAX_QUEUE_SIZE
        &&& (self.cursor == 0 || self.cursor < self.queue.len())
    }

    /// Whether the alert with a key was shown less than the cooldown ago.
    pub open spec fn on_cooldown(self, key: Seq<char>, now: nat) -> bool {
        self.cooldowns.contains_key(key) && elapsed_secs(now, self.cooldowns[key]) < COOLDOWN_SECONDS
    }

    /// Whether an alert may be shown next: it was not shown in this cycle
    /// and is not on cooldown.
    pub open spec fn displayable(self, alert: AlertView, now: nat) -> bool {
        !self.shown.contains(alert_key(alert)) && !self.on_cooldown(alert_key(alert), now)
    }

    /// The manager after a cleanup: the cooldown entries that are twice the
    /// cooldown old or older are gone.
    pub open spec fn cleaned(self, now: nat) -> ManagerView {
        ManagerView {
            cooldowns: fresh_stamps(self.cooldowns, now, (2 * COOLDOWN_SECONDS) as nat),
            last_cleanup: now,
            ..self
        }
    }

    /// The alerts among `alerts` that are not on cooldown, in their order.
    pub open spec fn off_cooldown(self, alerts: Seq<AlertView>, now: nat) -> Seq<AlertView>
        decreases alerts.len(),
    {
        if alerts.len() == 0 {
            Seq::empty()
        } else {
            let front = self.off_cooldown(alerts.drop_last(), now);
            if self.on_cooldown(alert_key(alerts.last()), now) {
                front
            } else {
                front.push(alerts.last())
            }
        }
    }

    /// The queue made from candidate alerts: those not on cooldown, most
    /// urgent first, at most ten.
    pub open spec fn queue_from(self, alerts: Seq<AlertView>, now: nat) -> Seq<AlertView> {
        let sorted = sort_by_priority(self.off_cooldown(alerts, now));
        if sorted.len() > MAX_QUEUE_SIZE {
            sorted.subrange(0, MAX_QUEUE_SIZE as int)
        } else {
            sorted
        }
    }

    /// The manager after new candidate alerts came in: cleaned, with the new
    /// queue, and with the cursor back at the start where it no longer
    /// points into the queue.
    pub open spec fn refilled(self, alerts: Seq<AlertView>, now: nat) -> ManagerView {
        let cleaned = self.cleaned(now);
        let queue = cleaned.queue_from(alerts, now);
        ManagerView {
            queue,
            cursor: if cleaned.cursor >= queue.len() {
                0
            } else {
                cleaned.cursor
            },
            ..cleaned
        }
    }

    /// The index of the first displayable alert at or after `offset` places
    /// behind the cursor, going round the queue once.
    pub open spec fn next_from(self, now: nat, offset: nat) -> Option<int>
        decreases self.queue.len() - offset,
    {
        if offset >= self.queue.len() {
            None
        } else {
            let i = ((self.cursor + offset) as int) % (self.queue.len() as int);
            if self.displayable(self.queue[i], now) {
                Some(i)
            } else {
                self.next_from(now, offset + 1)
            }
        }
    }

    /// The index of the alert to show next.
    pub open spec fn next_index(self, now: nat) -> Option<int> {
        self.next_from(now, 0)
    }

    /// The alert to show next.
    pub open spec fn next_alert(self, now: nat) -> Option<AlertView> {
        match self.next_index(now) {
            Some(i) => Some(self.queue[i]),
            None => None,
        }
    }

    /// The manager after an alert was shown: the alert's cooldown starts,
    /// its key counts as shown in this cycle, and the cursor moves on by one
    /// place, round the queue.
    pub open spec fn marked(self, key: Seq<char>, now: nat) -> ManagerView {
        ManagerView {
            cooldowns: self.cooldowns.insert(key, now),
            shown: self.shown.insert(key),
            cursor: if self.queue.len() > 0 {
                (((self.cursor + 1) as int) % (self.queue.len() as int)) as nat
            } else {
                self.cursor
            },
            ..self
        }
    }

    /// The manager at the start of a cycle: nothing shown, cursor at the
    /// start.
    pub open spec fn cycle_reset(self) -> ManagerView {
        ManagerView { shown: Set::empty(), cursor: 0, ..self }
    }

    /// Whether every alert of the queue was shown in this cycle.
    pub open spec fn all_shown(self) -> bool {
        forall|i: int| 0 <= i < self.queue.len() ==> self.shown.contains(alert_key(#[trigger] self.queue[i]))
    }

    /// Whether some alert of the queue is not on cooldown.
    pub open spec fn has_alerts(self, now: nat) -> bool {
        exists|i: int|
            0 <= i < self.queue.len() && !self.on_cooldown(alert_key(#[trigger] self.queue[i]), now)
    }

    /// The manager after the periodic cleanup: cleaned where more than a
    /// minute has passed since the last cleanup, else as it was.
    pub open spec fn tidied(self, now: nat) -> ManagerView {
        if elapsed_secs(now, self.last_cleanup) > CLEANUP_INTERVAL_SECONDS {
            self.cleaned(now)
        } else {
            self
        }
    }

    /// The manager after the alerts with the given keys were shown one after
    /// the other at the given clock readings.
    pub open spec fn marked_all(self, keys: Seq<Seq<char>>, times: Seq<nat>) -> ManagerView
        decreases keys.len(),
    {
        if keys.len() == 0 {
            self
        } else {
            self.marked_all(keys.drop_last(), times.drop_last()).marked(keys.last(), times.last())
        }
    }
}

/// Showing alerts changes neither the queue nor what was shown before.
pub proof fn lemma_marked_all(v: ManagerView, keys: Seq<Seq<char>>, times: Seq<nat>)
    ensures
        v.marked_all(keys, times).queue == v.queue,
        forall|k: Seq<char>| v.shown.contains(k) ==> v.marked_all(keys, times).shown.contains(k),
        forall|i: int| 0 <= i < keys.len() ==> v.marked_all(keys, times).shown.contains(#[trigger] keys[i]),
    decreases keys.len(),
{
    if keys.len() > 0 {
        lemma_marked_all(v, keys.drop_last(), times.drop_last());
        assert forall|i: int| 0 <= i < keys.len() implies v.marked_all(keys, times).shown.contains(
            #[trigger] keys[i],
        ) by {
            if i < keys.len() - 1 {
                assert(keys.drop_last()[i] == keys[i]);
            }
        }
    }
}

/// Once every alert of the queue has been marked as shown, in whatever order
/// and at whatever times, all alerts count as shown in this cycle.
pub proof fn lemma_all_shown_after_marking_each(
    v: ManagerView,
    keys: Seq<Seq<char>>,
    times: Seq<nat>,
)
    requires
        forall|i: int| 0 <= i < v.queue.len() ==> keys.contains(alert_key(#[trigger] v.queue[i])),
    ensures
        v.marked_all(keys, times).all_shown(),
{
    lemma_marked_all(v, keys, times);
    let after = v.marked_all(keys, times);
    assert forall|i: int| 0 <= i < after.queue.len() implies after.shown.contains(
        alert_key(#[trigger] after.queue[i]),
    ) by {
        let key = alert_key(v.queue[i]);
        assert(keys.contains(key));
        let j = choose|j: int| 0 <= j < keys.len() && keys[j] == key;
        assert(after.shown.contains(keys[j]));
    }
}

/// After a reset of the cycle no alert counts as shown, so a queue that is
/// not empty is not all shown.
pub proof fn lemma_reset_cycle_unshows(v: ManagerView)
    requires
        v.queue.len() > 0,
    ensures
        !v.cycle_reset().all_shown(),
{
    let after = v.cycle_reset();
    assert(!after.shown.contains(alert_key(after.queue[0])));
}

/// The queue made from candidate alerts holds at most ten alerts, most
/// urgent first; of more than ten candidates off cooldown it holds ten.
pub proof fn lemma_queue_from(v: ManagerView, alerts: Seq<AlertView>, now: nat)
    ensures
        v.queue_from(alerts, now).len() <= 10,
        v.queue_from(alerts, now).len() == if v.off_cooldown(alerts, now).len() > 10 {
            10
        } else {
            v.off_cooldown(alerts, now).len()
        },
        ascending(v.queue_from(alerts, now)),
{
    let kept = v.off_cooldown(alerts, now);
    lemma_sort_by_priority(kept);
    let sorted = sort_by_priority(kept);
    let queue = v.queue_from(alerts, now);
    assert forall|i: int, j: int| 0 <= i <= j < queue.len() implies (#[trigger] queue[i]).priority
        <= (#[trigger] queue[j]).priority by {
        assert(queue[i] == sorted[i]);
        assert(queue[j] == sorted[j]);
    }
}

/// With no alert on cooldown, every candidate stays.
pub proof fn lemma_off_cooldown_all(v: ManagerView, alerts: Seq<AlertView>, now: nat)
    requires
        forall|i: int| 0 <= i < alerts.len() ==> !v.on_cooldown(alert_key(#[trigger] alerts[i]), now),
    ensures
        v.off_cooldown(alerts, now) == alerts,
    decreases alerts.len(),
{
    if alerts.len() > 0 {
        let front = alerts.drop_last();
        assert forall|i: int| 0 <= i < front.len() implies !v.on_cooldown(
            alert_key(#[trigger] front[i]),
            now,
        ) by {
            assert(front[i] == alerts[i]);
        }
        lemma_off_cooldown_all(v, front, now);
        assert(alerts =~= front.push(alerts.last()));
    }
}

/// Taking in more than ten candidate alerts, none of them on cooldown,
/// leaves a queue of exactly ten, most urgent first.
pub proof fn lemma_refill_caps_queue(v: ManagerView, alerts: Seq<AlertView>, now: nat)
    requires
        alerts.len() >= 10,
        forall|i: int|
            0 <= i < alerts.len() ==> !v.cleaned(now).on_cooldown(
                alert_key(#[trigger] alerts[i]),
                now,
            ),
    ensures
        v.refilled(alerts, now).queue.len() == 10,
        ascending(v.refilled(alerts, now).queue),
        v.refilled(alerts, now).wf(),
{
    lemma_off_cooldown_all(v.cleaned(now), alerts, now);
    lemma_queue_from(v.cleaned(now), alerts, now);
}

/// In a cycle that has just been reset, the first displayable alert is
/// found from any place before it.
pub proof fn lemma_next_from_finds(v: ManagerView, now: nat, offset: nat, i: int)
    requires
        v.cursor == 0,
        offset <= i < v.queue.len(),
        v.displayable(v.queue[i], now),
    ensures
        v.next_from(now, offset) is Some,
    decreases i - offset,
{
    vstd::arithmetic::div_mod::lemma_small_mod(offset, v.queue.len());
    if offset < i && !v.displayable(v.queue[offset as int], now) {
        lemma_next_from_finds(v, now, offset + 1, i);
    }
}

/// A manager that has alerts has an alert to show once its cycle is reset.
pub proof fn lemma_next_after_reset(v: ManagerView, now: nat)
    requires
        v.has_alerts(now),
    ensures
        v.cycle_reset().next_alert(now) is Some,
{
    let reset = v.cycle_reset();
    let i = choose|i: int|
        0 <= i < v.queue.len() && !v.on_cooldown(alert_key(#[trigger] v.queue[i]), now);
    assert(reset.displayable(reset.queue[i], now));
    lemma_next_from_finds(reset, now, 0, i);
}

/// The key under which an alert is remembered.
pub fn key_of(alert: &Alert) -> (key: String)
    ensures
        key@ == alert_key(alert@),
{
    if alert.alert_id.as_str().unicode_len() > 0 {
        alert.alert_id.clone()
    } else {
        let text = alert.text.as_str();
        let count = text.unicode_len();
        if count > KEY_TEXT_CHARS {
            String::from_str(text.substring_char(0, KEY_TEXT_CHARS))
        } else {
            alert.text.clone()
        }
    }
}

/// Keeps the queue of alerts, the cooldown of each alert that was shown, and
/// what was shown in the present cycle.
pub struct AlertManager {
    clock: MonotonicClock,
    cooldowns: StampMap,
    queue: Vec<Alert>,
    queue_index: usize,
    shown_this_cycle: KeySet,
    last_cleanup: u64,
}

impl View for AlertManager {
    type V = ManagerView;

    closed spec fn view(&self) -> ManagerView {
        ManagerView {
            queue: alerts_view(self.queue@),
            cursor: self.queue_index as nat,
            cooldowns: self.cooldowns@,
            shown: self.shown_this_cycle@,
            last_cleanup: self.last_cleanup as nat,
        }
    }
}

impl AlertManager {
    /// The internal tables are consistent, the queue is capped and the
    /// cursor points into it.
    pub closed spec fn wf(&self) -> bool {
        &&& self.cooldowns.wf()
        &&& self@.wf()
    }

    /// A manager with an empty queue whose clock starts now.
    pub fn new() -> (m: AlertManager)
        ensures
            m.wf(),
            m@.queue.len() == 0,
            m@.cursor == 0,
            m@.cooldowns == Map::<Seq<char>, nat>::empty(),
            m@.shown == Set::<Seq<char>>::empty(),
    {
        let clock = MonotonicClock::new();
        let now = clock.now_ms();
        AlertManager {
            clock,
            cooldowns: StampMap::new(),
            queue: Vec::new(),
            queue_index: 0,
            shown_this_cycle: KeySet::new(),
            last_cleanup: now,
        }
    }

    /// The present reading of the manager's clock, in milliseconds.
    pub fn now(&self) -> u64 {
        self.clock.now_ms()
    }

    /// Whether an alert was shown less than the cooldown ago.
    fn is_on_cooldown(&self, alert: &Alert, now: u64) -> (r: bool)
        requires
            self.wf(),
        ensures
            r == self@.on_cooldown(alert_key(alert@), now as nat),
    {
        let key = key_of(alert);
        match self.cooldowns.get(key.as_str()) {
            Some(last_shown) => seconds_between(now, last_shown) < COOLDOWN_SECONDS,
            None => false,
        }
    }

    /// Forgets the alerts whose cooldown is over.
    fn cleanup_cooldowns(&mut self, now: u64)
        requires
            old(self).wf(),
        ensures
            final(self).wf(),
            final(self)@ == old(self)@.cleaned(now as nat),
    {
        let cutoff = COOLDOWN_SECONDS * 2;
        self.cooldowns.retain_fresh(now, cutoff);
        self.last_cleanup = now;
    }

    /// Takes in new candidate alerts at the clock reading `now`: drops those
    /// on cooldown, sorts the rest by priority, keeps the first ten as the
    /// new queue and returns a copy of it.
    pub fn filter_and_sort_at(&mut self, alerts: &[Alert], now: u64) -> (queue: Vec<Alert>)
        requires
            old(self).wf(),
        ensures
            final(self).wf(),
            final(self)@ == old(self)@.refilled(alerts_view(alerts@), now as nat),
            alerts_view(queue@) == final(self)@.queue,
    {
        self.cleanup_cooldowns(now);
        let ghost cleaned = self@;
        let ghost candidates = alerts_view(alerts@);
        let mut sorted: Vec<Alert> = Vec::new();
        let mut i: usize = 0;
        assert(candidates.take(0) =~= Seq::<AlertView>::empty());
        assert(alerts_view(sorted@) =~= Seq::<AlertView>::empty());
        while i < alerts.len()
            invariant
                i <= alerts@.len(),
                self.wf(),
                self@ == cleaned,
                candidates == alerts_view(alerts@),
                alerts_view(sorted@) == sort_by_priority(
                    cleaned.off_cooldown(candidates.take(i as int), now as nat),
                ),
            decreases alerts@.len() - i,
        {
            proof {
                assert(candidates.take(i + 1).drop_last() =~= candidates.take(i as int));
                assert(candidates.take(i + 1).last() == alerts@[i as int]@);
            }
            let alert = &alerts[i];
            if !self.is_on_cooldown(alert, now) {
                let ghost kept = cleaned.off_cooldown(candidates.take(i as int), now as nat);
                let ghost before = alerts_view(sorted@);
                proof {
                    lemma_sort_by_priority(kept);
                    assert(kept.push(alert@).drop_last() =~= kept);
                }
                let mut pos: usize = sorted.len();
                assert(before.take(pos as int) =~= before);
                while pos > 0 && sorted[pos - 1].priority > alert.priority
                    invariant
                        pos <= sorted@.len(),
                        before == alerts_view(sorted@),
                        insert_position(before, alert@.priority) == insert_position(
                            before.take(pos as int),
                            alert@.priority,
                        ),
                    decreases pos,
                {
                    assert(before.take(pos as int).drop_last() =~= before.take(pos - 1));
                    pos -= 1;
                }
                proof {
                    if pos > 0 {
                        assert(before.take(pos as int).last() == sorted@[pos - 1]@);
                    }
                    assert(before.take(sorted@.len() as int) =~= before);
                    assert(insert_position(before, alert@.priority) == pos);
                }
                sorted.insert(pos, alert.clone());
                assert(alerts_view(sorted@) =~= before.insert(pos as int, alert@));
            }
            i += 1;
        }
        assert(candidates.take(i as int) =~= candidates);
        let ghost all_sorted = alerts_view(sorted@);
        if sorted.len() > MAX_QUEUE_SIZE {
            sorted.truncate(MAX_QUEUE_SIZE);
            assert(alerts_view(sorted@) =~= all_sorted.subrange(0, 10));
        }
        let result = clone_alerts(&sorted);
        self.queue = sorted;
        if self.queue_index >= self.queue.len() {
            self.queue_index = 0;
        }
        result
    }

    /// Takes in new candidate alerts now.
    pub fn filter_and_sort(&mut self, alerts: &[Alert]) -> (queue: Vec<Alert>)
        requires
            old(self).wf(),
        ensures
            final(self).wf(),
            exists|now: nat| #[trigger]
                old(self)@.refilled(alerts_view(alerts@), now) == final(self)@,
            alerts_view(queue@) == final(self)@.queue,
    {
        let now = self.now();
        self.filter_and_sort_at(alerts, now)
    }

    /// The alert to show next at the clock reading `now`: the first one from
    /// the cursor on, round the queue, that was not shown in this cycle and
    /// is not on cooldown. The manager is left as it is.
    pub fn get_next_alert_at(&self, now: u64) -> (r: Option<&Alert>)
        requires
            self.wf(),
        ensures
            match r {
                Some(alert) => self@.next_alert(now as nat) == Some(alert@),
                None => self@.next_alert(now as nat) is None,
            },
    {
        let len = self.queue.len();
        if len == 0 {
            return None;
        }
        let mut checked: usize = 0;
        let mut idx: usize = self.queue_index;
        proof {
            vstd::arithmetic::div_mod::lemma_small_mod(self@.cursor, len as nat);
        }
        while checked < len
            invariant
                checked <= len,
                len == self.queue@.len(),
                len <= 10,
                self.wf(),
                idx < len,
                checked < len ==> idx == ((self@.cursor + checked) as int) % (len as int),
                self@.next_index(now as nat) == self@.next_from(now as nat, checked as nat),
            decreases len - checked,
        {
            let alert = &self.queue[idx];
            let key = key_of(alert);
            if !self.shown_this_cycle.contains(key.as_str()) && !self.is_on_cooldown(alert, now) {
                return Some(alert);
            }
            proof {
                let c = self@.cursor as int;
                let n = len as int;
                assert(((c + checked) % n + 1) % n == (c + checked + 1) % n) by (nonlinear_arith)
                    requires
                        n > 0,
                        c >= 0,
                        checked >= 0,
                ;
            }
            idx = (idx + 1) % len;
            checked += 1;
        }
        None
    }

    /// The alert to show next now.
    pub fn get_next_alert(&self) -> (r: Option<&Alert>)
        requires
            self.wf(),
        ensures
            exists|now: nat|
                match r {
                    Some(alert) => #[trigger] self@.next_alert(now) == Some(alert@),
                    None => self@.next_alert(now) is None,
                },
    {
        let now = self.now();
        let r = self.get_next_alert_at(now);
        proof {
            let t = now as nat;
            assert(match r {
                Some(alert) => self@.next_alert(t) == Some(alert@),
                None => self@.next_alert(t) is None,
            });
        }
        r
    }

    /// Moves the cursor on by one, around the end of the queue.
    fn advance_queue(&mut self)
        requires
            old(self).wf(),
        ensures
            final(self).wf(),
            final(self)@ == (ManagerView {
                cursor: if old(self)@.queue.len() > 0 {
                    (((old(self)@.cursor + 1) as int) % (old(self)@.queue.len() as int)) as nat
                } else {
                    old(self)@.cursor
                },
                ..old(self)@
            }),
    {
        let len = self.queue.len();
        if len > 0 {
            self.queue_index = (self.queue_index + 1) % len;
        }
    }

    /// Records at the clock reading `now` that an alert was shown.
    pub fn mark_displayed_at(&mut self, alert: &Alert, now: u64)
        requires
            old(self).wf(),
        ensures
            final(self).wf(),
            final(self)@ == old(self)@.marked(alert_key(alert@), now as nat),
    {
        let key = key_of(alert);
        self.cooldowns.insert(key.as_str(), now);
        self.shown_this_cycle.insert(key.as_str());
        self.advance_queue();
    }

    /// Records that an alert was shown now.
    pub fn mark_displayed(&mut self, alert: &Alert)
        requires
            old(self).wf(),
        ensures
            final(self).wf(),
            exists|now: nat| #[trigger] old(self)@.marked(alert_key(alert@), now) == final(self)@,
    {
        let now = self.now();
        self.mark_displayed_at(alert, now);
    }

    /// Starts a new cycle: nothing counts as shown and the cursor is at the
    /// start of the queue.
    pub fn reset_cycle(&mut self)
        requires
            old(self).wf(),
        ensures
            final(self).wf(),
            final(self)@ == old(self)@.cycle_reset(),
    {
        self.shown_this_cycle.clear();
        self.queue_index = 0;
    }

    /// Whether every alert of the queue was shown in this cycle. True for an
    /// empty queue.
    pub fn all_shown_this_cycle(&self) -> (r: bool)
        requires
            self.wf(),
        ensures
            r == self@.all_shown(),
    {
        let mut i: usize = 0;
        while i < self.queue.len()
            invariant
                i <= self.queue@.len(),
                forall|j: int|
                    0 <= j < i ==> self@.shown.contains(alert_key(#[trigger] self@.queue[j])),
            decreases self.queue@.len() - i,
        {
            let key = key_of(&self.queue[i]);
            if !self.shown_this_cycle.contains(key.as_str()) {
                assert(!self@.shown.contains(alert_key(self@.queue[i as int])));
                return false;
            }
            i += 1;
        }
        true
    }

    /// The number of alerts in the queue.
    pub fn queue_size(&self) -> (n: usize)
        ensures
            n == self@.queue.len(),
    {
        self.queue.len()
    }

    /// Whether some alert of the queue is not on cooldown at the clock
    /// reading `now`.
    pub fn has_alerts_at(&self, now: u64) -> (r: bool)
        requires
            self.wf(),
        ensures
            r == self@.has_alerts(now as nat),
    {
        let mut i: usize = 0;
        while i < self.queue.len()
            invariant
                i <= self.queue@.len(),
                self.wf(),
                forall|j: int|
                    0 <= j < i ==> self@.on_cooldown(alert_key(#[trigger] self@.queue[j]), now as nat),
            decreases self.queue@.len() - i,
        {
            if !self.is_on_cooldown(&self.queue[i], now) {
                assert(!self@.on_cooldown(alert_key(self@.queue[i as int]), now as nat));
                return true;
            }
            i += 1;
        }
        false
    }

    /// Whether some alert of the queue is not on cooldown now.
    pub fn has_alerts(&self) -> (r: bool)
        requires
            self.wf(),
        ensures
            exists|now: nat| r == #[trigger] self@.has_alerts(now),
    {
        let now = self.now();
        let r = self.has_alerts_at(now);
        assert(r == self@.has_alerts(now as nat));
        r
    }

    /// The periodic cleanup at the clock reading `now`: it drops the old
    /// cooldown entries, and does so only where more than a minute has
    /// passed since the last cleanup.
    pub fn periodic_cleanup_at(&mut self, now: u64)
        requires
            old(self).wf(),
        ensures
            final(self).wf(),
            final(self)@ == old(self)@.tidied(now as nat),
    {
        if seconds_between(now, self.last_cleanup) > CLEANUP_INTERVAL_SECONDS {
            self.cleanup_cooldowns(now);
        }
    }

    /// The periodic cleanup now.
    pub fn periodic_cleanup(&mut self)
        requires
            old(self).wf(),
        ensures
            final(self).wf(),
            exists|now: nat| #[trigger] old(self)@.tidied(now) == final(self)@,
    {
        let now = self.now();
        self.periodic_cleanup_at(now);
    }
}

} // verus!
