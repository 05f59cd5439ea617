//! The alert display state machine: whether an alert is on the sign, which
//! one, how far it has scrolled and since when.
//!
//! The machine is idle until the nearest train arrives while alerts are
//! waiting. It then shows the alerts of the queue one after the other, each
//! until it has scrolled across the sign, and goes back to idle when all
//! have been shown, when the cycle has taken too long, or when the train
//! that set it off has left and no other has arrived.

use vstd::prelude::*;
use vstd::string::*;
use crate::alerts::{alert_key, AlertManager, ManagerView};
use crate::models::{Alert, AlertView, DisplaySnapshot, SnapshotView};
use crate::text::str_eq;

verus! {

/// The state of the alert display.
///
/// While `show_alert` is false the machine is idle and the other fields
/// hold nothing of interest.
pub struct AlertState {
    pub show_alert: bool,
    /// The alert on the sign.
    pub current_alert: Option<Alert>,
    /// Pixels that the alert has scrolled.
    pub scroll_offset: i32,
    /// Route and destination of the train that set the cycle off.
    pub triggered_by: Option<(String, String)>,
    /// The clock reading, in milliseconds, at which the cycle began.
    pub cycle_start_time: u64,
}

/// Route and destination of a train.
pub struct TrainKey {
    pub route: Seq<char>,
    pub destination: Seq<char>,
}

/// The mathematical value of an [`AlertState`].
pub struct AlertStateView {
    pub show_alert: bool,
    pub current_alert: Option<AlertView>,
    pub scroll_offset: int,
    pub triggered_by: Option<TrainKey>,
    pub cycle_start_time: nat,
}

impl View for AlertState {
    type V = AlertStateView;

    open spec fn view(&self) -> AlertStateView {
        AlertStateView {
            show_alert: self.show_alert,
            current_alert: match self.current_alert {
                Some(alert) => Some(alert@),
                None => None,
            },
            scroll_offset: self.scroll_offset as int,
            triggered_by: match self.triggered_by {
                Some(pair) => Some(TrainKey { route: pair.0@, destination: pair.1@ }),
                None => None,
            },
            cycle_start_time: self.cycle_start_time as nat,
        }
    }
}

/// The milliseconds from one clock reading to a later one, zero where the
/// second reading is not later.
pub open spec fn elapsed_ms(now: nat, then: nat) -> nat {
    if now >= then {
        (now - then) as nat
    } else {
        0
    }
}

/// A sum of two 32-bit numbers that stops at the ends of their range.
pub open spec fn saturating_sum(a: int, b: int) -> int {
    if a + b > i32::MAX {
        i32::MAX as int
    } else if a + b < i32::MIN {
        i32::MIN as int
    } else {
        a + b
    }
}

impl AlertStateView {
    /// The machine at rest, with the cycle start it had.
    pub open spec fn idle(self) -> AlertStateView {
        AlertStateView {
            show_alert: false,
            current_alert: None,
            scroll_offset: 0,
            triggered_by: None,
            cycle_start_time: self.cycle_start_time,
        }
    }

    /// Whether an alert is on the sign.
    pub open spec fn showing(self) -> bool {
        self.show_alert && self.current_alert is Some
    }

    /// Whether the update has anything to do: the nearest train is arriving
    /// or an alert is on the sign. Where neither holds the update touches
    /// neither the machine nor the manager.
    pub open spec fn needs_update(self, snapshot: SnapshotView) -> bool {
        snapshot.first_train().minutes == 0 || self.show_alert
    }

    /// Whether the train that set the cycle off is no longer arriving.
    pub open spec fn trigger_departed(self, snapshot: SnapshotView) -> bool {
        self.show_alert && self.triggered_by is Some && !snapshot.has_arriving(
            self.triggered_by->0.route,
            self.triggered_by->0.destination,
        )
    }

    /// The step from idle to showing: where the nearest train is arriving,
    /// nothing is shown yet and the manager has alerts, the cycle is reset
    /// and the next alert goes on the sign, unscrolled, with the arriving
    /// train as the one that set it off and the present as the cycle's
    /// start. Where one of these fails nothing changes.
    pub open spec fn started(self, manager: ManagerView, snapshot: SnapshotView, now: nat) -> (
        AlertStateView,
        ManagerView,
    ) {
        let first = snapshot.first_train();
        if first.minutes == 0 && !self.show_alert && manager.has_alerts(now) {
            let reset = manager.cycle_reset();
            match reset.next_alert(now) {
                Some(alert) => (
                    AlertStateView {
                        show_alert: true,
                        current_alert: Some(alert),
                        scroll_offset: 0,
                        triggered_by: Some(
                            TrainKey { route: first.route, destination: first.destination },
                        ),
                        cycle_start_time: now,
                    },
                    reset,
                ),
                None => (self, reset),
            }
        } else {
            (self, manager)
        }
    }

    /// What follows an alert that has scrolled across the sign and has been
    /// marked as shown. Where the train that set the cycle off has left,
    /// another is arriving and the manager still has alerts, the cycle
    /// starts anew for that train. Where the train is still there and not
    /// all alerts have been shown, the next alert follows. Otherwise the
    /// machine goes idle.
    pub open spec fn followed(
        self,
        manager: ManagerView,
        snapshot: SnapshotView,
        departed: bool,
        now: nat,
    ) -> (AlertStateView, ManagerView) {
        let first = snapshot.first_train();
        let (next, after) = if departed && first.minutes == 0 && manager.has_alerts(now) {
            (manager.cycle_reset().next_alert(now), manager.cycle_reset())
        } else if !departed && !manager.all_shown() {
            (manager.next_alert(now), manager)
        } else {
            (None, manager)
        };
        match next {
            Some(alert) => (
                AlertStateView {
                    current_alert: Some(alert),
                    scroll_offset: 0,
                    triggered_by: if departed {
                        Some(TrainKey { route: first.route, destination: first.destination })
                    } else {
                        self.triggered_by
                    },
                    cycle_start_time: if departed {
                        now
                    } else {
                        self.cycle_start_time
                    },
                    ..self
                },
                after,
            ),
            None => (self.idle(), after),
        }
    }

    /// One tick of a machine that shows an alert. Past the longest duration
    /// of a cycle the machine goes idle, whatever else holds. Else the
    /// alert scrolls on by `scroll_speed`; once it has scrolled
    /// `complete_distance` it is marked as shown and followed by the next.
    pub open spec fn ticked(
        self,
        manager: ManagerView,
        snapshot: SnapshotView,
        departed: bool,
        complete_distance: int,
        scroll_speed: int,
        max_duration_ms: nat,
        now: nat,
    ) -> (AlertStateView, ManagerView) {
        if elapsed_ms(now, self.cycle_start_time) > max_duration_ms {
            (self.idle(), manager)
        } else {
            let scrolled = AlertStateView {
                scroll_offset: saturating_sum(self.scroll_offset, scroll_speed),
                ..self
            };
            if scrolled.scroll_offset < complete_distance {
                (scrolled, manager)
            } else {
                scrolled.followed(
                    manager.marked(alert_key(self.current_alert->0), now),
                    snapshot,
                    departed,
                    now,
                )
            }
        }
    }

    /// One update of the machine at the clock reading `now`, with the
    /// manager that it leaves behind.
    pub open spec fn step(
        self,
        manager: ManagerView,
        snapshot: SnapshotView,
        complete_distance: int,
        scroll_speed: int,
        max_duration_ms: nat,
        now: nat,
    ) -> (AlertStateView, ManagerView) {
        if !self.needs_update(snapshot) {
            (self, manager)
        } else {
            let departed = self.trigger_departed(snapshot);
            let (state, reset) = self.started(manager, snapshot, now);
            let (after, marked) = if state.showing() {
                state.ticked(
                    reset,
                    snapshot,
                    departed,
                    complete_distance,
                    scroll_speed,
                    max_duration_ms,
                    now,
                )
            } else {
                (state, reset)
            };
            (after, marked.tidied(now))
        }
    }
}

/// An arriving train sets an idle machine off: where the nearest train is
/// at zero minutes and the manager has alerts, one update puts an alert on
/// the sign and records that train as the one that set the cycle off. The
/// scroll speed must be less than the distance to scroll, or the alert
/// would be over in the same update.
pub proof fn lemma_arrival_starts_alert(
    s: AlertStateView,
    m: ManagerView,
    snapshot: SnapshotView,
    complete_distance: int,
    scroll_speed: int,
    max_duration_ms: nat,
    now: nat,
)
    requires
        !s.show_alert,
        snapshot.first_train().minutes == 0,
        m.has_alerts(now),
        saturating_sum(0, scroll_speed) < complete_distance,
    ensures
        ({
            let after = s.step(
                m,
                snapshot,
                complete_distance,
                scroll_speed,
                max_duration_ms,
                now,
            ).0;
            &&& after.show_alert
            &&& after.current_alert == m.cycle_reset().next_alert(now)
            &&& after.current_alert is Some
            &&& after.triggered_by == Some(
                TrainKey {
                    route: snapshot.first_train().route,
                    destination: snapshot.first_train().destination,
                },
            )
        }),
{
    crate::alerts::lemma_next_after_reset(m, now);
}

/// The last alert ends the cycle: where the queue holds the alert on the
/// sign and no other, and the alert has scrolled the whole distance, one
/// update puts the machine at rest.
pub proof fn lemma_single_alert_ends_cycle(
    s: AlertStateView,
    m: ManagerView,
    snapshot: SnapshotView,
    complete_distance: int,
    scroll_speed: int,
    max_duration_ms: nat,
    now: nat,
)
    requires
        s.showing(),
        m.queue.len() == 1,
        alert_key(m.queue[0]) == alert_key(s.current_alert->0),
        saturating_sum(s.scroll_offset, scroll_speed) >= complete_distance,
    ensures
        s.step(m, snapshot, complete_distance, scroll_speed, max_duration_ms, now).0 == s.idle(),
{
    let key = alert_key(s.current_alert->0);
    let marked = m.marked(key, now);
    assert(marked.shown.contains(alert_key(marked.queue[0])));
    assert(marked.all_shown());
    assert(marked.on_cooldown(key, now));
    assert(!marked.has_alerts(now));
}

/// A cycle that has taken longer than allowed ends at the next update,
/// however far the alert has scrolled.
pub proof fn lemma_timeout_forces_idle(
    s: AlertStateView,
    m: ManagerView,
    snapshot: SnapshotView,
    complete_distance: int,
    scroll_speed: int,
    max_duration_ms: nat,
    now: nat,
)
    requires
        s.showing(),
        elapsed_ms(now, s.cycle_start_time) > max_duration_ms,
    ensures
        s.step(m, snapshot, complete_distance, scroll_speed, max_duration_ms, now).0 == s.idle(),
{
}

/// An idle machine with no train arriving is left alone, and so is the
/// manager.
pub proof fn lemma_idle_without_arrival_is_untouched(
    s: AlertStateView,
    m: ManagerView,
    snapshot: SnapshotView,
    complete_distance: int,
    scroll_speed: int,
    max_duration_ms: nat,
    now: nat,
)
    requires
        !s.show_alert,
        snapshot.first_train().minutes != 0,
    ensures
        s.step(m, snapshot, complete_distance, scroll_speed, max_duration_ms, now) == (s, m),
{
}

/// The sum of two 32-bit numbers, stopping at the ends of their range.
pub fn saturating_scroll(offset: i32, speed: i32) -> (sum: i32)
    ensures
        sum == saturating_sum(offset as int, speed as int),
{
    let wide: i64 = offset as i64 + speed as i64;
    if wide > i32::MAX as i64 {
        i32::MAX
    } else if wide < i32::MIN as i64 {
        i32::MIN
    } else {
        wide as i32
    }
}

/// Whether a train of the given route and destination is arriving now.
pub fn has_arriving_train(snapshot: &DisplaySnapshot, route: &str, destination: &str) -> (r: bool)
    ensures
        r == snapshot@.has_arriving(route@, destination@),
{
    let mut i: usize = 0;
    while i < snapshot.trains.len()
        invariant
            i <= snapshot.trains@.len(),
            forall|j: int|
                0 <= j < i ==> !((#[trigger] snapshot@.trains[j]).route == route@
                    && snapshot@.trains[j].destination == destination@ && snapshot@.trains[j].minutes
                    == 0),
        decreases snapshot.trains@.len() - i,
    {
        let train = &snapshot.trains[i];
        assert(snapshot@.trains[i as int] == train@);
        if str_eq(train.route.as_str(), route) && str_eq(train.destination.as_str(), destination)
            && train.minutes == 0 {
            return true;
        }
        i += 1;
    }
    false
}

impl AlertState {
    /// An idle machine.
    pub fn new() -> (s: AlertState)
        ensures
            s@ == s@.idle(),
            s@.cycle_start_time == 0,
    {
        AlertState {
            show_alert: false,
            current_alert: None,
            scroll_offset: 0,
            triggered_by: None,
            cycle_start_time: 0,
        }
    }

    /// Puts the machine at rest.
    pub fn clear(&mut self)
        ensures
            final(self)@ == old(self)@.idle(),
    {
        self.show_alert = false;
        self.current_alert = None;
        self.scroll_offset = 0;
        self.triggered_by = None;
    }

    /// Whether an update has anything to do. Where it has not, the caller
    /// need not fetch the alert manager at all.
    pub fn needs_update(&self, snapshot: &DisplaySnapshot) -> (r: bool)
        ensures
            r == self@.needs_update(snapshot@),
    {
        if self.show_alert {
            return true;
        }
        if snapshot.trains.len() > 0 {
            assert(snapshot@.trains[0] == snapshot.trains@[0]@);
            snapshot.trains[0].minutes == 0
        } else {
            false
        }
    }

    /// Whether the train that set the cycle off is no longer arriving.
    fn trigger_departed(&self, snapshot: &DisplaySnapshot) -> (r: bool)
        ensures
            r == self@.trigger_departed(snapshot@),
    {
        if !self.show_alert {
            return false;
        }
        match &self.triggered_by {
            Some(pair) => !has_arriving_train(snapshot, pair.0.as_str(), pair.1.as_str()),
            None => false,
        }
    }

    /// Updates the machine for one frame at the clock reading `now`.
    ///
    /// `complete_distance` is the distance that the alert on the sign has to
    /// scroll, `scroll_speed` the pixels it scrolls per frame, and
    /// `max_duration_ms` the longest that a cycle may take.
    pub fn update_at(
        &mut self,
        manager: &mut AlertManager,
        snapshot: &DisplaySnapshot,
        complete_distance: i32,
        scroll_speed: i32,
        max_duration_ms: u64,
        now: u64,
    )
        requires
            old(manager).wf(),
        ensures
            final(manager).wf(),
            (final(self)@, final(manager)@) == old(self)@.step(
                old(manager)@,
                snapshot@,
                complete_distance as int,
                scroll_speed as int,
                max_duration_ms as nat,
                now as nat,
            ),
    {
        if !self.needs_update(snapshot) {
            return ;
        }
        let first_train = snapshot.get_first_train();
        let train_at_zero = first_train.minutes == 0;
        let departed = self.trigger_departed(snapshot);

        if train_at_zero && !self.show_alert && manager.has_alerts_at(now) {
            manager.reset_cycle();
            match manager.get_next_alert_at(now) {
                Some(alert) => {
                    self.current_alert = Some(alert.clone());
                    self.show_alert = true;
                    self.scroll_offset = 0;
                    self.triggered_by = Some(
                        (first_train.route.clone(), first_train.destination.clone()),
                    );
                    self.cycle_start_time = now;
                },
                None => {},
            }
        }
        let ghost state = self@;
        let ghost reset = manager@;
        assert((state, reset) == old(self)@.started(old(manager)@, snapshot@, now as nat));

        if self.show_alert && self.current_alert.is_some() {
            let elapsed: u64 = if now >= self.cycle_start_time {
                now - self.cycle_start_time
            } else {
                0
            };
            if elapsed > max_duration_ms {
                self.clear();
                manager.periodic_cleanup_at(now);
                return ;
            }
            self.scroll_offset = saturating_scroll(self.scroll_offset, scroll_speed);
            if self.scroll_offset < complete_distance {
                manager.periodic_cleanup_at(now);
                return ;
            }
            match &self.current_alert {
                Some(alert) => {
                    manager.mark_displayed_at(alert, now);
                },
                None => {},
            }
            let next: Option<Alert> = if departed && train_at_zero && manager.has_alerts_at(now) {
                manager.reset_cycle();
                match manager.get_next_alert_at(now) {
                    Some(alert) => Some(alert.clone()),
                    None => None,
                }
            } else if !departed && !manager.all_shown_this_cycle() {
                match manager.get_next_alert_at(now) {
                    Some(alert) => Some(alert.clone()),
                    None => None,
                }
            } else {
                None
            };
            match next {
                Some(alert) => {
                    self.current_alert = Some(alert);
                    self.scroll_offset = 0;
                    if departed {
                        self.triggered_by = Some(
                            (first_train.route.clone(), first_train.destination.clone()),
                        );
                        self.cycle_start_time = now;
                    }
                },
                None => {
                    self.clear();
                },
            }
        }
        manager.periodic_cleanup_at(now);
    }

    /// Updates the machine for one frame at the present reading of the
    /// manager's clock.
    pub fn update(
        &mut self,
        manager: &mut AlertManager,
        snapshot: &DisplaySnapshot,
        complete_distance: i32,
        scroll_speed: i32,
        max_duration_ms: u64,
    )
        requires
            old(manager).wf(),
        ensures
            final(manager).wf(),
            exists|now: nat|
                (final(self)@, final(manager)@) == #[trigger] old(self)@.step(
                    old(manager)@,
                    snapshot@,
                    complete_distance as int,
                    scroll_speed as int,
                    max_duration_ms as nat,
                    now,
                ),
            !old(self)@.needs_update(snapshot@) ==> final(self)@ == old(self)@ && final(manager)@
                == old(manager)@,
    {
        let now = manager.now();
        self.update_at(manager, snapshot, complete_distance, scroll_speed, max_duration_ms, now);
    }
}

} // verus!
