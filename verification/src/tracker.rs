//! Following which tab is focused, and for how long.
use vstd::prelude::*;
use vstd::string::*;
use crate::demo;
use crate::history;
use crate::presence;
use crate::presence::{Away, SECOND, USAGE_POLL_INTERVAL, credited_time};
use crate::process::Platform;
use crate::tabs;
use crate::tabs::{TabObservation, same_inventory};
use crate::usage;
use crate::usage::{Days, FocusedTab, MAX_DAILY_SECONDS, UsageStore};

verus! {

/// Time between two looks at the date, in nanoseconds.
pub const DATE_CHECK_INTERVAL: u64 = 60_000_000_000;

/// Time between two writes of the usage history, in nanoseconds.
pub const USAGE_FLUSH_INTERVAL: u64 = 30_000_000_000;

/// Time until the next look after one that failed, in nanoseconds.
pub const RETRY_INTERVAL: u64 = 30_000_000_000;

/// Time between two looks at all tabs, in nanoseconds.
pub const INVENTORY_POLL_INTERVAL: u64 = 60_000_000_000;

/// Longest time, in nanoseconds, that the tab history goes without a record.
pub const INVENTORY_HEARTBEAT: u64 = 900_000_000_000;

/// Time between two records of what the terminals use, in nanoseconds.
pub const RESOURCE_HISTORY_INTERVAL: u64 = 300_000_000_000;

/// One reading of the focus.
pub enum FocusUpdate {
    /// The user is not at the machine.
    Away(Away),
    /// The focused tab, if there is one, with the monotonic and the wall clock.
    Sample { focus: Option<FocusedTab>, at: u64, wall: i128 },
}

/// What has come of a look at the focused tab.
pub enum FocusReply {
    /// It is still going on.
    Waiting,
    Update(FocusUpdate),
    Failed(String),
    /// It ended without an answer.
    Lost,
}

/// What has come of a look at all tabs.
pub enum InventoryReply {
    /// It is still going on.
    Waiting,
    Found(Vec<TabObservation>),
    Failed(String),
    /// It ended without an answer.
    Lost,
}

/// What a look at all tabs leads to.
#[derive(Clone, Copy, Debug, PartialEq, Eq, Structural)]
pub struct InventoryStep {
    /// The last inventory is to be recorded.
    pub append: bool,
    /// The next look is to be started.
    pub start: bool,
}

/// What one tick leads to.
pub struct TickOutcome {
    /// Focused time was added.
    pub changed: bool,
    /// A look at the focused tab is to be started.
    pub query_focus: bool,
    /// A look at all tabs is to be started.
    pub query_inventory: bool,
    /// The last inventory is to be recorded.
    pub append_inventory: bool,
    /// What the usage history file is to hold, where it has to be written.
    pub contents: Option<String>,
}

/// Follows the focused tab.
pub struct UsageTracker {
    pub store: UsageStore,
    pub current_day: String,
    pub last_focus: Option<FocusedTab>,
    /// Monotonic and wall clock at the last look, so that a gap can be told from
    /// whichever clock shows it.
    pub last_seen: Option<(u64, i128)>,
    pub away: Option<Away>,
    pub next_poll: u64,
    pub next_date_check: u64,
    pub next_flush: u64,
    pub next_inventory: u64,
    pub next_inventory_heartbeat: u64,
    pub next_resource_history: u64,
    pub last_inventory: Vec<TabObservation>,
    /// Whether a look at the focused tab is going on.
    pub pending_focus: bool,
    /// Whether a look at all tabs is going on.
    pub pending_inventory: bool,
    pub last_error: Option<String>,
}

/// Whether the clock is far enough from its end to wait for something.
pub open spec fn can_wait(now: u64) -> bool {
    now + INVENTORY_HEARTBEAT <= u64::MAX
}

/// The text of an error, where there is one.
pub open spec fn error_text(error: Option<String>) -> Option<Seq<char>> {
    match error {
        Some(error) => Some(error@),
        None => None,
    }
}

/// `days` with some seconds of focused time added.
pub open spec fn with_focus(days: Days, day: Seq<char>, focus: FocusedTab, seconds: u64) -> Days {
    if seconds == 0 {
        days
    } else {
        usage::with_usage(
            days,
            day,
            focus.tab_id@,
            (
                usage::tab_title(focus),
                usage::within_a_day(usage::seconds_on(days, day, focus.tab_id@) + seconds),
            ),
        )
    }
}

/// The focused time that a look earns, in whole seconds: the time since the look
/// before, where both found the same tab.
pub open spec fn earned(tracker: UsageTracker, reply: FocusReply) -> Option<(FocusedTab, u64)> {
    if !tracker.pending_focus {
        None
    } else {
        match (reply, tracker.last_focus, tracker.last_seen) {
            (
                FocusReply::Update(FocusUpdate::Sample { focus: Some(current), at, wall }),
                Some(previous),
                Some(seen),
            ) => if previous.tab_id@ == current.tab_id@ {
                match presence::credit(seen, (at, wall)) {
                    Some(elapsed) => Some((current, (elapsed / SECOND) as u64)),
                    None => None,
                }
            } else {
                None
            },
            _ => None,
        }
    }
}

/// The usage history after a look.
pub open spec fn days_after(days: Days, day: Seq<char>, credit: Option<(FocusedTab, u64)>) -> Days {
    match credit {
        Some((focus, seconds)) => with_focus(days, day, focus, seconds),
        None => days,
    }
}

/// Whether a look has added something to write.
pub open spec fn adds_time(credit: Option<(FocusedTab, u64)>) -> bool {
    match credit {
        Some((_, seconds)) => seconds > 0,
        None => false,
    }
}

/// The tab that the next look is held against.
pub open spec fn focus_after(tracker: UsageTracker, reply: FocusReply) -> Option<FocusedTab> {
    if !tracker.pending_focus {
        tracker.last_focus
    } else {
        match reply {
            FocusReply::Update(FocusUpdate::Sample { focus, at: _, wall: _ }) => focus,
            FocusReply::Update(FocusUpdate::Away(_)) => None,
            FocusReply::Failed(_) => None,
            _ => tracker.last_focus,
        }
    }
}

/// The clocks that the next look is held against.
pub open spec fn seen_after(tracker: UsageTracker, reply: FocusReply) -> Option<(u64, i128)> {
    if !tracker.pending_focus {
        tracker.last_seen
    } else {
        match reply {
            FocusReply::Update(FocusUpdate::Sample { focus: _, at, wall }) => Some((at, wall)),
            FocusReply::Update(FocusUpdate::Away(_)) => None,
            FocusReply::Failed(_) => None,
            _ => tracker.last_seen,
        }
    }
}

/// Whether the user is known to be away after a look.
pub open spec fn away_after(tracker: UsageTracker, reply: FocusReply) -> Option<Away> {
    if !tracker.pending_focus {
        tracker.away
    } else {
        match reply {
            FocusReply::Update(FocusUpdate::Sample { focus: _, at: _, wall: _ }) => None,
            FocusReply::Update(FocusUpdate::Away(away)) => Some(away),
            _ => tracker.away,
        }
    }
}

/// The error that is left after a look.
pub open spec fn focus_error_after(tracker: UsageTracker, reply: FocusReply) -> Option<Seq<char>> {
    if !tracker.pending_focus {
        error_text(tracker.last_error)
    } else {
        match reply {
            FocusReply::Update(FocusUpdate::Sample { focus: _, at: _, wall: _ }) => None,
            FocusReply::Failed(error) => Some(error@),
            _ => error_text(tracker.last_error),
        }
    }
}

/// When the focused tab is looked at next.
pub open spec fn poll_after(tracker: UsageTracker, reply: FocusReply, now: u64) -> u64 {
    if !tracker.pending_focus || reply is Waiting {
        tracker.next_poll
    } else if reply is Failed {
        (now + RETRY_INTERVAL) as u64
    } else {
        (now + USAGE_POLL_INTERVAL) as u64
    }
}

/// Whether a look at the focused tab is to be started.
pub open spec fn starts_look(tracker: UsageTracker, reply: FocusReply, now: u64) -> bool {
    !(tracker.pending_focus && reply is Waiting) && now >= poll_after(tracker, reply, now)
}

/// Whether a look at all tabs gives something to record: other surfaces than
/// the last time, or none recorded for long.
pub open spec fn is_news(tracker: UsageTracker, reply: InventoryReply, now: u64) -> bool {
    tracker.pending_inventory && match reply {
        InventoryReply::Found(list) => tabs::surfaces_of(list@) != tabs::surfaces_of(
            tracker.last_inventory@,
        ) || now >= tracker.next_inventory_heartbeat,
        _ => false,
    }
}

/// The last inventory after a look at all tabs.
pub open spec fn inventory_after(
    tracker: UsageTracker,
    reply: InventoryReply,
    now: u64,
) -> Seq<TabObservation> {
    match reply {
        InventoryReply::Found(list) if is_news(tracker, reply, now) => list@,
        _ => tracker.last_inventory@,
    }
}

/// The error that is left after a look at all tabs.
pub open spec fn inventory_error_after(
    tracker: UsageTracker,
    before: Option<Seq<char>>,
    reply: InventoryReply,
) -> Option<Seq<char>> {
    match reply {
        InventoryReply::Failed(error) if tracker.pending_inventory => Some(error@),
        _ => before,
    }
}

/// When all tabs are looked at next.
pub open spec fn inventory_poll_after(
    tracker: UsageTracker,
    reply: InventoryReply,
    now: u64,
) -> u64 {
    if tracker.pending_inventory && !(reply is Waiting) {
        (now + INVENTORY_POLL_INTERVAL) as u64
    } else {
        tracker.next_inventory
    }
}

/// Whether a look at all tabs is to be started.
pub open spec fn starts_inventory(tracker: UsageTracker, reply: InventoryReply, now: u64) -> bool {
    !(tracker.pending_inventory && reply is Waiting) && now >= inventory_poll_after(
        tracker,
        reply,
        now,
    )
}

/// Whether `after` is what one tick makes of `before`, with what comes of it.
pub open spec fn is_tick(
    before: UsageTracker,
    platform: Platform,
    now: u64,
    day: Option<String>,
    focus: FocusReply,
    inventory: InventoryReply,
    has_file: bool,
    after: UsageTracker,
    outcome: TickOutcome,
) -> bool {
    &&& platform == Platform::Linux ==> after == before && !outcome.changed
        && !outcome.query_focus && !outcome.query_inventory && !outcome.append_inventory
        && outcome.contents is None
    &&& platform == Platform::MacOs ==> {
        let dated = now >= before.next_date_check;
        let today = if dated && day is Some {
            day.unwrap()@
        } else {
            before.current_day@
        };
        let credit = earned(before, focus);
        let days = days_after(before.store.days@, today, credit);
        let dirty = before.store.dirty || adds_time(credit);
        let flushes = now >= before.next_flush;
        &&& outcome.changed == credit is Some
        &&& outcome.query_focus == starts_look(before, focus, now)
        &&& outcome.query_inventory == starts_inventory(before, inventory, now)
        &&& outcome.append_inventory == is_news(before, inventory, now)
        &&& outcome.contents is Some <==> flushes && dirty && has_file
        &&& outcome.contents matches Some(text) ==> text@ == usage::history_text(days)
        &&& after.store.days@ == days
        &&& after.store.dirty == (dirty && !(flushes && !has_file))
        &&& after.current_day@ == today
        &&& after.next_date_check == (if dated {
            (now + DATE_CHECK_INTERVAL) as u64
        } else {
            before.next_date_check
        })
        &&& after.last_focus == focus_after(before, focus)
        &&& after.last_seen == seen_after(before, focus)
        &&& after.away == away_after(before, focus)
        &&& after.next_poll == poll_after(before, focus, now)
        &&& after.pending_focus == (outcome.query_focus || (before.pending_focus
            && focus is Waiting))
        &&& after.last_inventory@ == inventory_after(before, inventory, now)
        &&& after.next_inventory_heartbeat == (if outcome.append_inventory {
            (now + INVENTORY_HEARTBEAT) as u64
        } else {
            before.next_inventory_heartbeat
        })
        &&& after.next_inventory == inventory_poll_after(before, inventory, now)
        &&& after.pending_inventory == (outcome.query_inventory || (before.pending_inventory && inventory is Waiting))
        &&& error_text(after.last_error) == inventory_error_after(
            before,
            focus_error_after(before, focus),
            inventory,
        )
        &&& after.next_flush == (if flushes {
            (now + USAGE_FLUSH_INTERVAL) as u64
        } else {
            before.next_flush
        })
        &&& after.next_resource_history == before.next_resource_history
    }
}

impl UsageTracker {
    /// Begins to follow the focused tab, given the contents of the usage history
    /// file, the date, and the error met in recording the start.
    pub fn load(
        now: u64,
        contents: Option<&str>,
        today: Option<&str>,
        event_error: Option<&str>,
    ) -> (tracker: Self)
        requires
            can_wait(now),
        ensures
            tracker.store.days@ == demo::history_in(contents),
            !tracker.store.dirty,
            tracker.current_day@ == match today {
                Some(day) => day@,
                None => "unknown"@,
            },
            tracker.last_focus is None,
            tracker.last_seen is None,
            tracker.away is None,
            tracker.next_poll == now,
            tracker.next_date_check == now + DATE_CHECK_INTERVAL,
            tracker.next_flush == now + USAGE_FLUSH_INTERVAL,
            tracker.next_inventory == now,
            tracker.next_inventory_heartbeat == now,
            tracker.next_resource_history == now,
            tracker.last_inventory@.len() == 0,
            !tracker.pending_focus,
            !tracker.pending_inventory,
            error_text(tracker.last_error) == match event_error {
                Some(error) => Some("could not save tracker event: "@ + error@),
                None => None,
            },
    {
        let current_day = match today {
            Some(day) => day.to_owned(),
            None => "unknown".to_owned(),
        };
        let last_error = match event_error {
            Some(error) => Some(described("could not save tracker event: ", error)),
            None => None,
        };
        UsageTracker {
            store: UsageStore::load(contents),
            current_day,
            last_focus: None,
            last_seen: None,
            away: None,
            next_poll: now,
            next_date_check: now + DATE_CHECK_INTERVAL,
            next_flush: now + USAGE_FLUSH_INTERVAL,
            next_inventory: now,
            next_inventory_heartbeat: now,
            next_resource_history: now,
            last_inventory: Vec::new(),
            pending_focus: false,
            pending_inventory: false,
            last_error,
        }
    }

    /// Forgets what the next look would be held against.
    pub fn forget_focus(&mut self)
        ensures
            *final(self) == (UsageTracker { last_focus: None, last_seen: None, ..*old(self) }),
    {
        self.last_focus = None;
        self.last_seen = None;
    }

    /// Credits the time since the previous look, and tells whether time was
    /// credited and whether the next look is to be started.
    pub fn poll_focus(&mut self, now: u64, reply: FocusReply) -> (step: (bool, bool))
        requires
            can_wait(now),
        ensures
            ({
                let credit = earned(*old(self), reply);
                &&& step.0 == credit is Some
                &&& step.1 == starts_look(*old(self), reply, now)
                &&& final(self).store.days@ == days_after(
                    old(self).store.days@,
                    old(self).current_day@,
                    credit,
                )
                &&& final(self).store.dirty == (old(self).store.dirty || adds_time(credit))
            }),
            final(self).last_focus == focus_after(*old(self), reply),
            final(self).last_seen == seen_after(*old(self), reply),
            final(self).away == away_after(*old(self), reply),
            error_text(final(self).last_error) == focus_error_after(*old(self), reply),
            final(self).next_poll == poll_after(*old(self), reply, now),
            final(self).pending_focus == (step.1 || (old(self).pending_focus && reply is Waiting)),
            final(self).current_day == old(self).current_day,
            final(self).next_date_check == old(self).next_date_check,
            final(self).next_flush == old(self).next_flush,
            final(self).next_inventory == old(self).next_inventory,
            final(self).next_inventory_heartbeat == old(self).next_inventory_heartbeat,
            final(self).next_resource_history == old(self).next_resource_history,
            final(self).last_inventory == old(self).last_inventory,
            final(self).pending_inventory == old(self).pending_inventory,
    {
        let mut changed: bool = false;
        if self.pending_focus {
            match reply {
                FocusReply::Waiting => {
                    return (false, false);
                },
                FocusReply::Update(FocusUpdate::Away(away)) => {
                    self.away = Some(away);
                    self.forget_focus();
                    self.next_poll = now + USAGE_POLL_INTERVAL;
                },
                FocusReply::Update(FocusUpdate::Sample { focus, at, wall }) => {
                    self.away = None;
                    match (&self.last_focus, self.last_seen, &focus) {
                        (Some(previous), Some(seen), Some(current)) => {
                            if previous.tab_id == current.tab_id {
                                match credited_time(seen, (at, wall)) {
                                    Some(elapsed) => {
                                        self.store.add(
                                            self.current_day.as_str(),
                                            current,
                                            elapsed / SECOND,
                                        );
                                        changed = true;
                                    },
                                    None => {},
                                }
                            }
                        },
                        _ => {},
                    }
                    self.last_focus = focus;
                    self.last_seen = Some((at, wall));
                    self.last_error = None;
                    self.next_poll = now + USAGE_POLL_INTERVAL;
                },
                FocusReply::Failed(error) => {
                    self.forget_focus();
                    self.last_error = Some(error);
                    self.next_poll = now + RETRY_INTERVAL;
                },
                FocusReply::Lost => {
                    self.next_poll = now + USAGE_POLL_INTERVAL;
                },
            }
            self.pending_focus = false;
        }
        if now < self.next_poll {
            return (changed, false);
        }
        self.pending_focus = true;
        (changed, true)
    }

    /// Takes in a finished look at all tabs, and tells whether the last inventory
    /// is to be recorded and whether the next look is to be started.
    pub fn poll_inventory(&mut self, now: u64, reply: InventoryReply) -> (step: InventoryStep)
        requires
            can_wait(now),
        ensures
            step.append == is_news(*old(self), reply, now),
            step.start == starts_inventory(*old(self), reply, now),
            final(self).last_inventory@ == inventory_after(*old(self), reply, now),
            final(self).next_inventory_heartbeat == (if step.append {
                (now + INVENTORY_HEARTBEAT) as u64
            } else {
                old(self).next_inventory_heartbeat
            }),
            error_text(final(self).last_error) == inventory_error_after(
                *old(self),
                error_text(old(self).last_error),
                reply,
            ),
            final(self).next_inventory == inventory_poll_after(*old(self), reply, now),
            final(self).pending_inventory == (step.start || (old(self).pending_inventory
                && reply is Waiting)),
            final(self).store == old(self).store,
            final(self).current_day == old(self).current_day,
            final(self).last_focus == old(self).last_focus,
            final(self).last_seen == old(self).last_seen,
            final(self).away == old(self).away,
            final(self).next_poll == old(self).next_poll,
            final(self).next_date_check == old(self).next_date_check,
            final(self).next_flush == old(self).next_flush,
            final(self).next_resource_history == old(self).next_resource_history,
            final(self).pending_focus == old(self).pending_focus,
    {
        let mut append: bool = false;
        if self.pending_inventory {
            match reply {
                InventoryReply::Waiting => {
                    return InventoryStep { append: false, start: false };
                },
                InventoryReply::Found(inventory) => {
                    if !same_inventory(&inventory, &self.last_inventory) || now
                        >= self.next_inventory_heartbeat {
                        append = true;
                        self.last_inventory = inventory;
                        self.next_inventory_heartbeat = now + INVENTORY_HEARTBEAT;
                    }
                },
                InventoryReply::Failed(error) => {
                    self.last_error = Some(error);
                },
                InventoryReply::Lost => {},
            }
            self.pending_inventory = false;
            self.next_inventory = now + INVENTORY_POLL_INTERVAL;
        }
        if now < self.next_inventory {
            return InventoryStep { append, start: false };
        }
        self.pending_inventory = true;
        InventoryStep { append, start: true }
    }

    /// Whether the date is to be looked up.
    pub fn date_is_due(&self, now: u64) -> (due: bool)
        ensures
            due == (now >= self.next_date_check),
    {
        now >= self.next_date_check
    }

    /// Moves everything on that is due: the date where it was looked up, the
    /// focused tab, the inventory of tabs and the usage history file. Without a
    /// platform that tells the focused tab there is nothing to do.
    pub fn tick(
        &mut self,
        platform: Platform,
        now: u64,
        day: Option<String>,
        focus: FocusReply,
        inventory: InventoryReply,
        has_file: bool,
    ) -> (outcome: TickOutcome)
        requires
            can_wait(now),
        ensures
            is_tick(
                *old(self),
                platform,
                now,
                day,
                focus,
                inventory,
                has_file,
                *final(self),
                outcome,
            ),
    {
        match platform {
            Platform::Linux => {
                return TickOutcome {
                    changed: false,
                    query_focus: false,
                    query_inventory: false,
                    append_inventory: false,
                    contents: None,
                };
            },
            Platform::MacOs => {},
        }
        if now >= self.next_date_check {
            match day {
                Some(day) => {
                    self.current_day = day;
                },
                None => {},
            }
            self.next_date_check = now + DATE_CHECK_INTERVAL;
        }
        let (changed, query_focus) = self.poll_focus(now, focus);
        let step = self.poll_inventory(now, inventory);
        let mut contents: Option<String> = None;
        if now >= self.next_flush {
            contents = self.store.save(has_file);
            self.next_flush = now + USAGE_FLUSH_INTERVAL;
        }
        TickOutcome {
            changed,
            query_focus,
            query_inventory: step.start,
            append_inventory: step.append,
            contents,
        }
    }

    /// Notes that the usage history could not be written.
    pub fn save_failed(&mut self, error: &str)
        ensures
            error_text(final(self).last_error) == Some("could not save usage: "@ + error@),
            *final(self) == (UsageTracker { last_error: final(self).last_error, ..*old(self) }),
    {
        self.last_error = Some(described("could not save usage: ", error));
    }

    /// Notes that the inventory of tabs could not be recorded.
    pub fn inventory_failed(&mut self, error: &str)
        ensures
            error_text(final(self).last_error) == Some("could not save tab history: "@ + error@),
            *final(self) == (UsageTracker { last_error: final(self).last_error, ..*old(self) }),
    {
        self.last_error = Some(described("could not save tab history: ", error));
    }

    /// Notes that what the terminals use could not be recorded.
    pub fn resources_failed(&mut self, error: &str)
        ensures
            error_text(final(self).last_error) == Some(
                "could not save resource history: "@ + error@,
            ),
            *final(self) == (UsageTracker { last_error: final(self).last_error, ..*old(self) }),
    {
        self.last_error = Some(described("could not save resource history: ", error));
    }

    /// Whether what the terminals use is to be recorded now.
    pub fn capture_resources(&mut self, now: u64) -> (due: bool)
        requires
            can_wait(now),
        ensures
            due == (now >= old(self).next_resource_history),
            *final(self) == (UsageTracker {
                next_resource_history: if due {
                    (now + RESOURCE_HISTORY_INTERVAL) as u64
                } else {
                    old(self).next_resource_history
                },
                ..*old(self)
            }),
    {
        if now < self.next_resource_history {
            return false;
        }
        self.next_resource_history = now + RESOURCE_HISTORY_INTERVAL;
        true
    }
}

/// A look earns at most fifteen seconds, and only for a tab that the look before
/// found focused too.
pub proof fn law_earned_time(tracker: UsageTracker, reply: FocusReply)
    ensures
        earned(tracker, reply) matches Some((focus, seconds)) ==> {
            &&& seconds <= 15
            &&& tracker.last_focus matches Some(previous) && previous.tab_id@ == focus.tab_id@
            &&& tracker.last_seen is Some
        },
{
}

/// Where the user was away, a look failed or Ghostty was not in front, neither that
/// look nor the next one earns anything.
pub proof fn law_pause_earns_nothing(
    tracker: UsageTracker,
    reply: FocusReply,
    later: UsageTracker,
    next: FocusReply,
)
    requires
        tracker.pending_focus,
        reply is Failed || (reply matches FocusReply::Update(update) && (update is Away
            || update->focus is None)),
        later.last_focus == focus_after(tracker, reply),
    ensures
        earned(tracker, reply) is None,
        earned(later, next) is None,
{
}

/// Following the focused tab keeps the history one.
pub proof fn law_focus_keeps_history(days: Days, day: Seq<char>, credit: Option<(FocusedTab, u64)>)
    requires
        history::is_history(days),
    ensures
        history::is_history(days_after(days, day, credit)),
{
    match credit {
        Some((focus, seconds)) => {
            if seconds > 0 {
                history::law_usage_keeps_history(
                    days,
                    day,
                    focus.tab_id@,
                    (
                        usage::tab_title(focus),
                        usage::within_a_day(usage::seconds_on(days, day, focus.tab_id@) + seconds),
                    ),
                );
            }
        },
        None => {},
    }
}

/// An error behind what it kept from happening.
fn described(what: &str, error: &str) -> (text: String)
    ensures
        text@ == what@ + error@,
{
    let mut text = what.to_owned();
    text.append(error);
    text
}

/// Following the focused tab prunes nothing: what has been recorded stays, with at
/// least the time it had.
pub proof fn law_focus_prunes_nothing(
    days: Days,
    day: Seq<char>,
    credit: Option<(FocusedTab, u64)>,
    other_day: Seq<char>,
    tab_id: Seq<char>,
)
    requires
        history::is_history(days),
        days.dom().contains(other_day),
        days[other_day].dom().contains(tab_id),
    ensures
        days_after(days, day, credit).dom().contains(other_day),
        days_after(days, day, credit)[other_day].dom().contains(tab_id),
        days_after(days, day, credit)[other_day][tab_id].1 >= days[other_day][tab_id].1,
{
    assert(days[other_day][tab_id].1 <= MAX_DAILY_SECONDS);
}

/// A tab that stays focused earns the whole seconds between two looks; another tab
/// than before, or none, earns nothing.
pub proof fn law_staying_on_a_tab_earns(
    tracker: UsageTracker,
    previous: FocusedTab,
    seen: (u64, i128),
    current: FocusedTab,
    at: u64,
    wall: i128,
)
    requires
        tracker.pending_focus,
        tracker.last_focus == Some(previous),
        tracker.last_seen == Some(seen),
        seen.0 <= at <= seen.0 + 15_000_000_000,
        seen.1 <= wall <= seen.1 + 15_000_000_000,
    ensures
        ({
            let reply = FocusReply::Update(
                FocusUpdate::Sample { focus: Some(current), at, wall },
            );
            &&& previous.tab_id@ == current.tab_id@ ==> earned(tracker, reply) == Some(
                (current, ((at - seen.0) / 1_000_000_000) as u64),
            )
            &&& previous.tab_id@ != current.tab_id@ ==> earned(tracker, reply) is None
        }),
{
}

/// Without an earlier look at a tab there is nothing to count from.
pub proof fn law_first_look_earns_nothing(tracker: UsageTracker, reply: FocusReply)
    requires
        !tracker.pending_focus || tracker.last_focus is None || tracker.last_seen is None,
    ensures
        earned(tracker, reply) is None,
{
}

/// What a look leaves behind: the next one counts from the tab, and from the two
/// clocks, of the last look that found a tab; from nothing after a failure or a
/// pause; and from where it was where the look brought no answer.
pub proof fn law_looks_follow_each_other(tracker: UsageTracker, reply: FocusReply)
    requires
        tracker.pending_focus,
    ensures
        reply matches FocusReply::Update(FocusUpdate::Sample { focus, at, wall }) ==> {
            &&& focus_after(tracker, reply) == focus
            &&& seen_after(tracker, reply) == Some((at, wall))
            &&& away_after(tracker, reply) is None
            &&& focus_error_after(tracker, reply) is None
        },
        reply matches FocusReply::Update(FocusUpdate::Away(away)) ==> {
            &&& focus_after(tracker, reply) is None
            &&& seen_after(tracker, reply) is None
            &&& away_after(tracker, reply) == Some(away)
        },
        reply matches FocusReply::Failed(error) ==> {
            &&& focus_after(tracker, reply) is None
            &&& seen_after(tracker, reply) is None
            &&& focus_error_after(tracker, reply) == Some(error@)
        },
        reply is Waiting || reply is Lost ==> {
            &&& focus_after(tracker, reply) == tracker.last_focus
            &&& seen_after(tracker, reply) == tracker.last_seen
            &&& away_after(tracker, reply) == tracker.away
        },
{
}

/// One tick on macOS records just what was earned: the tab that stayed focused gets
/// its seconds on the current day, a whole day at most, and nothing else changes.
pub proof fn law_tick_records_what_was_earned(
    before: UsageTracker,
    now: u64,
    day: Option<String>,
    focus: FocusReply,
    inventory: InventoryReply,
    has_file: bool,
    after: UsageTracker,
    outcome: TickOutcome,
    tab: FocusedTab,
    seconds: u64,
    other_day: Seq<char>,
    other_id: Seq<char>,
)
    requires
        is_tick(
            before,
            Platform::MacOs,
            now,
            day,
            focus,
            inventory,
            has_file,
            after,
            outcome,
        ),
    ensures
        outcome.changed == earned(before, focus) is Some,
        earned(before, focus) is None ==> after.store.days@ == before.store.days@,
        earned(before, focus) == Some((tab, seconds)) ==> {
            let today = after.current_day@;
            let had = usage::seconds_on(before.store.days@, today, tab.tab_id@);
            &&& seconds == 0 ==> after.store.days@ == before.store.days@
            &&& seconds > 0 && had + seconds <= 86_400 ==> usage::seconds_on(
                after.store.days@,
                today,
                tab.tab_id@,
            ) == had + seconds
            &&& seconds > 0 && had + seconds > 86_400 ==> usage::seconds_on(
                after.store.days@,
                today,
                tab.tab_id@,
            ) == 86_400
            &&& seconds > 0 ==> after.store.days@[today][tab.tab_id@].0 == usage::tab_title(tab)
            &&& seconds > 0 ==> after.store.dirty || (now >= before.next_flush && !has_file)
            &&& other_day != today || other_id != tab.tab_id@ ==> usage::seconds_on(
                after.store.days@,
                other_day,
                other_id,
            ) == usage::seconds_on(before.store.days@, other_day, other_id)
        },
{
}

/// What a tick waits for: five seconds until the next look at the focused tab, and
/// half a minute after one that failed; a minute until the next look at all tabs
/// and at the date; half a minute until the file is written again; and a quarter of
/// an hour until an inventory that has not changed is recorded again.
pub proof fn law_tick_keeps_its_intervals(
    before: UsageTracker,
    now: u64,
    day: Option<String>,
    focus: FocusReply,
    inventory: InventoryReply,
    has_file: bool,
    after: UsageTracker,
    outcome: TickOutcome,
)
    requires
        can_wait(now),
        is_tick(
            before,
            Platform::MacOs,
            now,
            day,
            focus,
            inventory,
            has_file,
            after,
            outcome,
        ),
    ensures
        before.pending_focus && (focus is Update || focus is Lost) ==> after.next_poll == now
            + 5_000_000_000,
        before.pending_focus && focus is Failed ==> after.next_poll == now + 30_000_000_000,
        !before.pending_focus || focus is Waiting ==> after.next_poll == before.next_poll,
        outcome.query_focus ==> now >= after.next_poll && !(before.pending_focus && focus is Waiting),
        !before.pending_focus && now >= before.next_poll ==> outcome.query_focus,
        before.pending_inventory && !(inventory is Waiting) ==> after.next_inventory == now
            + 60_000_000_000,
        !before.pending_inventory && now >= before.next_inventory ==> outcome.query_inventory,
        now >= before.next_date_check ==> after.next_date_check == now + 60_000_000_000,
        now < before.next_date_check ==> after.current_day@ == before.current_day@,
        now >= before.next_date_check && day is Some ==> after.current_day@ == day.unwrap()@,
        now >= before.next_flush ==> after.next_flush == now + 30_000_000_000,
        now < before.next_flush ==> outcome.contents is None,
        outcome.append_inventory ==> after.next_inventory_heartbeat == now + 900_000_000_000,
{
}

/// The file is written with all that has been recorded, whenever it is due and
/// something is new.
pub proof fn law_tick_writes_what_is_new(
    before: UsageTracker,
    now: u64,
    day: Option<String>,
    focus: FocusReply,
    inventory: InventoryReply,
    after: UsageTracker,
    outcome: TickOutcome,
)
    requires
        is_tick(before, Platform::MacOs, now, day, focus, inventory, true, after, outcome),
    ensures
        now >= before.next_flush && (before.store.dirty || after.store.days@ != before.store.days@)
            ==> outcome.contents is Some,
        outcome.contents matches Some(text) ==> text@ == usage::history_text(after.store.days@),
        outcome.contents is None ==> (before.store.dirty ==> after.store.dirty),
        after.store.days@ != before.store.days@ ==> after.store.dirty,
{
}

/// An inventory is recorded where it differs from the last one recorded, or a
/// quarter of an hour after that, and then is the last one.
pub proof fn law_inventories_are_recorded(
    tracker: UsageTracker,
    list: Vec<TabObservation>,
    now: u64,
)
    requires
        tracker.pending_inventory,
    ensures
        ({
            let reply = InventoryReply::Found(list);
            &&& tabs::surfaces_of(list@) != tabs::surfaces_of(tracker.last_inventory@) ==> is_news(
                tracker,
                reply,
                now,
            )
            &&& now >= tracker.next_inventory_heartbeat ==> is_news(tracker, reply, now)
            &&& tabs::surfaces_of(list@) == tabs::surfaces_of(tracker.last_inventory@) && now
                < tracker.next_inventory_heartbeat ==> !is_news(tracker, reply, now)
            &&& tabs::surfaces_of(inventory_after(tracker, reply, now)) == tabs::surfaces_of(list@)
        }),
        !is_news(tracker, InventoryReply::Waiting, now),
        !is_news(tracker, InventoryReply::Lost, now),
{
}

/// Where Ghostty cannot tell which tab is focused, a tick does nothing.
pub proof fn law_nothing_is_tracked_on_linux(
    before: UsageTracker,
    now: u64,
    day: Option<String>,
    focus: FocusReply,
    inventory: InventoryReply,
    has_file: bool,
    after: UsageTracker,
    outcome: TickOutcome,
)
    requires
        is_tick(
            before,
            Platform::Linux,
            now,
            day,
            focus,
            inventory,
            has_file,
            after,
            outcome,
        ),
    ensures
        after == before,
        !outcome.changed && !outcome.query_focus && !outcome.query_inventory
            && !outcome.append_inventory && outcome.contents is None,
{
}

/// One look at all the tabs follows another: none is begun while one is awaited, nor
/// before its time.
pub proof fn law_one_look_at_a_time(
    before: UsageTracker,
    now: u64,
    day: Option<String>,
    focus: FocusReply,
    inventory: InventoryReply,
    has_file: bool,
    after: UsageTracker,
    outcome: TickOutcome,
)
    requires
        can_wait(now),
        is_tick(
            before,
            Platform::MacOs,
            now,
            day,
            focus,
            inventory,
            has_file,
            after,
            outcome,
        ),
    ensures
        before.pending_inventory ==> !outcome.query_inventory,
        now < before.next_inventory ==> !outcome.query_inventory,
        outcome.query_inventory ==> after.pending_inventory,
        after.pending_inventory ==> outcome.query_inventory || before.pending_inventory,
        before.pending_focus ==> !outcome.query_focus,
        outcome.query_focus ==> after.pending_focus,
        after.pending_focus ==> outcome.query_focus || before.pending_focus,
        before.pending_inventory && !(inventory is Waiting) ==> !after.pending_inventory,
        before.pending_focus && !(focus is Waiting) ==> !after.pending_focus,
{
}

/// Where nothing was earned, or less than a second, nothing is to be written.
pub proof fn law_nothing_new_is_not_written(
    before: UsageTracker,
    now: u64,
    day: Option<String>,
    focus: FocusReply,
    inventory: InventoryReply,
    has_file: bool,
    after: UsageTracker,
    outcome: TickOutcome,
)
    requires
        is_tick(
            before,
            Platform::MacOs,
            now,
            day,
            focus,
            inventory,
            has_file,
            after,
            outcome,
        ),
        !before.store.dirty,
        earned(before, focus) matches Some((_, seconds)) ==> seconds == 0,
    ensures
        !after.store.dirty,
        outcome.contents is None,
        after.store.days@ == before.store.days@,
{
}

} // verus!
