//! What a run of the program does, and how a batch of input is worked off.
use vstd::prelude::*;
use crate::command_line::{DemoHistoryAction, Options, ServiceAction};
use crate::input::InputEvent;
use crate::process::Platform;
use crate::screen::Layout;
use crate::state;
use crate::state::{App, Screen};
use crate::text::same_text;

verus! {

/// What a run of the program does.
#[derive(Clone, Copy, Debug, PartialEq, Eq, Structural)]
pub enum Task {
    /// Change or show the login tracker.
    Service(ServiceAction),
    /// Change the demo history.
    DemoHistory(DemoHistoryAction),
    /// Print one sample.
    Snapshot,
    /// Track focused time without a screen.
    Track,
    /// Say that focused time cannot be tracked here.
    NoTracking,
    /// Show the monitor and the calendar.
    Watch,
}

/// What the options ask for: the login tracker before the demo history, that
/// before a snapshot, and a snapshot before tracking.
pub open spec fn task_of(options: Options, platform: Platform) -> Task {
    match options.service_action {
        Some(action) => Task::Service(action),
        None => match options.demo_history_action {
            Some(action) => Task::DemoHistory(action),
            None => if options.once {
                Task::Snapshot
            } else if !options.track_only {
                Task::Watch
            } else if platform == Platform::MacOs {
                Task::Track
            } else {
                Task::NoTracking
            },
        },
    }
}

/// What the options ask for.
pub fn choose_task(options: Options, platform: Platform) -> (task: Task)
    ensures
        task == task_of(options, platform),
{
    match options.service_action {
        Some(action) => {
            return Task::Service(action);
        },
        None => {},
    }
    match options.demo_history_action {
        Some(action) => {
            return Task::DemoHistory(action);
        },
        None => {},
    }
    if options.once {
        Task::Snapshot
    } else if !options.track_only {
        Task::Watch
    } else {
        match platform {
            Platform::MacOs => Task::Track,
            Platform::Linux => Task::NoTracking,
        }
    }
}

/// Whether `after` is what an input event makes of `before`.
pub open spec fn is_event_result(
    before: App,
    layout: Layout,
    event: InputEvent,
    after: App,
) -> bool {
    match event {
        InputEvent::Key(key) => state::is_result(
            before,
            state::key_effect(before.view, before.terminals@.len(), key),
            after,
        ),
        InputEvent::Mouse(mouse) => if before.view == Screen::Usage {
            state::is_calendar_result(before, layout, mouse, after)
        } else {
            state::is_result(before, state::monitor_effect(before, layout, mouse), after)
        },
    }
}

/// Whether an input event ends the program.
pub open spec fn is_last_event(app: App, layout: Layout, event: InputEvent) -> bool {
    match event {
        InputEvent::Key(key) => state::key_effect(app.view, app.terminals@.len(), key) is Quit,
        InputEvent::Mouse(mouse) => state::quits(app, layout, mouse),
    }
}

/// Whether the program went through `states` while it worked off some events: one
/// after the other, up to the first that ends it.
pub open spec fn is_worked_off(states: Seq<App>, events: Seq<InputEvent>, layout: Layout) -> bool {
    &&& 1 <= states.len() <= events.len() + 1
    &&& forall|i: int|
        0 <= i < states.len() - 1 ==> is_event_result(
            #[trigger] states[i],
            layout,
            events[i],
            states[i + 1],
        )
    &&& forall|i: int|
        0 <= i < states.len() - 2 ==> !is_last_event(#[trigger] states[i], layout, events[i])
}

/// Whether the program goes on after the states it went through.
pub open spec fn goes_on(states: Seq<App>, events: Seq<InputEvent>, layout: Layout) -> bool {
    &&& states.len() == events.len() + 1
    &&& events.len() > 0 ==> !is_last_event(states[events.len() - 1], layout, events.last())
}

/// Whether the places that the clicks among some events stand for can be counted.
/// The view may change between two events, so this does not depend on it.
pub open spec fn are_in_range(events: Seq<InputEvent>, layout: Layout) -> bool {
    forall|i: int|
        0 <= i < events.len() ==> (#[trigger] events[i] matches InputEvent::Mouse(mouse)
            ==> state::is_in_range(layout, mouse))
}

impl App {
    /// Works off a batch of input. False when the program should end; what follows
    /// the event that ends it is left alone.
    pub fn handle_events(&mut self, events: &Vec<InputEvent>, layout: &Layout) -> (running: bool)
        requires
            are_in_range(events@, *layout),
        ensures
            exists|states: Seq<App>| #[trigger]
                is_worked_off(states, events@, *layout) && states[0] == *old(self) && states.last()
                    == *final(self) && running == goes_on(states, events@, *layout) && (!running
                    ==> states.len() >= 2 && is_last_event(
                    states[states.len() - 2],
                    *layout,
                    events@[states.len() - 2],
                )),
    {
        let ghost mut states: Seq<App> = seq![*self];
        let mut i: usize = 0;
        while i < events.len()
            invariant
                i <= events@.len(),
                are_in_range(events@, *layout),
                states.len() == i + 1,
                states[0] == *old(self),
                states.last() == *self,
                is_worked_off(states, events@, *layout),
                i > 0 ==> !is_last_event(states[i - 1], *layout, events@[i - 1]),
            decreases events@.len() - i,
        {
            let ghost before = states;
            let running = match events[i] {
                InputEvent::Key(key) => self.handle_key(key),
                InputEvent::Mouse(mouse) => self.handle_mouse(mouse, layout),
            };
            proof {
                states = before.push(*self);
                assert(is_event_result(before[i as int], *layout, events@[i as int], *self));
                assert forall|k: int| 0 <= k < states.len() - 1 implies is_event_result(
                    #[trigger] states[k],
                    *layout,
                    events@[k],
                    states[k + 1],
                ) by {
                    assert(states[k] == before[k]);
                    if k < i {
                        assert(states[k + 1] == before[k + 1]);
                    }
                }
                assert forall|k: int| 0 <= k < states.len() - 2 implies !is_last_event(
                    #[trigger] states[k],
                    *layout,
                    events@[k],
                ) by {
                    assert(states[k] == before[k]);
                }
            }
            if !running {
                assert(is_worked_off(states, events@, *layout));
                assert(is_last_event(states[states.len() - 2], *layout, events@[i as int]));
                return false;
            }
            i += 1;
        }
        true
    }
}

/// What is to be said of the state of tracking.
#[derive(Clone, Copy, Debug, PartialEq, Eq, Structural)]
pub enum Notice {
    /// Nothing has changed.
    Quiet,
    /// Something is wrong that has not been told.
    Warning,
    /// What was wrong no longer is.
    Recovered,
}

/// What is to be said when `reported` was told last and `current` holds now.
pub fn tracking_notice(reported: &Option<String>, current: &Option<String>) -> (notice: Notice)
    ensures
        notice == (if state::text_of(*current) == state::text_of(*reported) {
            Notice::Quiet
        } else if current is Some {
            Notice::Warning
        } else {
            Notice::Recovered
        }),
{
    match (reported, current) {
        (None, None) => Notice::Quiet,
        (Some(_), None) => Notice::Recovered,
        (None, Some(_)) => Notice::Warning,
        (Some(told), Some(error)) => {
            if same_text(told.as_str(), error.as_str()) {
                Notice::Quiet
            } else {
                Notice::Warning
            }
        },
    }
}

/// When the monitor takes its next sample, and whether the screen is out of date.
/// Times are nanoseconds on one monotonic clock.
#[derive(Clone, Copy, Debug, PartialEq, Eq, Structural)]
pub struct Watch {
    pub interval: u64,
    pub next_sample: u64,
    pub dirty: bool,
}

impl Watch {
    /// A watch that begins now: nothing has been drawn, and the first sample has
    /// just been taken.
    pub fn new(interval: u64, now: u64) -> (watch: Self)
        requires
            now + interval <= u64::MAX,
        ensures
            watch == (Watch { interval, next_sample: (now + interval) as u64, dirty: true }),
    {
        Watch { interval, next_sample: now + interval, dirty: true }
    }

    /// Whether the screen is to be drawn, which it then counts as.
    pub fn draw(&mut self) -> (due: bool)
        ensures
            due == old(self).dirty,
            *final(self) == (Watch { dirty: false, ..*old(self) }),
    {
        let due = self.dirty;
        self.dirty = false;
        due
    }

    /// Whether a sample is to be taken.
    pub fn sample_due(&self, now: u64) -> (due: bool)
        ensures
            due == (now >= self.next_sample),
    {
        now >= self.next_sample
    }

    /// Notes that a sample has been taken: the next one follows an interval later.
    pub fn sampled(&mut self, now: u64)
        requires
            now + old(self).interval <= u64::MAX,
        ensures
            *final(self) == (Watch {
                next_sample: (now + old(self).interval) as u64,
                dirty: true,
                ..*old(self)
            }),
    {
        self.next_sample = now + self.interval;
        self.dirty = true;
    }

    /// Notes whether something has changed that the screen shows.
    pub fn note(&mut self, changed: bool)
        ensures
            *final(self) == (Watch { dirty: old(self).dirty || changed, ..*old(self) }),
    {
        self.dirty = self.dirty || changed;
    }
}

/// Time between two samples while there is no screen, in nanoseconds.
pub const TRACKING_REFRESH: u64 = 60_000_000_000;

/// Whether the time for another sample has come while tracking, and when the next
/// one is due.
pub open spec fn refresh_step(now: u64, next: u64) -> (bool, u64) {
    if now >= next {
        (true, (now + TRACKING_REFRESH) as u64)
    } else {
        (false, next)
    }
}


/// Whether a sample is to be taken without a screen, and when the next one is due
/// then.
pub fn tracking_refresh(now: u64, next: u64) -> (step: (bool, u64))
    requires
        now + TRACKING_REFRESH <= u64::MAX,
    ensures
        step == refresh_step(now, next),
{
    if now >= next {
        (true, now + TRACKING_REFRESH)
    } else {
        (false, next)
    }
}

/// No input takes the selection off the terminals, where the layout shows none but
/// them.
pub proof fn law_input_keeps_the_selection(
    before: App,
    layout: Layout,
    event: InputEvent,
    after: App,
)
    requires
        state::is_selection(before),
        before.terminals@.len() <= usize::MAX,
        layout.shown_start + layout.shown_count <= before.terminals@.len(),
        is_event_result(before, layout, event, after),
    ensures
        state::is_selection(after),
{
    match event {
        InputEvent::Key(key) => {
            state::law_keys_keep_the_selection(before, key, after);
        },
        InputEvent::Mouse(mouse) => {
            state::law_clicks_keep_the_selection(before, layout, mouse, after);
        },
    }
}

/// What the options ask for, one by one: the login tracker before all else, then
/// the demo history, a snapshot, and tracking without a screen, where that is
/// possible; the screen otherwise.
pub proof fn law_tasks(options: Options, platform: Platform)
    ensures
        options.service_action matches Some(action) ==> task_of(options, platform)
            == Task::Service(action),
        options.service_action is None ==> (options.demo_history_action matches Some(action)
            ==> task_of(options, platform) == Task::DemoHistory(action)),
        ({
            let plain = options.service_action is None && options.demo_history_action is None;
            &&& plain && options.once ==> task_of(options, platform) is Snapshot
            &&& plain && !options.once && !options.track_only ==> task_of(options, platform) is Watch
            &&& plain && !options.once && options.track_only && platform == Platform::MacOs
                ==> task_of(options, platform) is Track
            &&& plain && !options.once && options.track_only && platform == Platform::Linux
                ==> task_of(options, platform) is NoTracking
        }),
{
}

/// While tracking, samples are a minute apart: one that is due is not due again
/// before, and one that is not stays where it was.
pub proof fn law_tracking_samples_once_a_minute(now: u64, next: u64, later: u64)
    requires
        now + TRACKING_REFRESH <= u64::MAX,
    ensures
        refresh_step(now, next).0 <==> now >= next,
        now >= next ==> (refresh_step(later, refresh_step(now, next).1).0 <==> later - now
            >= 60_000_000_000),
        now < next ==> refresh_step(now, next).1 == next,
{
}

} // verus!
