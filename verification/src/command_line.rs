//! What the program is asked to do.
use vstd::prelude::*;
use crate::text;
use crate::text::same_text;

verus! {

/// How the program is called.
pub const USAGE: &'static str = "Usage: ghostty-top [OPTIONS]\n\n  --once                print one process sample and exit\n  --track               track focused-tab usage without the TUI\n  --install-tracker     install and start tracking automatically at login\n  --uninstall-tracker   remove the login service but preserve usage history\n  --tracker-status      show the login tracker's launchd status\n  --seed-demo-history   add removable calendar test data for prior days\n  --clear-demo-history  remove demo data without touching real history\n  --interval SECONDS    process refresh rate from 0.2 to 60 (default: 1)\n  -V, --version         print the version and exit";

/// Time between two process samples, in nanoseconds, unless asked otherwise.
pub const DEFAULT_INTERVAL: u64 = 1_000_000_000;

/// What to do with the login service.
#[derive(Clone, Copy, Debug, PartialEq, Eq, Structural)]
pub enum ServiceAction {
    Install,
    Uninstall,
    Status,
}

/// What to do with the demo history.
#[derive(Clone, Copy, Debug, PartialEq, Eq, Structural)]
pub enum DemoHistoryAction {
    Seed,
    Clear,
}

/// How the program is to run.
#[derive(Clone, Copy, Debug, PartialEq, Eq, Structural)]
pub struct Options {
    pub once: bool,
    pub track_only: bool,
    pub service_action: Option<ServiceAction>,
    pub demo_history_action: Option<DemoHistoryAction>,
    /// Time between two process samples, in nanoseconds.
    pub interval: u64,
}

/// What the program is asked to do.
#[derive(Clone, Copy, Debug, PartialEq, Eq, Structural)]
pub enum Invocation {
    Run(Options),
    /// Print the version.
    Version,
    /// Say how the program is called, as asked.
    Help,
    /// Say how the program is called: this was no way to call it.
    Misuse,
}

/// The options without any argument.
pub open spec fn default_options() -> Options {
    Options {
        once: false,
        track_only: false,
        service_action: None,
        demo_history_action: None,
        interval: DEFAULT_INTERVAL,
    }
}

/// What the arguments from index `at` on ask for. `intervals` tells of each
/// argument the interval that it stands for, where it stands for one.
pub open spec fn asked_from(
    args: Seq<Seq<char>>,
    intervals: Seq<Option<u64>>,
    at: int,
    options: Options,
) -> Invocation
    decreases args.len() - at,
{
    if at < 0 || at >= args.len() {
        Invocation::Run(options)
    } else if args[at] == "--once"@ {
        asked_from(args, intervals, at + 1, Options { once: true, ..options })
    } else if args[at] == "--track"@ {
        asked_from(args, intervals, at + 1, Options { track_only: true, ..options })
    } else if args[at] == "--install-tracker"@ {
        asked_from(
            args,
            intervals,
            at + 1,
            Options { service_action: Some(ServiceAction::Install), ..options },
        )
    } else if args[at] == "--uninstall-tracker"@ {
        asked_from(
            args,
            intervals,
            at + 1,
            Options { service_action: Some(ServiceAction::Uninstall), ..options },
        )
    } else if args[at] == "--tracker-status"@ {
        asked_from(
            args,
            intervals,
            at + 1,
            Options { service_action: Some(ServiceAction::Status), ..options },
        )
    } else if args[at] == "--seed-demo-history"@ {
        asked_from(
            args,
            intervals,
            at + 1,
            Options { demo_history_action: Some(DemoHistoryAction::Seed), ..options },
        )
    } else if args[at] == "--clear-demo-history"@ {
        asked_from(
            args,
            intervals,
            at + 1,
            Options { demo_history_action: Some(DemoHistoryAction::Clear), ..options },
        )
    } else if args[at] == "--interval"@ {
        if at + 1 < args.len() {
            match intervals[at + 1] {
                Some(interval) => asked_from(
                    args,
                    intervals,
                    at + 2,
                    Options { interval, ..options },
                ),
                None => Invocation::Misuse,
            }
        } else {
            Invocation::Misuse
        }
    } else if args[at] == "-V"@ || args[at] == "--version"@ {
        Invocation::Version
    } else if args[at] == "-h"@ || args[at] == "--help"@ {
        Invocation::Help
    } else {
        Invocation::Misuse
    }
}

/// What some arguments ask for.
pub open spec fn asked(args: Seq<Seq<char>>, intervals: Seq<Option<u64>>) -> Invocation {
    asked_from(args, intervals, 0, default_options())
}

/// Reads the arguments, given the interval in nanoseconds that each of them
/// stands for, where it stands for one.
pub fn read_arguments(args: &Vec<String>, intervals: &Vec<Option<u64>>) -> (invocation: Invocation)
    requires
        intervals@.len() >= args@.len(),
    ensures
        invocation == asked(text::texts(args@), intervals@),
{
    let ghost all = text::texts(args@);
    let mut options = Options {
        once: false,
        track_only: false,
        service_action: None,
        demo_history_action: None,
        interval: DEFAULT_INTERVAL,
    };
    let mut at: usize = 0;
    while at < args.len()
        invariant
            at <= args@.len() <= intervals@.len(),
            all == text::texts(args@),
            asked(all, intervals@) == asked_from(all, intervals@, at as int, options),
        decreases args@.len() - at,
    {
        let arg = args[at].as_str();
        assert(all[at as int] == arg@);
        if same_text(arg, "--once") {
            options.once = true;
        } else if same_text(arg, "--track") {
            options.track_only = true;
        } else if same_text(arg, "--install-tracker") {
            options.service_action = Some(ServiceAction::Install);
        } else if same_text(arg, "--uninstall-tracker") {
            options.service_action = Some(ServiceAction::Uninstall);
        } else if same_text(arg, "--tracker-status") {
            options.service_action = Some(ServiceAction::Status);
        } else if same_text(arg, "--seed-demo-history") {
            options.demo_history_action = Some(DemoHistoryAction::Seed);
        } else if same_text(arg, "--clear-demo-history") {
            options.demo_history_action = Some(DemoHistoryAction::Clear);
        } else if same_text(arg, "--interval") {
            at += 1;
            if at >= args.len() {
                return Invocation::Misuse;
            }
            match intervals[at] {
                Some(interval) => {
                    options.interval = interval;
                },
                None => {
                    return Invocation::Misuse;
                },
            }
        } else if same_text(arg, "-V") || same_text(arg, "--version") {
            return Invocation::Version;
        } else if same_text(arg, "-h") || same_text(arg, "--help") {
            return Invocation::Help;
        } else {
            return Invocation::Misuse;
        }
        at += 1;
    }
    Invocation::Run(options)
}

/// Each option does one thing, and those behind it are read as if it had not been
/// there.
pub proof fn law_options_stand_alone(
    args: Seq<Seq<char>>,
    intervals: Seq<Option<u64>>,
    at: int,
    options: Options,
)
    requires
        0 <= at < args.len(),
    ensures
        ({
            let found = asked_from(args, intervals, at, options);
            let next = |changed: Options| asked_from(args, intervals, at + 1, changed);
            &&& args[at] == "--once"@ ==> found == next(Options { once: true, ..options })
            &&& args[at] == "--track"@ ==> found == next(Options { track_only: true, ..options })
            &&& args[at] == "--install-tracker"@ ==> found == next(
                Options { service_action: Some(ServiceAction::Install), ..options },
            )
            &&& args[at] == "--uninstall-tracker"@ ==> found == next(
                Options { service_action: Some(ServiceAction::Uninstall), ..options },
            )
            &&& args[at] == "--tracker-status"@ ==> found == next(
                Options { service_action: Some(ServiceAction::Status), ..options },
            )
            &&& args[at] == "--seed-demo-history"@ ==> found == next(
                Options { demo_history_action: Some(DemoHistoryAction::Seed), ..options },
            )
            &&& args[at] == "--clear-demo-history"@ ==> found == next(
                Options { demo_history_action: Some(DemoHistoryAction::Clear), ..options },
            )
            &&& args[at] == "--version"@ || args[at] == "-V"@ ==> found is Version
            &&& args[at] == "--help"@ || args[at] == "-h"@ ==> found is Help
            &&& args[at] == "--interval"@ && at + 1 < args.len() ==> (intervals[at
                + 1] matches Some(interval) ==> found == asked_from(
                args,
                intervals,
                at + 2,
                Options { interval, ..options },
            ))
            &&& args[at] == "--interval"@ && (at + 1 == args.len() || intervals[at + 1] is None)
                ==> found is Misuse
            &&& args[at].len() == 0 || args[at][0] != '-' ==> found is Misuse
        }),
        asked(Seq::empty(), intervals) == Invocation::Run(
            Options {
                once: false,
                track_only: false,
                service_action: None,
                demo_history_action: None,
                interval: 1_000_000_000,
            },
        ),
{
    reveal_strlit("--once");
    reveal_strlit("--track");
    reveal_strlit("--install-tracker");
    reveal_strlit("--uninstall-tracker");
    reveal_strlit("--tracker-status");
    reveal_strlit("--seed-demo-history");
    reveal_strlit("--clear-demo-history");
    reveal_strlit("--interval");
    reveal_strlit("--version");
    reveal_strlit("--help");
    reveal_strlit("-V");
    reveal_strlit("-h");
    lemma_options_differ();
}

/// No two options are written alike.
proof fn lemma_options_differ()
    ensures
        "--once"@.len() == 6 && "--once"@[0] == '-',
        "--track"@.len() == 7 && "--track"@[0] == '-',
        "--install-tracker"@.len() == 17 && "--install-tracker"@[0] == '-',
        "--uninstall-tracker"@.len() == 19 && "--uninstall-tracker"@[2] == 'u',
        "--tracker-status"@.len() == 16,
        "--seed-demo-history"@.len() == 19 && "--seed-demo-history"@[2] == 's',
        "--clear-demo-history"@.len() == 20,
        "--interval"@.len() == 10,
        "--version"@.len() == 9,
        "--help"@.len() == 6 && "--help"@[2] == 'h' && "--once"@[2] == 'o',
        "-V"@.len() == 2 && "-V"@[1] == 'V',
        "-h"@.len() == 2 && "-h"@[1] == 'h',
{
    reveal_strlit("--once");
    reveal_strlit("--track");
    reveal_strlit("--install-tracker");
    reveal_strlit("--uninstall-tracker");
    reveal_strlit("--tracker-status");
    reveal_strlit("--seed-demo-history");
    reveal_strlit("--clear-demo-history");
    reveal_strlit("--interval");
    reveal_strlit("--version");
    reveal_strlit("--help");
    reveal_strlit("-V");
    reveal_strlit("-h");
}

} // verus!
