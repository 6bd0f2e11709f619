//! Where the program keeps its files.
use vstd::prelude::*;
use vstd::string::*;
use crate::process::Platform;
use crate::screen::push_line;
use crate::service::LAUNCH_AGENT_LABEL;
use crate::text;

verus! {

/// The file with the focused time of each tab on each day.
pub const USAGE_FILE: &'static str = "usage.tsv";

/// The file with the tabs there were over time.
pub const TAB_HISTORY_FILE: &'static str = "tab-history-v1.tsv";

/// The file with what the terminals used over time.
pub const RESOURCES_FILE: &'static str = "resources-v1.tsv";

/// The file with what the processes used over time.
pub const PROCESSES_FILE: &'static str = "processes-v1.tsv";

/// The file with when the tracker began and ended.
pub const TRACKER_EVENTS_FILE: &'static str = "tracker-events-v1.tsv";

/// The directory that a place is reached from.
#[derive(Clone, Copy, Debug, PartialEq, Eq, Structural)]
pub enum Base {
    /// The directory in `HOME`.
    Home,
    /// The directory in `XDG_DATA_HOME`.
    DataHome,
}

/// A directory or a file: where it is reached from, and what leads there.
#[derive(Debug)]
pub struct Place {
    pub base: Base,
    pub parts: Vec<String>,
}

/// A place as plain values.
pub open spec fn leads_to(place: Place) -> (Base, Seq<Seq<char>>) {
    (place.base, text::texts(place.parts@))
}

/// Where the data directory is reached from; there is none without a home.
pub open spec fn data_base(
    platform: Platform,
    home: Option<&str>,
    data_home: Option<&str>,
) -> Option<Base> {
    if platform == Platform::Linux && data_home is Some && data_home.unwrap()@.len() > 0 {
        Some(Base::DataHome)
    } else if home is Some {
        Some(Base::Home)
    } else {
        None
    }
}

/// What leads from a base to the data directory.
pub open spec fn data_parts(platform: Platform, base: Base) -> Seq<Seq<char>> {
    if platform == Platform::MacOs {
        seq!["Library"@, "Application Support"@, "ghostty-top"@]
    } else if base == Base::Home {
        seq![".local"@, "share"@, "ghostty-top"@]
    } else {
        seq!["ghostty-top"@]
    }
}

/// The directory that the program keeps its files in. On Linux an empty
/// `XDG_DATA_HOME` counts as none.
pub fn default_data_dir(platform: Platform, home: Option<&str>, data_home: Option<&str>) -> (place:
    Option<Place>)
    ensures
        place is Some <==> data_base(platform, home, data_home) is Some,
        place matches Some(found) ==> {
            &&& data_base(platform, home, data_home) == Some(found.base)
            &&& text::texts(found.parts@) == data_parts(platform, found.base)
        },
{
    let mut parts: Vec<String> = Vec::new();
    if platform == Platform::Linux {
        match data_home {
            Some(directory) => {
                if directory.unicode_len() > 0 {
                    push_line(&mut parts, "ghostty-top".to_owned());
                    assert(text::texts(parts@) =~= data_parts(platform, Base::DataHome));
                    return Some(Place { base: Base::DataHome, parts });
                }
            },
            None => {},
        }
    }
    if home.is_none() {
        return None;
    }
    if platform == Platform::MacOs {
        push_line(&mut parts, "Library".to_owned());
        push_line(&mut parts, "Application Support".to_owned());
    } else {
        push_line(&mut parts, ".local".to_owned());
        push_line(&mut parts, "share".to_owned());
    }
    push_line(&mut parts, "ghostty-top".to_owned());
    assert(text::texts(parts@) =~= data_parts(platform, Base::Home));
    Some(Place { base: Base::Home, parts })
}

/// The file with the usage history, in the data directory.
pub fn default_usage_path(platform: Platform, home: Option<&str>, data_home: Option<&str>) -> (place:
    Option<Place>)
    ensures
        place is Some <==> data_base(platform, home, data_home) is Some,
        place matches Some(found) ==> {
            &&& data_base(platform, home, data_home) == Some(found.base)
            &&& text::texts(found.parts@) == data_parts(platform, found.base).push(USAGE_FILE@)
        },
{
    match default_data_dir(platform, home, data_home) {
        Some(directory) => {
            let Place { base, mut parts } = directory;
            push_line(&mut parts, USAGE_FILE.to_owned());
            Some(Place { base, parts })
        },
        None => None,
    }
}

/// What leads from the home directory to the file that tells `launchd` of the
/// background tracker.
pub open spec fn agent_parts() -> Seq<Seq<char>> {
    seq!["Library"@, "LaunchAgents"@, LAUNCH_AGENT_LABEL@ + ".plist"@]
}

/// The file that tells `launchd` of the background tracker.
pub fn launch_agent_path(home: Option<&str>) -> (place: Option<Place>)
    ensures
        place is Some <==> home is Some,
        place matches Some(found) ==> leads_to(found) == (Base::Home, agent_parts()),
{
    if home.is_none() {
        return None;
    }
    let mut parts: Vec<String> = Vec::new();
    push_line(&mut parts, "Library".to_owned());
    push_line(&mut parts, "LaunchAgents".to_owned());
    let mut name = LAUNCH_AGENT_LABEL.to_owned();
    name.append(".plist");
    push_line(&mut parts, name);
    assert(text::texts(parts@) =~= agent_parts());
    Some(Place { base: Base::Home, parts })
}

/// What leads from a base to the program that the background tracker runs.
pub open spec fn binary_parts(platform: Platform, base: Base) -> Seq<Seq<char>> {
    data_parts(platform, base).push("bin"@).push("ghostty-top"@)
}

/// The program that the background tracker runs, in the data directory.
pub fn installed_binary(platform: Platform, home: Option<&str>, data_home: Option<&str>) -> (place:
    Option<Place>)
    ensures
        place is Some <==> data_base(platform, home, data_home) is Some,
        place matches Some(found) ==> {
            &&& data_base(platform, home, data_home) == Some(found.base)
            &&& leads_to(found) == (found.base, binary_parts(platform, found.base))
        },
{
    match default_data_dir(platform, home, data_home) {
        Some(directory) => {
            let Place { base, mut parts } = directory;
            push_line(&mut parts, "bin".to_owned());
            push_line(&mut parts, "ghostty-top".to_owned());
            Some(Place { base, parts })
        },
        None => None,
    }
}

/// Where the data is kept: on macOS under the user's library, on Linux under the
/// directory for data, where one is set, and else under the usual one.
pub proof fn law_where_data_is_kept(home: Option<&str>, data_home: Option<&str>)
    ensures
        home is Some ==> data_base(Platform::MacOs, home, data_home) == Some(Base::Home),
        home is None ==> data_base(Platform::MacOs, home, data_home) is None,
        data_home is Some && data_home.unwrap()@.len() > 0 ==> data_base(
            Platform::Linux,
            home,
            data_home,
        ) == Some(Base::DataHome),
        data_home is None || data_home.unwrap()@.len() == 0 ==> data_base(
            Platform::Linux,
            home,
            data_home,
        ) == data_base(Platform::MacOs, home, data_home),
        data_parts(Platform::MacOs, Base::Home) == seq![
            "Library"@,
            "Application Support"@,
            "ghostty-top"@,
        ],
        data_parts(Platform::Linux, Base::Home) == seq![".local"@, "share"@, "ghostty-top"@],
        data_parts(Platform::Linux, Base::DataHome) == seq!["ghostty-top"@],
{
}

/// The tracker's program lies among the data, and what starts it among the user's
/// launch agents.
pub proof fn law_where_the_tracker_is_kept(platform: Platform, base: Base)
    ensures
        binary_parts(platform, base).len() == data_parts(platform, base).len() + 2,
        binary_parts(platform, base).take(data_parts(platform, base).len() as int) == data_parts(
            platform,
            base,
        ),
        binary_parts(platform, base).last() == "ghostty-top"@,
        binary_parts(platform, base)[data_parts(platform, base).len() as int] == "bin"@,
        agent_parts().len() == 3,
        agent_parts()[0] == "Library"@,
        agent_parts()[1] == "LaunchAgents"@,
        agent_parts()[2] == "com.debrian07.ghostty-top.tracker"@ + ".plist"@,
{
    assert(binary_parts(platform, base).take(data_parts(platform, base).len() as int)
        =~= data_parts(platform, base));
}

} // verus!
