//! The login service that follows the focused tab in the background.
use vstd::prelude::*;
use vstd::string::*;
use crate::number;
use crate::number::write_decimal;
use crate::places;
use crate::places::{Base, Place, installed_binary, launch_agent_path};
use crate::process::Platform;
use crate::text;

verus! {

/// Name of the login service.
pub const LAUNCH_AGENT_LABEL: &'static str = "com.debrian07.ghostty-top.tracker";

/// Said wherever following the focused tab is asked for and cannot be given.
pub const FOCUS_UNAVAILABLE: &'static str = "tracking which tab is focused needs macOS; Ghostty exposes no way to ask on this platform";

/// A character as XML text.
pub open spec fn xml_char(c: char) -> Seq<char> {
    if c == '&' {
        "&amp;"@
    } else if c == '<' {
        "&lt;"@
    } else if c == '>' {
        "&gt;"@
    } else if c == '"' {
        "&quot;"@
    } else if c == '\'' {
        "&apos;"@
    } else {
        seq![c]
    }
}

/// Text as XML text.
pub open spec fn xml_text(s: Seq<char>) -> Seq<char>
    decreases s.len(),
{
    if s.len() == 0 {
        seq![]
    } else {
        xml_text(s.drop_last()) + xml_char(s.last())
    }
}

/// Writes text as XML text.
pub fn xml_escape(value: &str) -> (escaped: String)
    ensures
        escaped@ == xml_text(value@),
{
    let mut escaped = String::new();
    assert(value@.take(0) =~= seq![]);
    for c in it: value.chars()
        invariant
            it.seq() == value@,
            escaped@ == xml_text(value@.take(it.index())),
    {
        proof {
            assert(value@.take(it.index() + 1).drop_last() =~= value@.take(it.index()));
        }
        if c == '&' {
            escaped.append("&amp;");
        } else if c == '<' {
            escaped.append("&lt;");
        } else if c == '>' {
            escaped.append("&gt;");
        } else if c == '"' {
            escaped.append("&quot;");
        } else if c == '\'' {
            escaped.append("&apos;");
        } else {
            let ghost before = escaped@;
            escaped.push(c);
            assert(escaped@ =~= before + seq![c]);
        }
    }
    assert(value@.take(value@.len() as int) =~= value@);
    escaped
}

/// Whether text could end the XML element it stands in, or begin another.
pub open spec fn has_markup(s: Seq<char>) -> bool {
    exists|i: int|
        0 <= i < s.len() && (#[trigger] s[i] == '<' || s[i] == '>' || s[i] == '"' || s[i] == '\'')
}

/// No text can break out of the XML element it is written to.
pub proof fn law_escaped_has_no_markup(s: Seq<char>)
    ensures
        !has_markup(xml_text(s)),
    decreases s.len(),
{
    if s.len() > 0 {
        law_escaped_has_no_markup(s.drop_last());
        let before = xml_text(s.drop_last());
        let last = xml_char(s.last());
        assert(!has_markup(last)) by {
            reveal_strlit("&amp;");
            reveal_strlit("&lt;");
            reveal_strlit("&gt;");
            reveal_strlit("&quot;");
            reveal_strlit("&apos;");
            assert forall|i: int| 0 <= i < last.len() implies #[trigger] last[i] != '<' && last[i] != '>'
                && last[i] != '"' && last[i] != '\'' by {}
        }
        let whole = xml_text(s);
        assert forall|i: int| 0 <= i < whole.len() implies #[trigger] whole[i] != '<' && whole[i]
            != '>' && whole[i] != '"' && whole[i] != '\'' by {
            if i < before.len() {
                assert(whole[i] == before[i]);
            } else {
                assert(whole[i] == last[i - before.len()]);
            }
        }
    }
}

proof fn lemma_xml_front(s: Seq<char>)
    requires
        s.len() > 0,
    ensures
        xml_text(s) == xml_char(s[0]) + xml_text(s.skip(1)),
    decreases s.len(),
{
    if s.len() == 1 {
        assert(s.drop_last() =~= seq![]);
        assert(s.skip(1) =~= seq![]);
        assert(xml_text(s) =~= xml_char(s[0]) + xml_text(s.skip(1)));
    } else {
        lemma_xml_front(s.drop_last());
        assert(s.drop_last().skip(1) =~= s.skip(1).drop_last());
        assert(xml_text(s) =~= xml_char(s[0]) + xml_text(s.skip(1)));
    }
}

/// The first characters of XML text tell what it was written for.
proof fn lemma_xml_char(a: char, b: char, left: Seq<char>, right: Seq<char>)
    requires
        xml_char(a) + left == xml_char(b) + right,
    ensures
        a == b,
        left == right,
{
    reveal_strlit("&amp;");
    reveal_strlit("&lt;");
    reveal_strlit("&gt;");
    reveal_strlit("&quot;");
    reveal_strlit("&apos;");
    let one = xml_char(a) + left;
    let other = xml_char(b) + right;
    assert(one[0] == other[0] && one[1] == other[1] && one[2] == other[2]);
    assert(one[0] == xml_char(a)[0] && other[0] == xml_char(b)[0]);
    if a != b {
        assert(xml_char(a).len() >= 4 && xml_char(b).len() >= 4);
        assert(one[1] == xml_char(a)[1] && other[1] == xml_char(b)[1]);
        assert(one[2] == xml_char(a)[2] && other[2] == xml_char(b)[2]);
    }
    let n = xml_char(a).len() as int;
    assert(left =~= one.skip(n));
    assert(right =~= other.skip(n));
}

/// Escaping loses nothing: no two texts are written alike.
pub proof fn law_escaping_loses_nothing(a: Seq<char>, b: Seq<char>)
    requires
        xml_text(a) == xml_text(b),
    ensures
        a == b,
    decreases a.len(),
{
    reveal_strlit("&amp;");
    reveal_strlit("&lt;");
    reveal_strlit("&gt;");
    reveal_strlit("&quot;");
    reveal_strlit("&apos;");
    if a.len() == 0 || b.len() == 0 {
        if a.len() > 0 {
            lemma_xml_front(a);
            assert(xml_char(a[0]).len() > 0);
        }
        if b.len() > 0 {
            lemma_xml_front(b);
            assert(xml_char(b[0]).len() > 0);
        }
        assert(a =~= b);
    } else {
        lemma_xml_front(a);
        lemma_xml_front(b);
        lemma_xml_char(a[0], b[0], xml_text(a.skip(1)), xml_text(b.skip(1)));
        law_escaping_loses_nothing(a.skip(1), b.skip(1));
        assert(a =~= seq![a[0]] + a.skip(1));
        assert(b =~= seq![b[0]] + b.skip(1));
    }
}

/// The description of the login service.
pub open spec fn agent_text(binary: Seq<char>, log: Seq<char>, error_log: Seq<char>) -> Seq<char> {
    "<?xml version=\"1.0\" encoding=\"UTF-8\"?>\n<!DOCTYPE plist PUBLIC \"-//Apple//DTD PLIST 1.0//EN\" \"http://www.apple.com/DTDs/PropertyList-1.0.dtd\">\n<plist version=\"1.0\">\n<dict>\n  <key>Label</key>\n  <string>"@
        + LAUNCH_AGENT_LABEL@
        + "</string>\n  <key>ProgramArguments</key>\n  <array>\n    <string>"@ + xml_text(binary)
        + "</string>\n    <string>--track</string>\n  </array>\n  <key>RunAtLoad</key>\n  <true/>\n  <key>KeepAlive</key>\n  <true/>\n  <key>ProcessType</key>\n  <string>Background</string>\n  <key>ThrottleInterval</key>\n  <integer>10</integer>\n  <key>StandardOutPath</key>\n  <string>"@
        + xml_text(log) + "</string>\n  <key>StandardErrorPath</key>\n  <string>"@ + xml_text(
        error_log,
    ) + "</string>\n</dict>\n</plist>\n"@
}

/// The description of the login service that runs the installed program.
pub fn launch_agent(binary: &str, log: &str, error_log: &str) -> (plist: String)
    ensures
        plist@ == agent_text(binary@, log@, error_log@),
{
    let mut plist =
        "<?xml version=\"1.0\" encoding=\"UTF-8\"?>\n<!DOCTYPE plist PUBLIC \"-//Apple//DTD PLIST 1.0//EN\" \"http://www.apple.com/DTDs/PropertyList-1.0.dtd\">\n<plist version=\"1.0\">\n<dict>\n  <key>Label</key>\n  <string>".to_owned();
    plist.append(LAUNCH_AGENT_LABEL);
    plist.append("</string>\n  <key>ProgramArguments</key>\n  <array>\n    <string>");
    plist.append(xml_escape(binary).as_str());
    plist.append(
        "</string>\n    <string>--track</string>\n  </array>\n  <key>RunAtLoad</key>\n  <true/>\n  <key>KeepAlive</key>\n  <true/>\n  <key>ProcessType</key>\n  <string>Background</string>\n  <key>ThrottleInterval</key>\n  <integer>10</integer>\n  <key>StandardOutPath</key>\n  <string>",
    );
    plist.append(xml_escape(log).as_str());
    plist.append("</string>\n  <key>StandardErrorPath</key>\n  <string>");
    plist.append(xml_escape(error_log).as_str());
    plist.append("</string>\n</dict>\n</plist>\n");
    plist
}

/// What to write to install the login service. Only macOS has one.
pub fn install_login_tracker(platform: Platform, binary: &str, log: &str, error_log: &str) -> (plist:
    Result<String, String>)
    ensures
        plist is Ok <==> platform == Platform::MacOs,
        plist matches Ok(text) ==> text@ == agent_text(binary@, log@, error_log@),
        plist matches Err(error) ==> error@ == FOCUS_UNAVAILABLE@,
{
    match platform {
        Platform::MacOs => Ok(launch_agent(binary, log, error_log)),
        Platform::Linux => Err(FOCUS_UNAVAILABLE.to_owned()),
    }
}

/// The files that removing the login service takes away: its description, and the
/// program that it runs.
pub open spec fn removed_files() -> Seq<(Base, Seq<Seq<char>>)> {
    seq![
        (Base::Home, places::agent_parts()),
        (Base::Home, places::binary_parts(Platform::MacOs, Base::Home)),
    ]
}

/// The files to remove to uninstall the login service. Only macOS has one.
pub fn uninstall_login_tracker(platform: Platform, home: Option<&str>) -> (files: Result<
    Vec<Place>,
    String,
>)
    ensures
        files is Ok <==> platform == Platform::MacOs && home is Some,
        files matches Ok(found) ==> found@.map_values(|place: Place| places::leads_to(place))
            == removed_files(),
        files matches Err(error) ==> error@ == (if platform == Platform::Linux {
            FOCUS_UNAVAILABLE@
        } else {
            "could not find the home directory"@
        }),
{
    match platform {
        Platform::Linux => Err(FOCUS_UNAVAILABLE.to_owned()),
        Platform::MacOs => {
            match (launch_agent_path(home), installed_binary(platform, home, None)) {
                (Some(agent), Some(binary)) => {
                    let mut files: Vec<Place> = Vec::new();
                    files.push(agent);
                    files.push(binary);
                    assert(files@.map_values(|place: Place| places::leads_to(place))
                        =~= removed_files());
                    Ok(files)
                },
                _ => Err("could not find the home directory".to_owned()),
            }
        },
    }
}

/// Removing the login service keeps every file in the data directory: the usage
/// history and all that is recorded beside it.
pub proof fn law_uninstalling_keeps_the_history(name: Seq<char>)
    ensures
        !removed_files().contains(
            (Base::Home, places::data_parts(Platform::MacOs, Base::Home).push(name)),
        ),
{
    let kept = places::data_parts(Platform::MacOs, Base::Home).push(name);
    assert(kept.len() == 4);
    assert(places::agent_parts().len() == 3);
    assert(places::binary_parts(Platform::MacOs, Base::Home).len() == 5);
}

/// Whether the login service is loaded, given whether launchd knows it.
pub fn tracker_status(platform: Platform, known: bool) -> (status: Result<(), String>)
    ensures
        status is Ok <==> platform == Platform::MacOs && known,
        status matches Err(error) ==> error@ == (if platform == Platform::Linux {
            FOCUS_UNAVAILABLE@
        } else {
            "login tracker is not loaded; run --install-tracker"@
        }),
{
    match platform {
        Platform::MacOs => if known {
            Ok(())
        } else {
            Err("login tracker is not loaded; run --install-tracker".to_owned())
        },
        Platform::Linux => Err(FOCUS_UNAVAILABLE.to_owned()),
    }
}

fn same_bytes(a: &Vec<u8>, b: &Vec<u8>) -> (same: bool)
    ensures
        same == (a@ == b@),
{
    if a.len() != b.len() {
        return false;
    }
    let mut i: usize = 0;
    while i < a.len()
        invariant
            i <= a@.len() == b@.len(),
            forall|k: int| 0 <= k < i ==> a@[k] == b@[k],
        decreases a@.len() - i,
    {
        if a[i] != b[i] {
            return false;
        }
        i += 1;
    }
    assert(a@ =~= b@);
    true
}

/// Whether the installed tracker is another build than this program. Where
/// either cannot be read there is nothing to warn about.
pub fn tracker_is_outdated(
    platform: Platform,
    installed: Option<&Vec<u8>>,
    current: Option<&Vec<u8>>,
) -> (outdated: bool)
    ensures
        outdated == (platform == Platform::MacOs && installed is Some && current is Some
            && installed.unwrap()@ != current.unwrap()@),
{
    match (platform, installed, current) {
        (Platform::MacOs, Some(installed), Some(current)) => !same_bytes(installed, current),
        _ => false,
    }
}

/// What launchd calls the services of a user.
pub fn launchd_domain(user: u32) -> (domain: String)
    ensures
        domain@ == "gui/"@ + number::decimal(user as nat),
{
    let mut domain = "gui/".to_owned();
    domain.append(write_decimal(user as u64).as_str());
    domain
}

/// What launchd calls the login service of a user.
pub fn launchd_service(user: u32) -> (service: String)
    ensures
        service@ == "gui/"@ + number::decimal(user as nat) + "/"@ + LAUNCH_AGENT_LABEL@,
{
    let mut service = launchd_domain(user);
    service.append("/");
    service.append(LAUNCH_AGENT_LABEL);
    service
}

/// Text that holds no mark is escaped as it is, and each mark by its name; the parts
/// of a text are escaped one by one.
pub proof fn law_escaping(a: Seq<char>, b: Seq<char>, c: char)
    ensures
        xml_text(a + b) == xml_text(a) + xml_text(b),
        xml_text(a.push(c)) == xml_text(a) + (if c == '&' {
            "&amp;"@
        } else if c == '<' {
            "&lt;"@
        } else if c == '>' {
            "&gt;"@
        } else if c == '"' {
            "&quot;"@
        } else if c == '\'' {
            "&apos;"@
        } else {
            seq![c]
        }),
        xml_text(Seq::empty()) == Seq::<char>::empty(),
    decreases b.len(),
{
    assert(a.push(c).drop_last() =~= a);
    if b.len() == 0 {
        assert(a + b =~= a);
    } else {
        law_escaping(a, b.drop_last(), c);
        assert((a + b).drop_last() =~= a + b.drop_last());
        assert((a + b).last() == b.last());
    }
}

/// Whether a text holds another somewhere.
pub open spec fn holds_text(whole: Seq<char>, piece: Seq<char>) -> bool {
    exists|at: int|
        0 <= at <= whole.len() - piece.len() && #[trigger] whole.subrange(at, at + piece.len())
            == piece
}

/// A value that stands between two fixed texts is found with the end of the one
/// and the beginning of the other around it.
proof fn lemma_value_between(
    front: Seq<char>,
    before: Seq<char>,
    value: Seq<char>,
    after: Seq<char>,
    key: Seq<char>,
    close: Seq<char>,
)
    requires
        text::finishes_with(before, key),
        text::begins_with(after, close),
    ensures
        holds_text(front + before + value + after, key + value + close),
{
    let whole = front + before + value + after;
    let piece = key + value + close;
    let at = front.len() + before.len() - key.len();
    assert forall|i: int| 0 <= i < piece.len() implies #[trigger] whole.subrange(
        at,
        at + piece.len(),
    )[i] == piece[i] by {
        if i < key.len() {
            assert(before.skip(before.len() - key.len())[i] == key[i]);
        } else if i >= key.len() + value.len() {
            let k = i - key.len() - value.len();
            assert(after.take(close.len() as int)[k] == close[k]);
        }
    }
    assert(whole.subrange(at, at + piece.len()) =~= piece);
}

proof fn lemma_still_holds(whole: Seq<char>, piece: Seq<char>, more: Seq<char>)
    requires
        holds_text(whole, piece),
    ensures
        holds_text(whole + more, piece),
{
    let at = choose|at: int|
        0 <= at <= whole.len() - piece.len() && #[trigger] whole.subrange(at, at + piece.len())
            == piece;
    assert((whole + more).subrange(at, at + piece.len()) =~= piece);
}

/// The login tracker is known by its label, runs the program with `--track`, and
/// writes what it prints and its errors each to its own file.
pub proof fn law_what_the_agent_runs(binary: Seq<char>, log: Seq<char>, error_log: Seq<char>)
    ensures
        ({
            let text = agent_text(binary, log, error_log);
            &&& holds_text(
                text,
                "<key>Label</key>\n  <string>"@ + "com.debrian07.ghostty-top.tracker"@
                    + "</string>"@,
            )
            &&& holds_text(
                text,
                "<array>\n    <string>"@ + xml_text(binary)
                    + "</string>\n    <string>--track</string>"@,
            )
            &&& holds_text(
                text,
                "<key>StandardOutPath</key>\n  <string>"@ + xml_text(log) + "</string>"@,
            )
            &&& holds_text(
                text,
                "<key>StandardErrorPath</key>\n  <string>"@ + xml_text(error_log) + "</string>"@,
            )
        }),
{
    let a = "<?xml version=\"1.0\" encoding=\"UTF-8\"?>\n<!DOCTYPE plist PUBLIC \"-//Apple//DTD PLIST 1.0//EN\" \"http://www.apple.com/DTDs/PropertyList-1.0.dtd\">\n<plist version=\"1.0\">\n<dict>\n  <key>Label</key>\n  <string>"@;
    let b = "</string>\n  <key>ProgramArguments</key>\n  <array>\n    <string>"@;
    let c = "</string>\n    <string>--track</string>\n  </array>\n  <key>RunAtLoad</key>\n  <true/>\n  <key>KeepAlive</key>\n  <true/>\n  <key>ProcessType</key>\n  <string>Background</string>\n  <key>ThrottleInterval</key>\n  <integer>10</integer>\n  <key>StandardOutPath</key>\n  <string>"@;
    let d = "</string>\n  <key>StandardErrorPath</key>\n  <string>"@;
    let e = "</string>\n</dict>\n</plist>\n"@;
    let close = "</string>"@;
    let program = xml_text(binary);
    let out = xml_text(log);
    let err = xml_text(error_log);
    let label = LAUNCH_AGENT_LABEL@;
    let label_key = "<key>Label</key>\n  <string>"@;
    let array_key = "<array>\n    <string>"@;
    let track = "</string>\n    <string>--track</string>"@;
    let out_key = "<key>StandardOutPath</key>\n  <string>"@;
    let err_key = "<key>StandardErrorPath</key>\n  <string>"@;
    lemma_agent_literals();
    let upto_b = a + label + b;
    let upto_c = upto_b + program + c;
    let upto_d = upto_c + out + d;
    assert(Seq::<char>::empty() + a =~= a);
    lemma_value_between(Seq::empty(), a, label, b, label_key, close);
    lemma_still_holds(upto_b, label_key + label + close, program);
    lemma_still_holds(upto_b + program, label_key + label + close, c);
    lemma_still_holds(upto_c, label_key + label + close, out);
    lemma_still_holds(upto_c + out, label_key + label + close, d);
    lemma_still_holds(upto_d, label_key + label + close, err);
    lemma_still_holds(upto_d + err, label_key + label + close, e);
    lemma_value_between(a + label, b, program, c, array_key, track);
    lemma_still_holds(upto_c, array_key + program + track, out);
    lemma_still_holds(upto_c + out, array_key + program + track, d);
    lemma_still_holds(upto_d, array_key + program + track, err);
    lemma_still_holds(upto_d + err, array_key + program + track, e);
    lemma_value_between(upto_b + program, c, out, d, out_key, close);
    lemma_still_holds(upto_d, out_key + out + close, err);
    lemma_still_holds(upto_d + err, out_key + out + close, e);
    lemma_value_between(upto_c + out, d, err, e, err_key, close);
}

/// How the fixed parts of the agent's text begin and end.
proof fn lemma_agent_literals()
    ensures
        text::finishes_with(
            "<?xml version=\"1.0\" encoding=\"UTF-8\"?>\n<!DOCTYPE plist PUBLIC \"-//Apple//DTD PLIST 1.0//EN\" \"http://www.apple.com/DTDs/PropertyList-1.0.dtd\">\n<plist version=\"1.0\">\n<dict>\n  <key>Label</key>\n  <string>"@,
            "<key>Label</key>\n  <string>"@,
        ),
        text::begins_with(
            "</string>\n  <key>ProgramArguments</key>\n  <array>\n    <string>"@,
            "</string>"@,
        ),
        text::finishes_with(
            "</string>\n  <key>ProgramArguments</key>\n  <array>\n    <string>"@,
            "<array>\n    <string>"@,
        ),
        text::begins_with(
            "</string>\n    <string>--track</string>\n  </array>\n  <key>RunAtLoad</key>\n  <true/>\n  <key>KeepAlive</key>\n  <true/>\n  <key>ProcessType</key>\n  <string>Background</string>\n  <key>ThrottleInterval</key>\n  <integer>10</integer>\n  <key>StandardOutPath</key>\n  <string>"@,
            "</string>\n    <string>--track</string>"@,
        ),
        text::finishes_with(
            "</string>\n    <string>--track</string>\n  </array>\n  <key>RunAtLoad</key>\n  <true/>\n  <key>KeepAlive</key>\n  <true/>\n  <key>ProcessType</key>\n  <string>Background</string>\n  <key>ThrottleInterval</key>\n  <integer>10</integer>\n  <key>StandardOutPath</key>\n  <string>"@,
            "<key>StandardOutPath</key>\n  <string>"@,
        ),
        text::begins_with(
            "</string>\n  <key>StandardErrorPath</key>\n  <string>"@,
            "</string>"@,
        ),
        text::finishes_with(
            "</string>\n  <key>StandardErrorPath</key>\n  <string>"@,
            "<key>StandardErrorPath</key>\n  <string>"@,
        ),
        text::begins_with("</string>\n</dict>\n</plist>\n"@, "</string>"@),
{
    reveal_strlit(
        "<?xml version=\"1.0\" encoding=\"UTF-8\"?>\n<!DOCTYPE plist PUBLIC \"-//Apple//DTD PLIST 1.0//EN\" \"http://www.apple.com/DTDs/PropertyList-1.0.dtd\">\n<plist version=\"1.0\">\n<dict>\n  <key>Label</key>\n  <string>",
    );
    reveal_strlit("<key>Label</key>\n  <string>");
    reveal_strlit("</string>\n  <key>ProgramArguments</key>\n  <array>\n    <string>");
    reveal_strlit("</string>");
    reveal_strlit("<array>\n    <string>");
    reveal_strlit(
        "</string>\n    <string>--track</string>\n  </array>\n  <key>RunAtLoad</key>\n  <true/>\n  <key>KeepAlive</key>\n  <true/>\n  <key>ProcessType</key>\n  <string>Background</string>\n  <key>ThrottleInterval</key>\n  <integer>10</integer>\n  <key>StandardOutPath</key>\n  <string>",
    );
    reveal_strlit("</string>\n    <string>--track</string>");
    reveal_strlit("<key>StandardOutPath</key>\n  <string>");
    reveal_strlit("</string>\n  <key>StandardErrorPath</key>\n  <string>");
    reveal_strlit("<key>StandardErrorPath</key>\n  <string>");
    reveal_strlit("</string>\n</dict>\n</plist>\n");
    assert("<?xml version=\"1.0\" encoding=\"UTF-8\"?>\n<!DOCTYPE plist PUBLIC \"-//Apple//DTD PLIST 1.0//EN\" \"http://www.apple.com/DTDs/PropertyList-1.0.dtd\">\n<plist version=\"1.0\">\n<dict>\n  <key>Label</key>\n  <string>"@.skip("<?xml version=\"1.0\" encoding=\"UTF-8\"?>\n<!DOCTYPE plist PUBLIC \"-//Apple//DTD PLIST 1.0//EN\" \"http://www.apple.com/DTDs/PropertyList-1.0.dtd\">\n<plist version=\"1.0\">\n<dict>\n  <key>Label</key>\n  <string>"@.len() - "<key>Label</key>\n  <string>"@.len()) =~= "<key>Label</key>\n  <string>"@);
    assert("</string>\n  <key>ProgramArguments</key>\n  <array>\n    <string>"@.take("</string>"@.len() as int) =~= "</string>"@);
    assert("</string>\n  <key>ProgramArguments</key>\n  <array>\n    <string>"@.skip("</string>\n  <key>ProgramArguments</key>\n  <array>\n    <string>"@.len() - "<array>\n    <string>"@.len()) =~= "<array>\n    <string>"@);
    assert("</string>\n    <string>--track</string>\n  </array>\n  <key>RunAtLoad</key>\n  <true/>\n  <key>KeepAlive</key>\n  <true/>\n  <key>ProcessType</key>\n  <string>Background</string>\n  <key>ThrottleInterval</key>\n  <integer>10</integer>\n  <key>StandardOutPath</key>\n  <string>"@.take("</string>\n    <string>--track</string>"@.len() as int) =~= "</string>\n    <string>--track</string>"@);
    assert("</string>\n    <string>--track</string>\n  </array>\n  <key>RunAtLoad</key>\n  <true/>\n  <key>KeepAlive</key>\n  <true/>\n  <key>ProcessType</key>\n  <string>Background</string>\n  <key>ThrottleInterval</key>\n  <integer>10</integer>\n  <key>StandardOutPath</key>\n  <string>"@.skip("</string>\n    <string>--track</string>\n  </array>\n  <key>RunAtLoad</key>\n  <true/>\n  <key>KeepAlive</key>\n  <true/>\n  <key>ProcessType</key>\n  <string>Background</string>\n  <key>ThrottleInterval</key>\n  <integer>10</integer>\n  <key>StandardOutPath</key>\n  <string>"@.len() - "<key>StandardOutPath</key>\n  <string>"@.len()) =~= "<key>StandardOutPath</key>\n  <string>"@);
    assert("</string>\n  <key>StandardErrorPath</key>\n  <string>"@.take("</string>"@.len() as int) =~= "</string>"@);
    assert("</string>\n  <key>StandardErrorPath</key>\n  <string>"@.skip("</string>\n  <key>StandardErrorPath</key>\n  <string>"@.len() - "<key>StandardErrorPath</key>\n  <string>"@.len()) =~= "<key>StandardErrorPath</key>\n  <string>"@);
    assert("</string>\n</dict>\n</plist>\n"@.take("</string>"@.len() as int) =~= "</string>"@);
}

} // verus!
