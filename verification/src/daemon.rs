//! The browser that searches run in.

use vstd::prelude::*;

use crate::text;

verus! {

/// The port at which the browser listens.
pub const DEFAULT_CDP_PORT: u16 = 9222;

/// The times that a browser is waited for, half a second each, before it is made to
/// quit.
pub const MAX_QUIT_WAITS: u32 = 6;

/// The times that a browser is waited for, half a second each, before it is given up.
pub const MAX_START_WAITS: u32 = 30;

/// The files that a browser may be in.
pub open spec fn known_files() -> Seq<Seq<char>> {
    seq![
        "/Applications/Chromium.app/Contents/MacOS/Chromium"@,
        "/Applications/Google Chrome.app/Contents/MacOS/Google Chrome"@,
        "/Applications/Brave Browser.app/Contents/MacOS/Brave Browser"@,
        "/Applications/Microsoft Edge.app/Contents/MacOS/Microsoft Edge"@,
        "/usr/bin/chromium"@,
        "/usr/bin/chromium-browser"@,
        "/usr/bin/google-chrome"@,
        "/usr/bin/google-chrome-stable"@,
    ]
}

/// The files that a browser may be in, in the order in which they are tried.
pub fn chrome_files() -> (r: Vec<String>)
    ensures
        text::texts(r@) == known_files(),
{
    let mut out: Vec<String> = Vec::new();
    out.push("/Applications/Chromium.app/Contents/MacOS/Chromium".to_string());
    out.push("/Applications/Google Chrome.app/Contents/MacOS/Google Chrome".to_string());
    out.push("/Applications/Brave Browser.app/Contents/MacOS/Brave Browser".to_string());
    out.push("/Applications/Microsoft Edge.app/Contents/MacOS/Microsoft Edge".to_string());
    out.push("/usr/bin/chromium".to_string());
    out.push("/usr/bin/chromium-browser".to_string());
    out.push("/usr/bin/google-chrome".to_string());
    out.push("/usr/bin/google-chrome-stable".to_string());
    assert(text::texts(out@) =~= known_files());
    out
}

/// The commands that a browser may go by.
pub open spec fn known_commands() -> Seq<Seq<char>> {
    seq!["chromium"@, "chromium-browser"@, "google-chrome"@, "google-chrome-stable"@]
}

/// The commands that a browser may go by, in the order in which they are tried.
pub fn chrome_commands() -> (r: Vec<String>)
    ensures
        text::texts(r@) == known_commands(),
{
    let mut out: Vec<String> = Vec::new();
    out.push("chromium".to_string());
    out.push("chromium-browser".to_string());
    out.push("google-chrome".to_string());
    out.push("google-chrome-stable".to_string());
    assert(text::texts(out@) =~= known_commands());
    out
}

/// The number of a process that a text stands for: digits after an optional sign, with
/// spaces round them, that an `i32` can hold.
pub open spec fn pid_of(s: Seq<char>) -> Option<int> {
    let t = text::trimmed(s);
    if t.len() > 1 && t[0] == '-' && t[1] != '+' {
        match text::parsed_number(t.skip(1), 2_147_483_648) {
            Some(n) => Some(-n),
            None => None,
        }
    } else {
        match text::parsed_number(t, 2_147_483_647) {
            Some(n) => Some(n as int),
            None => None,
        }
    }
}

/// The number of a process that a text stands for.
pub fn parse_pid(s: &str) -> (r: Option<i32>)
    ensures
        match r {
            Some(n) => pid_of(s@) == Some(n as int),
            None => pid_of(s@) is None,
        },
{
    let t = text::trim(s);
    let chars = text::chars_of(t.as_str());
    let size: usize = chars.len();
    if size > 1 && chars[0] == '-' && chars[1] != '+' {
        assert(chars@.subrange(1, size as int) =~= chars@.skip(1));
        let digits = text::part(&chars, 1, size);
        match text::parse_number(digits.as_str(), 2_147_483_648) {
            Some(n) => Some((-(n as i64)) as i32),
            None => None,
        }
    } else {
        match text::parse_number(t.as_str(), 2_147_483_647) {
            Some(n) => Some(n as i32),
            None => None,
        }
    }
}

/// The arguments that a browser is started with, in a profile, with a window or without
/// one.
pub open spec fn arguments(profile: Seq<char>, headless: bool) -> Seq<Seq<char>> {
    seq![
        "--remote-debugging-port=9222"@,
        "--user-data-dir="@ + profile,
        "--no-first-run"@,
        "--no-default-browser-check"@,
        "--disable-background-networking"@,
        "--disable-sync"@,
        "--disable-translate"@,
        "--metrics-recording-only"@,
        if headless {
            "--headless=new"@
        } else {
            "https://shopee.com.br"@
        },
    ]
}

/// What starting comes to: nothing where a browser of this program runs, an error where
/// another program uses the port, else a launch with some arguments.
pub enum StartStep {
    Running,
    Taken(String),
    Launch(Vec<String>),
}

/// The error where another program uses the port.
pub open spec fn taken_text() -> Seq<char> {
    "Port 9222 is already in use by another process.\nIf that's your personal browser with --remote-debugging-port, pechincha can use it directly.\nOtherwise, stop what's using port 9222 first."@
}

/// What starting comes to.
pub fn start_step(running: bool, port_taken: bool, profile: &str, headless: bool) -> (r: StartStep)
    ensures
        match r {
            StartStep::Running => running,
            StartStep::Taken(e) => !running && port_taken && e@ == taken_text(),
            StartStep::Launch(v) => !running && !port_taken && text::texts(v@) == arguments(
                profile@,
                headless,
            ),
        },
{
    if running {
        return StartStep::Running;
    }
    if port_taken {
        return StartStep::Taken(
            "Port 9222 is already in use by another process.\nIf that's your personal browser with --remote-debugging-port, pechincha can use it directly.\nOtherwise, stop what's using port 9222 first.".to_string(),
        );
    }
    let mut out: Vec<String> = Vec::new();
    out.push("--remote-debugging-port=9222".to_string());
    out.push(text::join2("--user-data-dir=", profile));
    out.push("--no-first-run".to_string());
    out.push("--no-default-browser-check".to_string());
    out.push("--disable-background-networking".to_string());
    out.push("--disable-sync".to_string());
    out.push("--disable-translate".to_string());
    out.push("--metrics-recording-only".to_string());
    if headless {
        out.push("--headless=new".to_string());
    } else {
        out.push("https://shopee.com.br".to_string());
    }
    assert(text::texts(out@) =~= arguments(profile@, headless));
    StartStep::Launch(out)
}

/// The lines that tell that a browser was started.
pub open spec fn started(headless: bool, profile: Seq<char>, pid: nat) -> Seq<Seq<char>> {
    let mode = if headless {
        "headless"@
    } else {
        "visible"@
    };
    let start = seq![
        "Pechincha browser daemon started ("@ + mode + ") on port 9222."@,
        "Profile: "@ + profile,
        "PID: "@ + text::number_text(pid),
        ""@,
    ];
    if headless {
        start.push("Searches will automatically use this daemon for Shopee/AliExpress."@)
    } else {
        start.push("Log into Shopee/AliExpress in the browser window, then:"@).push(
            "  pechincha daemon stop"@,
        ).push("  pechincha daemon start --headless"@)
    }
}

/// The lines that tell that a browser was started.
pub fn started_lines(headless: bool, profile: &str, pid: u32) -> (r: Vec<String>)
    ensures
        text::texts(r@) == started(headless, profile@, pid as nat),
{
    let mode = if headless {
        "headless"
    } else {
        "visible"
    };
    let number = text::show_number(pid as u64);
    let mut out: Vec<String> = Vec::new();
    out.push(text::join3("Pechincha browser daemon started (", mode, ") on port 9222."));
    out.push(text::join2("Profile: ", profile));
    out.push(text::join2("PID: ", number.as_str()));
    out.push("".to_string());
    if headless {
        out.push(
            "Searches will automatically use this daemon for Shopee/AliExpress.".to_string(),
        );
    } else {
        out.push("Log into Shopee/AliExpress in the browser window, then:".to_string());
        out.push("  pechincha daemon stop".to_string());
        out.push("  pechincha daemon start --headless".to_string());
    }
    assert(text::texts(out@) =~= started(headless, profile@, pid as nat));
    out
}

/// What comes next when a browser was started.
#[derive(Clone, Copy, Debug, PartialEq, Eq, Structural)]
pub enum StartWait {
    Ready,
    Wait,
    GiveUp,
}

/// What comes next when a browser was started: it is ready once it listens, and waited
/// for half a second at a time, for fifteen seconds at most.
pub fn start_wait(listening: bool, waits: u32) -> (r: StartWait)
    ensures
        r == if listening {
            StartWait::Ready
        } else if waits < MAX_START_WAITS {
            StartWait::Wait
        } else {
            StartWait::GiveUp
        },
{
    if listening {
        StartWait::Ready
    } else if waits < MAX_START_WAITS {
        StartWait::Wait
    } else {
        StartWait::GiveUp
    }
}

/// What is told of a browser that was given up.
pub fn start_failure() -> (r: String)
    ensures
        r@
            == "Browser started but CDP port not responding after 15s. Check if Chromium is installed correctly."@,
{
    "Browser started but CDP port not responding after 15s. Check if Chromium is installed correctly.".to_string()
}

/// What comes next when a browser is stopped.
#[derive(Clone, Copy, Debug, PartialEq, Eq, Structural)]
pub enum StopStep {
    Ask,
    Wait,
    Force,
    CleanUp,
}

/// What comes next when a browser is stopped: it is asked to quit, waited for a while,
/// and forced to quit where it still runs then.
pub fn stop_step(alive: bool, asked: bool, waits: u32) -> (r: StopStep)
    ensures
        r == if !alive {
            StopStep::CleanUp
        } else if !asked {
            StopStep::Ask
        } else if waits < MAX_QUIT_WAITS {
            StopStep::Wait
        } else {
            StopStep::Force
        },
{
    if !alive {
        StopStep::CleanUp
    } else if !asked {
        StopStep::Ask
    } else if waits < MAX_QUIT_WAITS {
        StopStep::Wait
    } else {
        StopStep::Force
    }
}

/// What is told of the browser: that it runs and as which process, that another one
/// listens at its port, or that none does.
pub open spec fn status_of(running: bool, pid: Option<Seq<char>>, listening: bool) -> Seq<char> {
    if running {
        "Pechincha daemon running on port 9222 (PID: "@ + (match pid {
            Some(s) => text::trimmed(s),
            None => text::trimmed("unknown"@),
        }) + ")"@
    } else if listening {
        "External browser detected on port 9222 (not managed by pechincha)"@
    } else {
        "Not running"@
    }
}

/// What is told of the browser, given what the file with its process holds.
pub fn status(running: bool, pid: Option<String>, listening: bool) -> (r: String)
    ensures
        r@ == status_of(running, text::text_view(pid), listening),
{
    if running {
        let number = match pid {
            Some(s) => text::trim(s.as_str()),
            None => text::trim("unknown"),
        };
        text::join3("Pechincha daemon running on port 9222 (PID: ", number.as_str(), ")")
    } else if listening {
        "External browser detected on port 9222 (not managed by pechincha)".to_string()
    } else {
        "Not running".to_string()
    }
}

/// A process number is read back from its digits, with spaces or without.
pub proof fn process_numbers_are_read(s: Seq<char>)
    ensures
        ({
            let t = text::trimmed(s);
            match pid_of(s) {
                Some(n) => {
                    &&& -2_147_483_648 <= n <= 2_147_483_647
                    &&& t.len() > 0
                    &&& t[0] != '-' ==> n >= 0 && text::parsed_number(t, 2_147_483_647) == Some(
                        n as nat,
                    )
                    &&& t[0] == '-' ==> n <= 0 && text::parsed_number(t.skip(1), 2_147_483_648)
                        == Some((-n) as nat)
                },
                None => t.len() == 0 || text::parsed_number(t, 2_147_483_647) is None,
            }
        }),
{
    let t = text::trimmed(s);
    if t.len() > 0 && t[0] == '-' {
        assert(text::parsed_number(t, 2_147_483_647) is None) by {
            assert(text::unsigned_digits(t)[0] == '-');
        }
    }
}

/// What is told of the browser goes first by whether it was started here.
pub proof fn status_tells_who_runs_the_browser(
    running: bool,
    pid: Option<Seq<char>>,
    listening: bool,
)
    ensures
        ({
            let s = status_of(running, pid, listening);
            &&& running && pid is Some ==> s == "Pechincha daemon running on port 9222 (PID: "@
                + text::trimmed(pid->0) + ")"@
            &&& !running && listening ==> s
                == "External browser detected on port 9222 (not managed by pechincha)"@
            &&& !running && !listening ==> s == "Not running"@
        }),
{
}

/// A browser is started at port 9222 with its own profile, without a window exactly where
/// none is asked for.
pub proof fn browsers_are_started_as_asked(profile: Seq<char>, headless: bool)
    ensures
        ({
            let a = arguments(profile, headless);
            &&& a.contains("--remote-debugging-port=9222"@)
            &&& a.contains("--user-data-dir="@ + profile)
            &&& a.contains("--headless=new"@) <==> headless
            &&& !headless ==> a.last() == "https://shopee.com.br"@
        }),
{
    let a = arguments(profile, headless);
    reveal_strlit("--remote-debugging-port=9222");
    reveal_strlit("--user-data-dir=");
    reveal_strlit("--no-first-run");
    reveal_strlit("--no-default-browser-check");
    reveal_strlit("--disable-background-networking");
    reveal_strlit("--disable-sync");
    reveal_strlit("--disable-translate");
    reveal_strlit("--metrics-recording-only");
    reveal_strlit("https://shopee.com.br");
    reveal_strlit("--headless=new");
    let h = "--headless=new"@;
    assert(h[2] == 'h');
    assert(a[0] == "--remote-debugging-port=9222"@);
    assert(a[1] == "--user-data-dir="@ + profile);
    if headless {
        assert(a[8] == h);
    } else {
        assert forall|i: int| 0 <= i < a.len() implies a[i] != h by {
            assert(a[0][2] == 'r');
            assert(a[1][2] == 'u');
            assert(a[2][2] == 'n');
            assert(a[3][2] == 'n');
            assert(a[4][2] == 'd');
            assert(a[5][2] == 'd');
            assert(a[6][2] == 'd');
            assert(a[7][2] == 'm');
            assert(a[8][2] == 't');
        }
    }
}

} // verus!
