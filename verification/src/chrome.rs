//! The kiosk browser: which tab is the kiosk, when a tab is stranded off the
//! app, when a page points at a development host, and the worker's decisions
//! between the commands it is sent and the browser's answers.

use vstd::prelude::*;
use vstd::string::*;

use crate::text::{chars_of, has_prefix, parse_unsigned, parse_unsigned_chars, push_decimal, decimal, str_has_prefix};

verus! {

/// Where a browser error page lives.
pub const ERROR_URL_PREFIX: &'static str = "chrome-error://";

/// The blank page.
pub const BLANK_URL_PREFIX: &'static str = "about:blank";

/// How many stranded sightings in a row send the kiosk home.
pub const STRANDED_CONFIRMATIONS: u8 = 2;

/// How many unanswered probes in a row give up on a development host.
pub const DEV_HOST_LOST_CONFIRMATIONS: u8 = 3;

/// A script the kiosk tab runs in every new document, in the given world
/// (the page's own when none).
#[derive(Clone, Debug)]
pub struct InjectedScript {
    pub source: std::sync::Arc<String>,
    pub world: Option<&'static str>,
}

/// Whether the page scripts must be installed again: some are wanted and the
/// tab holds none.
pub fn reinstall_injections(wanted: usize, installed: usize) -> (r: bool)
    ensures
        r == (wanted > 0 && installed == 0),
{
    wanted > 0 && installed == 0
}

/// Whether a tab showing `uri` is stranded off the app: an error page always,
/// the blank page once the daemon serves the app.
pub fn looks_stranded(uri: &str, serving: bool) -> (r: bool)
    ensures
        r == (has_prefix(uri@, ERROR_URL_PREFIX@) || (serving && has_prefix(uri@, BLANK_URL_PREFIX@))),
{
    str_has_prefix(uri, ERROR_URL_PREFIX) || (serving && str_has_prefix(uri, BLANK_URL_PREFIX))
}

/// Whether a target is a web page rather than one of the browser's own
/// (`chrome://`, `chrome-extension://`, `chrome-untrusted://`, `devtools://`).
pub fn is_web_page(url: &str) -> (r: bool)
    ensures
        r == !(has_prefix(url@, "chrome://"@) || has_prefix(url@, "chrome-extension://"@) || has_prefix(
            url@,
            "chrome-untrusted://"@,
        ) || has_prefix(url@, "devtools://"@)),
{
    !(str_has_prefix(url, "chrome://") || str_has_prefix(url, "chrome-extension://") || str_has_prefix(
        url,
        "chrome-untrusted://",
    ) || str_has_prefix(url, "devtools://"))
}

/// The tab the kiosk drives: the first that shows a web page.
pub fn pick_kiosk_tab(urls: &Vec<String>) -> (r: Option<usize>)
    ensures
        match r {
            Some(i) => i < urls@.len() && is_web_page_spec(urls@[i as int]@) && forall|j: int|
                0 <= j < i ==> !is_web_page_spec(#[trigger] urls@[j]@),
            None => forall|j: int| 0 <= j < urls@.len() ==> !is_web_page_spec(#[trigger] urls@[j]@),
        },
{
    let mut i: usize = 0;
    while i < urls.len()
        invariant
            0 <= i <= urls@.len(),
            forall|j: int| 0 <= j < i ==> !is_web_page_spec(#[trigger] urls@[j]@),
        decreases urls@.len() - i,
    {
        if is_web_page(urls[i].as_str()) {
            return Some(i);
        }
        i = i + 1;
    }
    None
}

/// A web page rather than one of the browser's own.
pub open spec fn is_web_page_spec(url: Seq<char>) -> bool {
    !(has_prefix(url, "chrome://"@) || has_prefix(url, "chrome-extension://"@) || has_prefix(
        url,
        "chrome-untrusted://"@,
    ) || has_prefix(url, "devtools://"@))
}

/// `s` without its trailing `/`s (what `trim_end_matches('/')` gives).
pub open spec fn trim_slashes(s: Seq<char>) -> Seq<char>
    decreases s.len(),
{
    if s.len() > 0 && s.last() == '/' {
        trim_slashes(s.drop_last())
    } else {
        s
    }
}

fn trimmed_slashes(s: &str) -> (r: Vec<char>)
    ensures
        r@ == trim_slashes(s@),
{
    let mut v = chars_of(s);
    while v.len() > 0 && v[v.len() - 1] == '/'
        invariant
            trim_slashes(v@) == trim_slashes(s@),
        decreases v@.len(),
    {
        let ghost before = v@;
        v.pop();
        assert(v@ =~= before.drop_last());
    }
    v
}

/// Whether the tab already shows `target`, trailing `/`s aside.
pub fn url_matches_current(current: &str, target: &str) -> (r: bool)
    ensures
        r == (trim_slashes(current@) == trim_slashes(target@)),
{
    let a = trimmed_slashes(current);
    let b = trimmed_slashes(target);
    if a.len() != b.len() {
        return false;
    }
    let mut i: usize = 0;
    while i < a.len()
        invariant
            0 <= i <= a@.len(),
            a@.len() == b@.len(),
            a@ == trim_slashes(current@),
            b@ == trim_slashes(target@),
            forall|j: int| 0 <= j < i ==> a@[j] == b@[j],
        decreases a@.len() - i,
    {
        if a[i] != b[i] {
            assert(a@[i as int] != b@[i as int]);
            assert(a@ != b@);
            return false;
        }
        i = i + 1;
    }
    assert(a@ =~= b@);
    true
}

/// The host part of a parsed URL.
#[derive(Clone, Copy, Debug, PartialEq, Eq, Structural)]
pub enum UrlHost {
    /// An IPv4 literal, as its 32-bit number.
    Ipv4(u32),
    /// An IPv6 literal, as its 128-bit number.
    Ipv6(u128),
    /// A domain name.
    Domain,
    /// No host at all.
    Absent,
}

/// What the kiosk reads of a parsed URL: its host, and its port (the scheme's
/// default when none is written).
#[derive(Clone, Copy, Debug, PartialEq, Eq, Structural)]
pub struct ParsedUrl {
    pub host: UrlHost,
    pub port: Option<u16>,
}

/// What `url::Url::parse` makes of the text: `None` when it does not parse,
/// else the host and the port (written or the scheme's known default).
pub uninterp spec fn url_parse_result(url: Seq<char>) -> Option<ParsedUrl>;

/// `url::Url::parse`, read for its host and `port_or_known_default`. The
/// contract names the result; the WHATWG parsing rules are not restated here.
#[verifier::external_body]
fn parse_url(url: &str) -> (r: Option<ParsedUrl>)
    ensures
        r == url_parse_result(url@),
{
    match url::Url::parse(url) {
        Ok(u) => Some(ParsedUrl {
            host: match u.host() {
                Some(url::Host::Ipv4(ip)) => UrlHost::Ipv4(u32::from(ip)),
                Some(url::Host::Ipv6(ip)) => UrlHost::Ipv6(u128::from(ip)),
                Some(url::Host::Domain(_)) => UrlHost::Domain,
                None => UrlHost::Absent,
            },
            port: u.port_or_known_default(),
        }),
        Err(_) => None,
    }
}

/// An IP literal.
#[derive(Clone, Copy, Debug, PartialEq, Eq, Structural)]
pub enum IpLiteral {
    V4(u32),
    V6(u128),
}

/// A development host the kiosk was pointed at: an address and a port.
#[derive(Clone, Copy, Debug, PartialEq, Eq, Structural)]
pub struct DevHost {
    pub ip: IpLiteral,
    pub port: u16,
}

/// An address of this device itself: loopback or unspecified.
pub open spec fn on_device(ip: IpLiteral) -> bool {
    match ip {
        IpLiteral::V4(a) => a / 0x100_0000 == 127 || a == 0,
        IpLiteral::V6(a) => a == 1 || a == 0,
    }
}

/// The development host a parsed URL names: an IP literal that is not this
/// device, with a port.
pub open spec fn dev_host_spec(parsed: Option<ParsedUrl>) -> Option<DevHost> {
    match parsed {
        Some(p) => {
            let ip = match p.host {
                UrlHost::Ipv4(a) => Some(IpLiteral::V4(a)),
                UrlHost::Ipv6(a) => Some(IpLiteral::V6(a)),
                _ => None,
            };
            match (ip, p.port) {
                (Some(ip), Some(port)) => if on_device(ip) {
                    None
                } else {
                    Some(DevHost { ip, port })
                },
                _ => None,
            }
        },
        None => None,
    }
}

/// The development host a parsed URL names, if any.
pub fn dev_host_from(parsed: Option<ParsedUrl>) -> (r: Option<DevHost>)
    ensures
        r == dev_host_spec(parsed),
{
    let p = match parsed {
        Some(p) => p,
        None => {
            return None;
        },
    };
    let ip = match p.host {
        UrlHost::Ipv4(a) => IpLiteral::V4(a),
        UrlHost::Ipv6(a) => IpLiteral::V6(a),
        _ => {
            return None;
        },
    };
    let port = match p.port {
        Some(port) => port,
        None => {
            return None;
        },
    };
    let local = match ip {
        IpLiteral::V4(a) => a / 0x100_0000 == 127 || a == 0,
        IpLiteral::V6(a) => a == 1 || a == 0,
    };
    if local {
        None
    } else {
        Some(DevHost { ip, port })
    }
}

/// The development host a kiosk URL points at: only an IP literal off this
/// device names one.
pub fn dev_host_of(url: &str) -> (r: Option<DevHost>)
    ensures
        r == dev_host_spec(url_parse_result(url@)),
{
    dev_host_from(parse_url(url))
}

/// The debugging port: the configured one when it is a valid port number,
/// else the default.
pub fn chrome_port(configured: Option<&str>, default: u16) -> (p: u16)
    ensures
        p == match configured {
            Some(raw) => match parse_unsigned(raw@, 65535) {
                Some(v) => v as u16,
                None => default,
            },
            None => default,
        },
{
    match configured {
        Some(raw) => {
            let chars = chars_of(raw);
            match parse_unsigned_chars(&chars, 65535) {
                Some(v) => v as u16,
                None => default,
            }
        },
        None => default,
    }
}

/// Where the browser reports its debugger address.
pub fn chrome_status_url(port: u16) -> (u: String)
    ensures
        u@ == "http://127.0.0.1:"@ + decimal(port as nat) + "/json/version"@,
{
    let mut u = String::from_str("http://127.0.0.1:");
    push_decimal(&mut u, port as u64);
    u.append("/json/version");
    u
}

/// The screen orientation the kiosk tab is told.
#[derive(Clone, Copy, Debug, PartialEq, Eq, Structural)]
pub enum Orientation {
    PortraitPrimary,
    PortraitSecondary,
    LandscapePrimary,
    LandscapeSecondary,
}

impl Orientation {
    /// The protocol's name for the orientation.
    pub fn name(&self) -> (s: &'static str)
        ensures
            s@ == match *self {
                Orientation::PortraitPrimary => "portraitPrimary"@,
                Orientation::PortraitSecondary => "portraitSecondary"@,
                Orientation::LandscapePrimary => "landscapePrimary"@,
                Orientation::LandscapeSecondary => "landscapeSecondary"@,
            },
    {
        match self {
            Orientation::PortraitPrimary => "portraitPrimary",
            Orientation::PortraitSecondary => "portraitSecondary",
            Orientation::LandscapePrimary => "landscapePrimary",
            Orientation::LandscapeSecondary => "landscapeSecondary",
        }
    }
}

/// How the kiosk tab's layout follows a display rotation.
#[derive(Clone, Copy, Debug, PartialEq, Eq, Structural)]
pub enum MetricsOverride {
    /// Upright: the override is cleared.
    Clear,
    /// Laid out at this size and orientation.
    Layout { width: u32, height: u32, orientation: Orientation, angle: u16 },
}

/// The layout for a rotation: cleared at 0; portrait 480x800 at 90 and 270;
/// landscape 800x480 otherwise.
pub fn rotation_metrics(degrees: u16) -> (m: MetricsOverride)
    ensures
        degrees == 0 ==> m == MetricsOverride::Clear,
        degrees != 0 ==> m == (MetricsOverride::Layout {
            width: if degrees == 90 || degrees == 270 {
                480
            } else {
                800
            },
            height: if degrees == 90 || degrees == 270 {
                800
            } else {
                480
            },
            orientation: if degrees == 90 {
                Orientation::PortraitPrimary
            } else if degrees == 270 {
                Orientation::PortraitSecondary
            } else if degrees == 180 {
                Orientation::LandscapeSecondary
            } else {
                Orientation::LandscapePrimary
            },
            angle: degrees,
        }),
{
    if degrees == 0 {
        return MetricsOverride::Clear;
    }
    let (width, height) = if degrees == 90 || degrees == 270 {
        (480u32, 800u32)
    } else {
        (800u32, 480u32)
    };
    let orientation = if degrees == 90 {
        Orientation::PortraitPrimary
    } else if degrees == 270 {
        Orientation::PortraitSecondary
    } else if degrees == 180 {
        Orientation::LandscapeSecondary
    } else {
        Orientation::LandscapePrimary
    };
    MetricsOverride::Layout { width, height, orientation, angle: degrees }
}

/// The history entry a back or forward step goes to, if there is one.
pub fn history_target(current: usize, entries: usize, forward: bool) -> (t: Option<usize>)
    ensures
        forward ==> t == if current + 1 < entries {
            Some((current + 1) as usize)
        } else {
            None
        },
        !forward ==> t == if current > 0 && current - 1 < entries {
            Some((current - 1) as usize)
        } else {
            None
        },
{
    if forward {
        if entries > 0 && current < entries - 1 {
            Some(current + 1)
        } else {
            None
        }
    } else if current == 0 {
        None
    } else if current - 1 < entries {
        Some(current - 1)
    } else {
        None
    }
}

/// What a look at the kiosk tab found.
#[derive(Clone, Copy, Debug, PartialEq, Eq, Structural)]
pub enum StrandedVerdict {
    /// Not stranded (or the kiosk shows an external page).
    Fine,
    /// Stranded, not yet confirmed: look again next time.
    Suspect,
    /// Stranded and confirmed: the kiosk goes home.
    Recover,
}

/// What a probe of the development host calls for.
#[derive(Clone, Copy, Debug, PartialEq, Eq, Structural)]
pub enum DevHostVerdict {
    /// Nothing to do.
    Keep,
    /// The host stopped answering: the kiosk goes home.
    GiveUp,
}

/// The kiosk worker's state between the commands it is sent and the
/// browser's answers.
#[derive(Clone, Copy, Debug, PartialEq, Eq, Structural)]
pub struct KioskState {
    /// The kiosk shows a page the app did not choose.
    pub external: bool,
    /// The daemon serves the app.
    pub serving: bool,
    /// Nothing is left to reconcile with the browser.
    pub settled: bool,
    /// The display rotation last asked for, in degrees.
    pub rotation: u16,
    /// Whether the kiosk tab has that rotation.
    pub rotation_applied: bool,
    /// The development host the kiosk points at, if any.
    pub dev_host: Option<DevHost>,
    /// Stranded sightings in a row.
    pub stranded_streak: u8,
    /// Unanswered development host probes in a row.
    pub dev_host_misses: u8,
}

impl KioskState {
    /// The state a worker starts in.
    pub fn new() -> (k: KioskState)
        ensures
            k == (KioskState {
                external: false,
                serving: false,
                settled: false,
                rotation: 0,
                rotation_applied: true,
                dev_host: None,
                stranded_streak: 0,
                dev_host_misses: 0,
            }),
    {
        KioskState {
            external: false,
            serving: false,
            settled: false,
            rotation: 0,
            rotation_applied: true,
            dev_host: None,
            stranded_streak: 0,
            dev_host_misses: 0,
        }
    }

    /// The kiosk is sent to an app page, which may name a development host.
    pub fn navigate(&mut self, dev_host: Option<DevHost>)
        ensures
            *final(self) == (KioskState { external: false, dev_host: dev_host, settled: false, ..*old(self) }),
    {
        self.external = false;
        self.dev_host = dev_host;
        self.settled = false;
    }

    /// The kiosk is sent to an external page.
    pub fn navigate_external(&mut self)
        ensures
            *final(self) == (KioskState { external: true, dev_host: None, settled: false, ..*old(self) }),
    {
        self.external = true;
        self.dev_host = None;
        self.settled = false;
    }

    /// The kiosk reloads the app.
    pub fn reload(&mut self)
        ensures
            *final(self) == (KioskState { external: false, ..*old(self) }),
    {
        self.external = false;
    }

    /// The daemon now serves the app.
    pub fn note_serving(&mut self)
        ensures
            *final(self) == (KioskState { serving: true, settled: false, ..*old(self) }),
    {
        self.serving = true;
        self.settled = false;
    }

    /// A rotation is asked for; it is applied next.
    pub fn set_rotation(&mut self, degrees: u16)
        ensures
            *final(self) == (KioskState { rotation: degrees, rotation_applied: false, ..*old(self) }),
    {
        self.rotation = degrees;
        self.rotation_applied = false;
    }

    /// Whether applying the rotation to the tab went through.
    pub fn rotation_result(&mut self, applied: bool)
        ensures
            *final(self) == (KioskState { rotation_applied: applied, ..*old(self) }),
    {
        self.rotation_applied = applied;
    }

    /// Whether a reconcile pass has anything to do.
    pub fn needs_reconcile(&self, connected: bool) -> (r: bool)
        ensures
            r == !(self.settled && connected),
    {
        !(self.settled && connected)
    }

    /// Ends a reconcile pass: settled when nothing was recovered and the
    /// browser is connected.
    pub fn finish_reconcile(&mut self, recovered: bool, connected: bool)
        ensures
            *final(self) == (KioskState { settled: !recovered && connected, ..*old(self) }),
    {
        self.settled = !recovered && connected;
    }

    /// A look at the kiosk tab: `seen` is whether it looked stranded (`None`
    /// when the tab could not be read).
    pub fn observe_stranded(&mut self, seen: Option<bool>) -> (v: StrandedVerdict)
        ensures
            (*final(self), v) == stranded_step(*old(self), seen),
    {
        if self.external {
            self.stranded_streak = 0;
            return StrandedVerdict::Fine;
        }
        if seen != Some(true) {
            self.stranded_streak = 0;
            return StrandedVerdict::Fine;
        }
        self.stranded_streak = self.stranded_streak.saturating_add(1);
        if self.stranded_streak < STRANDED_CONFIRMATIONS {
            return StrandedVerdict::Suspect;
        }
        self.stranded_streak = 0;
        self.dev_host = None;
        StrandedVerdict::Recover
    }

    /// A probe of the development host: `answered` is whether it took a
    /// connection.
    pub fn observe_dev_host(&mut self, answered: bool) -> (v: DevHostVerdict)
        ensures
            (*final(self), v) == dev_host_step(*old(self), answered),
    {
        if self.dev_host.is_none() || answered {
            self.dev_host_misses = 0;
            return DevHostVerdict::Keep;
        }
        self.dev_host_misses = self.dev_host_misses.saturating_add(1);
        if self.dev_host_misses < DEV_HOST_LOST_CONFIRMATIONS {
            return DevHostVerdict::Keep;
        }
        self.dev_host_misses = 0;
        self.dev_host = None;
        DevHostVerdict::GiveUp
    }
}

/// One look at the kiosk tab. An external page is never stranded, nor is a
/// tab that looks fine or could not be read: the count starts over. A stranded
/// sighting counts; at the second in a row the kiosk goes home, the
/// development host is dropped and the count starts over.
pub open spec fn stranded_step(k: KioskState, seen: Option<bool>) -> (KioskState, StrandedVerdict) {
    if k.external || seen != Some(true) {
        (KioskState { stranded_streak: 0, ..k }, StrandedVerdict::Fine)
    } else {
        let n = if k.stranded_streak == 255 {
            255
        } else {
            k.stranded_streak + 1
        };
        if n < STRANDED_CONFIRMATIONS {
            (KioskState { stranded_streak: n as u8, ..k }, StrandedVerdict::Suspect)
        } else {
            (KioskState { stranded_streak: 0, dev_host: None, ..k }, StrandedVerdict::Recover)
        }
    }
}

/// One probe of the development host. With no host, or an answer, the count
/// starts over. An unanswered probe counts; at the third in a row the host is
/// given up on and the count starts over.
pub open spec fn dev_host_step(k: KioskState, answered: bool) -> (KioskState, DevHostVerdict) {
    if k.dev_host is None || answered {
        (KioskState { dev_host_misses: 0, ..k }, DevHostVerdict::Keep)
    } else {
        let n = if k.dev_host_misses == 255 {
            255
        } else {
            k.dev_host_misses + 1
        };
        if n < DEV_HOST_LOST_CONFIRMATIONS {
            (KioskState { dev_host_misses: n as u8, ..k }, DevHostVerdict::Keep)
        } else {
            (KioskState { dev_host_misses: 0, dev_host: None, ..k }, DevHostVerdict::GiveUp)
        }
    }
}

/// A stranded kiosk is sent home only after two sightings in a row: from a
/// fresh count, the first stranded sighting is only a suspicion, the second
/// recovers; and any fine look in between starts the count over.
pub proof fn law_stranded_needs_two_sightings(k: KioskState, between: Option<bool>)
    requires
        !k.external,
        k.stranded_streak == 0,
    ensures
        stranded_step(k, Some(true)).1 == StrandedVerdict::Suspect,
        stranded_step(stranded_step(k, Some(true)).0, Some(true)).1 == StrandedVerdict::Recover,
        stranded_step(stranded_step(k, Some(true)).0, Some(true)).0.dev_host is None,
        between != Some(true) ==> stranded_step(
            stranded_step(stranded_step(k, Some(true)).0, between).0,
            Some(true),
        ).1 == StrandedVerdict::Suspect,
{
}

/// A development host is given up on only after three unanswered probes in a
/// row: from a fresh count, the first two keep it and the third gives up; an
/// answer in between starts the count over.
pub proof fn law_dev_host_needs_three_misses(k: KioskState)
    requires
        k.dev_host is Some,
        k.dev_host_misses == 0,
    ensures
        dev_host_step(k, false).1 == DevHostVerdict::Keep,
        dev_host_step(dev_host_step(k, false).0, false).1 == DevHostVerdict::Keep,
        dev_host_step(dev_host_step(dev_host_step(k, false).0, false).0, false).1 == DevHostVerdict::GiveUp,
        dev_host_step(dev_host_step(dev_host_step(k, false).0, true).0, false).1 == DevHostVerdict::Keep,
{
}

} // verus!
