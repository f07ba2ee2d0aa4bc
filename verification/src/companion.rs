//! The records the companion library hands its host application, and the
//! small decisions the companion session makes about providers, log streams,
//! peer links and fanned-out frames.

use vstd::prelude::*;
use vstd::string::*;

use crate::bundles::{uuid_string, uuid_text};
use crate::gateway_msgs::{WebappActive, WebappSlots as GatewayWebappSlots};
use crate::keyed::{unique_keys, KeyedTable};
use crate::sorting::{sort_positions, sorted_by};
use crate::text::chars_of;

verus! {

/// Identity of the host application, as the host reports it.
#[derive(Clone, Debug, PartialEq, Eq)]
pub struct HostInfo {
    pub app_name: String,
    pub app_version: String,
    pub os_name: String,
    pub os_version: String,
    pub host_identifier: String,
}

/// The host identity together with the library versions it runs.
#[derive(Clone, Debug, PartialEq, Eq)]
pub struct SessionHostInfo {
    pub app_name: String,
    pub app_version: String,
    pub os_name: String,
    pub os_version: String,
    pub host_identifier: String,
    pub lib_version: String,
    pub libbridgething_version: String,
    pub adapter_version: String,
}

/// What the host lets the device use.
#[derive(Clone, Copy, Debug, PartialEq, Eq, Structural)]
pub struct CapabilityFlags {
    pub geo: bool,
    pub notifications: bool,
    pub net_fetch: bool,
    pub net_ws: bool,
    pub audio_tts: bool,
    pub voice_model: bool,
}

/// Whether the link to a peer came up.
#[derive(Clone, Copy, Debug, PartialEq, Eq, Structural)]
pub enum PeerLinkStatus {
    Connected,
    LinkFailed,
}

/// A device the companion is (or tried to be) linked to.
#[derive(Clone, Debug, PartialEq, Eq)]
pub struct SessionPeer {
    pub id: String,
    pub name: String,
    pub status: PeerLinkStatus,
    pub link_error: Option<String>,
}

/// Where a provider's sign-in stands.
#[derive(Clone, Copy, Debug, PartialEq, Eq, Structural)]
pub enum AuthKind {
    Idle,
    Pending,
    Authenticated,
    Failed,
}

/// A provider's sign-in state as the host shows it.
#[derive(Clone, Debug, PartialEq, Eq)]
pub struct AuthState {
    pub kind: AuthKind,
    pub user_code: Option<String>,
    pub verification_url: Option<String>,
    pub verification_url_complete: Option<String>,
    pub message: Option<String>,
}

/// How a provider's service answers.
#[derive(Clone, Copy, Debug, PartialEq, Eq, Structural)]
pub enum ServiceHealthKind {
    Healthy,
    RateLimited,
    Unreachable,
}

/// A provider's service health.
#[derive(Clone, Copy, Debug, PartialEq, Eq, Structural)]
pub struct ServiceHealth {
    pub kind: ServiceHealthKind,
    pub retry_after_seconds: Option<u32>,
}

/// One media provider, as the host lists it.
#[derive(Clone, Debug, PartialEq, Eq)]
pub struct ProviderInfo {
    pub id: String,
    pub display_name: String,
    pub available: bool,
    pub connected: bool,
    pub auth_state: AuthState,
    pub service_health: ServiceHealth,
}

/// Playback repeat setting.
#[derive(Clone, Copy, Debug, PartialEq, Eq, Structural)]
pub enum RepeatMode {
    Off,
    One,
    All,
}

/// The track that is playing.
#[derive(Clone, Debug, PartialEq, Eq)]
pub struct NowPlayingTrack {
    pub id: Option<String>,
    pub title: Option<String>,
    pub artist: Option<String>,
    pub album: Option<String>,
    pub artwork_url: Option<String>,
    pub duration_ms: Option<u64>,
}

/// The playback position and modes.
#[derive(Clone, Copy, Debug, PartialEq, Eq, Structural)]
pub struct NowPlayingPlayback {
    pub playing: bool,
    pub position_ms: u64,
    pub shuffle: bool,
    pub repeat_mode: RepeatMode,
}

/// What is playing, and where.
#[derive(Clone, Debug, PartialEq, Eq)]
pub struct NowPlaying {
    pub track: Option<NowPlayingTrack>,
    pub playback: NowPlayingPlayback,
    pub app_name: Option<String>,
}

/// Whether the phone lets the device read its notifications.
#[derive(Clone, Copy, Debug, PartialEq, Eq, Structural)]
pub enum AncsAuthStatus {
    Unknown,
    Probing,
    Authorized,
    Unauthorized,
}

/// The notification authorization of one device.
#[derive(Clone, Debug, PartialEq, Eq)]
pub struct AncsAuthStatusEntry {
    pub device_id: String,
    pub status: AncsAuthStatus,
}

/// Where a webapp came from.
#[derive(Clone, Copy, Debug, PartialEq, Eq, Structural)]
pub enum WebappSource {
    Builtin,
    Installed,
}

/// What a webapp is for.
#[derive(Clone, Copy, Debug, PartialEq, Eq, Structural)]
pub enum WebappRole {
    Standard,
    Launcher,
}

/// The kind of value a webapp configuration field holds.
#[derive(Clone, Copy, Debug, PartialEq, Eq, Structural)]
pub enum ConfigKind {
    String,
    Number,
    Boolean,
    Enum,
    Secret,
}

/// The desktop extension a webapp ships.
#[derive(Clone, Debug, PartialEq, Eq)]
pub struct ExtensionInfo {
    pub permissions: Vec<String>,
    pub api: u32,
}

/// The webapp a device shows.
#[derive(Clone, Debug, PartialEq, Eq)]
pub struct ActiveWebapp {
    pub id: String,
    pub name: Option<String>,
}

/// The webapps filling a device's slots, by id.
#[derive(Clone, Debug, PartialEq, Eq)]
pub struct WebappSlots {
    pub launcher: Option<String>,
    pub overlay: Option<String>,
}

/// The two slots a webapp can fill besides the foreground.
#[derive(Clone, Copy, Debug, PartialEq, Eq, Structural)]
pub enum WebappSlot {
    Launcher,
    Overlay,
}

/// One stored configuration value.
#[derive(Clone, Debug, PartialEq, Eq)]
pub struct ConfigEntry {
    pub key: String,
    pub value: String,
}

/// One stored document.
#[derive(Clone, Debug, PartialEq, Eq)]
pub struct DocEntry {
    pub key: String,
    pub value: String,
}

/// The files a webapp bundle can expose besides its pages.
#[derive(Clone, Copy, Debug, PartialEq, Eq, Structural)]
pub enum WebappResourceKind {
    Icon,
    Settings,
    Overlay,
}

/// A webapp resource fetched to a local file.
#[derive(Clone, Debug, PartialEq, Eq)]
pub struct WebappResourceFile {
    pub path: String,
    pub mime: Option<String>,
}

/// A screenshot fetched to a local file.
#[derive(Clone, Debug, PartialEq, Eq)]
pub struct ScreenshotFile {
    pub path: String,
    pub byte_size: u64,
}

/// Where a webapp resource can be downloaded from, and what it must hash to.
#[derive(Clone, Debug, PartialEq, Eq)]
pub struct WebappResourceOrigin {
    pub url: String,
    pub sha256: String,
    pub size: u64,
    pub mime: Option<String>,
}

/// What a device reports about itself.
#[derive(Clone, Debug, PartialEq, Eq)]
pub struct DeviceMeta {
    pub daemon_version: String,
    pub libbridgething_version: String,
    pub image_version: String,
    pub app_name: String,
    pub os_name: String,
    pub os_version: String,
    pub channel: String,
    pub model_name: String,
    pub serial_number: String,
    pub nickname: Option<String>,
}

/// A device's report, by device.
#[derive(Clone, Debug, PartialEq, Eq)]
pub struct DeviceMetaEntry {
    pub device_id: String,
    pub meta: DeviceMeta,
}

/// The platform a voice model is built for.
#[derive(Clone, Copy, Debug, PartialEq, Eq, Structural)]
pub enum ModelPlatform {
    Ios,
    Android,
    Macos,
    Linux,
    Windows,
}

/// Where the voice model download stands.
#[derive(Clone, Copy, Debug, PartialEq, Eq, Structural)]
pub enum VoiceModelStatus {
    Absent,
    Downloading,
    Ready,
    Failed,
}

/// Where the voice model's parts are on disk.
#[derive(Clone, Debug, PartialEq, Eq)]
pub struct VoiceModelPaths {
    pub nlu_bundle_dir: Option<String>,
    pub asr_weights: Option<String>,
}

/// The voice model's download progress.
#[derive(Clone, Debug, PartialEq, Eq)]
pub struct VoiceModelState {
    pub status: VoiceModelStatus,
    pub received_bytes: u64,
    pub total_bytes: u64,
    pub version: Option<String>,
    pub error: Option<String>,
}

/// What started a voice turn.
#[derive(Clone, Copy, Debug, PartialEq, Eq, Structural)]
pub enum VoiceTurnTrigger {
    PushToTalk,
    Assistant,
    WakeWord,
}

/// Where a voice turn stands.
#[derive(Clone, Copy, Debug, PartialEq, Eq, Structural)]
pub enum VoiceTurnPhase {
    Listening,
    Resolved,
    Cancelled,
}

/// One voice turn on one device.
#[derive(Clone, Debug, PartialEq, Eq)]
pub struct VoiceTurn {
    pub device_id: String,
    pub stream_id: String,
    pub trigger: VoiceTurnTrigger,
    pub phase: VoiceTurnPhase,
    pub transcript: Option<String>,
    pub intent: Option<String>,
}

/// How often the companion looks for updates, and whether it pushes them.
#[derive(Clone, Debug, PartialEq, Eq)]
pub struct OtaPollConfig {
    pub interval_seconds: u64,
    pub auto_push: bool,
    pub root_url: Option<String>,
}

/// Whether one device resumes playback on connect.
#[derive(Clone, Debug, PartialEq, Eq)]
pub struct DeviceAutoResume {
    pub device_id: String,
    pub enabled: bool,
}

/// What the voice pipeline holds.
#[derive(Clone, Debug, PartialEq, Eq)]
pub struct VoiceDebug {
    pub has_model: bool,
    pub armed_bundle: Option<String>,
    pub transfer_allowed: bool,
    pub paths: VoiceModelPaths,
}

/// How the companion is set up by its host.
#[derive(Clone, Debug, PartialEq, Eq)]
pub struct CompanionConfig {
    pub host: HostInfo,
    pub capabilities: CapabilityFlags,
    pub state_dir: String,
    pub cache_dir: String,
    pub model_platform: Option<ModelPlatform>,
    pub spotify: Option<SpotifyProviderConfig>,
}

/// Which side a log line came from.
#[derive(Clone, Copy, Debug, PartialEq, Eq, Structural)]
pub enum LogOrigin {
    Device,
    Host,
}

/// The tokens a provider sign-in yields.
#[derive(Clone, Debug, PartialEq, Eq)]
pub struct ProviderTokens {
    pub access_token: String,
    pub refresh_token: String,
}

/// Where the Spotify provider's worker lives.
#[derive(Clone, Debug, PartialEq, Eq)]
pub struct SpotifyProviderConfig {
    pub worker_base: String,
    pub psk: String,
}

/// What a companion call can fail with.
#[derive(Clone, Debug, PartialEq, Eq)]
pub enum CompanionError {
    Cancelled,
    Runtime(String),
    NotConnected,
    Device(String),
    ResourceNotAvailable,
}

/// The text a companion error is shown with.
pub open spec fn companion_error_text(e: CompanionError) -> Seq<char> {
    match e {
        CompanionError::Cancelled => "cancelled"@,
        CompanionError::Runtime(m) => "runtime: "@ + m@,
        CompanionError::NotConnected => "no link to this device"@,
        CompanionError::Device(m) => m@,
        CompanionError::ResourceNotAvailable => "resource not available"@,
    }
}

impl CompanionError {
    /// The text the error is shown with.
    pub fn message(&self) -> (r: String)
        ensures
            r@ == companion_error_text(*self),
    {
        match self {
            CompanionError::Cancelled => String::from_str("cancelled"),
            CompanionError::Runtime(m) => String::from_str("runtime: ").concat(m.as_str()),
            CompanionError::NotConnected => String::from_str("no link to this device"),
            CompanionError::Device(m) => m.clone(),
            CompanionError::ResourceNotAvailable => String::from_str("resource not available"),
        }
    }
}


/// A provider's sign-in state as the provider reports it.
#[derive(Clone, Debug, PartialEq, Eq)]
pub enum ProviderAuthState {
    Pending {
        user_code: Option<String>,
        verification_url: Option<String>,
        verification_url_complete: Option<String>,
    },
    Authenticated,
    Failed { reason: String },
}

/// The sign-in state of a provider that is not signing in.
pub open spec fn idle_auth_spec() -> AuthState {
    AuthState {
        kind: AuthKind::Idle,
        user_code: None,
        verification_url: None,
        verification_url_complete: None,
        message: None,
    }
}

/// The sign-in state the host is shown for what the provider reports.
pub open spec fn project_auth_spec(state: ProviderAuthState) -> AuthState {
    match state {
        ProviderAuthState::Pending { user_code, verification_url, verification_url_complete } =>
            AuthState {
            kind: AuthKind::Pending,
            user_code: user_code,
            verification_url: verification_url,
            verification_url_complete: verification_url_complete,
            message: None,
        },
        ProviderAuthState::Authenticated => AuthState { kind: AuthKind::Authenticated, ..idle_auth_spec() },
        ProviderAuthState::Failed { reason } => AuthState {
            kind: AuthKind::Failed,
            message: Some(reason),
            ..idle_auth_spec()
        },
    }
}

/// `a` shows the host what the provider reported in `state`: while signing
/// in, the code and both addresses it gave and no message; once signed in,
/// nothing else; on failure, its reason as the message and nothing else.
pub open spec fn shows_provider_state(state: ProviderAuthState, a: AuthState) -> bool {
    match state {
        ProviderAuthState::Pending { user_code, verification_url, verification_url_complete } => {
            &&& a.kind == AuthKind::Pending
            &&& a.user_code == user_code
            &&& a.verification_url == verification_url
            &&& a.verification_url_complete == verification_url_complete
            &&& a.message is None
        },
        ProviderAuthState::Authenticated => {
            &&& a.kind == AuthKind::Authenticated
            &&& a.user_code is None && a.verification_url is None && a.verification_url_complete is None
            &&& a.message is None
        },
        ProviderAuthState::Failed { reason } => {
            &&& a.kind == AuthKind::Failed
            &&& a.user_code is None && a.verification_url is None && a.verification_url_complete is None
            &&& a.message == Some(reason)
        },
    }
}

/// The projection hides nothing the provider reported: a pending sign-in
/// keeps its code and both addresses, a failure keeps its reason.
pub proof fn law_auth_shows_what_the_provider_reports(state: ProviderAuthState)
    ensures
        shows_provider_state(state, project_auth_spec(state)),
{
}

/// The sign-in state of a provider that is not signing in.
pub fn idle_auth() -> (r: AuthState)
    ensures
        r == idle_auth_spec(),
{
    AuthState {
        kind: AuthKind::Idle,
        user_code: None,
        verification_url: None,
        verification_url_complete: None,
        message: None,
    }
}

/// Projects a provider's sign-in state onto what the host shows.
pub fn project_auth(state: &ProviderAuthState) -> (r: AuthState)
    ensures
        r == project_auth_spec(*state),
        shows_provider_state(*state, r),
{
    proof {
        law_auth_shows_what_the_provider_reports(*state);
    }
    match state {
        ProviderAuthState::Pending { user_code, verification_url, verification_url_complete } =>
            AuthState {
            kind: AuthKind::Pending,
            user_code: user_code.clone(),
            verification_url: verification_url.clone(),
            verification_url_complete: verification_url_complete.clone(),
            message: None,
        },
        ProviderAuthState::Authenticated => AuthState {
            kind: AuthKind::Authenticated,
            user_code: None,
            verification_url: None,
            verification_url_complete: None,
            message: None,
        },
        ProviderAuthState::Failed { reason } => AuthState {
            kind: AuthKind::Failed,
            user_code: None,
            verification_url: None,
            verification_url_complete: None,
            message: Some(reason.clone()),
        },
    }
}

/// A provider known by id, with the name the host shows for it.
#[derive(Clone, Debug, PartialEq, Eq)]
pub struct ProviderEntry {
    pub id: String,
    pub display_name: String,
}

/// Some element of `ids` reads `id`.
pub open spec fn names(ids: Seq<String>, id: Seq<char>) -> bool {
    exists|i: int| 0 <= i < ids.len() && (#[trigger] ids[i])@ == id
}

/// Some entry of `entries` has the id `id`.
pub open spec fn lists_id(entries: Seq<ProviderEntry>, id: Seq<char>) -> bool {
    exists|i: int| 0 <= i < entries.len() && (#[trigger] entries[i]).id@ == id
}

/// The sign-in state recorded for `id`: the first record with that id.
pub open spec fn auth_for(auth: Seq<(String, ProviderAuthState)>, id: Seq<char>) -> Option<
    ProviderAuthState,
>
    decreases auth.len(),
{
    if auth.len() == 0 {
        None
    } else if auth[0].0@ == id {
        Some(auth[0].1)
    } else {
        auth_for(auth.drop_first(), id)
    }
}

/// What the host is shown for one provider. A provider is live when it is
/// registered with the session; only a live provider can be connected or show
/// a sign-in in progress.
pub open spec fn provider_info_spec(
    id: String,
    display_name: String,
    live: bool,
    connected: Seq<String>,
    attached: Seq<String>,
    auth: Seq<(String, ProviderAuthState)>,
) -> ProviderInfo {
    shown_info(id, display_name, live, names(connected, id@) || names(attached, id@), auth_for(auth, id@))
}

/// What the host is shown for one provider, given whether it is live, whether
/// it is marked connected or attached, and the sign-in state recorded for it.
pub open spec fn shown_info(
    id: String,
    display_name: String,
    live: bool,
    marked: bool,
    recorded: Option<ProviderAuthState>,
) -> ProviderInfo {
    ProviderInfo {
        id: id,
        display_name: display_name,
        available: true,
        connected: live && marked,
        auth_state: if live {
            match recorded {
                Some(state) => project_auth_spec(state),
                None => idle_auth_spec(),
            }
        } else {
            idle_auth_spec()
        },
        service_health: ServiceHealth { kind: ServiceHealthKind::Healthy, retry_after_seconds: None },
    }
}

/// Whether some element of `ids` reads the same as `id`.
pub fn contains_name(ids: &[String], id: &String) -> (r: bool)
    ensures
        r == names(ids@, id@),
{
    let mut i: usize = 0;
    while i < ids.len()
        invariant
            0 <= i <= ids@.len(),
            forall|j: int| 0 <= j < i ==> (#[trigger] ids@[j])@ != id@,
        decreases ids@.len() - i,
    {
        if ids[i] == *id {
            return true;
        }
        i = i + 1;
    }
    false
}

fn lists_provider(entries: &[ProviderEntry], id: &String) -> (r: bool)
    ensures
        r == lists_id(entries@, id@),
{
    let mut i: usize = 0;
    while i < entries.len()
        invariant
            0 <= i <= entries@.len(),
            forall|j: int| 0 <= j < i ==> (#[trigger] entries@[j]).id@ != id@,
        decreases entries@.len() - i,
    {
        if entries[i].id == *id {
            return true;
        }
        i = i + 1;
    }
    false
}

fn find_auth<'a>(auth: &'a [(String, ProviderAuthState)], id: &String) -> (r: Option<&'a ProviderAuthState>)
    ensures
        match r {
            Some(s) => auth_for(auth@, id@) == Some(*s),
            None => auth_for(auth@, id@) is None,
        },
{
    let mut i: usize = 0;
    assert(auth@.subrange(0, auth@.len() as int) =~= auth@);
    while i < auth.len()
        invariant
            0 <= i <= auth@.len(),
            auth_for(auth@, id@) == auth_for(auth@.subrange(i as int, auth@.len() as int), id@),
        decreases auth@.len() - i,
    {
        let ghost rest = auth@.subrange(i as int, auth@.len() as int);
        if auth[i].0 == *id {
            return Some(&auth[i].1);
        }
        assert(rest.drop_first() =~= auth@.subrange(i + 1, auth@.len() as int));
        i = i + 1;
    }
    None
}

fn provider_info(
    id: &String,
    display_name: &String,
    live: bool,
    connected: &[String],
    attached: &[String],
    auth: &[(String, ProviderAuthState)],
) -> (r: ProviderInfo)
    ensures
        r == provider_info_spec(*id, *display_name, live, connected@, attached@, auth@),
{
    let is_connected = live && (contains_name(connected, id) || contains_name(attached, id));
    let auth_state = if live {
        match find_auth(auth, id) {
            Some(state) => project_auth(state),
            None => idle_auth(),
        }
    } else {
        idle_auth()
    };
    ProviderInfo {
        id: id.clone(),
        display_name: display_name.clone(),
        available: true,
        connected: is_connected,
        auth_state,
        service_health: ServiceHealth { kind: ServiceHealthKind::Healthy, retry_after_seconds: None },
    }
}

/// The registered providers the catalog does not list.
pub open spec fn outside_catalog(catalog: Seq<ProviderEntry>) -> spec_fn(ProviderEntry) -> bool {
    |p: ProviderEntry| !lists_id(catalog, p.id@)
}

/// What the host is shown for a catalog entry: live when a provider with its id
/// is registered.
pub open spec fn cataloged_info(
    registered: Seq<ProviderEntry>,
    connected: Seq<String>,
    attached: Seq<String>,
    auth: Seq<(String, ProviderAuthState)>,
) -> spec_fn(ProviderEntry) -> ProviderInfo {
    |e: ProviderEntry|
        provider_info_spec(e.id, e.display_name, lists_id(registered, e.id@), connected, attached, auth)
}

/// What the host is shown for a registered provider the catalog does not list.
pub open spec fn registered_info(
    connected: Seq<String>,
    attached: Seq<String>,
    auth: Seq<(String, ProviderAuthState)>,
) -> spec_fn(ProviderEntry) -> ProviderInfo {
    |p: ProviderEntry| provider_info_spec(p.id, p.display_name, true, connected, attached, auth)
}

/// The providers the host is shown: every catalog entry in catalog order, then
/// every registered provider the catalog does not list, in registration order.
pub open spec fn provider_infos_spec(
    catalog: Seq<ProviderEntry>,
    registered: Seq<ProviderEntry>,
    connected: Seq<String>,
    attached: Seq<String>,
    auth: Seq<(String, ProviderAuthState)>,
) -> Seq<ProviderInfo> {
    catalog.map_values(cataloged_info(registered, connected, attached, auth)) + registered.filter(
        outside_catalog(catalog),
    ).map_values(registered_info(connected, attached, auth))
}

/// Lists the providers the host is shown.
pub fn provider_infos(
    catalog: &[ProviderEntry],
    registered: &[ProviderEntry],
    connected: &[String],
    attached: &[String],
    auth: &[(String, ProviderAuthState)],
) -> (r: Vec<ProviderInfo>)
    ensures
        r@ == provider_infos_spec(catalog@, registered@, connected@, attached@, auth@),
{
    let mut infos: Vec<ProviderInfo> = Vec::new();
    let ghost cat = cataloged_info(registered@, connected@, attached@, auth@);
    let ghost keep = outside_catalog(catalog@);
    let ghost show = registered_info(connected@, attached@, auth@);
    let mut i: usize = 0;
    while i < catalog.len()
        invariant
            0 <= i <= catalog@.len(),
            cat == cataloged_info(registered@, connected@, attached@, auth@),
            infos@ == catalog@.subrange(0, i as int).map_values(cat),
        decreases catalog@.len() - i,
    {
        let live = lists_provider(registered, &catalog[i].id);
        let info = provider_info(&catalog[i].id, &catalog[i].display_name, live, connected, attached, auth);
        infos.push(info);
        i = i + 1;
        assert(infos@ =~= catalog@.subrange(0, i as int).map_values(cat));
    }
    assert(catalog@.subrange(0, catalog@.len() as int) =~= catalog@);
    let ghost head = infos@;
    let mut j: usize = 0;
    assert(registered@.subrange(0, 0).filter(keep) =~= Seq::<ProviderEntry>::empty());
    while j < registered.len()
        invariant
            0 <= j <= registered@.len(),
            keep == outside_catalog(catalog@),
            show == registered_info(connected@, attached@, auth@),
            infos@ == head + registered@.subrange(0, j as int).filter(keep).map_values(show),
        decreases registered@.len() - j,
    {
        let ghost before = registered@.subrange(0, j as int);
        assert(registered@.subrange(0, j + 1) =~= before.push(registered@[j as int]));
        proof {
            before.lemma_filter_push(registered@[j as int], keep);
        }
        let ghost x = registered@[j as int];
        if !lists_provider(catalog, &registered[j].id) {
            let info = provider_info(&registered[j].id, &registered[j].display_name, true, connected, attached, auth);
            infos.push(info);
            assert(keep(x));
            assert(before.push(x).filter(keep) == before.filter(keep).push(x));
            assert(before.push(x).filter(keep).map_values(show) =~= before.filter(keep).map_values(show).push(show(x)));
        } else {
            assert(!keep(x));
            assert(before.push(x).filter(keep) == before.filter(keep));
        }
        j = j + 1;
        assert(infos@ =~= head + registered@.subrange(0, j as int).filter(keep).map_values(show));
    }
    assert(registered@.subrange(0, registered@.len() as int) =~= registered@);
    infos
}


/// The sign-in state recorded for `id`, if any.
pub open spec fn recorded(auth: Map<Seq<char>, ProviderAuthState>, id: Seq<char>) -> Option<ProviderAuthState> {
    if auth.contains_key(id) {
        Some(auth[id])
    } else {
        None
    }
}

/// What the host is shown for a catalog entry, read off a provider book.
pub open spec fn book_cataloged(
    registered: Seq<ProviderEntry>,
    connected: Set<Seq<char>>,
    attached: Seq<String>,
    auth: Map<Seq<char>, ProviderAuthState>,
) -> spec_fn(ProviderEntry) -> ProviderInfo {
    |e: ProviderEntry|
        shown_info(
            e.id,
            e.display_name,
            lists_id(registered, e.id@),
            connected.contains(e.id@) || names(attached, e.id@),
            recorded(auth, e.id@),
        )
}

/// What the host is shown for a registered provider outside the catalog,
/// read off a provider book.
pub open spec fn book_registered(
    connected: Set<Seq<char>>,
    attached: Seq<String>,
    auth: Map<Seq<char>, ProviderAuthState>,
) -> spec_fn(ProviderEntry) -> ProviderInfo {
    |p: ProviderEntry|
        shown_info(p.id, p.display_name, true, connected.contains(p.id@) || names(attached, p.id@), recorded(auth, p.id@))
}

/// The providers the host is shown, read off a provider book: every catalog
/// entry in catalog order, then every registered provider the catalog does not
/// list, in registration order.
pub open spec fn book_infos(
    catalog: Seq<ProviderEntry>,
    registered: Seq<ProviderEntry>,
    connected: Set<Seq<char>>,
    attached: Seq<String>,
    auth: Map<Seq<char>, ProviderAuthState>,
) -> Seq<ProviderInfo> {
    catalog.map_values(book_cataloged(registered, connected, attached, auth)) + registered.filter(
        outside_catalog(catalog),
    ).map_values(book_registered(connected, attached, auth))
}

/// The first entry of `s` with the id `id`, if any.
pub open spec fn first_with_id(s: Seq<ProviderEntry>, id: Seq<char>) -> Option<int> {
    if lists_id(s, id) {
        Some(choose|k: int| 0 <= k < s.len() && s[k].id@ == id && forall|j: int| 0 <= j < k ==> s[j].id@ != id)
    } else {
        None
    }
}

proof fn lemma_auth_for_listed(listed: Seq<(String, ProviderAuthState)>, m: Map<Seq<char>, ProviderAuthState>, id: Seq<char>)
    requires
        unique_keys(listed),
        forall|i: int| 0 <= i < listed.len() ==> #[trigger] m.contains_key(listed[i].0@) && m[listed[i].0@] == listed[i].1,
        forall|k: Seq<char>| #[trigger] m.contains_key(k) ==> exists|i: int| 0 <= i < listed.len() && listed[i].0@ == k,
    ensures
        auth_for(listed, id) == recorded(m, id),
    decreases listed.len(),
{
    if listed.len() > 0 {
        let rest = listed.drop_first();
        if listed[0].0@ == id {
            assert(m.contains_key(listed[0].0@));
        } else {
            let m2 = m.remove(listed[0].0@);
            assert forall|i: int| 0 <= i < rest.len() implies #[trigger] m2.contains_key(rest[i].0@) && m2[rest[i].0@]
                == rest[i].1 by {
                assert(rest[i] == listed[i + 1]);
                assert(m.contains_key(listed[i + 1].0@));
            }
            assert forall|k: Seq<char>| #[trigger] m2.contains_key(k) implies exists|i: int|
                0 <= i < rest.len() && rest[i].0@ == k by {
                let i = choose|i: int| 0 <= i < listed.len() && listed[i].0@ == k;
                assert(i != 0);
                assert(rest[i - 1] == listed[i]);
            }
            assert forall|i: int, j: int| 0 <= i < rest.len() && 0 <= j < rest.len() && i != j implies rest[i].0@
                != rest[j].0@ by {
                assert(rest[i] == listed[i + 1]);
                assert(rest[j] == listed[j + 1]);
            }
            lemma_auth_for_listed(rest, m2, id);
        }
    } else {
        if m.contains_key(id) {
            let i = choose|i: int| 0 <= i < listed.len() && listed[i].0@ == id;
        }
    }
}

/// The providers a companion session holds: those registered, in the order
/// they were added or built; the ids counted as connected; and the sign-in
/// state each provider last reported.
pub struct ProviderBook {
    registered: Vec<ProviderEntry>,
    connected: KeyedTable<()>,
    auth: KeyedTable<ProviderAuthState>,
}

impl ProviderBook {
    /// The two tables keep one entry per id.
    pub closed spec fn wf(&self) -> bool {
        self.connected.wf() && self.auth.wf()
    }

    /// The registered providers, in the order they were added or built.
    pub closed spec fn registered(&self) -> Seq<ProviderEntry> {
        self.registered@
    }

    /// The ids counted as connected.
    pub closed spec fn connected(&self) -> Set<Seq<char>> {
        self.connected.view().dom()
    }

    /// The sign-in state each provider last reported.
    pub closed spec fn auth(&self) -> Map<Seq<char>, ProviderAuthState> {
        self.auth.view()
    }

    /// No provider, none connected, no sign-in state.
    pub fn new() -> (b: ProviderBook)
        ensures
            b.wf(),
            b.registered() == Seq::<ProviderEntry>::empty(),
            b.connected() == Set::<Seq<char>>::empty(),
            b.auth() == Map::<Seq<char>, ProviderAuthState>::empty(),
    {
        let b = ProviderBook { registered: Vec::new(), connected: KeyedTable::new(), auth: KeyedTable::new() };
        assert(b.connected() =~= Set::<Seq<char>>::empty());
        b
    }

    /// Registers a provider the host added.
    pub fn add(&mut self, provider: ProviderEntry)
        requires
            old(self).wf(),
        ensures
            final(self).wf(),
            final(self).registered() == old(self).registered().push(provider),
            final(self).connected() == old(self).connected(),
            final(self).auth() == old(self).auth(),
    {
        self.registered.push(provider);
    }

    /// Whether a provider with this id is registered.
    pub fn is_registered(&self, id: &String) -> (r: bool)
        ensures
            r == lists_id(self.registered(), id@),
    {
        lists_provider(&self.registered, id)
    }

    /// A provider reported its sign-in state: the state is recorded, and a
    /// provider that signed in counts as connected from then on. Tells whether
    /// it signed in.
    pub fn auth_changed(&mut self, id: String, state: ProviderAuthState) -> (signed_in: bool)
        requires
            old(self).wf(),
        ensures
            final(self).wf(),
            signed_in == (state == ProviderAuthState::Authenticated),
            final(self).auth() == old(self).auth().insert(id@, state),
            final(self).connected() == if signed_in {
                old(self).connected().insert(id@)
            } else {
                old(self).connected()
            },
            final(self).registered() == old(self).registered(),
    {
        let signed_in = match state {
            ProviderAuthState::Authenticated => true,
            _ => false,
        };
        if signed_in {
            let _ = self.connected.insert(id.clone(), ());
        }
        let _ = self.auth.insert(id, state);
        signed_in
    }

    /// Connects a catalog provider: an id the catalog does not list is
    /// refused; a provider not registered yet is built from its (first)
    /// catalog entry and registered; one with stored credentials counts as
    /// connected. Tells whether a provider was built.
    pub fn connect(&mut self, catalog: &[ProviderEntry], id: &String, has_credentials: bool) -> (r: Result<
        bool,
        CompanionError,
    >)
        requires
            old(self).wf(),
        ensures
            final(self).wf(),
            !lists_id(catalog@, id@) ==> {
                &&& r matches Err(CompanionError::Device(m)) && m@ == "unknown provider "@ + id@
                &&& final(self).registered() == old(self).registered()
                &&& final(self).connected() == old(self).connected()
            },
            lists_id(catalog@, id@) ==> {
                &&& r == Ok::<bool, CompanionError>(!lists_id(old(self).registered(), id@))
                &&& final(self).registered() == if lists_id(old(self).registered(), id@) {
                    old(self).registered()
                } else {
                    old(self).registered().push(catalog@[first_with_id(catalog@, id@)->Some_0])
                }
                &&& final(self).connected() == if has_credentials {
                    old(self).connected().insert(id@)
                } else {
                    old(self).connected()
                }
            },
            final(self).auth() == old(self).auth(),
    {
        let entry = match first_entry(catalog, id) {
            Some(k) => k,
            None => {
                return Err(CompanionError::Device(String::from_str("unknown provider ").concat(id.as_str())));
            },
        };
        let built = !lists_provider(&self.registered, id);
        if built {
            let found = &catalog[entry];
            self.registered.push(ProviderEntry { id: found.id.clone(), display_name: found.display_name.clone() });
        }
        if has_credentials {
            let _ = self.connected.insert(id.clone(), ());
        }
        Ok(built)
    }

    /// Forgets a provider: the first registered one with the id, its
    /// connected mark and its sign-in state. Tells whether one was registered.
    pub fn remove(&mut self, id: &String) -> (removed: bool)
        requires
            old(self).wf(),
        ensures
            final(self).wf(),
            removed == lists_id(old(self).registered(), id@),
            final(self).registered() == match first_with_id(old(self).registered(), id@) {
                Some(k) => old(self).registered().remove(k),
                None => old(self).registered(),
            },
            final(self).connected() == old(self).connected().remove(id@),
            final(self).auth() == old(self).auth().remove(id@),
    {
        let removed = match first_entry(&self.registered, id) {
            Some(k) => {
                self.registered.remove(k);
                true
            },
            None => false,
        };
        let _ = self.connected.remove(id);
        let _ = self.auth.remove(id);
        removed
    }

    /// The providers the host is shown, with the ids `attached` the session's
    /// hub reports attached.
    pub fn infos(&self, catalog: &[ProviderEntry], attached: &[String]) -> (r: Vec<ProviderInfo>)
        requires
            self.wf(),
        ensures
            r@ == book_infos(catalog@, self.registered(), self.connected(), attached@, self.auth()),
    {
        let listing = self.connected.entries();
        let mut ids: Vec<String> = Vec::new();
        let mut i: usize = 0;
        while i < listing.len()
            invariant
                0 <= i <= listing@.len(),
                ids@.len() == i,
                forall|j: int| 0 <= j < i ==> ids@[j] == listing@[j].0,
            decreases listing@.len() - i,
        {
            ids.push(listing[i].0.clone());
            i = i + 1;
        }
        let r = provider_infos(catalog, &self.registered, &ids, attached, self.auth.entries().as_slice());
        proof {
            self.connected.lemma_entries();
            self.auth.lemma_entries();
            let c = self.connected();
            let a = self.auth();
            let listed = self.auth.listed();
            assert forall|k: Seq<char>| #[trigger] names(ids@, k) == c.contains(k) by {
                if names(ids@, k) {
                    let j = choose|j: int| 0 <= j < ids@.len() && (#[trigger] ids@[j])@ == k;
                    assert(self.connected.view().contains_key(self.connected.listed()[j].0@));
                }
                if c.contains(k) {
                    assert(self.connected.view().contains_key(k));
                    let j = choose|j: int| 0 <= j < self.connected.listed().len() && self.connected.listed()[j].0@ == k;
                    assert(ids@[j]@ == k);
                }
            }
            assert forall|k: Seq<char>| #[trigger] auth_for(listed, k) == recorded(a, k) by {
                lemma_auth_for_listed(listed, a, k);
            }
            let f1 = cataloged_info(self.registered@, ids@, attached@, listed);
            let g1 = book_cataloged(self.registered@, c, attached@, a);
            assert forall|e: ProviderEntry| #[trigger] f1(e) == g1(e) by {
                assert(names(ids@, e.id@) == c.contains(e.id@));
                assert(auth_for(listed, e.id@) == recorded(a, e.id@));
            }
            let f2 = registered_info(ids@, attached@, listed);
            let g2 = book_registered(c, attached@, a);
            assert forall|e: ProviderEntry| #[trigger] f2(e) == g2(e) by {
                assert(names(ids@, e.id@) == c.contains(e.id@));
                assert(auth_for(listed, e.id@) == recorded(a, e.id@));
            }
            assert(catalog@.map_values(f1) =~= catalog@.map_values(g1));
            let kept = self.registered@.filter(outside_catalog(catalog@));
            assert(kept.map_values(f2) =~= kept.map_values(g2));
        }
        r
    }
}

/// Where restoring stored sign-ins stands after the first `n` catalog
/// entries: the registered providers, the ids counted as connected, and the
/// ids restored. An entry is restored when no provider with its id is
/// registered yet and it has credentials; restoring registers the catalog's
/// (first) entry for the id, and marks the id connected when that entry has
/// credentials.
#[verifier::opaque]
pub open spec fn restore_plan(
    registered: Seq<ProviderEntry>,
    connected: Set<Seq<char>>,
    catalog: Seq<ProviderEntry>,
    creds: Seq<bool>,
    n: int,
) -> (Seq<ProviderEntry>, Set<Seq<char>>, Seq<Seq<char>>)
    decreases n,
{
    if n <= 0 {
        (registered, connected, Seq::empty())
    } else {
        let (reg, conn, ids) = restore_plan(registered, connected, catalog, creds, n - 1);
        let e = catalog[n - 1];
        if !lists_id(reg, e.id@) && creds[n - 1] {
            let k = first_with_id(catalog, e.id@)->Some_0;
            (reg.push(catalog[k]), if creds[k] {
                conn.insert(e.id@)
            } else {
                conn
            }, ids.push(e.id@))
        } else {
            (reg, conn, ids)
        }
    }
}

impl ProviderBook {
    /// Restores the stored sign-ins at start: each catalog entry, in order,
    /// whose provider is not registered and that has credentials is connected.
    /// Gives the ids restored.
    pub fn restore(&mut self, catalog: &[ProviderEntry], has_credentials: &[bool]) -> (restored: Vec<String>)
        requires
            old(self).wf(),
            catalog@.len() == has_credentials@.len(),
        ensures
            final(self).wf(),
            ({
                let (reg, conn, ids) = restore_plan(
                    old(self).registered(),
                    old(self).connected(),
                    catalog@,
                    has_credentials@,
                    catalog@.len() as int,
                );
                &&& final(self).registered() == reg
                &&& final(self).connected() == conn
                &&& restored@.len() == ids.len()
                &&& forall|j: int| 0 <= j < ids.len() ==> (#[trigger] restored@[j])@ == ids[j]
            }),
            final(self).auth() == old(self).auth(),
    {
        let mut restored: Vec<String> = Vec::new();
        let mut i: usize = 0;
        assert(restore_plan(old(self).registered(), old(self).connected(), catalog@, has_credentials@, 0) == (
            old(self).registered(),
            old(self).connected(),
            Seq::<Seq<char>>::empty(),
        )) by {
            reveal_with_fuel(restore_plan, 1);
        }
        while i < catalog.len()
            invariant
                0 <= i <= catalog@.len(),
                catalog@.len() == has_credentials@.len(),
                self.wf(),
                self.auth() == old(self).auth(),
                ({
                    let (reg, conn, ids) = restore_plan(
                        old(self).registered(),
                        old(self).connected(),
                        catalog@,
                        has_credentials@,
                        i as int,
                    );
                    &&& self.registered() == reg
                    &&& self.connected() == conn
                    &&& restored@.len() == ids.len()
                    &&& forall|j: int| 0 <= j < ids.len() ==> (#[trigger] restored@[j])@ == ids[j]
                }),
            decreases catalog@.len() - i,
        {
            let ghost before = restore_plan(
                old(self).registered(),
                old(self).connected(),
                catalog@,
                has_credentials@,
                i as int,
            );
            proof {
                reveal_with_fuel(restore_plan, 1);
            }
            let ghost restored_before = restored@;
            let id = &catalog[i].id;
            if !self.is_registered(id) && has_credentials[i] {
                proof {
                    assert(catalog@[i as int].id@ == id@);
                    assert(lists_id(catalog@, id@));
                }
                let k = first_entry(catalog, id).unwrap();
                let _ = self.connect(catalog, id, has_credentials[k]);
                restored.push(id.clone());
                proof {
                    assert(restored@.last()@ == id@);
                    assert forall|j: int| 0 <= j < before.2.push(id@).len() implies (#[trigger] restored@[j])@
                        == before.2.push(id@)[j] by {
                        if j < before.2.len() {
                            assert(restored@[j] == restored_before[j]);
                        }
                    }
                }
            }
            i = i + 1;
        }
        restored
    }
}

proof fn lemma_book_info_at(
    catalog: Seq<ProviderEntry>,
    registered: Seq<ProviderEntry>,
    connected: Set<Seq<char>>,
    attached: Seq<String>,
    auth: Map<Seq<char>, ProviderAuthState>,
    k: int,
)
    requires
        0 <= k < book_infos(catalog, registered, connected, attached, auth).len(),
    ensures
        ({
            let info = book_infos(catalog, registered, connected, attached, auth)[k];
            let id = info.id@;
            info == shown_info(
                info.id,
                info.display_name,
                if k < catalog.len() {
                    lists_id(registered, id)
                } else {
                    true
                },
                connected.contains(id) || names(attached, id),
                recorded(auth, id),
            )
        }),
{
    let head = catalog.map_values(book_cataloged(registered, connected, attached, auth));
    let kept = registered.filter(outside_catalog(catalog));
    let tail = kept.map_values(book_registered(connected, attached, auth));
    let all = book_infos(catalog, registered, connected, attached, auth);
    if k < catalog.len() {
        assert(all[k] == head[k]);
        let e = catalog[k];
        assert(head[k] == book_cataloged(registered, connected, attached, auth)(e));
        let live = lists_id(registered, e.id@);
        assert(all[k] == shown_info(e.id, e.display_name, live, connected.contains(e.id@) || names(attached, e.id@), recorded(auth, e.id@)));
    } else {
        assert(all[k] == tail[k - catalog.len()]);
        let p = kept[k - catalog.len()];
        assert(all[k] == shown_info(p.id, p.display_name, true, connected.contains(p.id@) || names(attached, p.id@), recorded(auth, p.id@)));
    }
}

/// A live provider that signed in is shown connected and signed in: when the
/// book marks its id connected and records it as signed in (what
/// `ProviderBook::auth_changed` leaves after a sign-in), every entry the host
/// is shown under that id that is live says so.
pub proof fn law_signed_in_provider_shows_connected(
    catalog: Seq<ProviderEntry>,
    registered: Seq<ProviderEntry>,
    connected: Set<Seq<char>>,
    attached: Seq<String>,
    auth: Map<Seq<char>, ProviderAuthState>,
    id: Seq<char>,
    k: int,
)
    requires
        lists_id(registered, id),
        connected.contains(id),
        auth.contains_key(id),
        auth[id] == ProviderAuthState::Authenticated,
        0 <= k < book_infos(catalog, registered, connected, attached, auth).len(),
        book_infos(catalog, registered, connected, attached, auth)[k].id@ == id,
    ensures
        book_infos(catalog, registered, connected, attached, auth)[k].connected,
        book_infos(catalog, registered, connected, attached, auth)[k].auth_state.kind == AuthKind::Authenticated,
{
    lemma_book_info_at(catalog, registered, connected, attached, auth, k);
}

/// A removed provider shows no sign-in state and is connected only through
/// the hub: once the book holds neither a connected mark nor a sign-in state
/// for an id (what `ProviderBook::remove` leaves), every entry shown under
/// that id is idle, and connected only when the hub still reports it attached.
pub proof fn law_removed_provider_shows_idle(
    catalog: Seq<ProviderEntry>,
    registered: Seq<ProviderEntry>,
    connected: Set<Seq<char>>,
    attached: Seq<String>,
    auth: Map<Seq<char>, ProviderAuthState>,
    id: Seq<char>,
    k: int,
)
    requires
        !connected.contains(id),
        !auth.contains_key(id),
        0 <= k < book_infos(catalog, registered, connected, attached, auth).len(),
        book_infos(catalog, registered, connected, attached, auth)[k].id@ == id,
    ensures
        book_infos(catalog, registered, connected, attached, auth)[k].auth_state == idle_auth_spec(),
        book_infos(catalog, registered, connected, attached, auth)[k].connected ==> names(attached, id),
{
    lemma_book_info_at(catalog, registered, connected, attached, auth, k);
}

/// The first entry of `s` with the id `id`.
fn first_entry(s: &[ProviderEntry], id: &String) -> (r: Option<usize>)
    ensures
        match r {
            Some(k) => first_with_id(s@, id@) == Some(k as int) && k < s@.len(),
            None => first_with_id(s@, id@) is None,
        },
{
    let mut i: usize = 0;
    while i < s.len()
        invariant
            0 <= i <= s@.len(),
            forall|j: int| 0 <= j < i ==> (#[trigger] s@[j]).id@ != id@,
        decreases s@.len() - i,
    {
        if s[i].id == *id {
            proof {
                assert(lists_id(s@, id@));
                let k = choose|k: int| 0 <= k < s@.len() && s@[k].id@ == id@ && forall|j: int| 0 <= j < k ==> s@[j].id@ != id@;
                if k < i {
                    assert(s@[k].id@ != id@);
                } else if k > i {
                    assert(s@[i as int].id@ != id@);
                }
            }
            return Some(i);
        }
        i = i + 1;
    }
    None
}

/// Whether device logs stream to the host, and the subscription token held
/// for each device that streams.
pub struct LogStream {
    enabled: bool,
    tokens: KeyedTable<String>,
}

impl LogStream {
    /// Each device holds at most one token.
    pub closed spec fn wf(&self) -> bool {
        self.tokens.wf()
    }

    /// Whether device logs stream to the host.
    pub closed spec fn streaming(&self) -> bool {
        self.enabled
    }

    /// Whether device logs stream to the host.
    pub fn is_streaming(&self) -> (r: bool)
        ensures
            r == self.streaming(),
    {
        self.enabled
    }

    /// The token held for each device.
    pub closed spec fn tokens(&self) -> Map<Seq<char>, String> {
        self.tokens.view()
    }

    /// Streaming off, no tokens.
    pub fn new() -> (l: LogStream)
        ensures
            l.wf(),
            !l.streaming(),
            l.tokens() == Map::<Seq<char>, String>::empty(),
    {
        LogStream { enabled: false, tokens: KeyedTable::new() }
    }

    /// Whether `device` should be subscribed: streaming is on and the device
    /// holds no token yet.
    pub fn wants_subscription(&self, device: &String) -> (r: bool)
        requires
            self.wf(),
        ensures
            r == (self.streaming() && !self.tokens().contains_key(device@)),
    {
        self.enabled && !self.tokens.contains(device)
    }

    /// Keeps the token a subscription of `device` returned, when streaming is
    /// still on and the device holds none; otherwise hands the token back so
    /// that its subscription can be released.
    pub fn adopt(&mut self, device: String, token: String) -> (orphan: Option<String>)
        requires
            old(self).wf(),
        ensures
            final(self).wf(),
            final(self).streaming() == old(self).streaming(),
            if old(self).streaming() && !old(self).tokens().contains_key(device@) {
                &&& final(self).tokens() == old(self).tokens().insert(device@, token)
                &&& orphan is None
            } else {
                &&& final(self).tokens() == old(self).tokens()
                &&& orphan == Some(token)
            },
    {
        if self.enabled && !self.tokens.contains(&device) {
            let _ = self.tokens.insert(device, token);
            None
        } else {
            Some(token)
        }
    }

    /// Turns streaming on or off. A change empties the token table and hands
    /// back every token it held; setting the current value changes nothing and
    /// gives `None`.
    pub fn set_enabled(&mut self, enabled: bool) -> (released: Option<Vec<(String, String)>>)
        requires
            old(self).wf(),
        ensures
            final(self).wf(),
            final(self).streaming() == enabled,
            old(self).streaming() == enabled ==> released is None && final(self).tokens() == old(
                self,
            ).tokens(),
            old(self).streaming() != enabled ==> {
                &&& final(self).tokens() == Map::<Seq<char>, String>::empty()
                &&& released matches Some(all) && all@.len() == old(self).tokens().dom().len()
                    && unique_keys(all@) && forall|i: int|
                    0 <= i < all@.len() ==> #[trigger] old(self).tokens().contains_key(all@[i].0@)
                        && old(self).tokens()[all@[i].0@] == all@[i].1
            },
    {
        if self.enabled == enabled {
            return None;
        }
        self.enabled = enabled;
        proof {
            self.tokens.lemma_entries();
        }
        let all = self.tokens.take_all();
        Some(all)
    }

    /// Forgets the token of a device whose link is gone.
    pub fn forget(&mut self, device: &String)
        requires
            old(self).wf(),
        ensures
            final(self).wf(),
            final(self).streaming() == old(self).streaming(),
            final(self).tokens() == old(self).tokens().remove(device@),
    {
        let _ = self.tokens.remove(device);
    }
}

/// The live link of each device, named by the token it was brought up with.
pub struct LinkTable {
    links: KeyedTable<u128>,
}

impl LinkTable {
    /// Each device has at most one link.
    pub closed spec fn wf(&self) -> bool {
        self.links.wf()
    }

    /// The token of each device's live link.
    pub closed spec fn view(&self) -> Map<Seq<char>, u128> {
        self.links.view()
    }

    /// No links.
    pub fn new() -> (t: LinkTable)
        ensures
            t.wf(),
            t.view() == Map::<Seq<char>, u128>::empty(),
    {
        LinkTable { links: KeyedTable::new() }
    }

    /// Records the link `device` was brought up with, replacing any before it;
    /// gives back the token of the replaced link.
    pub fn adopt(&mut self, device: String, token: u128) -> (replaced: Option<u128>)
        requires
            old(self).wf(),
        ensures
            final(self).wf(),
            final(self).view() == old(self).view().insert(device@, token),
            replaced == if old(self).view().contains_key(device@) {
                Some(old(self).view()[device@])
            } else {
                None
            },
    {
        self.links.insert(device, token)
    }

    /// Tears down the link of `device`; tells whether there was one.
    pub fn teardown(&mut self, device: &String) -> (held: bool)
        requires
            old(self).wf(),
        ensures
            final(self).wf(),
            final(self).view() == old(self).view().remove(device@),
            held == old(self).view().contains_key(device@),
    {
        self.links.remove(device).is_some()
    }

    /// A link that died: it is dropped only when it is still the live link of
    /// its device, so that a stale link's death leaves a newer link in place.
    pub fn link_died(&mut self, device: &String, token: u128) -> (dropped: bool)
        requires
            old(self).wf(),
        ensures
            final(self).wf(),
            dropped == (old(self).view().contains_key(device@) && old(self).view()[device@] == token),
            dropped ==> final(self).view() == old(self).view().remove(device@),
            !dropped ==> final(self).view() == old(self).view(),
    {
        let live = match self.links.get(device) {
            Some(t) => *t == token,
            None => false,
        };
        if live {
            let _ = self.links.remove(device);
        }
        live
    }
}

/// How a frame fanned out to every linked device went: with no link there was
/// nowhere to send it (`None`); otherwise it counts as sent when at least one
/// device took it (`Some(true)`), and the last device's failure is reported
/// when none did (`Some(false)`).
pub fn fan_out_delivered(delivered: &[bool]) -> (r: Option<bool>)
    ensures
        delivered@.len() == 0 ==> r is None,
        delivered@.len() > 0 ==> r == Some(exists|i: int| 0 <= i < delivered@.len() && delivered@[i]),
{
    if delivered.len() == 0 {
        return None;
    }
    let mut i: usize = 0;
    while i < delivered.len()
        invariant
            0 <= i <= delivered@.len(),
            forall|j: int| 0 <= j < i ==> !delivered@[j],
        decreases delivered@.len() - i,
    {
        if delivered[i] {
            return Some(true);
        }
        i = i + 1;
    }
    Some(false)
}

/// The host clock as the host reads it.
#[derive(Clone, Debug, PartialEq, Eq)]
pub struct HostClock {
    pub tz_iana: String,
    pub locale: String,
    pub unix_seconds: u64,
    pub utc_offset_minutes: i32,
    pub dst_offset_minutes: i32,
}

/// The time a device is told.
#[derive(Clone, Debug, PartialEq, Eq)]
pub struct TimeInfo {
    pub tz_iana: Option<String>,
    pub locale: Option<String>,
    pub wall_clock_unix_s: Option<u32>,
    pub utc_offset_minutes: Option<i32>,
    pub dst_offset_minutes: Option<i32>,
}

/// The time a device is told, from the host clock: every field is given, and
/// a wall clock past what 32 bits hold is sent as the largest 32-bit value.
pub fn time_info(clock: HostClock) -> (t: TimeInfo)
    ensures
        t.tz_iana == Some(clock.tz_iana),
        t.locale == Some(clock.locale),
        t.wall_clock_unix_s == Some(
            if clock.unix_seconds <= u32::MAX {
                clock.unix_seconds as u32
            } else {
                u32::MAX
            },
        ),
        t.utc_offset_minutes == Some(clock.utc_offset_minutes),
        t.dst_offset_minutes == Some(clock.dst_offset_minutes),
{
    let wall: u32 = if clock.unix_seconds <= 0xffff_ffff {
        clock.unix_seconds as u32
    } else {
        0xffff_ffff
    };
    TimeInfo {
        tz_iana: Some(clock.tz_iana),
        locale: Some(clock.locale),
        wall_clock_unix_s: Some(wall),
        utc_offset_minutes: Some(clock.utc_offset_minutes),
        dst_offset_minutes: Some(clock.dst_offset_minutes),
    }
}

/// The characters of an optional text.
pub open spec fn opt_text(s: Option<String>) -> Option<Seq<char>> {
    match s {
        Some(t) => Some(t@),
        None => None,
    }
}

/// An optional id written as a UUID.
pub open spec fn opt_uuid_text(id: Option<u128>) -> Option<Seq<char>> {
    match id {
        Some(i) => Some(uuid_text(i)),
        None => None,
    }
}

fn opt_uuid_string(id: Option<u128>) -> (r: Option<String>)
    ensures
        opt_text(r) == opt_uuid_text(id),
{
    match id {
        Some(i) => Some(uuid_string(i)),
        None => None,
    }
}

/// The slots a device reports, as the host is shown them: each id as a UUID.
pub fn project_slots(slots: GatewayWebappSlots) -> (r: WebappSlots)
    ensures
        opt_text(r.launcher) == opt_uuid_text(slots.launcher),
        opt_text(r.overlay) == opt_uuid_text(slots.overlay),
{
    WebappSlots { launcher: opt_uuid_string(slots.launcher), overlay: opt_uuid_string(slots.overlay) }
}

/// The webapp a device reports showing, as the host is shown it: none when
/// it shows none, else its id as a UUID and its name.
pub fn project_active(active: WebappActive) -> (r: Option<ActiveWebapp>)
    ensures
        match active.id {
            None => r is None,
            Some(i) => r matches Some(a) && a.id@ == uuid_text(i) && a.name == active.name,
        },
{
    match active.id {
        None => None,
        Some(i) => Some(ActiveWebapp { id: uuid_string(i), name: active.name }),
    }
}

/// What `uuid::Uuid::parse_str` makes of the text: the id it spells, if it
/// spells one in any of the forms the crate accepts.
pub uninterp spec fn uuid_parse_result(text: Seq<char>) -> Option<u128>;

/// `uuid::Uuid::parse_str`. The contract names the result and states what the
/// crate documents of the hyphenated form it writes: that text parses back to
/// the id it was written from. The other accepted forms are not restated.
#[verifier::external_body]
fn parse_uuid(text: &str) -> (r: Option<u128>)
    ensures
        r == uuid_parse_result(text@),
        forall|v: u128| text@ == uuid_text(v) ==> r == Some(v),
{
    uuid::Uuid::parse_str(text).ok().map(|u| u.as_u128())
}

/// The webapp id the host names, or the refusal of text that is no id.
pub fn webapp_id(raw: &str) -> (r: Result<u128, CompanionError>)
    ensures
        match uuid_parse_result(raw@) {
            Some(v) => r == Ok::<u128, CompanionError>(v),
            None => r matches Err(CompanionError::Device(m)) && m@ == "not a webapp id: "@ + raw@,
        },
{
    match parse_uuid(raw) {
        Some(v) => Ok(v),
        None => Err(CompanionError::Device(String::from_str("not a webapp id: ").concat(raw))),
    }
}

/// The size a download is measured against: the declared one, or what the
/// server reports when none was declared.
pub open spec fn progress_total(declared: u64, seen: u64) -> u64 {
    if declared > 0 {
        declared
    } else {
        seen
    }
}

/// The bucket a download's progress falls in: one per percent of the total
/// (at least one byte wide; half a megabyte when the total is unknown), and a
/// bucket of its own once the whole total has arrived.
pub open spec fn progress_bucket(declared: u64, received: u64, seen: u64) -> u64 {
    let total = progress_total(declared, seen);
    let step: u64 = if total > 0 {
        if total / 100 >= 1 {
            (total / 100) as u64
        } else {
            1
        }
    } else {
        524288
    };
    if received == total {
        (u64::MAX - 1) as u64
    } else {
        (received / step) as u64
    }
}

/// The bytes a download has received, out of its total.
#[derive(Clone, Copy, Debug, PartialEq, Eq, Structural)]
pub struct ProgressReport {
    pub received: u64,
    pub total: u64,
}

/// One progress callback of a download: the bucket it falls in, and what to
/// report when the bucket changed.
#[derive(Clone, Copy, Debug, PartialEq, Eq, Structural)]
pub struct ProgressStep {
    pub bucket: u64,
    pub report: Option<ProgressReport>,
}

/// Buckets one progress callback, so that the host hears of a download about
/// once per percent rather than once per chunk.
pub fn download_progress(declared: u64, received: u64, seen: u64, last_bucket: u64) -> (p: ProgressStep)
    ensures
        p.bucket == progress_bucket(declared, received, seen),
        p.report == if p.bucket == last_bucket {
            None
        } else {
            Some(ProgressReport { received: received, total: progress_total(declared, seen) })
        },
{
    let total = if declared > 0 {
        declared
    } else {
        seen
    };
    let step: u64 = if total > 0 {
        if total / 100 >= 1 {
            total / 100
        } else {
            1
        }
    } else {
        524288
    };
    let bucket = if received == total {
        0xffff_ffff_ffff_fffe
    } else {
        received / step
    };
    let report = if bucket == last_bucket {
        None
    } else {
        Some(ProgressReport { received, total })
    };
    ProgressStep { bucket, report }
}

/// Ids in the order the debug view lists them: sorted as text, stably.
pub fn sorted_ids(ids: &Vec<String>) -> (r: Vec<String>)
    ensures
        r@ == sorted_by(ids@.map_values(|s: String| s@), ids@.len() as int, false).map_values(|k: int| ids@[k]),
{
    let n = ids.len();
    let mut keys: Vec<Vec<char>> = Vec::new();
    let mut i: usize = 0;
    while i < n
        invariant
            0 <= i <= n,
            n == ids@.len(),
            keys@.len() == i,
            forall|j: int| 0 <= j < i ==> (#[trigger] keys@[j])@ == ids@[j]@,
        decreases n - i,
    {
        keys.push(chars_of(ids[i].as_str()));
        i = i + 1;
    }
    assert(keys@.map_values(|v: Vec<char>| v@) =~= ids@.map_values(|s: String| s@));
    let order = sort_positions(&keys, false);
    let ghost go = sorted_by(ids@.map_values(|s: String| s@), n as int, false);
    let mut r: Vec<String> = Vec::new();
    let mut j: usize = 0;
    while j < n
        invariant
            0 <= j <= n,
            n == ids@.len(),
            order@.len() == n,
            go.len() == n,
            forall|t: int| 0 <= t < n ==> (#[trigger] order@[t]) as int == go[t],
            forall|t: int| 0 <= t < n ==> (#[trigger] order@[t]) < n,
            r@ == go.take(j as int).map_values(|k: int| ids@[k]),
        decreases n - j,
    {
        r.push(ids[order[j]].clone());
        j = j + 1;
        assert(r@ =~= go.take(j as int).map_values(|k: int| ids@[k]));
    }
    assert(go.take(n as int) =~= go);
    r
}

/// The auto-resume settings in the order the debug view lists them: by
/// device id, stably.
pub fn sorted_auto_resume(prefs: &Vec<DeviceAutoResume>) -> (r: Vec<DeviceAutoResume>)
    ensures
        r@ == sorted_by(prefs@.map_values(|p: DeviceAutoResume| p.device_id@), prefs@.len() as int, false).map_values(
            |k: int| prefs@[k],
        ),
{
    let n = prefs.len();
    let mut keys: Vec<Vec<char>> = Vec::new();
    let mut i: usize = 0;
    while i < n
        invariant
            0 <= i <= n,
            n == prefs@.len(),
            keys@.len() == i,
            forall|j: int| 0 <= j < i ==> (#[trigger] keys@[j])@ == prefs@[j].device_id@,
        decreases n - i,
    {
        keys.push(chars_of(prefs[i].device_id.as_str()));
        i = i + 1;
    }
    assert(keys@.map_values(|v: Vec<char>| v@) =~= prefs@.map_values(|p: DeviceAutoResume| p.device_id@));
    let order = sort_positions(&keys, false);
    let ghost go = sorted_by(prefs@.map_values(|p: DeviceAutoResume| p.device_id@), n as int, false);
    let mut r: Vec<DeviceAutoResume> = Vec::new();
    let mut j: usize = 0;
    while j < n
        invariant
            0 <= j <= n,
            n == prefs@.len(),
            order@.len() == n,
            go.len() == n,
            forall|t: int| 0 <= t < n ==> (#[trigger] order@[t]) as int == go[t],
            forall|t: int| 0 <= t < n ==> (#[trigger] order@[t]) < n,
            r@ == go.take(j as int).map_values(|k: int| prefs@[k]),
        decreases n - j,
    {
        let p = &prefs[order[j]];
        r.push(DeviceAutoResume { device_id: p.device_id.clone(), enabled: p.enabled });
        j = j + 1;
        assert(r@ =~= go.take(j as int).map_values(|k: int| prefs@[k]));
    }
    assert(go.take(n as int) =~= go);
    r
}

} // verus!
