//! Messages exchanged with a gateway peer that the library's decisions read
//! or produce.

use vstd::prelude::*;

use crate::companion::{ConfigEntry, DocEntry};
use crate::input::LauncherGesture;

verus! {

/// Asks for the installed webapps.
#[derive(Clone, Copy, Debug, Default, PartialEq, Eq, Structural)]
pub struct ListWebapps;

/// Asks which webapp is shown.
#[derive(Clone, Copy, Debug, Default, PartialEq, Eq, Structural)]
pub struct GetActiveWebapp;

/// The files of a bundle a peer can fetch.
#[derive(Clone, Copy, Debug, PartialEq, Eq, Structural)]
pub enum WebappResourceKind {
    Icon,
    Settings,
    Overlay,
}

/// The slots a webapp can fill besides the foreground.
#[derive(Clone, Copy, Debug, PartialEq, Eq, Structural)]
pub enum WebappSlot {
    Launcher,
    Overlay,
}

/// Asks which webapps fill the slots.
#[derive(Clone, Copy, Debug, Default, PartialEq, Eq, Structural)]
pub struct GetWebappSlots;

/// Which webapps fill the slots.
#[derive(Clone, Copy, Debug, PartialEq, Eq, Structural)]
pub struct WebappSlots {
    pub launcher: Option<u128>,
    pub overlay: Option<u128>,
}

/// The webapp shown, and its name.
#[derive(Clone, Debug, PartialEq, Eq)]
pub struct WebappActive {
    pub id: Option<u128>,
    pub name: Option<String>,
}

/// An update may start, from this offset.
#[derive(Clone, Copy, Debug, PartialEq, Eq, Structural)]
pub struct OtaBeginAck {
    pub resume_from_offset: u32,
}

/// An update may not start, and why.
#[derive(Clone, Debug, PartialEq, Eq)]
pub struct OtaBeginRejected {
    pub reason: String,
}

/// The device's nickname.
#[derive(Clone, Debug, PartialEq, Eq)]
pub struct DeviceNicknameReply {
    pub nickname: Option<String>,
}

/// A nickname was refused, and why.
#[derive(Clone, Debug, PartialEq, Eq)]
pub struct DeviceNicknameRejected {
    pub reason: String,
}

/// The token of a log subscription.
#[derive(Clone, Debug, PartialEq, Eq)]
pub struct LogsSubscribeReply {
    pub token: String,
}

/// The answer to a peer asking how the launcher is summoned.
#[derive(Clone, Copy, Debug, PartialEq, Eq, Structural)]
pub struct LauncherGestureReply {
    pub gesture: LauncherGesture,
}

/// A keepalive, numbered.
#[derive(Clone, Copy, Debug, PartialEq, Eq, Structural)]
pub struct KeepalivePing {
    pub seq: u32,
}

/// The answer to a keepalive, with the same number.
#[derive(Clone, Copy, Debug, PartialEq, Eq, Structural)]
pub struct KeepaliveAck {
    pub seq: u32,
}

/// Answers a keepalive with its own number.
pub fn keepalive_reply(ping: KeepalivePing) -> (a: KeepaliveAck)
    ensures
        a.seq == ping.seq,
{
    KeepaliveAck { seq: ping.seq }
}

/// The value of one configuration key.
#[derive(Clone, Debug, PartialEq, Eq)]
pub struct WebappConfigGetReply {
    pub key: String,
    pub value: Option<String>,
}

/// Every stored configuration value of a webapp.
#[derive(Clone, Debug, PartialEq, Eq)]
pub struct WebappConfigListReply {
    pub entries: Vec<ConfigEntry>,
}

/// A configuration write landed: the key and what it now holds.
#[derive(Clone, Debug, PartialEq, Eq)]
pub struct WebappConfigAck {
    pub key: String,
    pub value: Option<String>,
}

/// The value of one document key.
#[derive(Clone, Debug, PartialEq, Eq)]
pub struct WebappDocGetReply {
    pub key: String,
    pub value: Option<String>,
}

/// Every stored document of a webapp.
#[derive(Clone, Debug, PartialEq, Eq)]
pub struct WebappDocListReply {
    pub entries: Vec<DocEntry>,
}

/// A document write landed: the key and what it now holds.
#[derive(Clone, Debug, PartialEq, Eq)]
pub struct WebappDocAck {
    pub key: String,
    pub value: Option<String>,
}

/// How the backlight is set.
#[derive(Clone, Copy, Debug, PartialEq, Eq, Structural)]
pub enum BrightnessMode {
    /// From the ambient light sensor.
    Auto,
    /// From the level a client sets.
    Manual,
}

impl BrightnessMode {
    /// The mode a device starts in.
    pub fn default_mode() -> (m: BrightnessMode)
        ensures
            m == BrightnessMode::Auto,
    {
        BrightnessMode::Auto
    }
}

/// What a hardware request can be refused with.
#[derive(Clone, Copy, Debug, PartialEq, Eq, Structural)]
pub enum HardwareError {
    /// A level outside 0 to 1.
    LevelOutOfRange,
    /// A level set while the mode is not manual.
    ModeMismatch,
    /// A rotation other than 0, 90, 180 or 270.
    InvalidRotation,
}

} // verus!
