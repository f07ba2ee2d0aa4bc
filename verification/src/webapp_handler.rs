//! How the daemon answers a gateway peer's webapp requests: which requests it
//! refuses and with what, what it replies, and what follows a change of the
//! shown webapp or of a slot.

use vstd::prelude::*;
use vstd::string::*;

use crate::bundles::{hex_bytes, sha256_digest, sha256_hex, uuid_string, uuid_text, utf8_len};
use crate::companion::{ConfigKind, WebappRole, WebappSource};
use crate::gateway_msgs::{WebappActive, WebappResourceKind, WebappSlot};
use crate::text::{push_decimal, decimal};
use crate::webapps::{reserved, WebappError, WebappRegistry};

verus! {

/// The page the kiosk shows when no launcher is active.
pub const KIOSK_HOME_URL: &'static str = "http://127.0.0.1:8891/";

/// Where the kiosk loads the active launcher from, followed by its bundle hash.
pub const KIOSK_HUB_URL_BASE: &'static str = "http://127.0.0.1:8891/_hub/";

/// The largest resource sent in the reply itself.
pub const RESOURCE_INLINE_MAX: usize = 16384;

/// The largest document value a webapp may store.
pub const DOC_VALUE_MAX_BYTES: usize = 262144;

/// The handler of a gateway peer's webapp requests.
pub struct WebappHandler<H> {
    pub handle: H,
}

impl<H> WebappHandler<H> {
    /// A handler answering through `handle`.
    pub fn new(handle: H) -> (h: WebappHandler<H>)
        ensures
            h.handle == handle,
    {
        WebappHandler { handle }
    }
}

/// The refusal of a request about an unknown webapp.
pub open spec fn not_found(e: WebappError, id: u128) -> bool {
    e matches WebappError::WebappNotFound { id: t } && t@ == uuid_text(id)
}

/// Refuses a request about a webapp the registry does not know.
pub fn require_known(registry: &WebappRegistry, id: u128) -> (r: Result<(), WebappError>)
    requires
        registry.wf(),
    ensures
        registry.view().contains_key(id) ==> r is Ok,
        !registry.view().contains_key(id) ==> (r matches Err(e) && not_found(e, id)),
{
    match registry.bundle(id) {
        Some(_) => Ok(()),
        None => Err(WebappError::WebappNotFound { id: uuid_string(id) }),
    }
}

/// Checks a switch of the shown webapp: it must be known and have a page.
pub fn check_switch(registry: &WebappRegistry, id: u128) -> (r: Result<(), WebappError>)
    requires
        registry.wf(),
    ensures
        !registry.view().contains_key(id) ==> (r matches Err(e) && not_found(e, id)),
        registry.view().contains_key(id) && !registry.view()[id].has_app_entry ==> r == Err::<
            (),
            WebappError,
        >(WebappError::MissingIndexHtml),
        registry.view().contains_key(id) && registry.view()[id].has_app_entry ==> r is Ok,
{
    require_known(registry, id)?;
    if !registry.has_app_entry(id) {
        return Err(WebappError::MissingIndexHtml);
    }
    Ok(())
}

/// Refuses to uninstall a reserved builtin.
pub fn check_uninstall(registry: &WebappRegistry, id: u128) -> (r: Result<(), WebappError>)
    requires
        registry.wf(),
    ensures
        (registry.view().contains_key(id) && registry.view()[id].source == WebappSource::Builtin
            && reserved(registry.reserved_ids(), id)) ==> (r matches Err(e) && e matches WebappError::CannotUninstallBuiltin { id: t } && t@ == uuid_text(id)),
        !(registry.view().contains_key(id) && registry.view()[id].source == WebappSource::Builtin
            && reserved(registry.reserved_ids(), id)) ==> r is Ok,
{
    if registry.is_builtin(id) && registry.reserved_id_set().is_reserved(id) {
        return Err(WebappError::CannotUninstallBuiltin { id: uuid_string(id) });
    }
    Ok(())
}

/// What follows an uninstall: which webapp to show instead, and whether the
/// kiosk reloads.
#[derive(Clone, Copy, Debug, PartialEq, Eq, Structural)]
pub struct AfterUninstall {
    pub show: Option<u128>,
    pub reload: bool,
}

/// What follows the uninstall of `id`: when it was shown, the launcher
/// fallback (if any) is shown instead; the kiosk reloads when the overlay slot
/// was released or the shown webapp changed.
pub fn after_uninstall(id: u128, released_overlay: bool, active: Option<u128>, fallback: Option<u128>) -> (a:
    AfterUninstall)
    ensures
        active == Some(id) && fallback is Some ==> a == (AfterUninstall { show: fallback, reload: true }),
        !(active == Some(id) && fallback is Some) ==> a == (AfterUninstall { show: None, reload: released_overlay }),
{
    if active == Some(id) {
        if let Some(f) = fallback {
            return AfterUninstall { show: Some(f), reload: true };
        }
    }
    AfterUninstall { show: None, reload: released_overlay }
}

/// Checks the webapp a slot is set to: it must be known, and a launcher for
/// the launcher slot or ship an overlay for the overlay slot. Clearing a slot
/// is always allowed.
pub fn check_slot(registry: &WebappRegistry, slot: WebappSlot, id: Option<u128>) -> (r: Result<(), WebappError>)
    requires
        registry.wf(),
    ensures
        id is None ==> r is Ok,
        id is Some && !registry.view().contains_key(id->Some_0) ==> (r matches Err(e) && not_found(e, id->Some_0)),
        id is Some && registry.view().contains_key(id->Some_0) && slot == WebappSlot::Launcher ==> {
            let i = id->Some_0;
            if registry.view()[i].has_app_entry && registry.view()[i].role == WebappRole::Launcher {
                r is Ok
            } else {
                r matches Err(e) && e matches WebappError::NotALauncher { id: t } && t@ == uuid_text(i)
            }
        },
        id is Some && registry.view().contains_key(id->Some_0) && slot == WebappSlot::Overlay ==> {
            let i = id->Some_0;
            if registry.view()[i].overlay_hash is Some {
                r is Ok
            } else {
                r matches Err(e) && e matches WebappError::NoOverlay { id: t } && t@ == uuid_text(i)
            }
        },
{
    match id {
        None => Ok(()),
        Some(i) => {
            require_known(registry, i)?;
            match slot {
                WebappSlot::Launcher => {
                    if registry.is_launcher(i) {
                        Ok(())
                    } else {
                        Err(WebappError::NotALauncher { id: uuid_string(i) })
                    }
                },
                WebappSlot::Overlay => {
                    if registry.provides_overlay(i) {
                        Ok(())
                    } else {
                        Err(WebappError::NoOverlay { id: uuid_string(i) })
                    }
                },
            }
        },
    }
}

/// After the launcher slot changed: when the shown webapp was the previous
/// launcher, the new launcher (if any) is shown instead.
pub fn after_launcher_change(active: Option<u128>, previous: Option<u128>, next: Option<u128>) -> (show: Option<
    u128,
>)
    ensures
        show == if active is Some && active == previous && next is Some {
            next
        } else {
            None
        },
{
    if active.is_some() && active == previous && next.is_some() {
        next
    } else {
        None
    }
}

/// How a resource is sent.
#[derive(Clone, Copy, Debug, PartialEq, Eq, Structural)]
pub enum ResourceDelivery {
    /// The peer already has it: only the digest is sent.
    Unchanged,
    /// In the reply itself.
    Inline,
    /// As a separate transfer.
    Stream,
    /// It would have to stream, but the peer has no address to stream to.
    NoAddress,
}

/// How a resource of `len` bytes with digest `sha256` is sent to a peer that
/// says it has the one with digest `have`.
pub fn resource_delivery(have: &Option<String>, sha256: &String, len: usize, addressed: bool) -> (d:
    ResourceDelivery)
    ensures
        have is Some && have->Some_0@ == sha256@ ==> d == ResourceDelivery::Unchanged,
        !(have is Some && have->Some_0@ == sha256@) ==> d == if len <= RESOURCE_INLINE_MAX {
            ResourceDelivery::Inline
        } else if addressed {
            ResourceDelivery::Stream
        } else {
            ResourceDelivery::NoAddress
        },
{
    if let Some(h) = have {
        if *h == *sha256 {
            return ResourceDelivery::Unchanged;
        }
    }
    if len <= RESOURCE_INLINE_MAX {
        ResourceDelivery::Inline
    } else if addressed {
        ResourceDelivery::Stream
    } else {
        ResourceDelivery::NoAddress
    }
}

/// A resource reply: the digest it names the bytes by, and how the bytes go.
#[derive(Clone, Debug, PartialEq, Eq)]
pub struct ResourcePlan {
    pub sha256: String,
    pub delivery: ResourceDelivery,
}

/// How a resource's bytes are answered to a peer that says it has the copy
/// with digest `have`: they are named by their SHA-256 in hexadecimal; only
/// that digest goes when it matches `have`, the bytes themselves when they fit
/// inline, else a transfer to an addressed peer.
pub fn resource_plan(have: &Option<String>, bytes: &[u8], addressed: bool) -> (p: ResourcePlan)
    ensures
        p.sha256@ == hex_bytes(sha256_digest(bytes@)),
        p.delivery == if have is Some && have->Some_0@ == hex_bytes(sha256_digest(bytes@)) {
            ResourceDelivery::Unchanged
        } else if bytes@.len() <= RESOURCE_INLINE_MAX {
            ResourceDelivery::Inline
        } else if addressed {
            ResourceDelivery::Stream
        } else {
            ResourceDelivery::NoAddress
        },
{
    let sha256 = sha256_hex(bytes);
    let delivery = resource_delivery(have, &sha256, bytes.len(), addressed);
    ResourcePlan { sha256, delivery }
}

/// The media type a resource is sent with: the icon's own, an HTML settings
/// page, or an overlay script.
pub fn resource_mime(kind: WebappResourceKind, icon_mime: Option<String>) -> (m: Option<String>)
    ensures
        kind == WebappResourceKind::Icon ==> m == icon_mime,
        kind == WebappResourceKind::Settings ==> (m matches Some(t) && t@ == "text/html"@),
        kind == WebappResourceKind::Overlay ==> (m matches Some(t) && t@ == "text/javascript"@),
{
    match kind {
        WebappResourceKind::Icon => icon_mime,
        WebappResourceKind::Settings => Some(String::from_str("text/html")),
        WebappResourceKind::Overlay => Some(String::from_str("text/javascript")),
    }
}

/// What the configuration checks read of one field.
#[derive(Clone, Debug, PartialEq, Eq)]
pub struct ConfigFieldRules {
    pub kind: ConfigKind,
    pub key: String,
    pub min_length: Option<u32>,
    pub max_length: Option<u32>,
    pub choices: Vec<String>,
    /// The stored form of the field's default, if it has one.
    pub default_storage: Option<String>,
}

/// The field a key names: the first with that key.
pub open spec fn field_index(fields: Seq<ConfigFieldRules>, key: Seq<char>) -> Option<int>
    decreases fields.len(),
{
    if fields.len() == 0 {
        None
    } else {
        match field_index(fields.drop_last(), key) {
            Some(i) => Some(i),
            None => if fields.last().key@ == key {
                Some(fields.len() - 1)
            } else {
                None
            },
        }
    }
}

proof fn lemma_field_index(fields: Seq<ConfigFieldRules>, key: Seq<char>, i: int)
    requires
        0 <= i < fields.len(),
        fields[i].key@ == key,
        forall|j: int| 0 <= j < i ==> fields[j].key@ != key,
    ensures
        field_index(fields, key) == Some(i),
    decreases fields.len(),
{
    if i < fields.len() - 1 {
        lemma_field_index(fields.drop_last(), key, i);
    } else {
        lemma_field_absent(fields.drop_last(), key);
    }
}

proof fn lemma_field_absent(fields: Seq<ConfigFieldRules>, key: Seq<char>)
    requires
        forall|j: int| 0 <= j < fields.len() ==> fields[j].key@ != key,
    ensures
        field_index(fields, key) is None,
    decreases fields.len(),
{
    if fields.len() > 0 {
        lemma_field_absent(fields.drop_last(), key);
    }
}

/// The field a key names.
pub fn find_field(fields: &Vec<ConfigFieldRules>, key: &String) -> (r: Option<usize>)
    ensures
        match r {
            Some(i) => i < fields@.len() && field_index(fields@, key@) == Some(i as int),
            None => field_index(fields@, key@) is None,
        },
{
    let mut i: usize = 0;
    while i < fields.len()
        invariant
            0 <= i <= fields@.len(),
            forall|j: int| 0 <= j < i ==> fields@[j].key@ != key@,
        decreases fields@.len() - i,
    {
        if fields[i].key == *key {
            proof {
                lemma_field_index(fields@, key@, i as int);
            }
            return Some(i);
        }
        i = i + 1;
    }
    proof {
        lemma_field_absent(fields@, key@);
    }
    None
}

/// Some choice reads `v`.
pub open spec fn among(choices: Seq<String>, v: Seq<char>) -> bool {
    exists|i: int| 0 <= i < choices.len() && (#[trigger] choices[i])@ == v
}

/// What is wrong with a value for a field. A number field's verdict comes
/// from `number_check`; a text field counts characters (as a 32-bit count).
pub open spec fn value_problem(f: ConfigFieldRules, value: Seq<char>, number_check: Option<Seq<char>>) -> Option<
    Seq<char>,
> {
    let len = (value.len() as u32) as int;
    if f.kind == ConfigKind::String || f.kind == ConfigKind::Secret {
        if f.min_length is Some && len < f.min_length->Some_0 {
            Some("value shorter than min_length "@ + decimal(f.min_length->Some_0 as nat))
        } else if f.max_length is Some && len > f.max_length->Some_0 {
            Some("value longer than max_length "@ + decimal(f.max_length->Some_0 as nat))
        } else {
            None
        }
    } else if f.kind == ConfigKind::Number {
        number_check
    } else if f.kind == ConfigKind::Boolean {
        if value == "true"@ || value == "false"@ {
            None
        } else {
            Some("expected true/false, got "@ + value)
        }
    } else {
        if among(f.choices@, value) {
            None
        } else {
            Some("not in choices: "@ + value)
        }
    }
}

/// A boolean field takes exactly the two words `true` and `false`; anything
/// else is refused, and the refusal quotes the value.
pub proof fn law_boolean_field_takes_true_and_false(
    f: ConfigFieldRules,
    value: Seq<char>,
    number_check: Option<Seq<char>>,
)
    requires
        f.kind == ConfigKind::Boolean,
    ensures
        value_problem(f, value, number_check) is None <==> (value == seq!['t', 'r', 'u', 'e'] || value == seq![
            'f',
            'a',
            'l',
            's',
            'e',
        ]),
        value_problem(f, value, number_check) matches Some(e) ==> value.len() <= e.len() && e.subrange(
            e.len() - value.len(),
            e.len() as int,
        ) == value,
{
    reveal_strlit("true");
    reveal_strlit("false");
    assert("true"@ =~= seq!['t', 'r', 'u', 'e']);
    assert("false"@ =~= seq!['f', 'a', 'l', 's', 'e']);
    if let Some(e) = value_problem(f, value, number_check) {
        let pre = "expected true/false, got "@;
        assert(e == pre + value);
        assert(e.subrange(e.len() - value.len(), e.len() as int) =~= value);
    }
}

fn text_among(choices: &Vec<String>, v: &str) -> (r: bool)
    ensures
        r == among(choices@, v@),
{
    let mut i: usize = 0;
    while i < choices.len()
        invariant
            0 <= i <= choices@.len(),
            forall|j: int| 0 <= j < i ==> (#[trigger] choices@[j])@ != v@,
        decreases choices@.len() - i,
    {
        let c = choices[i].as_str();
        if str_eq(c, v) {
            return true;
        }
        i = i + 1;
    }
    false
}

/// Whether two strings hold the same characters.
pub fn str_eq(a: &str, b: &str) -> (r: bool)
    ensures
        r == (a@ == b@),
{
    let n = a.unicode_len();
    if n != b.unicode_len() {
        return false;
    }
    let mut i: usize = 0;
    while i < n
        invariant
            0 <= i <= n,
            n == a@.len(),
            n == b@.len(),
            forall|j: int| 0 <= j < i ==> a@[j] == b@[j],
        decreases n - i,
    {
        if a.get_char(i) != b.get_char(i) {
            return false;
        }
        i = i + 1;
    }
    assert(a@ =~= b@);
    true
}

/// Checks a value written to a configuration field.
pub fn validate_value(field: &ConfigFieldRules, value: &str, number_check: Option<String>) -> (r: Result<
    (),
    String,
>)
    ensures
        match r {
            Ok(()) => value_problem(*field, value@, match number_check {
                Some(s) => Some(s@),
                None => None,
            }) is None,
            Err(e) => value_problem(*field, value@, match number_check {
                Some(s) => Some(s@),
                None => None,
            }) == Some(e@),
        },
        field.kind == ConfigKind::Boolean ==> (r is Ok <==> (value@ == seq!['t', 'r', 'u', 'e'] || value@ == seq![
            'f',
            'a',
            'l',
            's',
            'e',
        ])),
{
    proof {
        if field.kind == ConfigKind::Boolean {
            law_boolean_field_takes_true_and_false(*field, value@, None);
        }
    }
    match field.kind {
        ConfigKind::String | ConfigKind::Secret => {
            let count = value.unicode_len();
            let len: u32 = #[verifier::truncate] (count as u32);
            if let Some(min) = field.min_length {
                if len < min {
                    let mut s = String::from_str("value shorter than min_length ");
                    push_decimal(&mut s, min as u64);
                    return Err(s);
                }
            }
            if let Some(max) = field.max_length {
                if len > max {
                    let mut s = String::from_str("value longer than max_length ");
                    push_decimal(&mut s, max as u64);
                    return Err(s);
                }
            }
            Ok(())
        },
        ConfigKind::Number => match number_check {
            Some(why) => Err(why),
            None => Ok(()),
        },
        ConfigKind::Boolean => {
            if str_eq(value, "true") || str_eq(value, "false") {
                Ok(())
            } else {
                Err(String::from_str("expected true/false, got ").concat(value))
            }
        },
        ConfigKind::Enum => {
            if text_among(&field.choices, value) {
                Ok(())
            } else {
                Err(String::from_str("not in choices: ").concat(value))
            }
        },
    }
}

/// Checks a configuration write: the webapp must be known, the key must name
/// one of its fields, and the value must suit the field.
pub fn check_config_set(
    registry: &WebappRegistry,
    id: u128,
    fields: &Vec<ConfigFieldRules>,
    key: &String,
    value: &str,
    number_check: Option<String>,
) -> (r: Result<(), WebappError>)
    requires
        registry.wf(),
    ensures
        !registry.view().contains_key(id) ==> (r matches Err(e) && not_found(e, id)),
        registry.view().contains_key(id) && field_index(fields@, key@) is None ==> (r matches Err(e)
            && e matches WebappError::UnknownConfigKey { key: k } && k@ == key@),
        registry.view().contains_key(id) && field_index(fields@, key@) is Some ==> {
            let verdict = value_problem(fields@[field_index(fields@, key@)->Some_0], value@, match number_check {
                Some(s) => Some(s@),
                None => None,
            });
            match verdict {
                None => r is Ok,
                Some(why) => r matches Err(e) && e matches WebappError::InvalidConfigValue { key: k, reason: w }
                    && k@ == key@ && w@ == why,
            }
        },
{
    require_known(registry, id)?;
    let i = match find_field(fields, key) {
        Some(i) => i,
        None => {
            return Err(WebappError::UnknownConfigKey { key: key.clone() });
        },
    };
    match validate_value(&fields[i], value, number_check) {
        Ok(()) => Ok(()),
        Err(reason) => Err(WebappError::InvalidConfigValue { key: key.clone(), reason }),
    }
}

/// What a configuration delete stores: the field's default when it has one
/// (the key is then written with it), else nothing (the key is cleared).
pub fn config_delete_value(
    registry: &WebappRegistry,
    id: u128,
    fields: &Vec<ConfigFieldRules>,
    key: &String,
) -> (r: Result<Option<String>, WebappError>)
    requires
        registry.wf(),
    ensures
        !registry.view().contains_key(id) ==> (r matches Err(e) && not_found(e, id)),
        registry.view().contains_key(id) && field_index(fields@, key@) is None ==> (r matches Err(e)
            && e matches WebappError::UnknownConfigKey { key: k } && k@ == key@),
        registry.view().contains_key(id) && field_index(fields@, key@) is Some ==> r == Ok::<
            Option<String>,
            WebappError,
        >(fields@[field_index(fields@, key@)->Some_0].default_storage),
{
    require_known(registry, id)?;
    match find_field(fields, key) {
        Some(i) => Ok(fields[i].default_storage.clone()),
        None => Err(WebappError::UnknownConfigKey { key: key.clone() }),
    }
}

/// Checks a document write: the webapp must be known and the value no
/// larger than the document cap (counted in UTF-8 bytes).
pub fn check_doc_set(registry: &WebappRegistry, id: u128, key: &String, value: &str) -> (r: Result<
    (),
    WebappError,
>)
    requires
        registry.wf(),
    ensures
        !registry.view().contains_key(id) ==> (r matches Err(e) && not_found(e, id)),
        registry.view().contains_key(id) && utf8_len(value@) > DOC_VALUE_MAX_BYTES ==> (r matches Err(e)
            && e matches WebappError::InvalidDocValue { key: k, reason: w } && k@ == key@ && w@
            == "value exceeds 262144 bytes"@),
        registry.view().contains_key(id) && utf8_len(value@) <= DOC_VALUE_MAX_BYTES ==> r is Ok,
{
    require_known(registry, id)?;
    if value.as_bytes().len() > DOC_VALUE_MAX_BYTES {
        return Err(
            WebappError::InvalidDocValue {
                key: key.clone(),
                reason: String::from_str("value exceeds 262144 bytes"),
            },
        );
    }
    Ok(())
}

/// The clients a change to a webapp's settings or documents is told to.
#[derive(Clone, Copy, Debug, PartialEq, Eq, Structural)]
pub enum ClientScope {
    ActiveWebapp,
    Overlay,
}

/// The scopes told of a change to `id`: the shown webapp's clients when it is
/// shown, then the overlay's clients when it is the overlay.
pub fn client_scopes_for(id: u128, active: Option<u128>, overlay: Option<u128>) -> (s: Vec<ClientScope>)
    ensures
        s@ == (if active == Some(id) {
            seq![ClientScope::ActiveWebapp]
        } else {
            Seq::empty()
        }) + (if overlay == Some(id) {
            seq![ClientScope::Overlay]
        } else {
            Seq::empty()
        }),
{
    let mut s: Vec<ClientScope> = Vec::new();
    if active == Some(id) {
        s.push(ClientScope::ActiveWebapp);
    }
    if overlay == Some(id) {
        s.push(ClientScope::Overlay);
    }
    assert(s@ =~= (if active == Some(id) {
        seq![ClientScope::ActiveWebapp]
    } else {
        Seq::empty()
    }) + (if overlay == Some(id) {
        seq![ClientScope::Overlay]
    } else {
        Seq::empty()
    }));
    s
}

/// Where the kiosk goes for the shown webapp: the hub address of its bundle
/// when it is the launcher and its bundle hash is known, else the home page.
pub fn navigate_url_for_active(active: Option<u128>, launcher: Option<u128>, bundle_hash: Option<String>) -> (u:
    String)
    ensures
        active is Some && launcher == active && bundle_hash is Some ==> u@ == KIOSK_HUB_URL_BASE@
            + bundle_hash->Some_0@ + "/"@,
        !(active is Some && launcher == active && bundle_hash is Some) ==> u@ == KIOSK_HOME_URL@,
{
    if active.is_none() || launcher != active {
        return String::from_str(KIOSK_HOME_URL);
    }
    match bundle_hash {
        Some(h) => String::from_str(KIOSK_HUB_URL_BASE).concat(h.as_str()).concat("/"),
        None => String::from_str(KIOSK_HOME_URL),
    }
}

/// The reply naming the shown webapp: its id, and its name when the registry
/// knows it.
pub fn active_payload(registry: &WebappRegistry, active: Option<u128>) -> (a: WebappActive)
    requires
        registry.wf(),
    ensures
        a.id == active,
        match active {
            Some(id) => if registry.view().contains_key(id) {
                a.name matches Some(n) && n@ == registry.view()[id].name@
            } else {
                a.name is None
            },
            None => a.name is None,
        },
{
    let name = match active {
        Some(id) => match registry.bundle(id) {
            Some(b) => Some(b.name.clone()),
            None => None,
        },
        None => None,
    };
    WebappActive { id: active, name }
}


/// Where the page scripts reach the daemon: its WebSocket on the modern port.
pub fn rotation_ws_url(modern_port: u16) -> (u: String)
    ensures
        u@ == "ws://127.0.0.1:"@ + decimal(modern_port as nat) + "/"@,
{
    let mut u = String::from_str("ws://127.0.0.1:");
    push_decimal(&mut u, modern_port as u64);
    u.append("/");
    u
}

/// Whether a webapp's manifest grants a permission.
pub fn grants_permission(permissions: &Vec<String>, permission: &str) -> (r: bool)
    ensures
        r == among(permissions@, permission@),
{
    text_among(permissions, permission)
}

/// Whether showing `next` drops the open tunnels: only when it is not the
/// webapp shown before.
pub fn switch_drops_tunnels(previous: Option<u128>, next: u128) -> (r: bool)
    ensures
        r == (previous != Some(next)),
{
    previous != Some(next)
}

} // verus!
