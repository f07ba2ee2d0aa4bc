//! What a webapp bundle must satisfy to be loaded or installed: manifest
//! checks, the extension a bundle declares, the size budget of an archive, and
//! the digests and ids the daemon writes as text.

use vstd::prelude::*;
use vstd::string::*;

use crate::companion::{ConfigKind, ExtensionInfo, WebappRole, WebappSource};
use crate::text::{chars_of, decimal, hex_char, hex_fixed, push_decimal, push_hex, trim_chars, trim_white_space};
use crate::webapps::{reserved, ReservedIds, WebappBundle, WebappError};

verus! {

/// The largest icon a bundle may ship.
pub const ICON_MAX_BYTES: u64 = 65536;

/// The largest settings page a bundle may ship.
pub const SETTINGS_MAX_BYTES: u64 = 1048576;

/// The largest overlay script a bundle may ship.
pub const OVERLAY_MAX_BYTES: u64 = 524288;

/// The most an archive may unpack to.
pub const EXTRACTED_SIZE_CAP_BYTES: u64 = 1073741824;

/// The extension contract this daemon speaks.
pub const EXTENSION_API_VERSION: u32 = 1;

/// An id written as a UUID is: 8, 4, 4, 4 and 12 lower case hexadecimal
/// digits joined by `-`.
pub open spec fn uuid_text(id: u128) -> Seq<char> {
    hex_fixed((id / 0x1_0000_0000_0000_0000_0000_0000) as nat, 8) + seq!['-'] + hex_fixed(
        (id / 0x1_0000_0000_0000_0000_0000) as nat,
        4,
    ) + seq!['-'] + hex_fixed((id / 0x1_0000_0000_0000_0000) as nat, 4) + seq!['-'] + hex_fixed(
        (id / 0x1_0000_0000_0000) as nat,
        4,
    ) + seq!['-'] + hex_fixed(id as nat, 12)
}

/// An id as a UUID is written (what `Uuid`'s `Display` writes).
pub fn uuid_string(id: u128) -> (s: String)
    ensures
        s@ == uuid_text(id),
{
    let mut s = String::new();
    push_hex(&mut s, id / 0x1_0000_0000_0000_0000_0000_0000, 8);
    s.push('-');
    push_hex(&mut s, id / 0x1_0000_0000_0000_0000_0000, 4);
    s.push('-');
    push_hex(&mut s, id / 0x1_0000_0000_0000_0000, 4);
    s.push('-');
    push_hex(&mut s, id / 0x1_0000_0000_0000, 4);
    s.push('-');
    push_hex(&mut s, id, 12);
    assert(s@ =~= uuid_text(id));
    s
}

/// The directory a bundle with the id is kept in: its 32 hexadecimal digits.
pub fn bundle_dir_name(id: u128) -> (s: String)
    ensures
        s@ == hex_fixed(id as nat, 32),
{
    let mut s = String::new();
    push_hex(&mut s, id, 32);
    assert(s@ =~= hex_fixed(id as nat, 32));
    s
}

/// Bytes written as lower case hexadecimal, two digits a byte.
pub open spec fn hex_bytes(b: Seq<u8>) -> Seq<char>
    decreases b.len(),
{
    if b.len() == 0 {
        Seq::empty()
    } else {
        hex_bytes(b.drop_last()) + seq![hex_char((b.last() / 16) as int), hex_char((b.last() % 16) as int)]
    }
}

/// Bytes as lower case hexadecimal.
pub fn hex_encode(bytes: &[u8]) -> (s: String)
    ensures
        s@ == hex_bytes(bytes@),
{
    let mut s = String::new();
    let mut i: usize = 0;
    while i < bytes.len()
        invariant
            0 <= i <= bytes@.len(),
            s@ == hex_bytes(bytes@.subrange(0, i as int)),
        decreases bytes@.len() - i,
    {
        let b = bytes[i];
        let ghost pre = bytes@.subrange(0, i as int);
        assert(bytes@.subrange(0, i + 1).drop_last() =~= pre);
        s.push(crate::text::digit_char(b / 16));
        s.push(crate::text::digit_char(b % 16));
        i = i + 1;
        assert(s@ =~= hex_bytes(bytes@.subrange(0, i as int)));
    }
    assert(bytes@.subrange(0, bytes@.len() as int) =~= bytes@);
    s
}

/// The SHA-256 digest of the bytes.
pub uninterp spec fn sha256_digest(bytes: Seq<u8>) -> Seq<u8>;

/// `sha2::Sha256::digest`: the 32-byte SHA-256 digest of the bytes. The
/// contract names the digest and states its length; the hash itself is not
/// restated.
#[verifier::external_body]
pub(crate) fn sha256(bytes: &[u8]) -> (d: Vec<u8>)
    ensures
        d@ == sha256_digest(bytes@),
        d@.len() == 32,
{
    <sha2::Sha256 as sha2::Digest>::digest(bytes).to_vec()
}

/// The SHA-256 digest of the bytes, as 64 lower case hexadecimal digits.
pub fn sha256_hex(bytes: &[u8]) -> (s: String)
    ensures
        s@ == hex_bytes(sha256_digest(bytes@)),
{
    let d = sha256(bytes);
    hex_encode(&d)
}

/// How a number field's default sits against its bounds.
#[derive(Clone, Copy, Debug, PartialEq, Eq, Structural)]
pub enum NumberDefault {
    /// No default, or one within the bounds.
    Fits,
    BelowMin,
    AboveMax,
}

/// What the manifest checks read of one configuration field.
#[derive(Clone, Debug, PartialEq, Eq)]
pub struct ConfigFieldFacts {
    pub kind: ConfigKind,
    pub key: String,
    pub choices: Vec<String>,
    pub enum_default: Option<String>,
    pub number_default: NumberDefault,
}

/// Some element of `s` reads `v`.
pub open spec fn has_text(s: Seq<String>, v: Seq<char>) -> bool {
    exists|i: int| 0 <= i < s.len() && (#[trigger] s[i])@ == v
}

/// What is wrong with a field, given the fields before it.
pub open spec fn field_error(before: Seq<ConfigFieldFacts>, f: ConfigFieldFacts) -> Option<Seq<char>> {
    let key = f.key@;
    if trim_white_space(key).len() == 0 {
        Some("config field key is empty"@)
    } else if exists|j: int| 0 <= j < before.len() && (#[trigger] before[j]).key@ == key {
        Some("duplicate config key '"@ + key + "'"@)
    } else if f.kind == ConfigKind::Number && f.number_default == NumberDefault::BelowMin {
        Some("default for '"@ + key + "' below min"@)
    } else if f.kind == ConfigKind::Number && f.number_default == NumberDefault::AboveMax {
        Some("default for '"@ + key + "' above max"@)
    } else if f.kind == ConfigKind::Enum && f.choices@.len() == 0 {
        Some("enum '"@ + key + "' has no choices"@)
    } else if f.kind == ConfigKind::Enum && f.enum_default is Some && !has_text(
        f.choices@,
        f.enum_default->Some_0@,
    ) {
        Some("default '"@ + f.enum_default->Some_0@ + "' for '"@ + key + "' not in choices"@)
    } else {
        None
    }
}

/// The first thing wrong with a list of configuration fields.
pub open spec fn config_error(fields: Seq<ConfigFieldFacts>) -> Option<Seq<char>>
    decreases fields.len(),
{
    if fields.len() == 0 {
        None
    } else {
        match config_error(fields.drop_last()) {
            Some(e) => Some(e),
            None => field_error(fields.drop_last(), fields.last()),
        }
    }
}

/// The first thing wrong with a manifest: a nil id, an empty name, an empty
/// version, then its configuration fields in order.
pub open spec fn manifest_error(id: u128, name: Seq<char>, version: Seq<char>, config: Seq<ConfigFieldFacts>) -> Option<
    Seq<char>,
> {
    if id == 0 {
        Some("manifest id is nil"@)
    } else if trim_white_space(name).len() == 0 {
        Some("manifest name is empty"@)
    } else if trim_white_space(version).len() == 0 {
        Some("manifest version is empty"@)
    } else {
        config_error(config)
    }
}

proof fn lemma_config_error_none_each(fields: Seq<ConfigFieldFacts>)
    requires
        config_error(fields) is None,
    ensures
        forall|i: int| 0 <= i < fields.len() ==> field_error(fields.subrange(0, i), #[trigger] fields[i]) is None,
    decreases fields.len(),
{
    if fields.len() > 0 {
        let init = fields.drop_last();
        lemma_config_error_none_each(init);
        assert forall|i: int| 0 <= i < fields.len() implies field_error(fields.subrange(0, i), #[trigger] fields[i])
            is None by {
            if i < init.len() {
                assert(fields.subrange(0, i) =~= init.subrange(0, i));
                assert(fields[i] == init[i]);
            } else {
                assert(fields.subrange(0, i) =~= init);
            }
        }
    }
}

/// A manifest that passes declares no number field whose default lies outside
/// its bounds.
pub proof fn law_accepted_number_defaults_fit(
    id: u128,
    name: Seq<char>,
    version: Seq<char>,
    config: Seq<ConfigFieldFacts>,
)
    requires
        manifest_error(id, name, version, config) is None,
    ensures
        forall|i: int|
            0 <= i < config.len() && (#[trigger] config[i]).kind == ConfigKind::Number ==> config[i].number_default
                == NumberDefault::Fits,
{
    lemma_config_error_none_each(config);
    assert forall|i: int| 0 <= i < config.len() && (#[trigger] config[i]).kind == ConfigKind::Number implies config[i].number_default
        == NumberDefault::Fits by {
        assert(field_error(config.subrange(0, i), config[i]) is None);
    }
}

/// A number field whose default lies outside its bounds, in a manifest with
/// nothing wrong before it and a fresh, non-blank key, is what the manifest
/// is refused for, and the refusal names the key and the bound it broke.
pub proof fn law_number_default_out_of_bounds_is_refused(
    id: u128,
    name: Seq<char>,
    version: Seq<char>,
    before: Seq<ConfigFieldFacts>,
    f: ConfigFieldFacts,
)
    requires
        manifest_error(id, name, version, before) is None,
        trim_white_space(f.key@).len() > 0,
        forall|j: int| 0 <= j < before.len() ==> (#[trigger] before[j]).key@ != f.key@,
        f.kind == ConfigKind::Number,
        f.number_default != NumberDefault::Fits,
    ensures
        manifest_error(id, name, version, before.push(f)) == Some(
            if f.number_default == NumberDefault::AboveMax {
                "default for '"@ + f.key@ + "' above max"@
            } else {
                "default for '"@ + f.key@ + "' below min"@
            },
        ),
        manifest_error(id, name, version, before.push(f)) is Some,
{
    assert(before.push(f).drop_last() =~= before);
    assert(before.push(f).last() == f);
}

fn text_in(list: &Vec<String>, v: &String) -> (r: bool)
    ensures
        r == has_text(list@, v@),
{
    let mut i: usize = 0;
    while i < list.len()
        invariant
            0 <= i <= list@.len(),
            forall|j: int| 0 <= j < i ==> (#[trigger] list@[j])@ != v@,
        decreases list@.len() - i,
    {
        if list[i] == *v {
            return true;
        }
        i = i + 1;
    }
    false
}

fn quoted(before: &str, v: &String, after: &str) -> (s: String)
    ensures
        s@ == before@ + v@ + after@,
{
    String::from_str(before).concat(v.as_str()).concat(after)
}

fn check_field(fields: &Vec<ConfigFieldFacts>, i: usize) -> (r: Option<String>)
    requires
        i < fields@.len(),
    ensures
        match r {
            Some(e) => field_error(fields@.subrange(0, i as int), fields@[i as int]) == Some(e@),
            None => field_error(fields@.subrange(0, i as int), fields@[i as int]) is None,
        },
{
    let f = &fields[i];
    let ghost before = fields@.subrange(0, i as int);
    let key_chars = chars_of(f.key.as_str());
    if trim_chars(&key_chars).len() == 0 {
        return Some(String::from_str("config field key is empty"));
    }
    let mut j: usize = 0;
    while j < i
        invariant
            0 <= j <= i,
            i < fields@.len(),
            before == fields@.subrange(0, i as int),
            trim_white_space(fields@[i as int].key@).len() != 0,
            forall|q: int| 0 <= q < j ==> (#[trigger] before[q]).key@ != fields@[i as int].key@,
        decreases i - j,
    {
        if fields[j].key == fields[i].key {
            assert(before[j as int] == fields@[j as int]);
            return Some(quoted("duplicate config key '", &fields[i].key, "'"));
        }
        j = j + 1;
    }
    match f.kind {
        ConfigKind::Number => {
            match f.number_default {
                NumberDefault::BelowMin => {
                    return Some(quoted("default for '", &f.key, "' below min"));
                },
                NumberDefault::AboveMax => {
                    return Some(quoted("default for '", &f.key, "' above max"));
                },
                NumberDefault::Fits => {},
            }
        },
        ConfigKind::Enum => {
            if f.choices.len() == 0 {
                return Some(quoted("enum '", &f.key, "' has no choices"));
            }
            if let Some(d) = &f.enum_default {
                if !text_in(&f.choices, d) {
                    let s = String::from_str("default '").concat(d.as_str()).concat("' for '").concat(
                        f.key.as_str(),
                    ).concat("' not in choices");
                    return Some(s);
                }
            }
        },
        _ => {},
    }
    None
}

/// Checks a manifest; gives the first thing wrong with it.
pub fn validate_manifest(id: u128, name: &str, version: &str, config: &Vec<ConfigFieldFacts>) -> (r: Result<
    (),
    String,
>)
    ensures
        match r {
            Ok(()) => manifest_error(id, name@, version@, config@) is None,
            Err(e) => manifest_error(id, name@, version@, config@) == Some(e@),
        },
        r is Ok ==> forall|i: int|
            0 <= i < config@.len() && (#[trigger] config@[i]).kind == ConfigKind::Number ==> config@[i].number_default
                == NumberDefault::Fits,
{
    if id == 0 {
        return Err(String::from_str("manifest id is nil"));
    }
    let name_chars = chars_of(name);
    if trim_chars(&name_chars).len() == 0 {
        return Err(String::from_str("manifest name is empty"));
    }
    let version_chars = chars_of(version);
    if trim_chars(&version_chars).len() == 0 {
        return Err(String::from_str("manifest version is empty"));
    }
    let mut i: usize = 0;
    assert(config@.subrange(0, 0) =~= Seq::<ConfigFieldFacts>::empty());
    while i < config.len()
        invariant
            0 <= i <= config@.len(),
            id != 0,
            trim_white_space(name@).len() != 0,
            trim_white_space(version@).len() != 0,
            config_error(config@.subrange(0, i as int)) is None,
        decreases config@.len() - i,
    {
        let ghost pre = config@.subrange(0, i as int);
        assert(config@.subrange(0, i + 1).drop_last() =~= pre);
        assert(config@.subrange(0, i + 1).last() == config@[i as int]);
        match check_field(config, i) {
            Some(e) => {
                assert(config@.subrange(0, config@.len() as int) =~= config@);
                proof {
                    lemma_config_error_prefix(config@, i as int + 1);
                }
                return Err(e);
            },
            None => {},
        }
        i = i + 1;
    }
    assert(config@.subrange(0, config@.len() as int) =~= config@);
    proof {
        law_accepted_number_defaults_fit(id, name@, version@, config@);
    }
    Ok(())
}

proof fn lemma_config_error_prefix(fields: Seq<ConfigFieldFacts>, n: int)
    requires
        0 <= n <= fields.len(),
        config_error(fields.subrange(0, n)) is Some,
    ensures
        config_error(fields) == config_error(fields.subrange(0, n)),
    decreases fields.len() - n,
{
    if n < fields.len() {
        assert(fields.subrange(0, n + 1).drop_last() =~= fields.subrange(0, n));
        lemma_config_error_prefix(fields, n + 1);
    } else {
        assert(fields.subrange(0, n) =~= fields);
    }
}

/// Why a declared extension is unusable, checked in order: a different api
/// version, an entry that climbs out of the bundle, an entry that is not a
/// file, an entry that resolves outside the bundle.
pub open spec fn extension_problem(
    api: u32,
    entry: Seq<char>,
    contained: bool,
    is_file: bool,
    resolves_inside: bool,
) -> Option<Seq<char>> {
    if api != EXTENSION_API_VERSION {
        Some("declares api "@ + decimal(api as nat) + " (this daemon speaks "@ + decimal(
            EXTENSION_API_VERSION as nat,
        ) + ")"@)
    } else if !contained {
        Some("entry '"@ + entry + "' climbs out of the bundle"@)
    } else if !is_file {
        Some("entry '"@ + entry + "' is not a file in the bundle"@)
    } else if !resolves_inside {
        Some("entry '"@ + entry + "' resolves outside the bundle"@)
    } else {
        None
    }
}

/// Why a declared extension is unusable, or `None` when it checks out.
/// `contained` tells whether the entry stays inside the bundle by name,
/// `is_file` whether it is a file there, and `resolves_inside` whether its
/// canonical path lies under the bundle's.
pub fn extension_rejection(api: u32, entry: &str, contained: bool, is_file: bool, resolves_inside: bool) -> (r:
    Option<String>)
    ensures
        match r {
            Some(s) => extension_problem(api, entry@, contained, is_file, resolves_inside) == Some(s@),
            None => extension_problem(api, entry@, contained, is_file, resolves_inside) is None,
        },
{
    if api != EXTENSION_API_VERSION {
        let mut s = String::from_str("declares api ");
        push_decimal(&mut s, api as u64);
        s.append(" (this daemon speaks ");
        push_decimal(&mut s, EXTENSION_API_VERSION as u64);
        s.append(")");
        return Some(s);
    }
    if !contained {
        return Some(String::from_str("entry '").concat(entry).concat("' climbs out of the bundle"));
    }
    if !is_file {
        return Some(String::from_str("entry '").concat(entry).concat("' is not a file in the bundle"));
    }
    if !resolves_inside {
        return Some(String::from_str("entry '").concat(entry).concat("' resolves outside the bundle"));
    }
    None
}

/// How many bytes the UTF-8 encoding of `s` takes.
pub open spec fn utf8_len(s: Seq<char>) -> nat {
    vstd::utf8::encode_utf8(s).len()
}

/// Refuses a provenance note longer than `max_len` bytes.
pub fn check_provenance(provenance: &Option<String>, max_len: u32) -> (r: Result<(), WebappError>)
    ensures
        match provenance {
            Some(p) => utf8_len(p@) > max_len ==> r == Err::<(), WebappError>(
                WebappError::ProvenanceTooLong { max_bytes: max_len },
            ),
            None => true,
        },
        r is Ok <==> match provenance {
            Some(p) => utf8_len(p@) <= max_len,
            None => true,
        },
{
    match provenance {
        Some(p) => {
            if p.as_str().as_bytes().len() > max_len as usize {
                Err(WebappError::ProvenanceTooLong { max_bytes: max_len })
            } else {
                Ok(())
            }
        },
        None => Ok(()),
    }
}

/// The text an error's reason holds, when it has one.
pub open spec fn reason_of(e: WebappError) -> Seq<char> {
    match e {
        WebappError::InvalidManifest { reason } => reason@,
        WebappError::ZipMalformed { reason } => reason@,
        WebappError::Internal { reason } => reason@,
        WebappError::IdReserved { id } => id@,
        _ => Seq::empty(),
    }
}

/// Checks an unpacked archive before it is moved into place, in order: it
/// must look like a bundle, load with a non-nil id, not claim a reserved id,
/// back the settings page and overlay it declares, and back the extension it
/// declares (`extension` is the reason a declared extension is unusable).
pub fn check_staged(
    reserved_ids: &ReservedIds,
    valid_layout: bool,
    bundle: &Option<WebappBundle>,
    settings_declared: bool,
    overlay_declared: bool,
    extension: Option<String>,
) -> (r: Result<(), WebappError>)
    ensures
        !valid_layout ==> r == Err::<(), WebappError>(WebappError::MissingIndexHtml),
        valid_layout && (bundle is None || bundle->Some_0.id == 0) ==> (r matches Err(e) && e is InvalidManifest
            && reason_of(e) == "the bundle manifest is missing or invalid, or the bundle has no app entry and no overlay"@),
        valid_layout && bundle is Some && bundle->Some_0.id != 0 ==> {
            let b = bundle->Some_0;
            if reserved(*reserved_ids, b.id) {
                r matches Err(e) && e is IdReserved && reason_of(e) == uuid_text(b.id)
            } else if settings_declared && b.settings_hash is None {
                r matches Err(e) && e is InvalidManifest && reason_of(e)
                    == "declared settings page is missing or exceeds 1048576 bytes"@
            } else if overlay_declared && b.overlay_hash is None {
                r matches Err(e) && e is InvalidManifest && reason_of(e)
                    == "declared overlay is missing or exceeds 524288 bytes"@
            } else if extension is Some {
                r matches Err(e) && e is InvalidManifest && reason_of(e) == "declared extension "@
                    + extension->Some_0@
            } else {
                r is Ok
            }
        },
{
    if !valid_layout {
        return Err(WebappError::MissingIndexHtml);
    }
    let b = match bundle {
        Some(b) if b.id != 0 => b,
        _ => {
            return Err(
                WebappError::InvalidManifest {
                    reason: String::from_str(
                        "the bundle manifest is missing or invalid, or the bundle has no app entry and no overlay",
                    ),
                },
            );
        },
    };
    if reserved_ids.is_reserved(b.id) {
        return Err(WebappError::IdReserved { id: uuid_string(b.id) });
    }
    if settings_declared && b.settings_hash.is_none() {
        return Err(
            WebappError::InvalidManifest {
                reason: String::from_str("declared settings page is missing or exceeds 1048576 bytes"),
            },
        );
    }
    if overlay_declared && b.overlay_hash.is_none() {
        return Err(
            WebappError::InvalidManifest {
                reason: String::from_str("declared overlay is missing or exceeds 524288 bytes"),
            },
        );
    }
    match extension {
        Some(why) => Err(
            WebappError::InvalidManifest {
                reason: String::from_str("declared extension ").concat(why.as_str()),
            },
        ),
        None => Ok(()),
    }
}

/// What the extracted-size cap is reported as.
pub open spec fn extracted_cap_report() -> u32 {
    EXTRACTED_SIZE_CAP_BYTES as u32
}

/// Admits one archive entry of `declared` bytes after `total` bytes were
/// unpacked: the running total (saturating) may not pass the cap.
pub fn admit_entry(total: u64, declared: u64) -> (r: Result<u64, WebappError>)
    ensures
        total + declared > EXTRACTED_SIZE_CAP_BYTES ==> r == Err::<u64, WebappError>(
            WebappError::ExtractedTooLarge { max_bytes: extracted_cap_report() },
        ),
        total + declared <= EXTRACTED_SIZE_CAP_BYTES ==> r == Ok::<u64, WebappError>((total + declared) as u64),
{
    let prospective = total.saturating_add(declared);
    if prospective > EXTRACTED_SIZE_CAP_BYTES {
        Err(WebappError::ExtractedTooLarge { max_bytes: 1073741824 })
    } else {
        Ok(prospective)
    }
}

/// The reason an entry that unpacked to another size than the archive
/// declared is refused.
pub open spec fn size_mismatch_text(index: u64, declared: u64, copied: u64) -> Seq<char> {
    "entry "@ + decimal(index as nat) + " size mismatch: CD says "@ + decimal(declared as nat)
        + ", decompressed "@ + decimal(copied as nat)
}

/// Refuses an entry that unpacked to another size than it declared.
pub fn check_entry_size(index: u64, declared: u64, copied: u64) -> (r: Result<(), WebappError>)
    ensures
        copied == declared ==> r is Ok,
        copied != declared ==> (r matches Err(e) && e is ZipMalformed && reason_of(e) == size_mismatch_text(
            index,
            declared,
            copied,
        )),
{
    if copied == declared {
        return Ok(());
    }
    let mut s = String::from_str("entry ");
    push_decimal(&mut s, index);
    s.append(" size mismatch: CD says ");
    push_decimal(&mut s, declared);
    s.append(", decompressed ");
    push_decimal(&mut s, copied);
    Err(WebappError::ZipMalformed { reason: s })
}

/// Whether a file of `len` bytes may be hashed as a bundle part capped at
/// `cap`: it must be a file no larger than the cap.
pub fn within_cap(is_file: bool, len: u64, cap: u64) -> (r: bool)
    ensures
        r == (is_file && len <= cap),
{
    is_file && len <= cap
}

/// A scanned bundle as the registry keeps it, or `None` when it has neither a
/// page nor a usable overlay. A declared extension is kept only when nothing
/// is wrong with it (`extension` pairs what it declares with the reason it is
/// unusable, if any).
pub fn assemble_bundle(
    path: String,
    source: WebappSource,
    id: u128,
    name: String,
    version: String,
    role: WebappRole,
    description: Option<String>,
    icon: Option<(String, String)>,
    settings_hash: Option<String>,
    overlay_hash: Option<String>,
    has_app_entry: bool,
    extension: Option<(ExtensionInfo, Option<String>)>,
) -> (r: Option<WebappBundle>)
    ensures
        !has_app_entry && overlay_hash is None ==> r is None,
        has_app_entry || overlay_hash is Some ==> r == Some(
            WebappBundle {
                path: path,
                source: source,
                id: id,
                name: name,
                version: version,
                role: role,
                description: description,
                icon_mime: match icon {
                    Some(i) => Some(i.0),
                    None => None,
                },
                icon_hash: match icon {
                    Some(i) => Some(i.1),
                    None => None,
                },
                settings_hash: settings_hash,
                overlay_hash: overlay_hash,
                has_app_entry: has_app_entry,
                extension: match extension {
                    Some(e) => if e.1 is None {
                        Some(e.0)
                    } else {
                        None
                    },
                    None => None,
                },
                provenance: None,
            },
        ),
{
    if !has_app_entry && overlay_hash.is_none() {
        return None;
    }
    let (icon_mime, icon_hash) = match icon {
        Some((mime, hash)) => (Some(mime), Some(hash)),
        None => (None, None),
    };
    let extension = match extension {
        Some((info, None)) => Some(info),
        _ => None,
    };
    Some(
        WebappBundle {
            path,
            source,
            id,
            name,
            version,
            role,
            description,
            icon_mime,
            icon_hash,
            settings_hash,
            overlay_hash,
            has_app_entry,
            extension,
            provenance: None,
        },
    )
}

} // verus!
