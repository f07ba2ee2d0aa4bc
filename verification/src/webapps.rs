//! The registry of webapp bundles the daemon knows: builtins from the system
//! image and bundles the user installed, which builtins the user hid, and the
//! answers the rest of the daemon asks of it.

use vstd::prelude::*;
use vstd::string::*;

use crate::companion::{ExtensionInfo, WebappRole, WebappSource};
use crate::names::{normalize_webapp_name, normalized_name};
use crate::text::{chars_of, hex_fixed, push_hex};

verus! {

/// What a webapp request can be refused with.
#[derive(Clone, Debug, PartialEq, Eq)]
pub enum WebappError {
    WebappNotFound { id: String },
    MissingIndexHtml,
    CannotUninstallBuiltin { id: String },
    ResourceNotAvailable { id: String },
    Internal { reason: String },
    NotALauncher { id: String },
    NoOverlay { id: String },
    UnknownConfigKey { key: String },
    InvalidConfigValue { key: String, reason: String },
    InvalidDocValue { key: String, reason: String },
    ProvenanceTooLong { max_bytes: u32 },
    InvalidManifest { reason: String },
    IdReserved { id: String },
    ZipMalformed { reason: String },
    ExtractedTooLarge { max_bytes: u32 },
}

/// The ids the system image reserves for its own webapps.
#[derive(Clone, Copy, Debug, PartialEq, Eq, Structural)]
pub struct ReservedIds {
    pub stock: u128,
    pub hub: u128,
    pub browser: u128,
}

/// `id` is one of the reserved ids.
pub open spec fn reserved(r: ReservedIds, id: u128) -> bool {
    id == r.stock || id == r.hub || id == r.browser
}

/// The stock app, the hub and the browser are each reserved, and no other id
/// is.
pub proof fn law_the_three_builtins_are_reserved(r: ReservedIds, id: u128)
    ensures
        reserved(r, r.stock),
        reserved(r, r.hub),
        reserved(r, r.browser),
        id != r.stock && id != r.hub && id != r.browser ==> !reserved(r, id),
{
}

impl ReservedIds {
    /// Whether `id` is reserved.
    pub fn is_reserved(&self, id: u128) -> (b: bool)
        ensures
            b == reserved(*self, id),
            b == (id == self.stock || id == self.hub || id == self.browser),
    {
        id == self.stock || id == self.hub || id == self.browser
    }
}

/// What the registry holds of one webapp bundle.
#[derive(Clone, Debug, PartialEq, Eq)]
pub struct WebappBundle {
    pub path: String,
    pub source: WebappSource,
    pub id: u128,
    pub name: String,
    pub version: String,
    pub role: WebappRole,
    pub description: Option<String>,
    pub icon_mime: Option<String>,
    pub icon_hash: Option<String>,
    pub settings_hash: Option<String>,
    pub overlay_hash: Option<String>,
    pub has_app_entry: bool,
    pub extension: Option<ExtensionInfo>,
    pub provenance: Option<String>,
}

/// No id appears twice.
pub open spec fn unique_ids(s: Seq<WebappBundle>) -> bool {
    forall|i: int, j: int| 0 <= i < s.len() && 0 <= j < s.len() && i != j ==> s[i].id != s[j].id
}

/// The map a list of bundles with unique ids spells.
pub open spec fn bundles_map(s: Seq<WebappBundle>) -> Map<u128, WebappBundle> {
    Map::new(
        |k: u128| exists|i: int| 0 <= i < s.len() && s[i].id == k,
        |k: u128| s[choose|i: int| 0 <= i < s.len() && s[i].id == k],
    )
}

proof fn lemma_bundles_at(s: Seq<WebappBundle>, i: int)
    requires
        unique_ids(s),
        0 <= i < s.len(),
    ensures
        bundles_map(s).contains_key(s[i].id),
        bundles_map(s)[s[i].id] == s[i],
{
    let k = s[i].id;
    assert(exists|j: int| 0 <= j < s.len() && s[j].id == k);
    let j = choose|j: int| 0 <= j < s.len() && s[j].id == k;
    assert(j == i);
}

proof fn lemma_bundles_push(s: Seq<WebappBundle>, e: WebappBundle)
    requires
        unique_ids(s),
        !bundles_map(s).contains_key(e.id),
    ensures
        unique_ids(s.push(e)),
        bundles_map(s.push(e)) =~= bundles_map(s).insert(e.id, e),
{
    let t = s.push(e);
    assert forall|i: int, j: int| 0 <= i < t.len() && 0 <= j < t.len() && i != j implies t[i].id
        != t[j].id by {
        if i < s.len() && j < s.len() {
        } else if i == s.len() {
            assert(t[j] == s[j]);
            if s[j].id == e.id {
                assert(bundles_map(s).contains_key(e.id));
            }
        } else {
            assert(t[i] == s[i]);
            if s[i].id == e.id {
                assert(bundles_map(s).contains_key(e.id));
            }
        }
    }
    assert forall|k: u128| #[trigger] bundles_map(t).contains_key(k) == bundles_map(s).insert(
        e.id,
        e,
    ).contains_key(k) by {
        if bundles_map(s).contains_key(k) {
            let j = choose|j: int| 0 <= j < s.len() && s[j].id == k;
            assert(t[j] == s[j]);
        }
        if k == e.id {
            assert(t[s.len() as int] == e);
        }
    }
    assert forall|k: u128| #[trigger] bundles_map(t).contains_key(k) implies bundles_map(t)[k]
        == bundles_map(s).insert(e.id, e)[k] by {
        let j = choose|j: int| 0 <= j < t.len() && t[j].id == k;
        lemma_bundles_at(t, j);
        if j < s.len() {
            assert(t[j] == s[j]);
            lemma_bundles_at(s, j);
        }
    }
}

proof fn lemma_bundles_remove(s: Seq<WebappBundle>, i: int)
    requires
        unique_ids(s),
        0 <= i < s.len(),
    ensures
        unique_ids(s.remove(i)),
        bundles_map(s.remove(i)) =~= bundles_map(s).remove(s[i].id),
{
    let t = s.remove(i);
    let gone = s[i].id;
    assert forall|p: int, q: int| 0 <= p < t.len() && 0 <= q < t.len() && p != q implies t[p].id
        != t[q].id by {
        let pp = if p < i {
            p
        } else {
            p + 1
        };
        let qq = if q < i {
            q
        } else {
            q + 1
        };
        assert(t[p] == s[pp]);
        assert(t[q] == s[qq]);
    }
    assert forall|k: u128| #[trigger] bundles_map(t).contains_key(k) == bundles_map(s).remove(
        gone,
    ).contains_key(k) by {
        if bundles_map(t).contains_key(k) {
            let j = choose|j: int| 0 <= j < t.len() && t[j].id == k;
            let jj = if j < i {
                j
            } else {
                j + 1
            };
            assert(t[j] == s[jj]);
            lemma_bundles_at(s, jj);
        }
        if bundles_map(s).contains_key(k) && k != gone {
            let j = choose|j: int| 0 <= j < s.len() && s[j].id == k;
            let jj = if j < i {
                j
            } else {
                j - 1
            };
            assert(t[jj] == s[j]);
        }
    }
    assert forall|k: u128| #[trigger] bundles_map(t).contains_key(k) implies bundles_map(t)[k]
        == bundles_map(s)[k] by {
        let j = choose|j: int| 0 <= j < t.len() && t[j].id == k;
        lemma_bundles_at(t, j);
        let jj = if j < i {
            j
        } else {
            j + 1
        };
        assert(t[j] == s[jj]);
        lemma_bundles_at(s, jj);
    }
}

/// No id appears twice in a list of ids.
pub open spec fn distinct(s: Seq<u128>) -> bool {
    forall|i: int, j: int| 0 <= i < s.len() && 0 <= j < s.len() && i != j ==> s[i] != s[j]
}

/// The registry of known bundles and of the builtins the user uninstalled.
pub struct WebappRegistry {
    reserved: ReservedIds,
    bundles: Vec<WebappBundle>,
    tombstones: Vec<u128>,
}

/// What uninstalling a webapp comes to.
#[derive(Clone, Debug, PartialEq, Eq)]
pub enum Uninstall {
    /// No bundle has the id; nothing changes.
    Unknown,
    /// An installed bundle: its directory is to be deleted and its provenance
    /// cleared, after which the registry is rescanned.
    DeleteInstalled { path: String },
    /// A builtin: its id is tombstoned and the bundle hidden.
    Tombstoned,
    /// A reserved builtin, which is never uninstalled; nothing changes.
    Refused,
}

impl Uninstall {
    /// Whether the webapp is gone once the outcome is carried out.
    pub fn removed(&self) -> (b: bool)
        ensures
            b == (*self is DeleteInstalled || *self is Tombstoned),
    {
        match self {
            Uninstall::DeleteInstalled { .. } => true,
            Uninstall::Tombstoned => true,
            _ => false,
        }
    }
}

impl WebappRegistry {
    /// Bundle ids and tombstones each occur once.
    pub closed spec fn wf(&self) -> bool {
        unique_ids(self.bundles@) && distinct(self.tombstones@)
    }

    /// The known bundles, by id.
    pub closed spec fn view(&self) -> Map<u128, WebappBundle> {
        bundles_map(self.bundles@)
    }

    /// The builtins the user uninstalled.
    pub closed spec fn tombstones(&self) -> Set<u128> {
        self.tombstones@.to_set()
    }

    /// The reserved ids the registry was made with.
    pub closed spec fn reserved_ids(&self) -> ReservedIds {
        self.reserved
    }

    /// The reserved ids the registry was made with.
    pub fn reserved_id_set(&self) -> (r: ReservedIds)
        ensures
            r == self.reserved_ids(),
    {
        self.reserved
    }

    /// A registry with no bundles yet, and the tombstones read back from disk
    /// (each id once, however often it was listed).
    pub fn new(reserved: ReservedIds, tombstones: &[u128]) -> (r: WebappRegistry)
        ensures
            r.wf(),
            r.view() == Map::<u128, WebappBundle>::empty(),
            r.tombstones() == tombstones@.to_set(),
            r.reserved_ids() == reserved,
    {
        let mut kept: Vec<u128> = Vec::new();
        let mut i: usize = 0;
        while i < tombstones.len()
            invariant
                0 <= i <= tombstones@.len(),
                distinct(kept@),
                kept@.to_set() == tombstones@.subrange(0, i as int).to_set(),
            decreases tombstones@.len() - i,
        {
            let id = tombstones[i];
            let ghost pre = tombstones@.subrange(0, i as int);
            assert(tombstones@.subrange(0, i + 1) =~= pre.push(id));
            proof {
                pre.lemma_push_to_set_commute(id);
            }
            if !contains_id(&kept, id) {
                let ghost k = kept@;
                kept.push(id);
                proof {
                    k.lemma_push_to_set_commute(id);
                }
            } else {
                assert(kept@.to_set().insert(id) =~= kept@.to_set());
            }
            i = i + 1;
        }
        assert(tombstones@.subrange(0, tombstones@.len() as int) =~= tombstones@);
        let r = WebappRegistry { reserved, bundles: Vec::new(), tombstones: kept };
        assert(r.view() =~= Map::<u128, WebappBundle>::empty());
        r
    }

    fn find(&self, id: u128) -> (r: Option<usize>)
        requires
            self.wf(),
        ensures
            match r {
                Some(i) => i < self.bundles@.len() && self.bundles@[i as int].id == id,
                None => !self.view().contains_key(id),
            },
    {
        let mut i: usize = 0;
        while i < self.bundles.len()
            invariant
                0 <= i <= self.bundles@.len(),
                forall|k: int| 0 <= k < i ==> self.bundles@[k].id != id,
            decreases self.bundles@.len() - i,
        {
            if self.bundles[i].id == id {
                return Some(i);
            }
            i = i + 1;
        }
        None
    }

    /// The bundle with the id, if the registry knows one.
    pub fn bundle(&self, id: u128) -> (r: Option<&WebappBundle>)
        requires
            self.wf(),
        ensures
            match r {
                Some(b) => self.view().contains_key(id) && self.view()[id] == *b,
                None => !self.view().contains_key(id),
            },
    {
        match self.find(id) {
            Some(i) => {
                proof {
                    lemma_bundles_at(self.bundles@, i as int);
                }
                Some(&self.bundles[i])
            },
            None => None,
        }
    }

    /// Where the bundle with the id lies on disk.
    pub fn resolve(&self, id: u128) -> (r: Option<String>)
        requires
            self.wf(),
        ensures
            match r {
                Some(p) => self.view().contains_key(id) && self.view()[id].path == p,
                None => !self.view().contains_key(id),
            },
    {
        match self.bundle(id) {
            Some(b) => Some(b.path.clone()),
            None => None,
        }
    }

    /// Whether the id belongs to a builtin bundle.
    pub fn is_builtin(&self, id: u128) -> (r: bool)
        requires
            self.wf(),
        ensures
            r == (self.view().contains_key(id) && self.view()[id].source == WebappSource::Builtin),
    {
        match self.bundle(id) {
            Some(b) => b.source == WebappSource::Builtin,
            None => false,
        }
    }

    /// Whether the bundle with the id has a page to show.
    pub fn has_app_entry(&self, id: u128) -> (r: bool)
        requires
            self.wf(),
        ensures
            r == (self.view().contains_key(id) && self.view()[id].has_app_entry),
    {
        match self.bundle(id) {
            Some(b) => b.has_app_entry,
            None => false,
        }
    }

    /// Whether the bundle with the id is a launcher with a page to show.
    pub fn is_launcher(&self, id: u128) -> (r: bool)
        requires
            self.wf(),
        ensures
            r == (self.view().contains_key(id) && self.view()[id].has_app_entry && self.view()[id].role
                == WebappRole::Launcher),
    {
        match self.bundle(id) {
            Some(b) => b.has_app_entry && b.role == WebappRole::Launcher,
            None => false,
        }
    }

    /// Whether the bundle with the id ships a usable overlay.
    pub fn provides_overlay(&self, id: u128) -> (r: bool)
        requires
            self.wf(),
        ensures
            r == (self.view().contains_key(id) && self.view()[id].overlay_hash is Some),
    {
        match self.bundle(id) {
            Some(b) => b.overlay_hash.is_some(),
            None => false,
        }
    }

    /// The webapp shown when none is chosen: the hub when present, else the
    /// stock webapp when present, else some builtin, else none.
    pub fn default_id(&self) -> (r: Option<u128>)
        requires
            self.wf(),
        ensures
            self.view().contains_key(self.reserved_ids().hub) ==> r == Some(self.reserved_ids().hub),
            !self.view().contains_key(self.reserved_ids().hub) && self.view().contains_key(
                self.reserved_ids().stock,
            ) ==> r == Some(self.reserved_ids().stock),
            !self.view().contains_key(self.reserved_ids().hub) && !self.view().contains_key(
                self.reserved_ids().stock,
            ) ==> match r {
                Some(id) => self.view().contains_key(id) && self.view()[id].source
                    == WebappSource::Builtin,
                None => forall|id: u128| #[trigger]
                    self.view().contains_key(id) ==> self.view()[id].source != WebappSource::Builtin,
            },
    {
        if self.find(self.reserved.hub).is_some() {
            return Some(self.reserved.hub);
        }
        if self.find(self.reserved.stock).is_some() {
            return Some(self.reserved.stock);
        }
        let mut i: usize = 0;
        while i < self.bundles.len()
            invariant
                0 <= i <= self.bundles@.len(),
                unique_ids(self.bundles@),
                !bundles_map(self.bundles@).contains_key(self.reserved.hub),
                !bundles_map(self.bundles@).contains_key(self.reserved.stock),
                forall|k: int| 0 <= k < i ==> self.bundles@[k].source != WebappSource::Builtin,
            decreases self.bundles@.len() - i,
        {
            if self.bundles[i].source == WebappSource::Builtin {
                proof {
                    lemma_bundles_at(self.bundles@, i as int);
                }
                return Some(self.bundles[i].id);
            }
            i = i + 1;
        }
        assert forall|id: u128| #[trigger] self.view().contains_key(id) implies self.view()[id].source
            != WebappSource::Builtin by {
            let k = choose|k: int| 0 <= k < self.bundles@.len() && self.bundles@[k].id == id;
            lemma_bundles_at(self.bundles@, k);
        }
        None
    }

    /// Uninstalls the webapp with the id. An installed bundle is handed back
    /// for deletion; a builtin that is not reserved is tombstoned and hidden; a
    /// reserved builtin is refused; an unknown id changes nothing.
    pub fn uninstall(&mut self, id: u128) -> (u: Uninstall)
        requires
            old(self).wf(),
        ensures
            final(self).wf(),
            final(self).reserved_ids() == old(self).reserved_ids(),
            !old(self).view().contains_key(id) ==> u == Uninstall::Unknown,
            old(self).view().contains_key(id) && old(self).view()[id].source == WebappSource::Installed
                ==> u == (Uninstall::DeleteInstalled { path: old(self).view()[id].path }),
            old(self).view().contains_key(id) && old(self).view()[id].source == WebappSource::Builtin
                && !reserved(old(self).reserved_ids(), id) ==> u == Uninstall::Tombstoned,
            old(self).view().contains_key(id) && old(self).view()[id].source == WebappSource::Builtin
                && reserved(old(self).reserved_ids(), id) ==> u == Uninstall::Refused,
            old(self).view().contains_key(id) && old(self).view()[id].source == WebappSource::Builtin && (id
                == old(self).reserved_ids().stock || id == old(self).reserved_ids().hub || id
                == old(self).reserved_ids().browser) ==> u == Uninstall::Refused,
            u == Uninstall::Tombstoned ==> {
                &&& final(self).view() == old(self).view().remove(id)
                &&& final(self).tombstones() == old(self).tombstones().insert(id)
            },
            u != Uninstall::Tombstoned ==> {
                &&& final(self).view() == old(self).view()
                &&& final(self).tombstones() == old(self).tombstones()
            },
    {
        match self.find(id) {
            None => Uninstall::Unknown,
            Some(i) => {
                proof {
                    lemma_bundles_at(self.bundles@, i as int);
                }
                match self.bundles[i].source {
                    WebappSource::Installed => Uninstall::DeleteInstalled {
                        path: self.bundles[i].path.clone(),
                    },
                    WebappSource::Builtin => {
                        if self.reserved.is_reserved(id) {
                            Uninstall::Refused
                        } else {
                            if !contains_id(&self.tombstones, id) {
                                let ghost t = self.tombstones@;
                                self.tombstones.push(id);
                                proof {
                                    t.lemma_push_to_set_commute(id);
                                }
                            } else {
                                assert(self.tombstones@.to_set().insert(id) =~= self.tombstones@.to_set());
                            }
                            proof {
                                lemma_bundles_remove(self.bundles@, i as int);
                            }
                            self.bundles.remove(i);
                            Uninstall::Tombstoned
                        }
                    },
                }
            },
        }
    }

    /// Clears the tombstone of a builtin; tells whether there was one. The
    /// registry is to be rescanned when there was.
    pub fn restore_builtin(&mut self, id: u128) -> (restored: bool)
        requires
            old(self).wf(),
        ensures
            final(self).wf(),
            final(self).reserved_ids() == old(self).reserved_ids(),
            restored == old(self).tombstones().contains(id),
            final(self).tombstones() == old(self).tombstones().remove(id),
            final(self).view() == old(self).view(),
    {
        let mut i: usize = 0;
        while i < self.tombstones.len()
            invariant
                0 <= i <= self.tombstones@.len(),
                self.tombstones@ == old(self).tombstones@,
                self.bundles@ == old(self).bundles@,
                self.reserved == old(self).reserved,
                distinct(self.tombstones@),
                unique_ids(self.bundles@),
                forall|k: int| 0 <= k < i ==> self.tombstones@[k] != id,
            decreases self.tombstones@.len() - i,
        {
            if self.tombstones[i] == id {
                let ghost t = self.tombstones@;
                self.tombstones.remove(i);
                proof {
                    assert(distinct(self.tombstones@)) by {
                        assert forall|p: int, q: int|
                            0 <= p < self.tombstones@.len() && 0 <= q < self.tombstones@.len() && p
                                != q implies self.tombstones@[p] != self.tombstones@[q] by {
                            let pp = if p < i { p } else { p + 1 };
                            let qq = if q < i { q } else { q + 1 };
                            assert(self.tombstones@[p] == t[pp]);
                            assert(self.tombstones@[q] == t[qq]);
                        }
                    }
                    assert forall|x: u128| #[trigger] self.tombstones@.to_set().contains(x) == t.to_set().remove(
                        id,
                    ).contains(x) by {
                        if self.tombstones@.to_set().contains(x) {
                            let k = choose|k: int| 0 <= k < self.tombstones@.len() && self.tombstones@[k] == x;
                            let kk = if k < i { k } else { k + 1 };
                            assert(t[kk] == x);
                            assert(kk != i);
                        }
                        if t.to_set().remove(id).contains(x) {
                            let k = choose|k: int| 0 <= k < t.len() && t[k] == x;
                            assert(k != i);
                            let kk = if k < i { k } else { k - 1 };
                            assert(self.tombstones@[kk] == x);
                        }
                    }
                    assert(self.tombstones@.to_set() =~= t.to_set().remove(id));
                    assert(t[i as int] == id);
                }
                return true;
            }
            i = i + 1;
        }
        assert(!self.tombstones@.to_set().contains(id));
        assert(self.tombstones@.to_set().remove(id) =~= self.tombstones@.to_set());
        false
    }

    /// The builtins the user uninstalled, each once.
    pub fn uninstalled_builtin_ids(&self) -> (r: Vec<u128>)
        requires
            self.wf(),
        ensures
            distinct(r@),
            r@.to_set() == self.tombstones(),
    {
        let mut r: Vec<u128> = Vec::new();
        let mut i: usize = 0;
        while i < self.tombstones.len()
            invariant
                0 <= i <= self.tombstones@.len(),
                distinct(self.tombstones@),
                r@ == self.tombstones@.subrange(0, i as int),
            decreases self.tombstones@.len() - i,
        {
            r.push(self.tombstones[i]);
            i = i + 1;
            assert(r@ =~= self.tombstones@.subrange(0, i as int));
        }
        assert(r@ =~= self.tombstones@);
        r
    }
}

/// Whether `id` is in `ids`.
pub fn contains_id(ids: &Vec<u128>, id: u128) -> (r: bool)
    ensures
        r == ids@.contains(id),
{
    let mut i: usize = 0;
    while i < ids.len()
        invariant
            0 <= i <= ids@.len(),
            forall|k: int| 0 <= k < i ==> ids@[k] != id,
        decreases ids@.len() - i,
    {
        if ids[i] == id {
            return true;
        }
        i = i + 1;
    }
    false
}


/// The namespace the ids of dev shadows are derived in.
pub const DEV_SHADOW_NAMESPACE: u128 = 0x019759e0_dec0_5ade_8000_b71d6e7de5afu128;

/// What `Uuid::new_v5` gives for the namespace and the 16 bytes of `name`
/// (a SHA-1 based, name-derived id).
pub uninterp spec fn name_based_uuid(namespace: u128, name: u128) -> u128;

/// `uuid::Uuid::new_v5` over the big-endian bytes of `name`. The contract
/// names the result; the hash it is computed with is not restated here.
#[verifier::external_body]
fn uuid_new_v5(namespace: u128, name: u128) -> (r: u128)
    ensures
        r == name_based_uuid(namespace, name),
{
    uuid::Uuid::new_v5(&uuid::Uuid::from_u128(namespace), uuid::Uuid::from_u128(name).as_bytes()).as_u128()
}

/// The id an installed bundle gets when it claims a reserved id.
pub open spec fn dev_shadow_id(reserved_id: u128) -> u128 {
    name_based_uuid(DEV_SHADOW_NAMESPACE, reserved_id)
}

/// The provenance recorded for `id`: the first record with that id.
pub open spec fn provenance_for(p: Seq<(u128, String)>, id: u128) -> Option<String>
    decreases p.len(),
{
    if p.len() == 0 {
        None
    } else if p[0].0 == id {
        Some(p[0].1)
    } else {
        provenance_for(p.drop_first(), id)
    }
}

/// An installed bundle as the registry keeps it: one that claims a reserved id
/// is moved to that id's dev shadow and can no longer be a launcher; then it
/// carries the provenance recorded for the id it ends up with.
pub open spec fn installed_entry(r: ReservedIds, p: Seq<(u128, String)>, b: WebappBundle) -> WebappBundle {
    let moved = if reserved(r, b.id) {
        WebappBundle {
            id: dev_shadow_id(b.id),
            role: if b.role == WebappRole::Launcher {
                WebappRole::Standard
            } else {
                b.role
            },
            ..b
        }
    } else {
        b
    };
    WebappBundle { source: WebappSource::Installed, provenance: provenance_for(p, moved.id), ..moved }
}

/// A bundle found under the builtin root, as the registry keeps it.
pub open spec fn builtin_entry(b: WebappBundle) -> WebappBundle {
    WebappBundle { source: WebappSource::Builtin, ..b }
}

/// Each bundle of `s` in turn entered into `m` under its id, a later one
/// replacing an earlier one with the same id.
pub open spec fn insert_all(m: Map<u128, WebappBundle>, s: Seq<WebappBundle>) -> Map<u128, WebappBundle>
    decreases s.len(),
{
    if s.len() == 0 {
        m
    } else {
        insert_all(m, s.drop_last()).insert(s.last().id, s.last())
    }
}

/// What a rescan leaves: the builtins that are not tombstoned, then every
/// installed bundle (moved off reserved ids, with its provenance), an
/// installed bundle shadowing a builtin with the same id.
pub open spec fn rescanned(
    r: ReservedIds,
    tombstones: Set<u128>,
    builtin: Seq<WebappBundle>,
    installed: Seq<WebappBundle>,
    provenance: Seq<(u128, String)>,
) -> Map<u128, WebappBundle> {
    insert_all(
        insert_all(
            Map::empty(),
            builtin.map_values(|b: WebappBundle| builtin_entry(b)).filter(
                |b: WebappBundle| !tombstones.contains(b.id),
            ),
        ),
        installed.map_values(|b: WebappBundle| installed_entry(r, provenance, b)),
    )
}

proof fn lemma_insert_all_keys(m: Map<u128, WebappBundle>, s: Seq<WebappBundle>, k: u128)
    ensures
        insert_all(m, s).contains_key(k) <==> (m.contains_key(k) || exists|i: int|
            0 <= i < s.len() && (#[trigger] s[i]).id == k),
    decreases s.len(),
{
    if s.len() > 0 {
        lemma_insert_all_keys(m, s.drop_last(), k);
        if exists|i: int| 0 <= i < s.len() && (#[trigger] s[i]).id == k {
            let i = choose|i: int| 0 <= i < s.len() && (#[trigger] s[i]).id == k;
            if i < s.len() - 1 {
                assert(s.drop_last()[i] == s[i]);
            }
        }
        if exists|i: int| 0 <= i < s.drop_last().len() && (#[trigger] s.drop_last()[i]).id == k {
            let i = choose|i: int| 0 <= i < s.drop_last().len() && (#[trigger] s.drop_last()[i]).id == k;
            assert(s[i] == s.drop_last()[i]);
        }
    }
}

fn find_provenance(p: &[(u128, String)], id: u128) -> (r: Option<String>)
    ensures
        r == provenance_for(p@, id),
{
    let mut i: usize = 0;
    assert(p@.subrange(0, p@.len() as int) =~= p@);
    while i < p.len()
        invariant
            0 <= i <= p@.len(),
            provenance_for(p@, id) == provenance_for(p@.subrange(i as int, p@.len() as int), id),
        decreases p@.len() - i,
    {
        let ghost rest = p@.subrange(i as int, p@.len() as int);
        if p[i].0 == id {
            return Some(p[i].1.clone());
        }
        assert(rest.drop_first() =~= p@.subrange(i + 1, p@.len() as int));
        i = i + 1;
    }
    None
}

fn as_installed(reserved_ids: &ReservedIds, p: &[(u128, String)], b: WebappBundle) -> (r: WebappBundle)
    ensures
        r == installed_entry(*reserved_ids, p@, b),
{
    let mut b = b;
    if reserved_ids.is_reserved(b.id) {
        b.id = uuid_new_v5(DEV_SHADOW_NAMESPACE, b.id);
        if b.role == WebappRole::Launcher {
            b.role = WebappRole::Standard;
        }
    }
    b.provenance = find_provenance(p, b.id);
    b.source = WebappSource::Installed;
    b
}

/// Enters `b` under its id, replacing a bundle with the same id.
fn put(bundles: &mut Vec<WebappBundle>, b: WebappBundle)
    requires
        unique_ids(old(bundles)@),
    ensures
        unique_ids(final(bundles)@),
        bundles_map(final(bundles)@) == bundles_map(old(bundles)@).insert(b.id, b),
{
    let mut i: usize = 0;
    while i < bundles.len()
        invariant
            0 <= i <= bundles@.len(),
            bundles@ == old(bundles)@,
            unique_ids(bundles@),
            forall|k: int| 0 <= k < i ==> bundles@[k].id != b.id,
        decreases bundles@.len() - i,
    {
        if bundles[i].id == b.id {
            proof {
                lemma_bundles_at(bundles@, i as int);
                lemma_bundles_remove(bundles@, i as int);
            }
            bundles.remove(i);
            proof {
                lemma_bundles_push(bundles@, b);
            }
            bundles.push(b);
            assert(bundles_map(old(bundles)@).remove(b.id).insert(b.id, b) =~= bundles_map(old(bundles)@).insert(b.id, b));
            return;
        }
        i = i + 1;
    }
    proof {
        lemma_bundles_push(bundles@, b);
    }
    bundles.push(b);
}

impl WebappRegistry {
    /// Replaces what the registry knows with what a scan of the two roots
    /// found: the builtins in scan order, then the installed bundles, with the
    /// provenance recorded for installed bundles.
    pub fn rescan(&mut self, builtin: Vec<WebappBundle>, installed: Vec<WebappBundle>, provenance: &[(u128, String)])
        requires
            old(self).wf(),
        ensures
            final(self).wf(),
            final(self).reserved_ids() == old(self).reserved_ids(),
            final(self).tombstones() == old(self).tombstones(),
            final(self).view() == rescanned(
                old(self).reserved_ids(),
                old(self).tombstones(),
                builtin@,
                installed@,
                provenance@,
            ),
    {
        let ghost tomb = self.tombstones@.to_set();
        let ghost keep = |b: WebappBundle| !tomb.contains(b.id);
        let ghost as_entry = |b: WebappBundle| installed_entry(self.reserved, provenance@, b);
        let mut bundles: Vec<WebappBundle> = Vec::new();
        let mut builtin = builtin;
        let ghost raw_builtin = builtin@;
        let ghost all_builtin = builtin@.map_values(|b: WebappBundle| builtin_entry(b));
        let total_builtin = builtin.len();
        let mut i: usize = 0;
        assert(all_builtin.subrange(0, 0).filter(keep) =~= Seq::<WebappBundle>::empty());
        assert(bundles_map(bundles@) =~= Map::<u128, WebappBundle>::empty());
        while builtin.len() > 0
            invariant
                i + builtin@.len() == all_builtin.len(),
                all_builtin.len() == total_builtin,
                builtin@ == raw_builtin.subrange(i as int, raw_builtin.len() as int),
                all_builtin == raw_builtin.map_values(|b: WebappBundle| builtin_entry(b)),
                unique_ids(bundles@),
                distinct(self.tombstones@),
                tomb == self.tombstones@.to_set(),
                keep == (|b: WebappBundle| !tomb.contains(b.id)),
                bundles_map(bundles@) == insert_all(Map::empty(), all_builtin.subrange(0, i as int).filter(keep)),
            decreases builtin@.len(),
        {
            let mut b = builtin.remove(0);
            b.source = WebappSource::Builtin;
            let ghost before = all_builtin.subrange(0, i as int);
            assert(b == all_builtin[i as int]);
            assert(all_builtin.subrange(0, i + 1) =~= before.push(b));
            proof {
                before.lemma_filter_push(b, keep);
            }
            if !contains_id(&self.tombstones, b.id) {
                assert(keep(b));
                let ghost f = before.filter(keep);
                assert(f.push(b).drop_last() =~= f);
                put(&mut bundles, b);
            } else {
                assert(!keep(b));
            }
            i = i + 1;
            assert(builtin@ =~= raw_builtin.subrange(i as int, raw_builtin.len() as int));
        }
        assert(all_builtin.subrange(0, all_builtin.len() as int) =~= all_builtin);
        let ghost base = bundles_map(bundles@);
        let mut installed = installed;
        let ghost all_installed = installed@;
        let total_installed = installed.len();
        let mut j: usize = 0;
        assert(all_installed.subrange(0, 0).map_values(as_entry) =~= Seq::<WebappBundle>::empty());
        while installed.len() > 0
            invariant
                j + installed@.len() == all_installed.len(),
                all_installed.len() == total_installed,
                installed@ == all_installed.subrange(j as int, all_installed.len() as int),
                unique_ids(bundles@),
                as_entry == (|b: WebappBundle| installed_entry(self.reserved, provenance@, b)),
                bundles_map(bundles@) == insert_all(base, all_installed.subrange(0, j as int).map_values(as_entry)),
            decreases installed@.len(),
        {
            let b = installed.remove(0);
            assert(b == all_installed[j as int]);
            let ghost before = all_installed.subrange(0, j as int).map_values(as_entry);
            let e = as_installed(&self.reserved, provenance, b);
            assert(all_installed.subrange(0, j + 1).map_values(as_entry) =~= before.push(e));
            assert(before.push(e).drop_last() =~= before);
            put(&mut bundles, e);
            j = j + 1;
            assert(installed@ =~= all_installed.subrange(j as int, all_installed.len() as int));
        }
        assert(all_installed.subrange(0, all_installed.len() as int) =~= all_installed);
        self.bundles = bundles;
    }
}

/// A rescan never brings back a tombstoned builtin: an id that is tombstoned,
/// and that no installed bundle ends up under, is not in what a rescan leaves,
/// whatever the builtin root holds.
pub proof fn law_tombstoned_builtin_stays_hidden(
    r: ReservedIds,
    tombstones: Set<u128>,
    builtin: Seq<WebappBundle>,
    installed: Seq<WebappBundle>,
    provenance: Seq<(u128, String)>,
    id: u128,
)
    requires
        tombstones.contains(id),
        forall|i: int| 0 <= i < installed.len() ==> installed_entry(r, provenance, #[trigger] installed[i]).id != id,
    ensures
        !rescanned(r, tombstones, builtin, installed, provenance).contains_key(id),
{
    let keep = |b: WebappBundle| !tombstones.contains(b.id);
    let mapped = builtin.map_values(|b: WebappBundle| builtin_entry(b));
    let kept = mapped.filter(keep);
    let entries = installed.map_values(|b: WebappBundle| installed_entry(r, provenance, b));
    lemma_insert_all_keys(Map::empty(), kept, id);
    lemma_insert_all_keys(insert_all(Map::empty(), kept), entries, id);
    if exists|i: int| 0 <= i < kept.len() && (#[trigger] kept[i]).id == id {
        let i = choose|i: int| 0 <= i < kept.len() && (#[trigger] kept[i]).id == id;
        assert(kept.contains(kept[i]));
        broadcast use vstd::seq_lib::group_filter_ensures;
        assert(keep(kept[i]));
    }
    if exists|i: int| 0 <= i < entries.len() && (#[trigger] entries[i]).id == id {
        let i = choose|i: int| 0 <= i < entries.len() && (#[trigger] entries[i]).id == id;
        assert(entries[i] == installed_entry(r, provenance, installed[i]));
    }
}

proof fn lemma_insert_all_value(m: Map<u128, WebappBundle>, s: Seq<WebappBundle>, k: u128)
    requires
        insert_all(m, s).contains_key(k),
    ensures
        (m.contains_key(k) && insert_all(m, s)[k] == m[k]) || exists|i: int|
            0 <= i < s.len() && (#[trigger] s[i]) == insert_all(m, s)[k] && s[i].id == k,
    decreases s.len(),
{
    if s.len() > 0 {
        if s.last().id == k {
            assert(s[s.len() - 1] == s.last());
        } else {
            lemma_insert_all_value(m, s.drop_last(), k);
            if exists|i: int| 0 <= i < s.drop_last().len() && (#[trigger] s.drop_last()[i]) == insert_all(m, s.drop_last())[k] && s.drop_last()[i].id == k {
                let i = choose|i: int| 0 <= i < s.drop_last().len() && (#[trigger] s.drop_last()[i]) == insert_all(m, s.drop_last())[k] && s.drop_last()[i].id == k;
                assert(s[i] == s.drop_last()[i]);
            }
        }
    }
}

/// A rescan never shows a tombstoned builtin: every tombstoned id that a
/// rescan leaves is held by an installed bundle.
pub proof fn law_tombstoned_ids_are_installed_after_rescan(
    r: ReservedIds,
    tombstones: Set<u128>,
    builtin: Seq<WebappBundle>,
    installed: Seq<WebappBundle>,
    provenance: Seq<(u128, String)>,
    t: u128,
)
    requires
        tombstones.contains(t),
        rescanned(r, tombstones, builtin, installed, provenance).contains_key(t),
    ensures
        rescanned(r, tombstones, builtin, installed, provenance)[t].source == WebappSource::Installed,
{
    broadcast use vstd::seq_lib::group_filter_ensures;
    let keep = |b: WebappBundle| !tombstones.contains(b.id);
    let mapped = builtin.map_values(|b: WebappBundle| builtin_entry(b));
    let kept = mapped.filter(keep);
    let entries = installed.map_values(|b: WebappBundle| installed_entry(r, provenance, b));
    let base = insert_all(Map::empty(), kept);
    let res = rescanned(r, tombstones, builtin, installed, provenance);
    lemma_insert_all_value(base, entries, t);
    if exists|i: int| 0 <= i < entries.len() && (#[trigger] entries[i]) == res[t] && entries[i].id == t {
        let i = choose|i: int| 0 <= i < entries.len() && (#[trigger] entries[i]) == res[t] && entries[i].id == t;
        assert(entries[i] == installed_entry(r, provenance, installed[i]));
    } else {
        assert(base.contains_key(t));
        lemma_insert_all_keys(Map::empty(), kept, t);
        let i = choose|i: int| 0 <= i < kept.len() && (#[trigger] kept[i]).id == t;
        assert(kept.contains(kept[i]));
        assert(keep(kept[i]));
        assert(false);
    }
}

/// A builtin whose tombstone was cleared comes back with the next rescan: an
/// id that is not tombstoned and that some builtin bundle has is in what a
/// rescan leaves (under a builtin or under an installed bundle that shadows
/// it).
pub proof fn law_restored_builtin_returns(
    r: ReservedIds,
    tombstones: Set<u128>,
    builtin: Seq<WebappBundle>,
    installed: Seq<WebappBundle>,
    provenance: Seq<(u128, String)>,
    id: u128,
)
    requires
        !tombstones.contains(id),
        exists|i: int| 0 <= i < builtin.len() && (#[trigger] builtin[i]).id == id,
    ensures
        rescanned(r, tombstones, builtin, installed, provenance).contains_key(id),
{
    let keep = |b: WebappBundle| !tombstones.contains(b.id);
    let mapped = builtin.map_values(|b: WebappBundle| builtin_entry(b));
    let kept = mapped.filter(keep);
    let entries = installed.map_values(|b: WebappBundle| installed_entry(r, provenance, b));
    let i = choose|i: int| 0 <= i < builtin.len() && (#[trigger] builtin[i]).id == id;
    broadcast use vstd::seq_lib::group_filter_ensures;
    assert(mapped[i].id == id);
    assert(keep(mapped[i]));
    assert(kept.contains(mapped[i]));
    let k = choose|k: int| 0 <= k < kept.len() && kept[k] == mapped[i];
    assert(kept[k].id == id);
    lemma_insert_all_keys(Map::empty(), kept, id);
    lemma_insert_all_keys(insert_all(Map::empty(), kept), entries, id);
}

/// A bundle a spoken name can open: it has a page, and it is not a launcher.
pub open spec fn spoken_target(b: WebappBundle) -> bool {
    b.has_app_entry && b.role != WebappRole::Launcher
}

/// `needle` occurs in `hay` at position `i`.
pub open spec fn occurs_at(hay: Seq<char>, needle: Seq<char>, i: int) -> bool {
    0 <= i && i + needle.len() <= hay.len() && hay.subrange(i, i + needle.len()) == needle
}

/// `needle` occurs in `hay` (the empty needle occurs everywhere).
pub open spec fn contains_seq(hay: Seq<char>, needle: Seq<char>) -> bool {
    exists|i: int| #[trigger] occurs_at(hay, needle, i)
}

/// A name that partly matches the needle: it is not empty, and one of the two
/// occurs in the other.
pub open spec fn partial_match(name: Seq<char>, needle: Seq<char>) -> bool {
    name.len() > 0 && (contains_seq(name, needle) || contains_seq(needle, name))
}

/// The bundles a spoken name can open whose name matches it exactly.
pub open spec fn exact_ids(m: Map<u128, WebappBundle>, needle: Seq<char>) -> Set<u128> {
    m.dom().filter(|id: u128| spoken_target(m[id]) && normalized_name(m[id].name@) == needle)
}

/// The bundles a spoken name can open whose name matches it partly.
pub open spec fn partial_ids(m: Map<u128, WebappBundle>, needle: Seq<char>) -> Set<u128> {
    m.dom().filter(|id: u128| spoken_target(m[id]) && partial_match(normalized_name(m[id].name@), needle))
}

/// Whether `needle` occurs in `hay`.
pub fn contains_chars(hay: &Vec<char>, needle: &Vec<char>) -> (r: bool)
    ensures
        r == contains_seq(hay@, needle@),
{
    if needle.len() == 0 {
        assert(hay@.subrange(0, 0) =~= needle@);
        assert(occurs_at(hay@, needle@, 0));
        return true;
    }
    if needle.len() > hay.len() {
        assert forall|k: int| !#[trigger] occurs_at(hay@, needle@, k) by {}
        return false;
    }
    let last = hay.len() - needle.len();
    let mut i: usize = 0;
    while i <= last
        invariant
            0 <= i <= last + 1,
            hay@.len() <= usize::MAX,
            needle@.len() >= 1,
            last + needle@.len() == hay@.len(),
            forall|k: int| 0 <= k < i ==> !#[trigger] occurs_at(hay@, needle@, k),
        decreases last + 1 - i,
    {
        let mut j: usize = 0;
        while j < needle.len() && hay[i + j] == needle[j]
            invariant
                0 <= j <= needle@.len(),
                i <= last,
                hay@.len() <= usize::MAX,
                needle@.len() >= 1,
                last + needle@.len() == hay@.len(),
                forall|q: int| 0 <= q < j ==> hay@[i + q] == needle@[q],
            decreases needle@.len() - j,
        {
            j = j + 1;
        }
        if j == needle.len() {
            assert(hay@.subrange(i as int, i + needle@.len()) =~= needle@);
            assert(occurs_at(hay@, needle@, i as int));
            return true;
        }
        assert(hay@.subrange(i as int, i + needle@.len())[j as int] != needle@[j as int]);
        i = i + 1;
    }
    assert forall|k: int| !#[trigger] occurs_at(hay@, needle@, k) by {
        if k > last {
        }
    }
    false
}

impl WebappRegistry {
    /// The webapp a spoken name opens. The name is normalized; an empty name
    /// opens nothing. A bundle whose normalized name equals it wins; otherwise
    /// the one bundle whose name partly matches it, and nothing when more than
    /// one (or none) does. Bundles without a page, and launchers, are never
    /// opened this way.
    pub fn resolve_by_name(&self, spoken: &str) -> (r: Option<u128>)
        requires
            self.wf(),
        ensures
            normalized_name(spoken@).len() == 0 ==> r is None,
            normalized_name(spoken@).len() > 0 && !exact_ids(self.view(), normalized_name(spoken@)).is_empty()
                ==> (r matches Some(id) && exact_ids(self.view(), normalized_name(spoken@)).contains(id)),
            normalized_name(spoken@).len() > 0 && exact_ids(self.view(), normalized_name(spoken@)).is_empty()
                ==> {
                &&& r matches Some(id) ==> partial_ids(self.view(), normalized_name(spoken@)) == set![id]
                &&& r is None ==> forall|id: u128|
                    partial_ids(self.view(), normalized_name(spoken@)) != #[trigger] set![id]
            },
    {
        let needle_text = normalize_webapp_name(spoken);
        let needle = chars_of(needle_text.as_str());
        if needle.len() == 0 {
            return None;
        }
        let ghost m = self.view();
        let ghost nd = needle@;
        let mut i: usize = 0;
        while i < self.bundles.len()
            invariant
                0 <= i <= self.bundles@.len(),
                unique_ids(self.bundles@),
                m == bundles_map(self.bundles@),
                nd == needle@,
                nd == normalized_name(spoken@),
                nd.len() > 0,
                forall|k: int|
                    0 <= k < i ==> !(spoken_target(#[trigger] self.bundles@[k]) && normalized_name(
                        self.bundles@[k].name@,
                    ) == nd),
            decreases self.bundles@.len() - i,
        {
            let b = &self.bundles[i];
            if b.has_app_entry && b.role != WebappRole::Launcher {
                let name = chars_of(normalize_webapp_name(b.name.as_str()).as_str());
                if name.len() == needle.len() && contains_chars(&name, &needle) {
                    proof {
                        lemma_bundles_at(self.bundles@, i as int);
                        let w = choose|w: int| #[trigger] occurs_at(name@, nd, w);
                        assert(w == 0);
                        assert(name@.subrange(0, nd.len() as int) =~= name@);
                    }
                    return Some(b.id);
                }
                proof {
                    if name@ == nd {
                        assert(name@.subrange(0, nd.len() as int) =~= name@);
                        assert(occurs_at(name@, nd, 0));
                    }
                }
            }
            i = i + 1;
        }
        assert(exact_ids(m, nd) =~= Set::<u128>::empty()) by {
            assert forall|id: u128| !exact_ids(m, nd).contains(id) by {
                if exact_ids(m, nd).contains(id) {
                    let k = choose|k: int| 0 <= k < self.bundles@.len() && self.bundles@[k].id == id;
                    lemma_bundles_at(self.bundles@, k);
                }
            }
        }
        let mut found: Option<usize> = None;
        let mut j: usize = 0;
        while j < self.bundles.len()
            invariant
                0 <= j <= self.bundles@.len(),
                unique_ids(self.bundles@),
                m == bundles_map(self.bundles@),
                nd == needle@,
                nd == normalized_name(spoken@),
                nd.len() > 0,
                exact_ids(m, nd).is_empty(),
                found is None ==> forall|k: int|
                    0 <= k < j ==> !(spoken_target(#[trigger] self.bundles@[k]) && partial_match(
                        normalized_name(self.bundles@[k].name@),
                        nd,
                    )),
                found matches Some(f) ==> f < j && spoken_target(self.bundles@[f as int]) && partial_match(
                    normalized_name(self.bundles@[f as int].name@),
                    nd,
                ) && forall|k: int|
                    0 <= k < j && k != f ==> !(spoken_target(#[trigger] self.bundles@[k]) && partial_match(
                        normalized_name(self.bundles@[k].name@),
                        nd,
                    )),
            decreases self.bundles@.len() - j,
        {
            let b = &self.bundles[j];
            if b.has_app_entry && b.role != WebappRole::Launcher {
                let name = chars_of(normalize_webapp_name(b.name.as_str()).as_str());
                if name.len() > 0 && (contains_chars(&name, &needle) || contains_chars(&needle, &name)) {
                    match found {
                        Some(f) => {
                            proof {
                                lemma_bundles_at(self.bundles@, f as int);
                                lemma_bundles_at(self.bundles@, j as int);
                                let a = self.bundles@[f as int].id;
                                let c = self.bundles@[j as int].id;
                                assert(partial_ids(m, nd).contains(a));
                                assert(partial_ids(m, nd).contains(c));
                                assert forall|id: u128| partial_ids(m, nd) != #[trigger] set![id] by {
                                    if partial_ids(m, nd) == set![id] {
                                        assert(set![id].contains(a));
                                        assert(set![id].contains(c));
                                    }
                                }
                            }
                            return None;
                        },
                        None => {
                            found = Some(j);
                        },
                    }
                }
            }
            j = j + 1;
        }
        match found {
            Some(f) => {
                proof {
                    lemma_bundles_at(self.bundles@, f as int);
                    let a = self.bundles@[f as int].id;
                    assert forall|id: u128| partial_ids(m, nd).contains(id) == set![a].contains(id) by {
                        if partial_ids(m, nd).contains(id) {
                            let k = choose|k: int| 0 <= k < self.bundles@.len() && self.bundles@[k].id == id;
                            lemma_bundles_at(self.bundles@, k);
                        }
                    }
                    assert(partial_ids(m, nd) =~= set![a]);
                }
                Some(self.bundles[f].id)
            },
            None => {
                proof {
                    assert forall|id: u128| partial_ids(m, nd) != #[trigger] set![id] by {
                        if partial_ids(m, nd) == set![id] {
                            assert(set![id].contains(id));
                            let k = choose|k: int| 0 <= k < self.bundles@.len() && self.bundles@[k].id == id;
                            lemma_bundles_at(self.bundles@, k);
                        }
                    }
                }
                None
            },
        }
    }
}


/// Strings in the order Rust sorts them: character by character by code
/// point, a proper prefix first.
pub open spec fn lex_le(a: Seq<char>, b: Seq<char>) -> bool
    decreases a.len(),
{
    if a.len() == 0 {
        true
    } else if b.len() == 0 {
        false
    } else if a[0] != b[0] {
        a[0] < b[0]
    } else {
        lex_le(a.drop_first(), b.drop_first())
    }
}

pub(crate) proof fn lemma_lex_total(a: Seq<char>, b: Seq<char>)
    ensures
        lex_le(a, b) || lex_le(b, a),
    decreases a.len(),
{
    if a.len() > 0 && b.len() > 0 {
        if a[0] == b[0] {
            lemma_lex_total(a.drop_first(), b.drop_first());
        }
    }
}

pub(crate) proof fn lemma_lex_trans(a: Seq<char>, b: Seq<char>, c: Seq<char>)
    requires
        lex_le(a, b),
        lex_le(b, c),
    ensures
        lex_le(a, c),
    decreases a.len(),
{
    if a.len() > 0 && b.len() > 0 && c.len() > 0 && a[0] == b[0] && b[0] == c[0] {
        lemma_lex_trans(a.drop_first(), b.drop_first(), c.drop_first());
    }
}

proof fn lemma_lex_skip(a: Seq<char>, b: Seq<char>, i: int)
    requires
        0 <= i <= a.len(),
        i <= b.len(),
        forall|k: int| 0 <= k < i ==> a[k] == b[k],
    ensures
        lex_le(a, b) == lex_le(a.subrange(i, a.len() as int), b.subrange(i, b.len() as int)),
    decreases i,
{
    if i > 0 {
        lemma_lex_skip(a.drop_first(), b.drop_first(), i - 1);
        assert(a.drop_first().subrange(i - 1, a.drop_first().len() as int) =~= a.subrange(i, a.len() as int));
        assert(b.drop_first().subrange(i - 1, b.drop_first().len() as int) =~= b.subrange(i, b.len() as int));
    } else {
        assert(a.subrange(0, a.len() as int) =~= a);
        assert(b.subrange(0, b.len() as int) =~= b);
    }
}

/// Whether `a` sorts no later than `b`.
pub fn lex_le_chars(a: &Vec<char>, b: &Vec<char>) -> (r: bool)
    ensures
        r == lex_le(a@, b@),
{
    let mut i: usize = 0;
    while i < a.len() && i < b.len() && a[i] == b[i]
        invariant
            0 <= i <= a@.len(),
            i <= b@.len(),
            forall|k: int| 0 <= k < i ==> a@[k] == b@[k],
        decreases a@.len() - i,
    {
        i = i + 1;
    }
    proof {
        lemma_lex_skip(a@, b@, i as int);
    }
    let ghost ra = a@.subrange(i as int, a@.len() as int);
    let ghost rb = b@.subrange(i as int, b@.len() as int);
    if i == a.len() {
        true
    } else if i == b.len() {
        false
    } else {
        assert(ra[0] == a@[i as int] && rb[0] == b@[i as int]);
        a[i] < b[i]
    }
}

/// The key a listing is sorted by: the name, a `-`, and the id as 32 lower
/// case hexadecimal digits.
pub open spec fn list_key(b: WebappBundle) -> Seq<char> {
    b.name@ + seq!['-'] + hex_fixed(b.id as nat, 32)
}

fn listing_key(b: &WebappBundle) -> (k: Vec<char>)
    ensures
        k@ == list_key(*b),
{
    let mut s = b.name.clone();
    s.push('-');
    push_hex(&mut s, b.id, 32);
    chars_of(s.as_str())
}

/// Whether a listing shows the bundle: every bundle, or for clients only
/// those with a page that are not launchers.
pub open spec fn listed(b: WebappBundle, clients: bool) -> bool {
    !clients || (b.has_app_entry && b.role != WebappRole::Launcher)
}

/// Some pair of the sorted list holds the id.
pub open spec fn pairs_hold(s: Seq<(Vec<char>, u128)>, id: u128) -> bool {
    exists|i: int| 0 <= i < s.len() && s[i].1 == id
}

/// Some bundle before position `k` has the id and is listed.
pub open spec fn listed_before(bs: Seq<WebappBundle>, k: int, id: u128, clients: bool) -> bool {
    exists|q: int| 0 <= q < k && bs[q].id == id && listed(bs[q], clients)
}

impl WebappRegistry {
    /// The ids a listing shows, sorted by their listing keys.
    fn sorted_ids(&self, clients: bool) -> (r: Vec<u128>)
        requires
            self.wf(),
        ensures
            distinct(r@),
            forall|id: u128|
                r@.contains(id) <==> (self.view().contains_key(id) && listed(self.view()[id], clients)),
            forall|i: int, j: int|
                0 <= i < j < r@.len() ==> lex_le(
                    list_key(self.view()[r@[i]]),
                    list_key(self.view()[r@[j]]),
                ),
    {
        let ghost m = self.view();
        let mut out: Vec<(Vec<char>, u128)> = Vec::new();
        let mut k: usize = 0;
        while k < self.bundles.len()
            invariant
                0 <= k <= self.bundles@.len(),
                unique_ids(self.bundles@),
                m == bundles_map(self.bundles@),
                forall|i: int| #![trigger out@[i]] 0 <= i < out@.len() ==> m.contains_key(out@[i].1),
                forall|i: int| #![trigger out@[i]] 0 <= i < out@.len() ==> out@[i].0@ == list_key(m[out@[i].1]),
                forall|i: int, j: int| 0 <= i < j < out@.len() ==> lex_le(out@[i].0@, out@[j].0@),
                forall|i: int, j: int| 0 <= i < out@.len() && 0 <= j < out@.len() && i != j ==> out@[i].1
                    != out@[j].1,
                forall|id: u128|
                    #[trigger] pairs_hold(out@, id) <==> listed_before(self.bundles@, k as int, id, clients),
            decreases self.bundles@.len() - k,
        {
            let b = &self.bundles[k];
            proof {
                lemma_bundles_at(self.bundles@, k as int);
            }
            if (!clients) || (b.has_app_entry && b.role != WebappRole::Launcher) {
                let key = listing_key(b);
                let mut p: usize = 0;
                while p < out.len() && lex_le_chars(&out[p].0, &key)
                    invariant
                        0 <= p <= out@.len(),
                        forall|i: int| 0 <= i < p ==> lex_le(#[trigger] out@[i].0@, key@),
                    decreases out@.len() - p,
                {
                    p = p + 1;
                }
                proof {
                    if p < out@.len() {
                        lemma_lex_total(out@[p as int].0@, key@);
                    }
                }
                let ghost before = out@;
                let id = b.id;
                let ghost elt = (key, id);
                assert(elt.0@ == list_key(m[id]));
                proof {
                    assert forall|i: int| 0 <= i < before.len() implies before[i].1 != id by {
                        if before[i].1 == id {
                            assert(pairs_hold(before, id));
                            assert(listed_before(self.bundles@, k as int, id, clients));
                            let q = choose|q: int|
                                0 <= q < k && self.bundles@[q].id == id && listed(self.bundles@[q], clients);
                            assert(self.bundles@[q].id != self.bundles@[k as int].id);
                        }
                    }
                }
                out.insert(p, (key, id));
                proof {
                    before.insert_ensures(p as int, (key, id));
                    let after = out@;
                    assert forall|i: int, j: int| 0 <= i < j < after.len() implies lex_le(after[i].0@, after[j].0@) by {
                        if j < p {
                        } else if j == p {
                        } else if i < p {
                            assert(after[j] == before[j - 1]);
                            lemma_lex_trans(after[i].0@, key@, before[p as int].0@);
                            if j - 1 > p {
                                lemma_lex_trans(after[i].0@, before[p as int].0@, before[j - 1].0@);
                            }
                        } else if i == p {
                            assert(after[j] == before[j - 1]);
                            if j - 1 > p {
                                lemma_lex_trans(key@, before[p as int].0@, before[j - 1].0@);
                            }
                        } else {
                            assert(after[i] == before[i - 1]);
                            assert(after[j] == before[j - 1]);
                        }
                    }
                    assert forall|i: int, j: int|
                        0 <= i < after.len() && 0 <= j < after.len() && i != j implies after[i].1 != after[j].1 by {
                        let ii = if i < p { i } else if i == p { -1 } else { i - 1 };
                        let jj = if j < p { j } else if j == p { -1 } else { j - 1 };
                        if ii >= 0 {
                            assert(after[i] == before[ii]);
                        }
                        if jj >= 0 {
                            assert(after[j] == before[jj]);
                        }
                    }
                    assert forall|i: int| #![trigger out@[i]] 0 <= i < out@.len() implies m.contains_key(out@[i].1)
                        && out@[i].0@ == list_key(m[out@[i].1]) by {
                        if i < p {
                            assert(after[i] == before[i]);
                            assert(m.contains_key(before[i].1));
                        } else if i > p {
                            assert(after[i] == before[i - 1]);
                            assert(m.contains_key(before[i - 1].1));
                        } else {
                            assert(after[i] == elt);
                        }
                    }
                    assert forall|x: u128|
                        #[trigger] pairs_hold(after, x) <==> listed_before(self.bundles@, k + 1, x, clients) by {
                        if exists|i: int| 0 <= i < after.len() && after[i].1 == x {
                            let i = choose|i: int| 0 <= i < after.len() && after[i].1 == x;
                            if i < p {
                                assert(pairs_hold(before, x));
                            } else if i > p {
                                assert(after[i] == before[i - 1]);
                                assert(pairs_hold(before, x));
                            } else {
                                assert(self.bundles@[k as int].id == x);
                            }
                        }
                        if exists|q: int| 0 <= q < k + 1 && self.bundles@[q].id == x && listed(self.bundles@[q], clients) {
                            let q = choose|q: int|
                                0 <= q < k + 1 && self.bundles@[q].id == x && listed(self.bundles@[q], clients);
                            if q < k {
                                assert(listed_before(self.bundles@, k as int, x, clients));
                                assert(pairs_hold(before, x));
                                let i2 = choose|i2: int| 0 <= i2 < before.len() && before[i2].1 == x;
                                if i2 < p {
                                    assert(after[i2] == before[i2]);
                                } else {
                                    assert(after[i2 + 1] == before[i2]);
                                }
                            } else {
                                assert(after[p as int].1 == x);
                            }
                        }
                    }
                }
            } else {
                proof {
                    assert forall|x: u128|
                        #[trigger] pairs_hold(out@, x) <==> listed_before(self.bundles@, k + 1, x, clients) by {
                        if exists|q: int| 0 <= q < k + 1 && self.bundles@[q].id == x && listed(self.bundles@[q], clients) {
                            let q = choose|q: int|
                                0 <= q < k + 1 && self.bundles@[q].id == x && listed(self.bundles@[q], clients);
                            assert(q < k);
                        }
                    }
                }
            }
            k = k + 1;
        }
        let mut r: Vec<u128> = Vec::new();
        let mut i: usize = 0;
        while i < out.len()
            invariant
                0 <= i <= out@.len(),
                r@.len() == i,
                forall|t: int| 0 <= t < i ==> r@[t] == out@[t].1,
            decreases out@.len() - i,
        {
            r.push(out[i].1);
            i = i + 1;
        }
        proof {
            assert forall|id: u128| r@.contains(id) <==> (m.contains_key(id) && listed(m[id], clients)) by {
                if r@.contains(id) {
                    let t = choose|t: int| 0 <= t < r@.len() && r@[t] == id;
                    assert(out@[t].1 == id);
                    assert(pairs_hold(out@, id));
                    assert(listed_before(self.bundles@, self.bundles@.len() as int, id, clients));
                    let q = choose|q: int|
                        0 <= q < self.bundles@.len() && self.bundles@[q].id == id && listed(self.bundles@[q], clients);
                    lemma_bundles_at(self.bundles@, q);
                }
                if m.contains_key(id) && listed(m[id], clients) {
                    let q = choose|q: int| 0 <= q < self.bundles@.len() && self.bundles@[q].id == id;
                    lemma_bundles_at(self.bundles@, q);
                    assert(listed_before(self.bundles@, self.bundles@.len() as int, id, clients));
                    assert(pairs_hold(out@, id));
                    let t = choose|t: int| 0 <= t < out@.len() && out@[t].1 == id;
                    assert(r@[t] == id);
                }
            }
        }
        r
    }

    /// Every known bundle's id, sorted by name and then id.
    pub fn list(&self) -> (r: Vec<u128>)
        requires
            self.wf(),
        ensures
            distinct(r@),
            forall|id: u128| r@.contains(id) <==> self.view().contains_key(id),
            forall|i: int, j: int|
                0 <= i < j < r@.len() ==> lex_le(
                    list_key(self.view()[r@[i]]),
                    list_key(self.view()[r@[j]]),
                ),
    {
        self.sorted_ids(false)
    }

    /// The ids clients are shown: bundles with a page that are not launchers,
    /// sorted by name and then id.
    pub fn list_for_clients(&self) -> (r: Vec<u128>)
        requires
            self.wf(),
        ensures
            distinct(r@),
            forall|id: u128|
                r@.contains(id) <==> (self.view().contains_key(id) && self.view()[id].has_app_entry
                    && self.view()[id].role != WebappRole::Launcher),
            forall|i: int, j: int|
                0 <= i < j < r@.len() ==> lex_le(
                    list_key(self.view()[r@[i]]),
                    list_key(self.view()[r@[j]]),
                ),
    {
        self.sorted_ids(true)
    }
}

} // verus!
