//! The daemon's local web server: which clients a socket serves, how the
//! launcher's pages are addressed under their bundle hash, how long pages
//! may be cached, and the on-device tile uninstall.

use vstd::prelude::*;
use vstd::string::*;

use crate::text::{chars_of, has_prefix, str_has_prefix, string_of, trim_chars, trim_white_space};
use crate::webapp_handler::ClientScope;
use crate::webapps::{reserved, Uninstall, WebappRegistry};
use crate::companion::WebappSource;

verus! {

/// Where the launcher's pages are served.
pub const HUB_PREFIX: &'static str = "/_hub/";

/// `piece` is one of the `&`-separated parts of `query`.
pub open spec fn has_query_piece(query: Seq<char>, piece: Seq<char>) -> bool {
    exists|i: int|
        #![trigger query.subrange(i, i + piece.len())]
        0 <= i && i + piece.len() <= query.len() && query.subrange(i, i + piece.len()) == piece && (i == 0
            || query[i - 1] == '&') && (i + piece.len() == query.len() || query[i + piece.len()] == '&')
}

/// The clients a socket serves: the overlay's when its query has a
/// `scope=overlay` part, else the shown webapp's.
pub fn scope_from_query(query: Option<&str>) -> (s: ClientScope)
    ensures
        s == match query {
            Some(q) => if has_query_piece(q@, "scope=overlay"@) {
                ClientScope::Overlay
            } else {
                ClientScope::ActiveWebapp
            },
            None => ClientScope::ActiveWebapp,
        },
{
    proof {
        reveal_strlit("scope=overlay");
    }
    let q = match query {
        Some(q) => q,
        None => {
            return ClientScope::ActiveWebapp;
        },
    };
    let hay = chars_of(q);
    let piece = chars_of("scope=overlay");
    let n = piece.len();
    if n > hay.len() {
        assert(!has_query_piece(q@, "scope=overlay"@));
        return ClientScope::ActiveWebapp;
    }
    let last = hay.len() - n;
    let mut i: usize = 0;
    while i <= last
        invariant
            0 <= i <= last + 1,
            query == Some(q),
            hay@ == q@,
            piece@ == "scope=overlay"@,
            n == piece@.len(),
            last + n == hay@.len(),
            n == 13,
            n > 0,
            hay@.len() <= usize::MAX,
            forall|k: int|
                0 <= k < i ==> !(#[trigger] hay@.subrange(k, k + n) == piece@ && (k == 0 || hay@[k - 1] == '&')
                    && (k + n == hay@.len() || hay@[k + n] == '&')),
        decreases last + 1 - i,
    {
        let mut j: usize = 0;
        while j < n && hay[i + j] == piece[j]
            invariant
                0 <= j <= n,
                i <= last,
                last + n == hay@.len(),
                n == piece@.len(),
                hay@.len() <= usize::MAX,
                forall|q2: int| 0 <= q2 < j ==> hay@[i + q2] == piece@[q2],
            decreases n - j,
        {
            j = j + 1;
        }
        let bounded = (i == 0 || hay[i - 1] == '&') && (i + n == hay.len() || hay[i + n] == '&');
        if j == n && bounded {
            assert(hay@.subrange(i as int, i + n) =~= piece@);
            assert(q@.subrange(i as int, i + "scope=overlay"@.len()) == "scope=overlay"@);
            assert(i == 0 || q@[i - 1] == '&');
            assert(i + 13 == q@.len() || q@[i + 13] == '&');
            assert(has_query_piece(q@, "scope=overlay"@));
            return ClientScope::Overlay;
        }
        if j < n {
            assert(hay@.subrange(i as int, i + n)[j as int] != piece@[j as int]);
        }
        i = i + 1;
    }
    assert(!has_query_piece(q@, "scope=overlay"@)) by {
        if has_query_piece(q@, "scope=overlay"@) {
            let w = choose|w: int|
                #![trigger q@.subrange(w, w + 13)]
                0 <= w && w + 13 <= q@.len() && q@.subrange(w, w + 13) == "scope=overlay"@ && (w == 0
                    || q@[w - 1] == '&') && (w + 13 == q@.len() || q@[w + 13] == '&');
            assert(w <= last);
        }
    }
    ClientScope::ActiveWebapp
}

/// How long a served file may be cached: the hashed build assets forever,
/// everything else revalidated.
pub fn cache_control(path: &str) -> (v: &'static str)
    ensures
        v@ == if has_prefix(path@, "/assets/"@) {
            "public, max-age=31536000, immutable"@
        } else {
            "no-cache"@
        },
{
    if str_has_prefix(path, "/assets/") {
        "public, max-age=31536000, immutable"
    } else {
        "no-cache"
    }
}

/// How a request under the hub prefix is answered.
#[derive(Clone, Debug, PartialEq, Eq)]
pub enum HubRoute {
    /// Not a hub path: it is served as an ordinary page.
    NotHub,
    /// Redirected to the launcher's current bundle hash.
    Redirect { location: String },
    /// Served from the launcher's bundle at this path.
    Serve { path: String },
}

/// Where the first `/` of `s` is, if any.
pub open spec fn first_slash(s: Seq<char>) -> Option<int> {
    if exists|i: int| 0 <= i < s.len() && s[i] == '/' {
        Some(choose|i: int| 0 <= i < s.len() && s[i] == '/' && forall|j: int| 0 <= j < i ==> s[j] != '/')
    } else {
        None
    }
}

/// `s` without its leading `/`s.
pub open spec fn trim_leading_slashes(s: Seq<char>) -> Seq<char>
    decreases s.len(),
{
    if s.len() > 0 && s[0] == '/' {
        trim_leading_slashes(s.drop_first())
    } else {
        s
    }
}

/// How a hub path is answered for the launcher bundle with hash `hash`: the
/// first piece after the prefix must be the hash. With no piece the request is
/// sent to the hash's root; with another hash it is sent to the same place
/// under the current hash; otherwise the rest of the path (the root when
/// empty) is served, with its leading `/`s folded into one.
pub open spec fn hub_route_spec(path: Seq<char>, hash: Seq<char>) -> HubRouteView {
    let prefix = "/_hub/"@;
    if !has_prefix(path, prefix) {
        HubRouteView::NotHub
    } else {
        let after = path.subrange(prefix.len() as int, path.len() as int);
        let (segment, rest) = match first_slash(after) {
            Some(i) => (after.subrange(0, i), after.subrange(i + 1, after.len() as int)),
            None => (after, Seq::empty()),
        };
        if segment.len() == 0 {
            HubRouteView::Redirect(prefix + hash + "/"@)
        } else if segment != hash {
            HubRouteView::Redirect(prefix + hash + "/"@ + rest)
        } else {
            let inner = if rest.len() == 0 {
                "/"@
            } else {
                rest
            };
            HubRouteView::Serve("/"@ + trim_leading_slashes(inner))
        }
    }
}

/// A hub route, as the contracts speak of it.
pub enum HubRouteView {
    NotHub,
    Redirect(Seq<char>),
    Serve(Seq<char>),
}

/// The view of a hub route.
pub open spec fn hub_route_view(r: HubRoute) -> HubRouteView {
    match r {
        HubRoute::NotHub => HubRouteView::NotHub,
        HubRoute::Redirect { location } => HubRouteView::Redirect(location@),
        HubRoute::Serve { path } => HubRouteView::Serve(path@),
    }
}

fn push_all(out: &mut Vec<char>, s: &Vec<char>, from: usize, to: usize)
    requires
        from <= to <= s@.len(),
    ensures
        final(out)@ == old(out)@ + s@.subrange(from as int, to as int),
{
    let ghost base = out@;
    let mut i: usize = from;
    while i < to
        invariant
            from <= i <= to,
            to <= s@.len(),
            out@ == base + s@.subrange(from as int, i as int),
        decreases to - i,
    {
        out.push(s[i]);
        i = i + 1;
        assert(out@ =~= base + s@.subrange(from as int, i as int));
    }
}

proof fn lemma_trim_leading(s: Seq<char>, k: int)
    requires
        0 <= k <= s.len(),
        forall|j: int| 0 <= j < k ==> s[j] == '/',
        k == s.len() || s[k] != '/',
    ensures
        trim_leading_slashes(s) == s.subrange(k, s.len() as int),
    decreases k,
{
    if k > 0 {
        lemma_trim_leading(s.drop_first(), k - 1);
        assert(s.drop_first().subrange(k - 1, s.drop_first().len() as int) =~= s.subrange(k, s.len() as int));
    } else {
        assert(s.subrange(0, s.len() as int) =~= s);
    }
}

/// How a request path is answered while the launcher's bundle has hash `hash`.
pub fn hub_route(path: &str, hash: &str) -> (r: HubRoute)
    ensures
        hub_route_view(r) == hub_route_spec(path@, hash@),
{
    proof {
        reveal_strlit("/_hub/");
        reveal_strlit("/");
    }
    if !str_has_prefix(path, HUB_PREFIX) {
        return HubRoute::NotHub;
    }
    let p = chars_of(path);
    let h = chars_of(hash);
    let start: usize = 6;
    assert(HUB_PREFIX@.len() == 6);
    let ghost after = p@.subrange(6, p@.len() as int);
    let mut k: usize = start;
    while k < p.len() && p[k] != '/'
        invariant
            start <= k <= p@.len(),
            start == 6,
            forall|j: int| start <= j < k ==> p@[j] != '/',
        decreases p@.len() - k,
    {
        k = k + 1;
    }
    let ghost fs = first_slash(after);
    proof {
        if k < p@.len() {
            assert(after[k - 6] == '/');
            let w = choose|i: int| 0 <= i < after.len() && after[i] == '/' && forall|j: int| 0 <= j < i ==> after[j] != '/';
            assert(w == k - 6) by {
                if w < k - 6 {
                    assert(p@[w + 6] != '/');
                } else if w > k - 6 {
                    assert(after[k - 6] == '/');
                }
            }
        } else {
            assert(!(exists|i: int| 0 <= i < after.len() && after[i] == '/')) by {
                if exists|i: int| 0 <= i < after.len() && after[i] == '/' {
                    let w = choose|i: int| 0 <= i < after.len() && after[i] == '/';
                    assert(p@[w + 6] == '/');
                }
            }
        }
    }
    let rest_start: usize = if k < p.len() {
        k + 1
    } else {
        k
    };
    let mut segment: Vec<char> = Vec::new();
    push_all(&mut segment, &p, 6, k);
    let mut rest: Vec<char> = Vec::new();
    push_all(&mut rest, &p, rest_start, p.len());
    proof {
        if k < p@.len() {
            assert(segment@ =~= after.subrange(0, k - 6));
            assert(rest@ =~= after.subrange(k - 6 + 1, after.len() as int));
        } else {
            assert(segment@ =~= after);
            assert(rest@ =~= Seq::<char>::empty());
        }
    }
    let mut loc: Vec<char> = chars_of(HUB_PREFIX);
    push_all(&mut loc, &h, 0, h.len());
    loc.push('/');
    assert(h@.subrange(0, h@.len() as int) =~= h@);
    if segment.len() == 0 {
        assert(loc@ =~= "/_hub/"@ + hash@ + "/"@);
        return HubRoute::Redirect { location: string_of(&loc) };
    }
    let same = crate::pathname::same_chars(&segment, h.as_slice());
    if !same {
        let ghost base = loc@;
        push_all(&mut loc, &rest, 0, rest.len());
        assert(rest@.subrange(0, rest@.len() as int) =~= rest@);
        assert(loc@ =~= "/_hub/"@ + hash@ + "/"@ + rest@);
        return HubRoute::Redirect { location: string_of(&loc) };
    }
    let inner: Vec<char> = if rest.len() == 0 {
        let mut v: Vec<char> = Vec::new();
        v.push('/');
        assert(v@ =~= "/"@);
        v
    } else {
        rest
    };
    let mut m: usize = 0;
    while m < inner.len() && inner[m] == '/'
        invariant
            0 <= m <= inner@.len(),
            forall|j: int| 0 <= j < m ==> inner@[j] == '/',
        decreases inner@.len() - m,
    {
        m = m + 1;
    }
    proof {
        lemma_trim_leading(inner@, m as int);
    }
    let mut out: Vec<char> = Vec::new();
    out.push('/');
    push_all(&mut out, &inner, m, inner.len());
    assert(out@ =~= "/"@ + trim_leading_slashes(inner@));
    HubRoute::Serve { path: string_of(&out) }
}

/// The body of a tile uninstall request: the tile's label.
#[derive(Clone, Debug, PartialEq, Eq)]
pub struct UninstallTileBody {
    pub name: String,
}

/// How a tile uninstall request is answered when it is refused.
#[derive(Clone, Debug, PartialEq, Eq)]
pub struct TileRefusal {
    pub status: u16,
    pub message: &'static str,
}

/// The label a tile uninstall looks up: the body's name without surrounding
/// white space.
pub fn tile_label(body: &UninstallTileBody) -> (l: String)
    ensures
        l@ == trim_white_space(body.name@),
{
    let chars = chars_of(body.name.as_str());
    string_of(&trim_chars(&chars))
}

/// Which webapp a tile uninstall removes, or why it is refused: only the
/// device itself may ask; the label must have resolved (`resolved` is what
/// `resolve_by_name` gave for it); a reserved builtin is never uninstalled.
pub fn tile_uninstall_target(registry: &WebappRegistry, from_loopback: bool, resolved: Option<u128>) -> (r: Result<
    u128,
    TileRefusal,
>)
    requires
        registry.wf(),
    ensures
        r == if !from_loopback {
            Err::<u128, TileRefusal>(
                TileRefusal { status: 403, message: "tile uninstall is only available on the device" },
            )
        } else {
            match resolved {
                None => Err(TileRefusal { status: 404, message: "no installed app with that name" }),
                Some(id) => if registry.view().contains_key(id) && registry.view()[id].source == WebappSource::Builtin
                    && reserved(registry.reserved_ids(), id) {
                    Err(TileRefusal { status: 403, message: "that app cannot be uninstalled" })
                } else {
                    Ok(id)
                },
            }
        },
{
    if !from_loopback {
        return Err(TileRefusal { status: 403, message: "tile uninstall is only available on the device" });
    }
    let id = match resolved {
        Some(id) => id,
        None => {
            return Err(TileRefusal { status: 404, message: "no installed app with that name" });
        },
    };
    if registry.is_builtin(id) && registry.reserved_id_set().is_reserved(id) {
        return Err(TileRefusal { status: 403, message: "that app cannot be uninstalled" });
    }
    Ok(id)
}

/// How a tile uninstall answers once the registry has handled it: an
/// uninstall that removed nothing is answered as not installed.
pub fn tile_uninstall_result(outcome: &Uninstall) -> (r: Result<(), TileRefusal>)
    ensures
        (*outcome is DeleteInstalled || *outcome is Tombstoned) ==> r is Ok,
        !(*outcome is DeleteInstalled || *outcome is Tombstoned) ==> r == Err::<(), TileRefusal>(
            TileRefusal { status: 404, message: "app is not installed" },
        ),
{
    if outcome.removed() {
        Ok(())
    } else {
        Err(TileRefusal { status: 404, message: "app is not installed" })
    }
}

} // verus!
