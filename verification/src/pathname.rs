//! Unix path names taken apart the way `std::path::Path::components` documents
//! it, and the checks a webapp bundle's file names go through.

use vstd::prelude::*;
use vstd::string::*;

use crate::text::{chars_of, string_of};

verus! {

/// The pieces `s.split('/')` yields, empty ones included.
pub open spec fn split_slash(s: Seq<char>) -> Seq<Seq<char>>
    decreases s.len(),
{
    if s.len() == 0 {
        seq![Seq::empty()]
    } else {
        let parts = split_slash(s.drop_last());
        if s.last() == '/' {
            parts.push(Seq::empty())
        } else {
            parts.update(parts.len() - 1, parts.last().push(s.last()))
        }
    }
}

proof fn lemma_split_slash_nonempty(s: Seq<char>)
    ensures
        split_slash(s).len() >= 1,
    decreases s.len(),
{
    if s.len() > 0 {
        lemma_split_slash_nonempty(s.drop_last());
    }
}

/// One component of a path, as the contracts speak of it.
pub enum Component {
    Root,
    Current,
    Parent,
    Normal(Seq<char>),
}

/// One component of a path.
#[derive(Clone, Debug, PartialEq, Eq)]
pub enum PathPart {
    /// The leading `/`.
    Root,
    /// A leading `.`.
    Current,
    /// `..`.
    Parent,
    /// Any other name.
    Normal(Vec<char>),
}

/// What a component stands for.
pub open spec fn part_view(p: PathPart) -> Component {
    match p {
        PathPart::Root => Component::Root,
        PathPart::Current => Component::Current,
        PathPart::Parent => Component::Parent,
        PathPart::Normal(v) => Component::Normal(v@),
    }
}

/// A piece that names something: not empty, not `.`.
pub open spec fn names_something(g: Seq<char>) -> bool {
    g.len() > 0 && g != seq!['.']
}

/// The component a naming piece stands for.
pub open spec fn piece_component(g: Seq<char>) -> Component {
    if g == seq!['.', '.'] {
        Component::Parent
    } else {
        Component::Normal(g)
    }
}

/// Whether a path starts at the root.
pub open spec fn is_rooted(s: Seq<char>) -> bool {
    s.len() > 0 && s[0] == '/'
}

/// Whether a path starts with a `.` component.
pub open spec fn starts_current(s: Seq<char>) -> bool {
    !is_rooted(s) && split_slash(s)[0] == seq!['.']
}

/// The naming pieces, as components.
pub open spec fn named_components(pieces: Seq<Seq<char>>) -> Seq<Component> {
    pieces.filter(|g: Seq<char>| names_something(g)).map_values(|g: Seq<char>| piece_component(g))
}

/// The components of a Unix path, as `Path::components` documents them: a
/// leading `/` is the root, a leading `.` piece is the current directory,
/// empty pieces and later `.` pieces are dropped, `..` is the parent, and every
/// other piece is a normal component.
pub open spec fn components(s: Seq<char>) -> Seq<Component> {
    let pieces = split_slash(s);
    if is_rooted(s) {
        seq![Component::Root] + named_components(pieces.drop_first())
    } else if starts_current(s) {
        seq![Component::Current] + named_components(pieces.drop_first())
    } else {
        named_components(pieces)
    }
}

/// The view of a list of pieces.
pub open spec fn pieces_view(v: Seq<Vec<char>>) -> Seq<Seq<char>> {
    v.map_values(|p: Vec<char>| p@)
}

/// The pieces `s.split('/')` yields.
pub fn split_on_slash(s: &[char]) -> (parts: Vec<Vec<char>>)
    ensures
        pieces_view(parts@) == split_slash(s@),
{
    let mut parts: Vec<Vec<char>> = Vec::new();
    parts.push(Vec::new());
    let mut i: usize = 0;
    assert(s@.subrange(0, 0) =~= Seq::<char>::empty());
    assert(pieces_view(parts@) =~= split_slash(s@.subrange(0, 0)));
    while i < s.len()
        invariant
            0 <= i <= s@.len(),
            pieces_view(parts@) == split_slash(s@.subrange(0, i as int)),
            parts@.len() >= 1,
        decreases s@.len() - i,
    {
        let c = s[i];
        let ghost pre = s@.subrange(0, i as int);
        let ghost next = s@.subrange(0, i + 1);
        assert(next.drop_last() =~= pre);
        assert(next.last() == c);
        if c == '/' {
            parts.push(Vec::new());
            assert(pieces_view(parts@) =~= split_slash(pre).push(Seq::empty()));
        } else {
            let mut last = parts.pop().unwrap();
            let ghost before = pieces_view(parts@).push(last@);
            last.push(c);
            parts.push(last);
            assert(pieces_view(parts@) =~= before.update(before.len() - 1, before.last().push(c)));
        }
        i = i + 1;
    }
    assert(s@.subrange(0, s@.len() as int) =~= s@);
    parts
}

fn is_dot(g: &Vec<char>) -> (r: bool)
    ensures
        r == (g@ == seq!['.']),
{
    let r = g.len() == 1 && g[0] == '.';
    if r {
        assert(g@ =~= seq!['.']);
    }
    r
}

fn is_dot_dot(g: &Vec<char>) -> (r: bool)
    ensures
        r == (g@ == seq!['.', '.']),
{
    let r = g.len() == 2 && g[0] == '.' && g[1] == '.';
    if r {
        assert(g@ =~= seq!['.', '.']);
    }
    r
}

/// The components of a Unix path.
pub fn path_components(s: &[char]) -> (r: Vec<PathPart>)
    ensures
        r@.map_values(|p: PathPart| part_view(p)) == components(s@),
{
    let pieces = split_on_slash(s);
    proof {
        lemma_split_slash_nonempty(s@);
    }
    let ghost pv = pieces_view(pieces@);
    assert(pv[0] == pieces@[0]@);
    let rooted = s.len() > 0 && s[0] == '/';
    let current = !rooted && is_dot(&pieces[0]);
    let mut out: Vec<PathPart> = Vec::new();
    let start: usize = if rooted {
        out.push(PathPart::Root);
        1
    } else if current {
        out.push(PathPart::Current);
        1
    } else {
        0
    };
    let ghost head = out@.map_values(|p: PathPart| part_view(p));
    let ghost keep = |g: Seq<char>| names_something(g);
    let ghost as_part = |g: Seq<char>| piece_component(g);
    assert(pv.subrange(start as int, start as int).filter(keep) =~= Seq::<Seq<char>>::empty());
    assert(out@.map_values(|p: PathPart| part_view(p)) =~= head + pv.subrange(
        start as int,
        start as int,
    ).filter(keep).map_values(as_part));
    let mut k: usize = start;
    while k < pieces.len()
        invariant
            start <= k <= pieces@.len(),
            pv == pieces_view(pieces@),
            keep == (|g: Seq<char>| names_something(g)),
            as_part == (|g: Seq<char>| piece_component(g)),
            out@.map_values(|p: PathPart| part_view(p)) == head + pv.subrange(start as int, k as int).filter(
                keep,
            ).map_values(as_part),
        decreases pieces@.len() - k,
    {
        let ghost before = pv.subrange(start as int, k as int);
        let ghost g = pv[k as int];
        assert(pv.subrange(start as int, k + 1) =~= before.push(g));
        proof {
            before.lemma_filter_push(g, keep);
        }
        assert(g == pieces@[k as int]@);
        let named = pieces[k].len() > 0 && !is_dot(&pieces[k]);
        if named {
            let part = if is_dot_dot(&pieces[k]) {
                PathPart::Parent
            } else {
                PathPart::Normal(pieces[k].clone())
            };
            assert(part_view(part) == as_part(g));
            let ghost prior = out@;
            out.push(part);
            assert(out@.map_values(|p: PathPart| part_view(p)) =~= prior.map_values(
                |p: PathPart| part_view(p),
            ).push(part_view(part)));
            assert(before.push(g).filter(keep) == before.filter(keep).push(g));
            assert(before.push(g).filter(keep).map_values(as_part) =~= before.filter(keep).map_values(
                as_part,
            ).push(as_part(g)));
        } else {
            assert(!keep(g));
            assert(before.push(g).filter(keep) == before.filter(keep));
        }
        k = k + 1;
    }
    assert(pv.subrange(start as int, pieces@.len() as int) =~= if start == 1 {
        pv.drop_first()
    } else {
        pv
    });
    assert(keep =~= (|g: Seq<char>| names_something(g)));
    assert(as_part =~= (|g: Seq<char>| piece_component(g)));
    if rooted {
        assert(head =~= seq![Component::Root]);
    } else if current {
        assert(head =~= seq![Component::Current]);
    } else {
        assert(head =~= Seq::<Component>::empty());
    }
    out
}


/// A name that stays one level inside a directory: exactly one component,
/// and that one a normal name.
pub open spec fn is_single_name(s: Seq<char>) -> bool {
    &&& s.len() > 0
    &&& components(s).len() == 1
    &&& components(s)[0] is Normal
}

/// Whether `name` names exactly one entry inside a directory.
pub fn is_safe_name(name: &str) -> (r: bool)
    ensures
        r == is_single_name(name@),
{
    let chars = chars_of(name);
    if chars.len() == 0 {
        return false;
    }
    let parts = path_components(&chars);
    proof {
        assert(parts@.map_values(|p: PathPart| part_view(p)).len() == parts@.len());
    }
    if parts.len() != 1 {
        return false;
    }
    assert(parts@.map_values(|p: PathPart| part_view(p))[0] == part_view(parts@[0]));
    match &parts[0] {
        PathPart::Normal(_) => true,
        _ => false,
    }
}

/// The names of the normal components.
pub open spec fn normal_names(c: Seq<Component>) -> Seq<Seq<char>>
    decreases c.len(),
{
    if c.len() == 0 {
        Seq::empty()
    } else {
        match c.last() {
            Component::Normal(n) => normal_names(c.drop_last()).push(n),
            _ => normal_names(c.drop_last()),
        }
    }
}

/// `PathBuf::push` of a relative name: a `/` goes between unless the path is
/// empty or already ends in one.
pub open spec fn push_piece(out: Seq<char>, piece: Seq<char>) -> Seq<char> {
    if out.len() > 0 && out.last() != '/' {
        out + seq!['/'] + piece
    } else {
        out + piece
    }
}

/// `root` with each name pushed in turn.
pub open spec fn joined(root: Seq<char>, names: Seq<Seq<char>>) -> Seq<char>
    decreases names.len(),
{
    if names.len() == 0 {
        root
    } else {
        push_piece(joined(root, names.drop_last()), names.last())
    }
}

/// Where `name` leads under `root` when it only ever goes down: every
/// component is a normal name or `.`, and at least one is a name. Anything
/// that climbs (`..`) or starts over (`/`) leads nowhere.
pub open spec fn contained_spec(root: Seq<char>, name: Seq<char>) -> Option<Seq<char>> {
    let c = components(name);
    if (forall|i: int| 0 <= i < c.len() ==> (c[i] is Normal || c[i] is Current)) && normal_names(c).len()
        > 0 {
        Some(joined(root, normal_names(c)))
    } else {
        None
    }
}

fn push_name(out: &mut Vec<char>, piece: &Vec<char>)
    ensures
        final(out)@ == push_piece(old(out)@, piece@),
{
    if out.len() > 0 && out[out.len() - 1] != '/' {
        out.push('/');
    }
    let ghost base = out@;
    let mut i: usize = 0;
    while i < piece.len()
        invariant
            0 <= i <= piece@.len(),
            out@ == base + piece@.subrange(0, i as int),
        decreases piece@.len() - i,
    {
        out.push(piece[i]);
        i = i + 1;
        assert(out@ =~= base + piece@.subrange(0, i as int));
    }
    assert(piece@.subrange(0, piece@.len() as int) =~= piece@);
    assert(final(out)@ =~= push_piece(old(out)@, piece@));
}

/// `root` joined with `name`, when `name` stays inside `root`.
pub fn contained(root: &str, name: &str) -> (r: Option<String>)
    ensures
        match r {
            Some(p) => contained_spec(root@, name@) == Some(p@),
            None => contained_spec(root@, name@) is None,
        },
{
    let chars = chars_of(name);
    let parts = path_components(&chars);
    let ghost c = components(name@);
    let ghost cv = parts@.map_values(|p: PathPart| part_view(p));
    assert(cv == c);
    let mut out = chars_of(root);
    let mut pushed = false;
    let mut i: usize = 0;
    while i < parts.len()
        invariant
            0 <= i <= parts@.len(),
            cv == parts@.map_values(|p: PathPart| part_view(p)),
            cv == components(name@),
            cv.len() == parts@.len(),
            forall|j: int| 0 <= j < i ==> (cv[j] is Normal || cv[j] is Current),
            out@ == joined(root@, normal_names(cv.subrange(0, i as int))),
            pushed == (normal_names(cv.subrange(0, i as int)).len() > 0),
        decreases parts@.len() - i,
    {
        let ghost pre = cv.subrange(0, i as int);
        assert(cv.subrange(0, i + 1).drop_last() =~= pre);
        assert(cv.subrange(0, i + 1).last() == cv[i as int]);
        assert(cv[i as int] == part_view(parts@[i as int]));
        let ghost names = normal_names(pre);
        match &parts[i] {
            PathPart::Normal(n) => {
                assert(normal_names(cv.subrange(0, i + 1)) == names.push(n@));
                assert(names.push(n@).drop_last() =~= names);
                push_name(&mut out, n);
                pushed = true;
            },
            PathPart::Current => {},
            _ => {
                assert(!(cv[i as int] is Normal || cv[i as int] is Current));
                return None;
            },
        }
        i = i + 1;
    }
    assert(cv.subrange(0, parts@.len() as int) =~= cv);
    if !pushed {
        return None;
    }
    Some(string_of(&out))
}

/// The last component, when it is a normal name (what `Path::file_name` gives).
pub open spec fn file_name(s: Seq<char>) -> Option<Seq<char>> {
    let c = components(s);
    if c.len() > 0 && c.last() is Normal {
        Some(c.last()->Normal_0)
    } else {
        None
    }
}

/// Whether `f` has a `.` after its first character.
pub open spec fn dot_after_start(f: Seq<char>) -> bool {
    exists|i: int| 0 < i < f.len() && f[i] == '.'
}

/// The position of the last `.` in `f`.
pub open spec fn last_dot(f: Seq<char>) -> int
    recommends
        dot_after_start(f),
{
    choose|i: int| 0 < i < f.len() && f[i] == '.' && forall|j: int| i < j < f.len() ==> f[j] != '.'
}

/// What follows the last `.` of the file name, when some `.` other than a
/// leading one is in it (what `Path::extension` gives).
pub open spec fn extension(s: Seq<char>) -> Option<Seq<char>> {
    match file_name(s) {
        Some(f) => if dot_after_start(f) {
            Some(f.subrange(last_dot(f) + 1, f.len() as int))
        } else {
            None
        },
        None => None,
    }
}

/// `c` with ASCII upper case letters made lower case.
pub open spec fn ascii_lower(c: char) -> char {
    if 65 <= (c as u32) <= 90 {
        ((c as u32) + 32) as char
    } else {
        c
    }
}

/// The media type a file extension suggests, compared without regard to
/// ASCII case; anything unknown is `application/octet-stream`.
pub open spec fn mime_for(ext: Seq<char>) -> Seq<char> {
    let e = ext.map_values(|c: char| ascii_lower(c));
    if e == seq!['p', 'n', 'g'] {
        "image/png"@
    } else if e == seq!['j', 'p', 'g'] || e == seq!['j', 'p', 'e', 'g'] {
        "image/jpeg"@
    } else if e == seq!['s', 'v', 'g'] {
        "image/svg+xml"@
    } else if e == seq!['w', 'e', 'b', 'p'] {
        "image/webp"@
    } else if e == seq!['g', 'i', 'f'] {
        "image/gif"@
    } else {
        "application/octet-stream"@
    }
}

/// `c` with ASCII upper case made lower case.
pub fn lower_char(c: char) -> (r: char)
    ensures
        r == ascii_lower(c),
{
    let v = c as u32;
    if 65 <= v && v <= 90 {
        let b: u8 = (v + 32) as u8;
        assert(b as u32 == v + 32);
        let r = b as char;
        assert(r as u32 == v + 32);
        r
    } else {
        c
    }
}

/// Whether `v` holds exactly the characters of `lit`.
pub fn same_chars(v: &Vec<char>, lit: &[char]) -> (r: bool)
    ensures
        r == (v@ == lit@),
{
    if v.len() != lit.len() {
        return false;
    }
    let mut i: usize = 0;
    while i < v.len()
        invariant
            0 <= i <= v@.len(),
            v@.len() == lit@.len(),
            forall|j: int| 0 <= j < i ==> v@[j] == lit@[j],
        decreases v@.len() - i,
    {
        if v[i] != lit[i] {
            return false;
        }
        i = i + 1;
    }
    assert(v@ =~= lit@);
    true
}

/// The media type a file name's extension suggests.
pub fn guess_mime_from_ext(name: &str) -> (r: String)
    ensures
        r@ == mime_for(
            match extension(name@) {
                Some(e) => e,
                None => Seq::empty(),
            },
        ),
{
    let chars = chars_of(name);
    let parts = path_components(&chars);
    let ghost cv = parts@.map_values(|p: PathPart| part_view(p));
    let mut ext: Vec<char> = Vec::new();
    if parts.len() > 0 {
        assert(cv.last() == part_view(parts@[parts@.len() - 1]));
        if let PathPart::Normal(f) = &parts[parts.len() - 1] {
            let mut k: usize = f.len();
            while k > 1 && f[k - 1] != '.'
                invariant
                    0 <= k <= f@.len(),
                    forall|j: int| k <= j < f@.len() ==> f@[j] != '.',
                decreases k,
            {
                k = k - 1;
            }
            if k > 1 {
                let ghost d = (k - 1) as int;
                assert(dot_after_start(f@));
                let ghost ld = last_dot(f@);
                assert(ld == d) by {
                    if ld < d {
                    } else if ld > d {
                        assert(f@[ld] != '.');
                    }
                }
                let mut j: usize = k;
                while j < f.len()
                    invariant
                        k <= j <= f@.len(),
                        ext@ == f@.subrange(k as int, j as int),
                    decreases f@.len() - j,
                {
                    ext.push(f[j]);
                    j = j + 1;
                    assert(ext@ =~= f@.subrange(k as int, j as int));
                }
            } else {
                assert(!dot_after_start(f@)) by {
                    if dot_after_start(f@) {
                        let w = choose|i: int| 0 < i < f@.len() && f@[i] == '.';
                        assert(w >= k);
                    }
                }
            }
        }
    }
    assert(ext@ == match extension(name@) {
        Some(e) => e,
        None => Seq::empty(),
    });
    let mut lower: Vec<char> = Vec::new();
    let mut i: usize = 0;
    while i < ext.len()
        invariant
            0 <= i <= ext@.len(),
            lower@ == ext@.subrange(0, i as int).map_values(|c: char| ascii_lower(c)),
        decreases ext@.len() - i,
    {
        lower.push(lower_char(ext[i]));
        i = i + 1;
        assert(lower@ =~= ext@.subrange(0, i as int).map_values(|c: char| ascii_lower(c)));
    }
    assert(ext@.subrange(0, ext@.len() as int) =~= ext@);
    if same_chars(&lower, &['p', 'n', 'g']) {
        String::from_str("image/png")
    } else if same_chars(&lower, &['j', 'p', 'g']) || same_chars(&lower, &['j', 'p', 'e', 'g']) {
        String::from_str("image/jpeg")
    } else if same_chars(&lower, &['s', 'v', 'g']) {
        String::from_str("image/svg+xml")
    } else if same_chars(&lower, &['w', 'e', 'b', 'p']) {
        String::from_str("image/webp")
    } else if same_chars(&lower, &['g', 'i', 'f']) {
        String::from_str("image/gif")
    } else {
        String::from_str("application/octet-stream")
    }
}

} // verus!
