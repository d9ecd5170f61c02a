//! Unix paths as bytes.
//!
//! A path is any sequence of bytes; `/` separates its components. What the
//! file system knows about a path is not this module's concern.

use crate::text::{group_views, opt_view, views};
use vstd::prelude::*;
use vstd::utf8::{decode_utf8, encode_utf8, valid_utf8};

verus! {

// ---------------------------------------------------------------------------
// Text and bytes
// ---------------------------------------------------------------------------
/// The text that stands for bytes in messages: what
/// `String::from_utf8_lossy` makes of them.
pub uninterp spec fn lossy_text(bytes: Seq<u8>) -> Seq<char>;

/// `String::from_utf8_lossy` gives valid UTF-8 back unchanged, and otherwise
/// replaces what is invalid. What it replaces is left to the name
/// [`lossy_text`].
#[verifier::external_body]
pub(crate) fn lossy(bytes: &[u8]) -> (text: String)
    ensures
        text@ == lossy_text(bytes@),
        valid_utf8(bytes@) ==> text@ == decode_utf8(bytes@),
{
    String::from_utf8_lossy(bytes).into_owned()
}

/// A copy of `bytes`.
pub fn copy_bytes(bytes: &[u8]) -> (copy: Vec<u8>)
    ensures
        copy@ == bytes@,
{
    vstd::slice::slice_to_vec(bytes)
}

/// The bytes of `text`.
pub fn bytes_of(text: &str) -> (bytes: Vec<u8>)
    ensures
        bytes@ == encode_utf8(text@),
{
    copy_bytes(text.as_bytes())
}

/// Appends `more` to `bytes`.
pub fn append_bytes(bytes: &mut Vec<u8>, more: &[u8])
    ensures
        final(bytes)@ == old(bytes)@ + more@,
{
    let ghost before = bytes@;
    for i in 0..more.len()
        invariant
            bytes@ == before + more@.take(i as int),
    {
        bytes.push(more[i]);
        proof {
            assert(before + more@.take(i + 1) =~= (before + more@.take(i as int)).push(
                more@[i as int],
            ));
        }
    }
    proof {
        assert(more@.take(more@.len() as int) =~= more@);
    }
}

/// Whether two byte slices hold the same bytes.
pub fn same_bytes(a: &[u8], b: &[u8]) -> (same: bool)
    ensures
        same == (a@ == b@),
{
    if a.len() != b.len() {
        return false;
    }
    for i in 0..a.len()
        invariant
            a@.len() == b@.len(),
            forall|k: int| 0 <= k < i ==> a@[k] == b@[k],
    {
        if a[i] != b[i] {
            return false;
        }
    }
    proof {
        assert(a@ =~= b@);
    }
    true
}

// ---------------------------------------------------------------------------
// Joining
// ---------------------------------------------------------------------------
/// Whether a path starts at the root.
pub open spec fn is_absolute(path: Seq<u8>) -> bool {
    path.len() > 0 && path[0] == 0x2f
}

/// `rel` looked up from the directory `base`: an absolute `rel` stands for
/// itself, any other is put behind `base` and a separating slash.
pub open spec fn joined(base: Seq<u8>, rel: Seq<u8>) -> Seq<u8> {
    if is_absolute(rel) {
        rel
    } else if base.len() == 0 || base.last() == 0x2f {
        base + rel
    } else {
        base.push(0x2f) + rel
    }
}

/// `rel` looked up from the directory `base`.
pub fn join_path(base: &[u8], rel: &[u8]) -> (path: Vec<u8>)
    ensures
        path@ == joined(base@, rel@),
{
    if rel.len() > 0 && rel[0] == 0x2f {
        return copy_bytes(rel);
    }
    let mut path = copy_bytes(base);
    if path.len() > 0 && path[path.len() - 1] != 0x2f {
        path.push(0x2f);
    }
    append_bytes(&mut path, rel);
    path
}

// ---------------------------------------------------------------------------
// Components
// ---------------------------------------------------------------------------
/// One component of a path.
#[derive(Debug, Clone, PartialEq, Eq)]
pub enum Component {
    /// The root that an absolute path starts at.
    Root,
    /// A leading `.` of a relative path.
    Cur,
    /// `..`.
    Parent,
    /// A name.
    Normal(Vec<u8>),
}

/// What a [`Component`] stands for.
pub enum ComponentView {
    Root,
    Cur,
    Parent,
    Normal(Seq<u8>),
}

impl View for Component {
    type V = ComponentView;

    open spec fn view(&self) -> ComponentView {
        match self {
            Component::Root => ComponentView::Root,
            Component::Cur => ComponentView::Cur,
            Component::Parent => ComponentView::Parent,
            Component::Normal(name) => ComponentView::Normal(name@),
        }
    }
}

/// The pieces of `s` between slashes. There is always at least one.
pub open spec fn pieces(s: Seq<u8>) -> Seq<Seq<u8>>
    decreases s.len(),
{
    if s.len() == 0 {
        seq![Seq::empty()]
    } else {
        let init = pieces(s.drop_last());
        if s.last() == 0x2f {
            init.push(Seq::empty())
        } else {
            init.drop_last().push(init.last().push(s.last()))
        }
    }
}

/// What the piece of a path at the given place between slashes stands for:
/// the empty piece before the first slash of an absolute path is the root, a
/// `.` counts only at the start of a relative path, and other empty pieces
/// do not count.
pub open spec fn piece_component(piece: Seq<u8>, first: bool, absolute: bool) -> Option<
    ComponentView,
> {
    if first && absolute {
        Some(ComponentView::Root)
    } else if piece.len() == 0 {
        None
    } else if piece == seq![0x2eu8] {
        if first {
            Some(ComponentView::Cur)
        } else {
            None
        }
    } else if piece == seq![0x2eu8, 0x2eu8] {
        Some(ComponentView::Parent)
    } else {
        Some(ComponentView::Normal(piece))
    }
}

/// The components that the first `n` pieces of a path stand for.
pub open spec fn piece_components(ps: Seq<Seq<u8>>, absolute: bool, n: nat) -> Seq<ComponentView>
    decreases n,
{
    if n == 0 {
        Seq::empty()
    } else {
        let init = piece_components(ps, absolute, (n - 1) as nat);
        match piece_component(ps[n - 1], n == 1, absolute) {
            Some(c) => init.push(c),
            None => init,
        }
    }
}

/// The components of a path.
pub open spec fn components_of(path: Seq<u8>) -> Seq<ComponentView> {
    piece_components(pieces(path), is_absolute(path), pieces(path).len())
}

proof fn lemma_pieces_nonempty(s: Seq<u8>)
    ensures
        pieces(s).len() >= 1,
    decreases s.len(),
{
    if s.len() > 0 {
        lemma_pieces_nonempty(s.drop_last());
    }
}

/// Splits `s` at every slash.
fn split_path(s: &[u8]) -> (found: Vec<Vec<u8>>)
    ensures
        views(found@) == pieces(s@),
{
    broadcast use group_views;

    let mut done: Vec<Vec<u8>> = Vec::new();
    let mut last: Vec<u8> = Vec::new();
    proof {
        assert(views(done@).push(last@) =~= pieces(s@.take(0)));
    }
    for i in 0..s.len()
        invariant
            views(done@).push(last@) == pieces(s@.take(i as int)),
    {
        broadcast use group_views;

        let b: u8 = s[i];
        proof {
            assert(s@.take(i + 1).drop_last() =~= s@.take(i as int));
            assert(views(done@).push(last@).drop_last() =~= views(done@));
        }
        if b == 0x2f {
            done.push(last);
            last = Vec::new();
        } else {
            last.push(b);
        }
        proof {
            assert(views(done@).push(last@) =~= pieces(s@.take(i + 1)));
        }
    }
    proof {
        assert(s@.take(s@.len() as int) =~= s@);
    }
    done.push(last);
    done
}

/// The component that one piece of a path stands for.
fn read_piece(piece: &[u8], first: bool, absolute: bool) -> (c: Option<Component>)
    ensures
        opt_view(c) == piece_component(piece@, first, absolute),
{
    if first && absolute {
        return Some(Component::Root);
    }
    if piece.len() == 0 {
        return None;
    }
    if piece.len() == 1 && piece[0] == 0x2e {
        proof {
            assert(piece@ =~= seq![0x2eu8]);
        }
        return if first {
            Some(Component::Cur)
        } else {
            None
        };
    }
    if piece.len() == 2 && piece[0] == 0x2e && piece[1] == 0x2e {
        proof {
            assert(piece@ =~= seq![0x2eu8, 0x2eu8]);
        }
        return Some(Component::Parent);
    }
    Some(Component::Normal(copy_bytes(piece)))
}

/// The components of `path`.
pub fn components(path: &[u8]) -> (found: Vec<Component>)
    ensures
        views(found@) == components_of(path@),
{
    broadcast use group_views;

    let absolute = path.len() > 0 && path[0] == 0x2f;
    let split = split_path(path);
    let ghost ps = pieces(path@);
    let mut found: Vec<Component> = Vec::new();
    for i in 0..split.len()
        invariant
            ps == views(split@),
            views(found@) == piece_components(ps, absolute, i as nat),
    {
        broadcast use group_views;

        if let Some(c) = read_piece(split[i].as_slice(), i == 0, absolute) {
            found.push(c);
        }
    }
    found
}

/// One component as path text.
pub open spec fn component_text(c: ComponentView) -> Seq<u8> {
    match c {
        ComponentView::Root => seq![0x2fu8],
        ComponentView::Cur => seq![0x2eu8],
        ComponentView::Parent => seq![0x2eu8, 0x2eu8],
        ComponentView::Normal(name) => name,
    }
}

/// The path that components spell, in normal form: a slash between each two
/// of them and no other.
pub open spec fn path_of(cs: Seq<ComponentView>) -> Seq<u8>
    decreases cs.len(),
{
    if cs.len() == 0 {
        Seq::empty()
    } else {
        joined(path_of(cs.drop_last()), component_text(cs.last()))
    }
}

/// One component as path text.
pub fn component_bytes(c: &Component) -> (bytes: Vec<u8>)
    ensures
        bytes@ == component_text(c@),
{
    match c {
        Component::Root => {
            let bytes: Vec<u8> = vec![0x2f];
            proof {
                assert(bytes@ =~= seq![0x2fu8]);
            }
            bytes
        },
        Component::Cur => {
            let bytes: Vec<u8> = vec![0x2e];
            proof {
                assert(bytes@ =~= seq![0x2eu8]);
            }
            bytes
        },
        Component::Parent => {
            let bytes: Vec<u8> = vec![0x2e, 0x2e];
            proof {
                assert(bytes@ =~= seq![0x2eu8, 0x2eu8]);
            }
            bytes
        },
        Component::Normal(name) => copy_bytes(name.as_slice()),
    }
}

/// The path that the first `n` of the components spell.
pub fn path_of_components(cs: &Vec<Component>, n: usize) -> (path: Vec<u8>)
    requires
        n <= cs@.len(),
    ensures
        path@ == path_of(views(cs@).take(n as int)),
{
    broadcast use group_views;

    let ghost all = views(cs@);
    let mut path: Vec<u8> = Vec::new();
    for i in 0..n
        invariant
            n <= cs@.len(),
            all == views(cs@),
            path@ == path_of(all.take(i as int)),
    {
        broadcast use group_views;

        proof {
            assert(all.take(i + 1).drop_last() =~= all.take(i as int));
            assert(all.take(i + 1).last() == cs@[i as int]@);
        }
        let text = component_bytes(&cs[i]);
        path = join_path(path.as_slice(), text.as_slice());
    }
    path
}

/// Whether `path` is `prefix` or lies under it, component by component.
pub open spec fn under(path: Seq<u8>, prefix: Seq<u8>) -> bool {
    components_of(prefix).len() <= components_of(path).len() && components_of(path).take(
        components_of(prefix).len() as int,
    ) == components_of(prefix)
}

/// Whether two components are the same.
fn same_component(a: &Component, b: &Component) -> (same: bool)
    ensures
        same == (a@ == b@),
{
    match (a, b) {
        (Component::Root, Component::Root) => true,
        (Component::Cur, Component::Cur) => true,
        (Component::Parent, Component::Parent) => true,
        (Component::Normal(x), Component::Normal(y)) => same_bytes(x.as_slice(), y.as_slice()),
        _ => false,
    }
}

/// Whether `path` is `prefix` or lies under it. A name that merely starts
/// like the prefix's last one is not under it.
pub fn starts_with(path: &[u8], prefix: &[u8]) -> (yes: bool)
    ensures
        yes == under(path@, prefix@),
{
    broadcast use group_views;

    let ours = components(path);
    let theirs = components(prefix);
    if theirs.len() > ours.len() {
        return false;
    }
    for i in 0..theirs.len()
        invariant
            theirs@.len() <= ours@.len(),
            views(ours@) == components_of(path@),
            views(theirs@) == components_of(prefix@),
            forall|k: int| 0 <= k < i ==> views(ours@)[k] == views(theirs@)[k],
    {
        broadcast use group_views;

        if !same_component(&ours[i], &theirs[i]) {
            proof {
                assert(views(ours@).take(theirs@.len() as int)[i as int] != views(
                    theirs@,
                )[i as int]);
            }
            return false;
        }
    }
    proof {
        assert(views(ours@).take(theirs@.len() as int) =~= views(theirs@));
    }
    true
}

// ---------------------------------------------------------------------------
// What holds of every path
// ---------------------------------------------------------------------------
/// Whether `name` names an entry of a directory.
pub open spec fn is_name(name: Seq<u8>) -> bool {
    name.len() > 0 && !name.contains(0x2f) && name != seq![0x2eu8] && name != seq![0x2eu8, 0x2eu8]
}

proof fn lemma_pieces_add(s: Seq<u8>, t: Seq<u8>)
    requires
        !t.contains(0x2f),
    ensures
        pieces(s + t) == pieces(s).drop_last().push(pieces(s).last() + t),
    decreases t.len(),
{
    lemma_pieces_nonempty(s);
    if t.len() == 0 {
        assert(s + t =~= s);
        assert(pieces(s).last() + t =~= pieces(s).last());
        assert(pieces(s).drop_last().push(pieces(s).last()) =~= pieces(s));
    } else {
        let init = t.drop_last();
        assert forall|k: int| 0 <= k < init.len() implies init[k] != 0x2f by {
            assert(init[k] == t[k]);
        }
        lemma_pieces_add(s, init);
        assert((s + t).drop_last() =~= s + init);
        assert(t[t.len() - 1] != 0x2f);
        let before = pieces(s).drop_last().push(pieces(s).last() + init);
        assert(before.drop_last() =~= pieces(s).drop_last());
        assert((pieces(s).last() + init).push(t.last()) =~= pieces(s).last() + t);
    }
}

proof fn lemma_piece_components_same(
    a: Seq<Seq<u8>>,
    b: Seq<Seq<u8>>,
    absolute: bool,
    n: nat,
)
    requires
        n <= a.len(),
        n <= b.len(),
        forall|k: int| 0 <= k < n ==> a[k] == b[k],
    ensures
        piece_components(a, absolute, n) == piece_components(b, absolute, n),
    decreases n,
{
    if n > 0 {
        lemma_piece_components_same(a, b, absolute, (n - 1) as nat);
    }
}

/// Whether a component leads from a directory to an entry or to its parent.
pub open spec fn is_step(c: ComponentView) -> bool {
    match c {
        ComponentView::Parent => true,
        ComponentView::Normal(name) => is_name(name),
        _ => false,
    }
}

/// A directory followed by a step has one component more than the directory.
pub proof fn joining_a_step_adds_a_component(dir: Seq<u8>, c: ComponentView)
    requires
        is_step(c),
    ensures
        components_of(joined(dir, component_text(c))) == components_of(dir).push(c),
{
    let name = component_text(c);
    assert(name.len() > 0 && !name.contains(0x2f) && name != seq![0x2eu8]) by {
        if c is Parent {
            assert(seq![0x2eu8].len() == 1);
        }
    }
    let whole = joined(dir, name);
    let ps = pieces(dir);
    let qs = pieces(whole);
    let absolute = is_absolute(dir);
    lemma_pieces_nonempty(dir);
    assert(name[0] != 0x2f);
    assert(is_absolute(whole) == absolute);
    if dir.len() == 0 {
        lemma_pieces_add(dir, name);
        assert(whole =~= dir + name);
        assert(pieces(dir) =~= seq![Seq::empty()]);
        assert(qs =~= seq![name]) by {
            assert(Seq::<u8>::empty() + name =~= name);
        }
        reveal_with_fuel(piece_components, 2);
    } else if dir.last() == 0x2f {
        lemma_pieces_add(dir, name);
        lemma_pieces_nonempty(dir.drop_last());
        assert(ps.last() == Seq::<u8>::empty());
        assert(Seq::<u8>::empty() + name =~= name);
        assert(qs =~= ps.drop_last().push(name));
        let m = (ps.len() - 1) as nat;
        assert(m >= 1);
        lemma_piece_components_same(ps, qs, absolute, m);
        assert(piece_components(ps, absolute, ps.len()) == piece_components(ps, absolute, m));
    } else {
        let slashed = dir.push(0x2f);
        assert(slashed.drop_last() =~= dir);
        assert(pieces(slashed) == ps.push(Seq::empty()));
        lemma_pieces_add(slashed, name);
        assert(Seq::<u8>::empty() + name =~= name);
        assert(ps.push(Seq::empty()).drop_last() =~= ps);
        assert(qs =~= ps.push(name));
        lemma_piece_components_same(ps, qs, absolute, ps.len());
    }
}

/// An entry of a directory has one component more than the directory.
pub proof fn joining_a_name_adds_a_component(dir: Seq<u8>, name: Seq<u8>)
    requires
        is_name(name),
    ensures
        components_of(joined(dir, name)) == components_of(dir).push(ComponentView::Normal(name)),
{
    joining_a_step_adds_a_component(dir, ComponentView::Normal(name));
}

/// Every entry of a directory is under the directory.
pub proof fn entries_are_under_their_directory(dir: Seq<u8>, name: Seq<u8>)
    requires
        is_name(name),
    ensures
        under(joined(dir, name), dir),
        under(dir, dir),
{
    joining_a_name_adds_a_component(dir, name);
    let cs = components_of(dir);
    assert(cs.push(ComponentView::Normal(name)).take(cs.len() as int) =~= cs);
    assert(cs.take(cs.len() as int) =~= cs);
}

/// What is under a directory that is under another is under that one.
pub proof fn under_is_transitive(a: Seq<u8>, b: Seq<u8>, c: Seq<u8>)
    requires
        under(a, b),
        under(b, c),
    ensures
        under(a, c),
{
    let n = components_of(c).len() as int;
    assert(components_of(a).take(components_of(b).len() as int).take(n) =~= components_of(a).take(
        n,
    ));
}

/// Of two entries of one directory neither is under the other, even where
/// one name starts like the other.
pub proof fn siblings_are_not_under_each_other(dir: Seq<u8>, a: Seq<u8>, b: Seq<u8>)
    requires
        is_name(a),
        is_name(b),
        a != b,
    ensures
        !under(joined(dir, a), joined(dir, b)),
{
    joining_a_name_adds_a_component(dir, a);
    joining_a_name_adds_a_component(dir, b);
    let cs = components_of(dir);
    let n = cs.len() as int;
    let left = cs.push(ComponentView::Normal(a));
    let right = cs.push(ComponentView::Normal(b));
    if left.take(n + 1) == right {
        assert(left.take(n + 1)[n] == right[n]);
    }
}

// ---------------------------------------------------------------------------
// Absolute paths
// ---------------------------------------------------------------------------
/// Whether a path ends with a slash.
pub open spec fn is_slashed(path: Seq<u8>) -> bool {
    path.len() > 0 && path.last() == 0x2f
}

/// `dir` followed by the given components.
pub open spec fn extended(dir: Seq<u8>, cs: Seq<ComponentView>) -> Seq<u8>
    decreases cs.len(),
{
    if cs.len() == 0 {
        dir
    } else {
        joined(extended(dir, cs.drop_last()), component_text(cs.last()))
    }
}

/// The root that an absolute path starts at. Exactly two leading slashes may
/// mean something of their own, and stay; any other number stands for one.
pub open spec fn root_text(path: Seq<u8>) -> Seq<u8> {
    if path.len() >= 2 && path[1] == 0x2f && !(path.len() >= 3 && path[2] == 0x2f) {
        seq![0x2fu8, 0x2fu8]
    } else {
        seq![0x2fu8]
    }
}

/// The components of a path without the root, or the `.`, that it starts
/// with.
pub open spec fn steps_of(path: Seq<u8>) -> Seq<ComponentView> {
    let cs = components_of(path);
    if cs.len() > 0 && (cs[0] is Root || cs[0] is Cur) {
        cs.skip(1)
    } else {
        cs
    }
}

/// An absolute path without redundant slashes and `.` components. `..` stays,
/// and so does a slash at the end.
pub open spec fn absolute_text(path: Seq<u8>) -> Seq<u8> {
    let text = extended(root_text(path), steps_of(path));
    if is_slashed(path) {
        joined(text, Seq::empty())
    } else {
        text
    }
}

/// Whether a path is absolute and without redundant slashes and `.`
/// components.
pub open spec fn is_resolved(path: Seq<u8>) -> bool {
    is_absolute(path) && absolute_text(path) == path
}

/// Whether `cs` ends with `end`.
pub open spec fn ends_with(cs: Seq<ComponentView>, end: Seq<ComponentView>) -> bool {
    end.len() <= cs.len() && cs.skip(cs.len() - end.len()) == end
}

/// Whether `resolved` is `path` made absolute, from some current directory
/// where `path` is relative.
pub open spec fn resolves_to(path: Seq<u8>, resolved: Seq<u8>) -> bool {
    &&& is_resolved(resolved)
    &&& is_absolute(path) ==> resolved == absolute_text(path)
    &&& ends_with(components_of(resolved), steps_of(path))
    &&& is_slashed(resolved) == (is_slashed(path) || components_of(resolved).len() == 1)
}

proof fn lemma_pieces_plain(s: Seq<u8>)
    ensures
        forall|k: int| 0 <= k < pieces(s).len() ==> !(#[trigger] pieces(s)[k]).contains(0x2f),
    decreases s.len(),
{
    if s.len() > 0 {
        lemma_pieces_nonempty(s.drop_last());
        lemma_pieces_plain(s.drop_last());
        let init = pieces(s.drop_last());
        if s.last() != 0x2f {
            let grown = init.last().push(s.last());
            assert(!init[init.len() - 1].contains(0x2f));
            assert forall|j: int| 0 <= j < grown.len() implies grown[j] != 0x2f by {
                if j < init.last().len() {
                    assert(init.last()[j] != 0x2f);
                }
            }
        }
    }
}

proof fn lemma_piece_steps(ps: Seq<Seq<u8>>, absolute: bool, n: nat)
    requires
        n <= ps.len(),
        forall|k: int| 0 <= k < ps.len() ==> !(#[trigger] ps[k]).contains(0x2f),
    ensures
        absolute && n > 0 ==> piece_components(ps, absolute, n).len() > 0 && piece_components(
            ps,
            absolute,
            n,
        )[0] is Root,
        forall|k: int|
            0 <= k < piece_components(ps, absolute, n).len() ==> is_step(
                #[trigger] piece_components(ps, absolute, n)[k],
            ) || (k == 0 && (piece_components(ps, absolute, n)[k] is Root || piece_components(
                ps,
                absolute,
                n,
            )[k] is Cur)),
    decreases n,
{
    if n > 0 {
        lemma_piece_steps(ps, absolute, (n - 1) as nat);
        reveal_with_fuel(piece_components, 2);
        assert(!ps[n - 1].contains(0x2f));
    }
}

/// Behind the root, or the `.`, that a path may start with come only steps.
proof fn lemma_steps(path: Seq<u8>)
    ensures
        forall|k: int| 0 <= k < steps_of(path).len() ==> is_step(#[trigger] steps_of(path)[k]),
        is_absolute(path) ==> components_of(path) == seq![ComponentView::Root] + steps_of(path),
{
    lemma_pieces_nonempty(path);
    lemma_pieces_plain(path);
    lemma_piece_steps(pieces(path), is_absolute(path), pieces(path).len());
    let cs = components_of(path);
    assert forall|k: int| 0 <= k < steps_of(path).len() implies is_step(
        #[trigger] steps_of(path)[k],
    ) by {
        if steps_of(path) == cs {
            assert(is_step(cs[k]) || k == 0);
        } else {
            assert(steps_of(path)[k] == cs[k + 1]);
        }
    }
    if is_absolute(path) {
        assert(cs =~= seq![ComponentView::Root] + cs.skip(1));
    }
}

proof fn lemma_root(path: Seq<u8>)
    ensures
        components_of(root_text(path)) == seq![ComponentView::Root],
        is_absolute(root_text(path)),
        root_text(path).last() == 0x2f,
{
    let root = root_text(path);
    reveal_with_fuel(pieces, 3);
    reveal_with_fuel(piece_components, 4);
    assert(root.len() == 1 || root.len() == 2);
    assert(root.drop_last().len() == root.len() - 1);
    let none = Seq::<u8>::empty();
    if root.len() == 1 {
        assert(pieces(root) =~= seq![none, none]);
    } else {
        assert(root.drop_last().last() == 0x2f);
        assert(pieces(root) =~= seq![none, none, none]);
    }
    assert(components_of(root) =~= seq![ComponentView::Root]);
}

proof fn lemma_extended(root: Seq<u8>, cs: Seq<ComponentView>)
    requires
        is_absolute(root),
        root.last() == 0x2f,
        components_of(root) == seq![ComponentView::Root],
        forall|k: int| 0 <= k < cs.len() ==> is_step(#[trigger] cs[k]),
    ensures
        components_of(extended(root, cs)) == seq![ComponentView::Root] + cs,
        extended(root, cs).len() >= root.len(),
        extended(root, cs).take(root.len() as int) == root,
        cs.len() > 0 ==> extended(root, cs).len() > root.len() && extended(
            root,
            cs,
        )[root.len() as int] != 0x2f && extended(root, cs).last() != 0x2f,
    decreases cs.len(),
{
    if cs.len() == 0 {
        assert(seq![ComponentView::Root] + cs =~= seq![ComponentView::Root]);
        assert(root.take(root.len() as int) =~= root);
    } else {
        let init = cs.drop_last();
        let c = cs.last();
        assert(is_step(cs[cs.len() - 1]));
        lemma_extended(root, init);
        let before = extended(root, init);
        let text = component_text(c);
        joining_a_step_adds_a_component(before, c);
        assert((seq![ComponentView::Root] + init).push(c) =~= seq![ComponentView::Root] + cs);
        assert(text.len() > 0);
        assert(text[0] != 0x2f && text.last() != 0x2f) by {
            if c is Normal {
                assert(text.contains(text[0]) && text.contains(text.last()));
            }
        }
        let whole = joined(before, text);
        assert(whole.take(root.len() as int) =~= before.take(root.len() as int));
        assert(whole.last() == text.last());
        if init.len() == 0 {
            assert(whole[root.len() as int] == text[0]);
        } else {
            assert(whole[root.len() as int] == before[root.len() as int]);
        }
    }
}

/// A slash at the end of a path adds no component.
pub proof fn slashes_at_the_end_add_no_component(path: Seq<u8>)
    requires
        path.len() > 0,
    ensures
        components_of(joined(path, Seq::empty())) == components_of(path),
{
    let whole = joined(path, Seq::empty());
    if path.last() == 0x2f {
        assert(whole =~= path);
    } else {
        let ps = pieces(path);
        let qs = pieces(whole);
        lemma_pieces_nonempty(path);
        assert(whole =~= path.push(0x2f));
        assert(whole.drop_last() =~= path);
        assert(qs == ps.push(Seq::empty()));
        lemma_piece_components_same(ps, qs, is_absolute(path), ps.len());
    }
}

/// What an absolute path is made to does not change when it is made absolute
/// again, and has the components of the path.
pub proof fn absolute_paths_resolve_once(path: Seq<u8>)
    requires
        is_absolute(path),
    ensures
        resolves_to(path, absolute_text(path)),
        components_of(absolute_text(path)) == components_of(path),
        absolute_text(absolute_text(path)) == absolute_text(path),
{
    let root = root_text(path);
    let steps = steps_of(path);
    let text = extended(root, steps);
    let whole = absolute_text(path);
    lemma_steps(path);
    lemma_root(path);
    lemma_extended(root, steps);
    slashes_at_the_end_add_no_component(text);
    let cs = components_of(path);
    assert(components_of(whole) == cs);
    assert(steps_of(whole) == steps);
    assert(root_text(whole) == root) by {
        assert(whole.take(root.len() as int) =~= root);
        assert(root[0] == whole[0] && (root.len() == 2 ==> root[1] == whole[1]));
        if steps.len() > 0 {
            assert(whole[root.len() as int] == text[root.len() as int]);
        } else {
            assert(whole =~= root);
        }
    }
    if steps.len() == 0 {
        assert(text == root);
        assert(joined(root, Seq::empty()) =~= root);
    } else if is_slashed(path) {
        assert(whole =~= text.push(0x2f));
    }
    assert(cs.skip(cs.len() - steps.len()) =~= steps);
}

/// Whether components are those of an absolute path: the root and steps from
/// there.
pub open spec fn from_the_root(cs: Seq<ComponentView>) -> bool {
    cs.len() > 0 && cs[0] is Root && forall|k: int| 0 < k < cs.len() ==> is_step(#[trigger] cs[k])
}

/// The components of every absolute path are the root and steps from there.
pub proof fn absolute_paths_start_at_the_root(path: Seq<u8>)
    requires
        is_absolute(path),
    ensures
        from_the_root(components_of(path)),
{
    lemma_steps(path);
    let cs = components_of(path);
    assert forall|k: int| 0 < k < cs.len() implies is_step(#[trigger] cs[k]) by {
        assert(cs[k] == steps_of(path)[k - 1]);
    }
}

/// The path that components spell has those components.
pub proof fn spelled_components_read_back(cs: Seq<ComponentView>)
    requires
        from_the_root(cs),
    ensures
        components_of(path_of(cs)) == cs,
        is_absolute(path_of(cs)),
    decreases cs.len(),
{
    let init = cs.drop_last();
    if cs.len() == 1 {
        assert(path_of(init) =~= Seq::empty());
        assert(path_of(cs) =~= seq![0x2fu8]);
        assert(root_text(Seq::empty()) =~= seq![0x2fu8]);
        lemma_root(Seq::empty());
        assert(cs =~= seq![ComponentView::Root]);
    } else {
        assert forall|k: int| 0 < k < init.len() implies is_step(#[trigger] init[k]) by {
            assert(init[k] == cs[k]);
        }
        spelled_components_read_back(init);
        assert(is_step(cs[cs.len() - 1]));
        joining_a_step_adds_a_component(path_of(init), cs.last());
        assert(init.push(cs.last()) =~= cs);
        let text = component_text(cs.last());
        assert(text.len() > 0 && text[0] != 0x2f) by {
            if cs.last() is Normal {
                assert(text.contains(text[0]));
            }
        }
        assert(path_of(cs)[0] == path_of(init)[0]);
    }
}

/// A relative path is looked up from the directory, an absolute one is not.
pub proof fn absolute_paths_are_looked_up_nowhere(base: Seq<u8>, rel: Seq<u8>)
    ensures
        rel.len() > 0 && rel[0] == 0x2f ==> joined(base, rel) == rel,
        rel.len() == 0 || rel[0] != 0x2f ==> joined(base, rel) == base + (if base.len() > 0
            && base.last() != 0x2f {
            seq![0x2fu8]
        } else {
            Seq::empty()
        }) + rel,
{
    assert(base + Seq::<u8>::empty() =~= base);
    assert(base.push(0x2f) =~= base + seq![0x2fu8]);
}

/// A path is under another exactly if its components start with those of the
/// other.
pub proof fn under_compares_component_by_component(path: Seq<u8>, prefix: Seq<u8>)
    ensures
        under(path, prefix) <==> components_of(prefix).len() <= components_of(path).len() && forall|
            k: int,
        |
            0 <= k < components_of(prefix).len() ==> #[trigger] components_of(prefix)[k]
                == components_of(path)[k],
{
    let ours = components_of(path);
    let theirs = components_of(prefix);
    if under(path, prefix) {
        assert forall|k: int| 0 <= k < theirs.len() implies #[trigger] theirs[k] == ours[k] by {
            assert(ours.take(theirs.len() as int)[k] == theirs[k]);
        }
    } else if theirs.len() <= ours.len() && forall|k: int|
        0 <= k < theirs.len() ==> #[trigger] theirs[k] == ours[k] {
        assert(ours.take(theirs.len() as int) =~= theirs);
    }
}

/// The empty path has no components, the root has itself, and a name that is
/// entered after `.` is one more component: `.` counts only where a relative
/// path starts with it.
pub proof fn dots_count_only_at_the_start(dir: Seq<u8>)
    ensures
        components_of(Seq::empty()).len() == 0,
        components_of(seq![0x2fu8]) == seq![ComponentView::Root],
        components_of(seq![0x2eu8]) == seq![ComponentView::Cur],
        dir.len() > 0 ==> components_of(joined(dir, seq![0x2eu8])) == components_of(dir),
{
    let none = Seq::<u8>::empty();
    let dot = seq![0x2eu8];
    assert(pieces(none) =~= seq![none]);
    reveal_with_fuel(piece_components, 2);
    assert(components_of(none) =~= Seq::empty());
    assert(root_text(none) =~= seq![0x2fu8]);
    lemma_root(none);
    lemma_pieces_add(none, dot);
    assert(none + dot =~= dot);
    assert(pieces(dot) =~= seq![dot]);
    assert(components_of(dot) =~= seq![ComponentView::Cur]);
    if dir.len() > 0 {
        let whole = joined(dir, dot);
        let ps = pieces(dir);
        let qs = pieces(whole);
        let absolute = is_absolute(dir);
        lemma_pieces_nonempty(dir);
        assert(whole[0] == dir[0]);
        if dir.last() == 0x2f {
            lemma_pieces_add(dir, dot);
            lemma_pieces_nonempty(dir.drop_last());
            assert(ps.last() =~= none);
            assert(qs =~= ps.drop_last().push(dot));
            let m = (ps.len() - 1) as nat;
            lemma_piece_components_same(ps, qs, absolute, m);
        } else {
            let slashed = dir.push(0x2f);
            assert(slashed.drop_last() =~= dir);
            lemma_pieces_add(slashed, dot);
            assert(ps.push(none).drop_last() =~= ps);
            assert(qs =~= ps.push(dot));
            lemma_piece_components_same(ps, qs, absolute, ps.len());
        }
    }
}

} // verus!
