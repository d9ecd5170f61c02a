//! Parsing and validation of the `[HOST:]PATH` sync target.

use crate::paths::{
    absolute_paths_start_at_the_root, absolute_text, bytes_of, component_bytes, component_text,
    components, components_of, copy_bytes, is_absolute, is_step, join_path, joined,
    joining_a_step_adds_a_component, lossy, lossy_text, path_of, path_of_components, resolves_to,
    spelled_components_read_back, starts_with, under, Component, ComponentView,
};
use crate::text::{
    chars_of, count_before, debug_text, find_char, group_views, has_char, lemma_count_before,
    lemma_count_before_is, quoted, string_of, views,
};
use vstd::prelude::*;
use vstd::utf8::{
    decode_first_scalar, decode_utf8, decode_utf8_encode_utf8, encode_utf8,
    encode_utf8_decode_utf8, encode_utf8_valid_utf8, valid_utf8,
};

verus! {

/// A sync destination: either a local filesystem path or a remote
/// (ssh-reachable) `HOST:PATH`.
#[derive(Debug, Clone, PartialEq, Eq)]
pub enum Target {
    Local(Vec<u8>),
    Remote { host: String, path: String },
}

/// What a [`Target`] stands for.
pub enum TargetView {
    Local(Seq<u8>),
    Remote { host: Seq<char>, path: Seq<char> },
}

impl View for Target {
    type V = TargetView;

    open spec fn view(&self) -> TargetView {
        match self {
            Target::Local(path) => TargetView::Local(path@),
            Target::Remote { host, path } => TargetView::Remote { host: host@, path: path@ },
        }
    }
}

/// Why a sync target is refused.
#[derive(Debug, Clone, PartialEq, Eq)]
pub enum TargetError {
    /// The target is the empty string.
    Empty,
    /// A remote target names a host and no path.
    NoRemotePath { target: String },
    /// A local path cannot be made absolute.
    Unresolvable { target: String, cause: String },
    /// A local target lies inside the repository.
    InsideRepository { path: Vec<u8>, repo_root: Vec<u8> },
}

/// The name of a host and a path on it, as one text.
pub open spec fn remote_text(host: Seq<char>, path: Seq<char>) -> Seq<char> {
    host.push(':') + path
}

/// Whether a target names a remote host: there is a `:`, and what comes
/// before the first one is not empty and contains no `/`.
pub open spec fn names_host(s: Seq<char>) -> bool {
    let n = count_before(s, ':');
    0 < n < s.len() && !s.take(n as int).contains('/')
}

/// The host that a remote target names.
pub open spec fn host_of(s: Seq<char>) -> Seq<char> {
    s.take(count_before(s, ':') as int)
}

/// The path on the host that a remote target names.
pub open spec fn remote_path_of(s: Seq<char>) -> Seq<char> {
    s.skip(count_before(s, ':') as int + 1)
}

/// What `parsed` is for the target text `s`, where `local` says what it is
/// if `s` is a local path.
pub open spec fn parses_to(
    s: Seq<char>,
    parsed: Result<Target, TargetError>,
    local: bool,
) -> bool {
    if s.len() == 0 {
        parsed == Err::<Target, TargetError>(TargetError::Empty)
    } else if !names_host(s) {
        local
    } else if remote_path_of(s).len() == 0 {
        parsed matches Err(TargetError::NoRemotePath { target }) && target@ == s
    } else {
        parsed matches Ok(t) && t@ == (TargetView::Remote {
            host: host_of(s),
            path: remote_path_of(s),
        })
    }
}

/// What `parsed` is for the target text `s`. A local path comes out absolute;
/// only a relative one can fail to, where the current directory cannot be
/// told.
pub open spec fn may_parse_to(s: Seq<char>, parsed: Result<Target, TargetError>) -> bool {
    parses_to(
        s,
        parsed,
        match parsed {
            Ok(Target::Local(path)) => resolves_to(encode_utf8(s), path@),
            Err(TargetError::Unresolvable { target, .. }) => target@ == s && !is_absolute(
                encode_utf8(s),
            ),
            _ => false,
        },
    )
}

/// `std::path::absolute` makes a path absolute, without looking at the file
/// system. It drops redundant slashes and `.` components, keeps `..`, a slash
/// at the end and exactly two leading slashes, and puts a relative path
/// behind the current directory, which the system reports in that same form.
/// It fails only on an empty path or where the current directory cannot be
/// told. Which directory that is, and whether it can be told, rests on the
/// process and is not stated.
#[verifier::external_body]
fn absolute_path(s: &str) -> (path: Result<Vec<u8>, String>)
    ensures
        match path {
            Ok(p) => resolves_to(encode_utf8(s@), p@),
            Err(_) => !is_absolute(encode_utf8(s@)),
        },
{
    match std::path::absolute(s) {
        Ok(path) => Ok(path.into_os_string().into_encoded_bytes()),
        Err(err) => Err(err.to_string()),
    }
}

/// The length of the host's name, if a target names one.
fn host_len(s: &[char]) -> (len: Option<usize>)
    ensures
        match len {
            Some(n) => names_host(s@) && n == count_before(s@, ':') && n < s@.len(),
            None => !names_host(s@),
        },
{
    let n: usize = find_char(s, ':');
    if n == 0 || n >= s.len() {
        return None;
    }
    let host = vstd::slice::slice_subrange(s, 0, n);
    proof {
        assert(host@ =~= s@.take(n as int));
    }
    if has_char(host, '/') {
        None
    } else {
        Some(n)
    }
}

impl Target {
    /// Parse a `[HOST:]PATH` target, using scp-like rules: if the argument
    /// contains a `:` and the part before the first `:` is non-empty and
    /// contains no `/`, it names a remote host (which may include `user@`).
    /// Otherwise the whole argument is a local path, resolved relative to
    /// the current directory.
    pub fn parse(s: &str) -> (parsed: Result<Target, TargetError>)
        ensures
            may_parse_to(s@, parsed),
    {
        let chars = chars_of(s);
        let resolved = if chars.len() > 0 && host_len(chars.as_slice()).is_none() {
            absolute_path(s)
        } else {
            // Not a local path: nothing is looked up.
            Err(String::new())
        };
        Target::parse_resolved(s, resolved)
    }

    /// [`Target::parse`], where `resolved` is what a local path resolves to,
    /// or why it does not.
    pub fn parse_resolved(s: &str, resolved: Result<Vec<u8>, String>) -> (parsed: Result<
        Target,
        TargetError,
    >)
        ensures
            parses_to(
                s@,
                parsed,
                match resolved {
                    Ok(path) => parsed == Ok::<Target, TargetError>(Target::Local(path)),
                    Err(why) => parsed matches Err(TargetError::Unresolvable { target, cause })
                        && target@ == s@ && cause == why,
                },
            ),
    {
        let chars = chars_of(s);
        if chars.len() == 0 {
            return Err(TargetError::Empty);
        }
        if let Some(n) = host_len(chars.as_slice()) {
            let host = vstd::slice::slice_subrange(chars.as_slice(), 0, n);
            let path = vstd::slice::slice_subrange(chars.as_slice(), n + 1, chars.len());
            proof {
                assert(host@ =~= s@.take(n as int));
                assert(path@ =~= s@.skip(n + 1));
            }
            if path.len() == 0 {
                return Err(TargetError::NoRemotePath { target: s.to_string() });
            }
            return Ok(Target::Remote { host: string_of(host), path: string_of(path) });
        }
        match resolved {
            Ok(path) => Ok(Target::Local(path)),
            Err(cause) => Err(TargetError::Unresolvable { target: s.to_string(), cause }),
        }
    }

    /// The destination argument to pass to rsync.
    pub fn rsync_dest(&self) -> (dest: Vec<u8>)
        ensures
            dest@ == (match self@ {
                TargetView::Local(path) => path,
                TargetView::Remote { host, path } => encode_utf8(remote_text(host, path)),
            }),
    {
        match self {
            Target::Local(path) => copy_bytes(path.as_slice()),
            Target::Remote { host, path } => {
                let text = remote_string(host, path);
                bytes_of(text.as_str())
            },
        }
    }

    /// The target as `[HOST:]PATH`.
    pub fn display(&self) -> (text: String)
        ensures
            text@ == target_text(self@),
            is_text(self@) ==> text@ == plain_text(self@),
    {
        match self {
            Target::Local(path) => lossy(path.as_slice()),
            Target::Remote { host, path } => remote_string(host, path),
        }
    }

    /// Refuse targets that would sync the repository into itself: a local
    /// destination at or under the repo root would make every sync generate
    /// new changes (and recursively copy the replica), looping forever.
    /// `resolved` is where a local target leads (see [`Resolution`]).
    pub fn validate_against_repo(&self, resolved: &[u8], repo_root: &[u8]) -> (valid: Result<
        (),
        TargetError,
    >)
        ensures
            match valid {
                Ok(_) => self@ is Remote || !under(resolved@, repo_root@),
                Err(e) => under(resolved@, repo_root@) && (e matches TargetError::InsideRepository {
                    path,
                    repo_root: root,
                } && self@ == TargetView::Local(path@) && root@ == repo_root@),
            },
    {
        match self {
            Target::Remote { .. } => Ok(()),
            Target::Local(path) => {
                if starts_with(resolved, repo_root) {
                    Err(
                        TargetError::InsideRepository {
                            path: copy_bytes(path.as_slice()),
                            repo_root: copy_bytes(repo_root),
                        },
                    )
                } else {
                    Ok(())
                }
            },
        }
    }
}

/// A target as `[HOST:]PATH`.
pub open spec fn target_text(target: TargetView) -> Seq<char> {
    match target {
        TargetView::Local(path) => lossy_text(path),
        TargetView::Remote { host, path } => remote_text(host, path),
    }
}

/// Whether a target is text: always, but for a local path that is not UTF-8.
pub open spec fn is_text(target: TargetView) -> bool {
    match target {
        TargetView::Local(path) => valid_utf8(path),
        TargetView::Remote { .. } => true,
    }
}

/// A target that is text, as `[HOST:]PATH`.
pub open spec fn plain_text(target: TargetView) -> Seq<char> {
    match target {
        TargetView::Local(path) => decode_utf8(path),
        TargetView::Remote { host, path } => remote_text(host, path),
    }
}

/// `HOST:PATH`.
fn remote_string(host: &String, path: &String) -> (text: String)
    ensures
        text@ == remote_text(host@, path@),
{
    let mut text = host.clone();
    text.push(':');
    text.append(path.as_str());
    text
}

impl TargetError {
    /// A one-line description.
    pub fn message(&self) -> (text: String)
        ensures
            text@ == (match self {
                TargetError::Empty => "sync target must not be empty"@,
                TargetError::NoRemotePath { target } => "remote target "@ + debug_text(target@)
                    + " must include a path after the colon"@,
                TargetError::Unresolvable { target, .. } => "cannot resolve local target path "@
                    + debug_text(target@),
                TargetError::InsideRepository { path, repo_root } => "sync target "@ + lossy_text(
                    path@,
                ) + " is inside the repository "@ + lossy_text(repo_root@)
                    + "; syncing a repo into itself would loop forever"@,
            }),
    {
        match self {
            TargetError::Empty => "sync target must not be empty".to_string(),
            TargetError::NoRemotePath { target } => {
                let mut text = "remote target ".to_string();
                text.append(quoted(target.as_str()).as_str());
                text.append(" must include a path after the colon");
                text
            },
            TargetError::Unresolvable { target, .. } => {
                let mut text = "cannot resolve local target path ".to_string();
                text.append(quoted(target.as_str()).as_str());
                text
            },
            TargetError::InsideRepository { path, repo_root } => {
                let mut text = "sync target ".to_string();
                text.append(lossy(path.as_slice()).as_str());
                text.append(" is inside the repository ");
                text.append(lossy(repo_root.as_slice()).as_str());
                text.append("; syncing a repo into itself would loop forever");
                text
            },
        }
    }
}

// ---------------------------------------------------------------------------
// Where a local target leads
// ---------------------------------------------------------------------------
/// A path without its last component; the root and the empty path have none
/// to lose.
pub open spec fn popped(path: Seq<u8>) -> Seq<u8> {
    let cs = components_of(path);
    if cs.len() == 0 || cs.last() is Root {
        path
    } else {
        path_of(cs.drop_last())
    }
}

/// `path` followed by one more component, with `.` and `..` applied to the
/// text alone.
pub open spec fn stepped(path: Seq<u8>, c: ComponentView) -> Seq<u8> {
    match c {
        ComponentView::Cur => path,
        ComponentView::Parent => popped(path),
        _ => joined(path, component_text(c)),
    }
}

/// `path` followed by the given components, with `.` and `..` applied to the
/// text alone.
pub open spec fn lexically(path: Seq<u8>, cs: Seq<ComponentView>) -> Seq<u8>
    decreases cs.len(),
{
    if cs.len() == 0 {
        path
    } else {
        lexically(stepped(path, cs[0]), cs.skip(1))
    }
}

/// Best-effort resolution of an absolute path for ancestry checks: resolve
/// symlinks in the longest existing ancestor (the target itself may not
/// exist yet), then lexically apply any remaining `.`/`..` components.
///
/// [`Resolution::question`] gives the next path to canonicalize, and
/// [`Resolution::answer`] takes what it is. When there is nothing left to
/// ask, [`Resolution::finish`] gives the path.
#[derive(Debug, Clone)]
pub struct Resolution {
    resolved: Vec<u8>,
    rest: Vec<Component>,
    first: bool,
    asking: bool,
}

/// How far a [`Resolution`] has come.
pub struct ResolutionView {
    /// The path so far.
    pub resolved: Seq<u8>,
    /// The components still to come.
    pub rest: Seq<ComponentView>,
    /// Nothing has been resolved yet.
    pub first: bool,
    /// Every path asked about so far exists.
    pub asking: bool,
}

impl View for Resolution {
    type V = ResolutionView;

    closed spec fn view(&self) -> ResolutionView {
        ResolutionView {
            resolved: self.resolved@,
            rest: views(self.rest@),
            first: self.first,
            asking: self.asking,
        }
    }
}

impl ResolutionView {
    /// The state before the first question about `path`.
    pub open spec fn start(path: Seq<u8>) -> ResolutionView {
        ResolutionView {
            resolved: Seq::empty(),
            rest: components_of(path),
            first: true,
            asking: true,
        }
    }

    /// The next path to canonicalize.
    pub open spec fn question(self) -> Option<Seq<u8>> {
        if self.asking && self.rest.len() > 0 {
            Some(joined(self.resolved, component_text(self.rest[0])))
        } else {
            None
        }
    }

    /// The state after the answer: the canonical path, or that there is none.
    pub open spec fn answered(self, canonical: Option<Seq<u8>>) -> ResolutionView {
        match canonical {
            Some(path) => ResolutionView {
                resolved: path,
                rest: self.rest.skip(1),
                first: false,
                asking: true,
            },
            None => if self.first {
                ResolutionView {
                    resolved: joined(self.resolved, component_text(self.rest[0])),
                    rest: self.rest.skip(1),
                    first: false,
                    asking: false,
                }
            } else {
                ResolutionView { asking: false, ..self }
            },
        }
    }

    /// Where the path leads.
    pub open spec fn finished(self) -> Seq<u8> {
        lexically(self.resolved, self.rest)
    }
}

/// `path` without its last component.
fn pop(path: &[u8]) -> (parent: Vec<u8>)
    ensures
        parent@ == popped(path@),
{
    broadcast use group_views;

    let cs = components(path);
    let n: usize = cs.len();
    if n == 0 {
        return copy_bytes(path);
    }
    if let Component::Root = cs[n - 1] {
        return copy_bytes(path);
    }
    proof {
        assert(views(cs@).take(n - 1) =~= views(cs@).drop_last());
    }
    path_of_components(&cs, n - 1)
}

impl Resolution {
    /// Starts resolving `path`.
    pub fn new(path: &[u8]) -> (r: Resolution)
        ensures
            r@ == ResolutionView::start(path@),
    {
        Resolution {
            resolved: Vec::new(),
            rest: components(path),
            first: true,
            asking: true,
        }
    }

    /// The next path to canonicalize, if there is one.
    pub fn question(&self) -> (path: Option<Vec<u8>>)
        ensures
            path matches Some(p) ==> self@.question() == Some(p@),
            path is None ==> self@.question() is None,
    {
        broadcast use group_views;

        if self.asking && self.rest.len() > 0 {
            let text = component_bytes(&self.rest[0]);
            Some(join_path(self.resolved.as_slice(), text.as_slice()))
        } else {
            None
        }
    }

    /// Takes the answer to [`Resolution::question`]: the canonical path, or
    /// `None` if there is none.
    pub fn answer(&mut self, canonical: Option<Vec<u8>>)
        requires
            old(self)@.question() is Some,
        ensures
            final(self)@ == old(self)@.answered(
                match canonical {
                    Some(path) => Some(path@),
                    None => None,
                },
            ),
    {
        broadcast use group_views;

        match canonical {
            Some(path) => {
                self.resolved = path;
                let _ = self.rest.remove(0);
                self.first = false;
            },
            None => {
                self.asking = false;
                if self.first {
                    let text = component_bytes(&self.rest[0]);
                    self.resolved = join_path(self.resolved.as_slice(), text.as_slice());
                    let _ = self.rest.remove(0);
                    self.first = false;
                }
            },
        }
        proof {
            assert(self@.rest =~= if canonical is Some || old(self)@.first {
                old(self)@.rest.skip(1)
            } else {
                old(self)@.rest
            });
        }
    }

    /// Where the path leads.
    pub fn finish(&self) -> (path: Vec<u8>)
        ensures
            path@ == self@.finished(),
    {
        broadcast use group_views;

        let ghost all = views(self.rest@);
        let mut path = copy_bytes(self.resolved.as_slice());
        proof {
            assert(all.skip(0) =~= all);
        }
        for i in 0..self.rest.len()
            invariant
                all == views(self.rest@),
                lexically(path@, all.skip(i as int)) == lexically(self.resolved@, all),
        {
            broadcast use group_views;

            proof {
                assert(all.skip(i as int).skip(1) =~= all.skip(i + 1));
            }
            match &self.rest[i] {
                Component::Cur => {},
                Component::Parent => {
                    path = pop(path.as_slice());
                },
                other => {
                    let text = component_bytes(other);
                    path = join_path(path.as_slice(), text.as_slice());
                },
            }
        }
        path
    }
}

// ---------------------------------------------------------------------------
// What holds of every target
// ---------------------------------------------------------------------------
/// The text of a remote target names the same host and path again.
pub proof fn remote_targets_read_back(host: Seq<char>, path: Seq<char>)
    requires
        host.len() > 0,
        !host.contains(':'),
        !host.contains('/'),
        path.len() > 0,
    ensures
        names_host(remote_text(host, path)),
        host_of(remote_text(host, path)) == host,
        remote_path_of(remote_text(host, path)) == path,
{
    let s = remote_text(host, path);
    assert forall|k: int| 0 <= k < host.len() implies s[k] != ':' by {
        assert(s[k] == host[k]);
    }
    assert(s[host.len() as int] == ':');
    lemma_count_before_is(s, ':', host.len() as int);
    assert(s.take(host.len() as int) =~= host);
    assert(s.skip(host.len() as int + 1) =~= path);
}

/// Every remote target that parses has a host without `:` and `/`, and a
/// path.
pub proof fn parsed_hosts_are_plain(s: Seq<char>)
    requires
        names_host(s),
    ensures
        host_of(s).len() > 0,
        !host_of(s).contains(':'),
        !host_of(s).contains('/'),
        remote_text(host_of(s), remote_path_of(s)) == s,
{
    lemma_count_before(s, ':');
    assert(remote_text(host_of(s), remote_path_of(s)) =~= s);
}

/// A target that starts with a slash is a local path, whatever follows.
pub proof fn absolute_paths_are_local(s: Seq<char>)
    requires
        s.len() > 0,
        s[0] == '/',
    ensures
        !names_host(s),
{
    lemma_count_before(s, ':');
    if names_host(s) {
        assert(s.take(count_before(s, ':') as int)[0] == '/');
    }
}

/// The text of a local target that is an absolute path in UTF-8 is read as a
/// local path with the same bytes.
pub proof fn local_targets_read_back(path: Seq<u8>)
    requires
        is_absolute(path),
        valid_utf8(path),
    ensures
        decode_utf8(path).len() > 0,
        !names_host(decode_utf8(path)),
        encode_utf8(decode_utf8(path)) == path,
{
    decode_utf8_encode_utf8(path);
    let text = decode_utf8(path);
    assert(path[0] == 0x2f);
    assert(decode_first_scalar(path) == 0x2f) by {
        assert(0x2fu8 & 0x80 == 0 && 0x2fu8 & 0x7f == 0x2f) by (bit_vector);
    }
    assert(text[0] == '/');
    absolute_paths_are_local(text);
}

/// Every target that parses, and is text, parses back to itself from that
/// text: `target` is what some text `s` parses to, and `again` is what the
/// text of `target` parses to.
pub proof fn targets_read_back(
    s: Seq<char>,
    target: Target,
    again: Result<Target, TargetError>,
)
    requires
        may_parse_to(s, Ok(target)),
        is_text(target@),
        may_parse_to(plain_text(target@), again),
    ensures
        again matches Ok(t) && t@ == target@,
{
    match target@ {
        TargetView::Local(path) => {
            local_targets_read_back(path);
        },
        TargetView::Remote { host, path } => {
            parsed_hosts_are_plain(s);
            remote_targets_read_back(host, path);
        },
    }
}

/// Every absolute path is a local target, and parses to itself without
/// redundant slashes and `.` components.
pub proof fn absolute_targets_parse(s: Seq<char>, parsed: Result<Target, TargetError>)
    requires
        is_absolute(encode_utf8(s)),
        may_parse_to(s, parsed),
    ensures
        parsed matches Ok(t) && t@ == TargetView::Local(absolute_text(encode_utf8(s))),
{
    encode_utf8_decode_utf8(s);
    encode_utf8_valid_utf8(s);
    local_targets_read_back(encode_utf8(s));
}

/// A target names a host exactly if what comes before its first colon is not
/// empty and has no slash in it; without a colon it never does.
pub proof fn hosts_come_before_the_first_colon(a: Seq<char>, b: Seq<char>)
    requires
        !a.contains(':'),
    ensures
        !names_host(a),
        names_host(a + seq![':'] + b) <==> a.len() > 0 && !a.contains('/'),
{
    lemma_count_before(a, ':');
    let s = a + seq![':'] + b;
    assert forall|k: int| 0 <= k < a.len() implies s[k] != ':' by {
        assert(s[k] == a[k]);
    }
    assert(s[a.len() as int] == ':');
    lemma_count_before_is(s, ':', a.len() as int);
    assert(s.take(a.len() as int) =~= a);
}

/// A target with a host parses to the host and the path behind the colon,
/// and is refused without a path; the empty target is refused.
pub proof fn targets_with_a_host_are_remote(
    host: Seq<char>,
    path: Seq<char>,
    parsed: Result<Target, TargetError>,
    none: Result<Target, TargetError>,
)
    requires
        host.len() > 0,
        !host.contains(':'),
        !host.contains('/'),
        may_parse_to(host + seq![':'] + path, parsed),
        may_parse_to(Seq::empty(), none),
    ensures
        path.len() > 0 ==> (parsed matches Ok(Target::Remote { host: h, path: p }) && h@ == host
            && p@ == path),
        path.len() == 0 ==> (parsed matches Err(TargetError::NoRemotePath { target }) && target@
            == host + seq![':'] + path),
        none matches Err(TargetError::Empty),
{
    let s = host + seq![':'] + path;
    assert(s =~= remote_text(host, path));
    assert forall|k: int| 0 <= k < host.len() implies s[k] != ':' by {
        assert(s[k] == host[k]);
    }
    assert(s[host.len() as int] == ':');
    lemma_count_before_is(s, ':', host.len() as int);
    assert(s.take(host.len() as int) =~= host);
    assert(s.skip(host.len() as int + 1) =~= path);
    hosts_come_before_the_first_colon(host, path);
    if let Ok(t) = parsed {
        assert(t@ is Remote || t@ is Local);
    }
}

/// A target without a host, and not empty, is a local path: it parses to the
/// path made absolute, or fails to be made so.
pub proof fn targets_without_a_host_are_local(
    s: Seq<char>,
    parsed: Result<Target, TargetError>,
)
    requires
        s.len() > 0,
        !names_host(s),
        may_parse_to(s, parsed),
    ensures
        match parsed {
            Ok(Target::Local(path)) => resolves_to(encode_utf8(s), path@),
            Err(TargetError::Unresolvable { target, .. }) => target@ == s && !is_absolute(
                encode_utf8(s),
            ),
            _ => false,
        },
{
}

/// A remote target is shown as its host, a colon and its path, and a local
/// one as its path.
pub proof fn targets_are_shown_as_they_are_given(
    host: Seq<char>,
    path: Seq<char>,
    local: Seq<u8>,
)
    ensures
        remote_text(host, path) == host + seq![':'] + path,
        target_text(TargetView::Remote { host, path }) == host + seq![':'] + path,
        target_text(TargetView::Local(local)) == lossy_text(local),
{
    assert(remote_text(host, path) =~= host + seq![':'] + path);
}

/// Components with further ones applied to them: a name is entered, `.` stays,
/// and `..` leaves the last directory, but not the root.
pub open spec fn applied(cs: Seq<ComponentView>, more: Seq<ComponentView>) -> Seq<ComponentView>
    decreases more.len(),
{
    if more.len() == 0 {
        cs
    } else {
        applied(
            match more[0] {
                ComponentView::Normal(_) => cs.push(more[0]),
                ComponentView::Parent => if cs.len() > 1 {
                    cs.drop_last()
                } else {
                    cs
                },
                _ => cs,
            },
            more.skip(1),
        )
    }
}

/// What remains of a path is applied to the directory that it starts at, one
/// component after the other.
pub proof fn remaining_components_are_applied_in_order(
    path: Seq<u8>,
    more: Seq<ComponentView>,
)
    requires
        is_absolute(path),
        forall|k: int| 0 <= k < more.len() ==> is_step(#[trigger] more[k]) || more[k] is Cur,
    ensures
        components_of(lexically(path, more)) == applied(components_of(path), more),
        is_absolute(lexically(path, more)),
    decreases more.len(),
{
    if more.len() > 0 {
        let c = more[0];
        let rest = more.skip(1);
        let cs = components_of(path);
        let next = stepped(path, c);
        absolute_paths_start_at_the_root(path);
        assert(is_step(more[0]) || more[0] is Cur);
        match c {
            ComponentView::Parent => {
                if cs.len() > 1 {
                    let init = cs.drop_last();
                    assert(is_step(cs[cs.len() - 1]));
                    assert(!(cs.last() is Root));
                    assert forall|k: int| 0 < k < init.len() implies is_step(
                        #[trigger] init[k],
                    ) by {
                        assert(init[k] == cs[k]);
                    }
                    spelled_components_read_back(init);
                } else {
                    assert(cs.last() is Root);
                }
            },
            ComponentView::Normal(name) => {
                joining_a_step_adds_a_component(path, c);
                assert(name.contains(name[0]));
                assert(next[0] == path[0]);
            },
            _ => {},
        }
        assert forall|k: int| 0 <= k < rest.len() implies is_step(#[trigger] rest[k])
            || rest[k] is Cur by {
            assert(rest[k] == more[k + 1]);
        }
        remaining_components_are_applied_in_order(next, rest);
    }
}

/// Resolving asks about one component after the other, each from where the
/// last answer led, until one does not exist; from there on the rest is
/// applied to the text. A first component that does not exist counts as it
/// is.
pub proof fn resolving_goes_on_from_each_answer(
    path: Seq<u8>,
    state: ResolutionView,
    answer: Seq<u8>,
)
    requires
        state.rest.len() > 0,
        state.asking,
    ensures
        ResolutionView::start(path).resolved.len() == 0,
        ResolutionView::start(path).rest == components_of(path),
        ResolutionView::start(path).first,
        ResolutionView::start(path).asking,
        state.question() == Some(joined(state.resolved, component_text(state.rest[0]))),
        state.answered(Some(answer)).resolved == answer,
        state.answered(Some(answer)).rest == state.rest.skip(1),
        state.answered(Some(answer)).asking,
        !state.answered(Some(answer)).first,
        state.answered(None).question() is None,
        !state.first ==> state.answered(None).finished() == lexically(state.resolved, state.rest),
        state.first ==> state.answered(None).finished() == lexically(
            joined(state.resolved, component_text(state.rest[0])),
            state.rest.skip(1),
        ),
        state.rest.len() == 1 ==> state.answered(Some(answer)).question() is None
            && state.answered(Some(answer)).finished() == answer,
{
}

} // verus!
