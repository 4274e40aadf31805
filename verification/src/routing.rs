//! The request-routing tree: each service's subtree of routes, mounted under
//! the service's path prefix in one composed root tree. A request is routed
//! to the first mount whose prefix begins its path; protected routes then
//! pass through the authentication guard before a handler may run.

use vstd::prelude::*;

use crate::auth_layers::{require_token, spec_guard, spec_header, GuardOutcome, ValidUser};
use crate::credential_store::AuthDb;
use crate::text::str_eq;

verus! {

/// One route of a service's subtree: the path below the mount prefix, and
/// whether the authentication guard runs before its handler.
pub struct Route {
    pub path: String,
    pub protected: bool,
}

/// The mathematical value of a `Route`.
pub ghost struct RouteView {
    pub path: Seq<char>,
    pub protected: bool,
}

impl View for Route {
    type V = RouteView;

    open spec fn view(&self) -> RouteView {
        RouteView { path: self.path@, protected: self.protected }
    }
}

/// The routing subtree one service builds: its routes, in declaration order.
pub struct Subtree {
    pub routes: Vec<Route>,
}

/// The mathematical value of a `Subtree`.
pub ghost struct SubtreeView {
    pub routes: Seq<RouteView>,
}

impl View for Subtree {
    type V = SubtreeView;

    open spec fn view(&self) -> SubtreeView {
        SubtreeView { routes: self.routes@.map_values(|r: Route| r@) }
    }
}

/// One mounted subtree: the declared path prefix and the subtree under it.
pub struct Mount {
    pub prefix: String,
    pub subtree: Subtree,
}

/// The mathematical value of a `Mount`.
pub ghost struct MountView {
    pub prefix: Seq<char>,
    pub subtree: SubtreeView,
}

impl View for Mount {
    type V = MountView;

    open spec fn view(&self) -> MountView {
        MountView { prefix: self.prefix@, subtree: self.subtree@ }
    }
}

/// The composed root tree: every service's subtree, mounted in registration
/// order. Order is precedence: when prefixes collide, the first mount wins.
pub struct RootTree {
    pub mounts: Vec<Mount>,
}

/// The mathematical value of a `RootTree`.
pub ghost struct RootTreeView {
    pub mounts: Seq<MountView>,
}

impl View for RootTree {
    type V = RootTreeView;

    open spec fn view(&self) -> RootTreeView {
        RootTreeView { mounts: self.mounts@.map_values(|m: Mount| m@) }
    }
}

/// Whether one character sequence begins the other.
pub open spec fn spec_is_prefix(prefix: Seq<char>, path: Seq<char>) -> bool {
    prefix.is_prefix_of(path)
}

/// Character-level test of whether `prefix` begins `path`.
pub fn is_path_prefix(prefix: &str, path: &str) -> (r: bool)
    ensures
        r == spec_is_prefix(prefix@, path@),
{
    let plen = prefix.unicode_len();
    let tlen = path.unicode_len();
    if plen > tlen {
        return false;
    }
    let mut i: usize = 0;
    while i < plen
        invariant
            plen == prefix@.len(),
            tlen == path@.len(),
            plen <= tlen,
            i <= plen,
            forall|j: int| 0 <= j < i ==> prefix@[j] == path@[j],
        decreases plen - i,
    {
        if prefix.get_char(i) != path.get_char(i) {
            return false;
        }
        i += 1;
    }
    assert(prefix@ =~= path@.subrange(0, prefix@.len() as int));
    true
}

/// The position of the first mount whose prefix begins the path, if any.
pub open spec fn spec_route(mounts: Seq<MountView>, path: Seq<char>) -> Option<int>
    decreases mounts.len(),
{
    if mounts.len() == 0 {
        None
    } else if spec_is_prefix(mounts[0].prefix, path) {
        Some(0int)
    } else {
        match spec_route(mounts.drop_first(), path) {
            Some(i) => Some(i + 1),
            None => None,
        }
    }
}

/// The position of the first route of a subtree declared for exactly the
/// given remainder of the path, if any.
pub open spec fn spec_find_route(routes: Seq<RouteView>, rest: Seq<char>) -> Option<int>
    decreases routes.len(),
{
    if routes.len() == 0 {
        None
    } else if routes[0].path == rest {
        Some(0int)
    } else {
        match spec_find_route(routes.drop_first(), rest) {
            Some(i) => Some(i + 1),
            None => None,
        }
    }
}

/// Routes a path to the first mount whose prefix begins it.
pub fn route_request(tree: &RootTree, path: &str) -> (r: Option<usize>)
    ensures
        match r {
            Some(i) => spec_route(tree@.mounts, path@) == Some(i as int) && i
                < tree@.mounts.len(),
            None => spec_route(tree@.mounts, path@) is None,
        },
{
    let ghost all = tree@.mounts;
    let n = tree.mounts.len();
    let mut i: usize = 0;
    while i < n
        invariant
            n == tree.mounts@.len(),
            all == tree@.mounts,
            i <= n,
            forall|j: int| 0 <= j < i ==> !spec_is_prefix(all[j].prefix, path@),
        decreases n - i,
    {
        assert(all[i as int] == tree.mounts@[i as int]@);
        if is_path_prefix(tree.mounts[i].prefix.as_str(), path) {
            proof {
                lemma_route_prefix_scan(all, path@, i as int);
            }
            return Some(i);
        }
        i += 1;
    }
    proof {
        lemma_route_prefix_scan(all, path@, n as int);
    }
    None
}

/// A scan that found no matching mount before position `i` finds the first
/// match at `i`, or none at all when `i` is the length.
proof fn lemma_route_prefix_scan(mounts: Seq<MountView>, path: Seq<char>, i: int)
    requires
        0 <= i <= mounts.len(),
        forall|j: int| 0 <= j < i ==> !spec_is_prefix(mounts[j].prefix, path),
    ensures
        i < mounts.len() && spec_is_prefix(mounts[i].prefix, path) ==> spec_route(mounts, path)
            == Some(i),
        i == mounts.len() ==> spec_route(mounts, path) is None,
    decreases i,
{
    if i > 0 {
        lemma_route_prefix_scan(mounts.drop_first(), path, i - 1);
        assert(forall|j: int|
            0 <= j < mounts.len() - 1 ==> mounts.drop_first()[j] == mounts[j + 1]);
    }
}

/// The position of the first route declared for exactly `rest`, if any.
pub fn find_route(subtree: &Subtree, rest: &str) -> (r: Option<usize>)
    ensures
        match r {
            Some(i) => spec_find_route(subtree@.routes, rest@) == Some(i as int) && i
                < subtree@.routes.len(),
            None => spec_find_route(subtree@.routes, rest@) is None,
        },
{
    let ghost all = subtree@.routes;
    let n = subtree.routes.len();
    let mut i: usize = 0;
    while i < n
        invariant
            n == subtree.routes@.len(),
            all == subtree@.routes,
            i <= n,
            forall|j: int| 0 <= j < i ==> all[j].path != rest@,
        decreases n - i,
    {
        assert(all[i as int] == subtree.routes@[i as int]@);
        if str_eq(subtree.routes[i].path.as_str(), rest) {
            proof {
                lemma_find_route_scan(all, rest@, i as int);
            }
            return Some(i);
        }
        i += 1;
    }
    proof {
        lemma_find_route_scan(all, rest@, n as int);
    }
    None
}

/// A scan that found no route before position `i` finds the first match at
/// `i`, or none at all when `i` is the length.
proof fn lemma_find_route_scan(routes: Seq<RouteView>, rest: Seq<char>, i: int)
    requires
        0 <= i <= routes.len(),
        forall|j: int| 0 <= j < i ==> routes[j].path != rest,
    ensures
        i < routes.len() && routes[i].path == rest ==> spec_find_route(routes, rest) == Some(i),
        i == routes.len() ==> spec_find_route(routes, rest) is None,
    decreases i,
{
    if i > 0 {
        lemma_find_route_scan(routes.drop_first(), rest, i - 1);
        assert(forall|j: int|
            0 <= j < routes.len() - 1 ==> routes.drop_first()[j] == routes[j + 1]);
    }
}

/// Where a request ends up: unrouted, rejected by the guard, or handled by
/// the named mount and route, with the identity the guard attached on a
/// protected route.
#[derive(Clone, Copy, Debug, PartialEq, Eq, Structural)]
pub enum DispatchOutcome {
    /// No mount prefix begins the path, or the chosen subtree declares no
    /// such route.
    NotFound,
    /// A handler runs: the winning mount, the route within its subtree, and
    /// the identity attached by the guard (none on an open route).
    Handled { mount: usize, route: usize, identity: Option<ValidUser> },
    /// The guard rejected the request: missing header or unknown token.
    Unauthorized,
    /// The guard rejected the request: the credential store failed.
    InternalError,
}

/// Drives one request through the composed tree: route by prefix, find the
/// route in the winning subtree, and run the guard first when it is protected.
pub fn dispatch(tree: &RootTree, db: &AuthDb, path: &str, header: Option<&str>) -> (r:
    DispatchOutcome)
    ensures
        match spec_route(tree@.mounts, path@) {
            None => r == DispatchOutcome::NotFound,
            Some(m) => {
                let rest = path@.skip(tree@.mounts[m].prefix.len() as int);
                match spec_find_route(tree@.mounts[m].subtree.routes, rest) {
                    None => r == DispatchOutcome::NotFound,
                    Some(ri) => {
                        if !tree@.mounts[m].subtree.routes[ri].protected {
                            r matches DispatchOutcome::Handled { mount, route, identity }
                                && mount as int == m && route as int == ri && identity is None
                        } else {
                            match spec_guard(db@, spec_header(header)) {
                                GuardOutcome::Forwarded(u) => r matches DispatchOutcome::Handled {
                                    mount,
                                    route,
                                    identity,
                                } && mount as int == m && route as int == ri && identity == Some(u),
                                GuardOutcome::Unauthorized => r == DispatchOutcome::Unauthorized,
                                GuardOutcome::InternalError => r == DispatchOutcome::InternalError,
                            }
                        }
                    },
                }
            },
        },
{
    let m = match route_request(tree, path) {
        Some(m) => m,
        None => {
            return DispatchOutcome::NotFound;
        },
    };
    let mount = &tree.mounts[m];
    let prefix_chars = mount.prefix.as_str().unicode_len();
    let path_chars = path.unicode_len();
    assert(spec_is_prefix(tree@.mounts[m as int].prefix, path@)) by {
        lemma_route_matches(tree@.mounts, path@, m as int);
    }
    let rest = path.substring_char(prefix_chars, path_chars);
    let ri = match find_route(&mount.subtree, rest) {
        Some(ri) => ri,
        None => {
            return DispatchOutcome::NotFound;
        },
    };
    if !mount.subtree.routes[ri].protected {
        return DispatchOutcome::Handled { mount: m, route: ri, identity: None };
    }
    match require_token(db, header) {
        GuardOutcome::Forwarded(u) => DispatchOutcome::Handled {
            mount: m,
            route: ri,
            identity: Some(u),
        },
        GuardOutcome::Unauthorized => DispatchOutcome::Unauthorized,
        GuardOutcome::InternalError => DispatchOutcome::InternalError,
    }
}

/// The mount that `spec_route` names does begin the path.
proof fn lemma_route_matches(mounts: Seq<MountView>, path: Seq<char>, m: int)
    requires
        spec_route(mounts, path) == Some(m),
    ensures
        0 <= m < mounts.len(),
        spec_is_prefix(mounts[m].prefix, path),
    decreases mounts.len(),
{
    if mounts.len() > 0 && !spec_is_prefix(mounts[0].prefix, path) {
        lemma_route_matches(mounts.drop_first(), path, m - 1);
        assert(mounts.drop_first()[m - 1] == mounts[m]);
    }
}

/// `spec_route` names the first mount whose prefix begins the path: nothing
/// before it matches, and `None` means nothing matches at all.
pub proof fn lemma_route_is_first_match(mounts: Seq<MountView>, path: Seq<char>)
    ensures
        match spec_route(mounts, path) {
            Some(k) => 0 <= k < mounts.len() && spec_is_prefix(mounts[k].prefix, path)
                && forall|l: int| 0 <= l < k ==> !spec_is_prefix(mounts[l].prefix, path),
            None => forall|l: int|
                0 <= l < mounts.len() ==> !spec_is_prefix(mounts[l].prefix, path),
        },
    decreases mounts.len(),
{
    if mounts.len() > 0 && !spec_is_prefix(mounts[0].prefix, path) {
        lemma_route_is_first_match(mounts.drop_first(), path);
        match spec_route(mounts, path) {
            Some(k) => {
                assert forall|l: int| 0 <= l < k implies !spec_is_prefix(
                    mounts[l].prefix,
                    path,
                ) by {
                    if l > 0 {
                        assert(mounts[l] == mounts.drop_first()[l - 1]);
                    }
                }
            },
            None => {
                assert forall|l: int| 0 <= l < mounts.len() implies !spec_is_prefix(
                    mounts[l].prefix,
                    path,
                ) by {
                    if l > 0 {
                        assert(mounts[l] == mounts.drop_first()[l - 1]);
                    }
                }
            },
        }
    }
}

/// Composition is order-sensitive: of two mounts declaring the same prefix,
/// a path that the prefix begins is routed at or before the first of them —
/// never to the later one.
pub proof fn lemma_first_registrant_wins(
    mounts: Seq<MountView>,
    path: Seq<char>,
    i: int,
    j: int,
)
    requires
        0 <= i < j < mounts.len(),
        mounts[i].prefix == mounts[j].prefix,
        spec_is_prefix(mounts[i].prefix, path),
    ensures
        spec_route(mounts, path) matches Some(k) && k <= i,
{
    lemma_route_is_first_match(mounts, path);
}

} // verus!
