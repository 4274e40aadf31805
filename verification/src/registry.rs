//! The service registry: pluggable services, each declaring a path prefix
//! and building its own routing subtree, composed in registration order into
//! one root tree. Composition is atomic — one unbuildable service aborts the
//! whole composition with that service's error — and order is precedence.

use vstd::prelude::*;

use crate::errors::BuildError;
use crate::routing::{Mount, MountView, RootTree, Subtree, SubtreeView};

verus! {

/// The capability a pluggable module implements: build my routing subtree,
/// and declare my path prefix. The registry never inspects a service beyond
/// this pair.
pub trait Service: Sized {
    /// The path prefix the service declares; pure and stable.
    spec fn prefix_spec(&self) -> Seq<char>;

    /// The subtree the service would build, or the error that stops it.
    spec fn build_spec(&self) -> Result<SubtreeView, BuildError>;

    /// Declares the service's path prefix.
    fn prefix(&self) -> (r: String)
        ensures
            r@ == self.prefix_spec(),
    ;

    /// Builds the service's routing subtree; failure is fatal to any
    /// composition this service takes part in.
    fn build_web_service(&self) -> (r: Result<Subtree, BuildError>)
        ensures
            r matches Ok(s) ==> self.build_spec() matches Ok(sv) && s@ == sv,
            r matches Err(e) ==> self.build_spec() matches Err(e2) && e == e2,
    ;
}

/// What composing the given services yields: every mount in registration
/// order, or the error of the first service whose build fails.
pub open spec fn spec_compose<S: Service>(services: Seq<S>) -> Result<Seq<MountView>, BuildError>
    decreases services.len(),
{
    if services.len() == 0 {
        Ok(Seq::<MountView>::empty())
    } else {
        match services[0].build_spec() {
            Err(e) => Err(e),
            Ok(sub) => match spec_compose(services.drop_first()) {
                Err(e) => Err(e),
                Ok(rest) => Ok(
                    seq![MountView { prefix: services[0].prefix_spec(), subtree: sub }] + rest,
                ),
            },
        }
    }
}

/// Builds each registered service's subtree in order and mounts it under the
/// service's declared prefix. The first failing build aborts the whole
/// composition with that service's error: no partial root tree exists.
pub fn build_router<S: Service>(services: &Vec<S>) -> (r: Result<RootTree, BuildError>)
    ensures
        match r {
            Ok(tree) => spec_compose(services@) matches Ok(m) && tree@.mounts == m,
            Err(e) => spec_compose(services@) matches Err(e2) && e == e2,
        },
{
    let ghost all = services@;
    let n = services.len();
    let mut mounts: Vec<Mount> = Vec::new();
    let mut i: usize = 0;
    assert(all.skip(0) =~= all);
    assert(match spec_compose(all.skip(0)) {
        Ok(rest) => spec_compose(all) == Result::<Seq<MountView>, BuildError>::Ok(
            mounts@.map_values(|m: Mount| m@) + rest,
        ),
        Err(e) => spec_compose(all) == Result::<Seq<MountView>, BuildError>::Err(e),
    }) by {
        if let Ok(rest) = spec_compose(all) {
            assert(mounts@.map_values(|m: Mount| m@) + rest =~= rest);
        }
    }
    while i < n
        invariant
            n == services@.len(),
            all == services@,
            i <= n,
            match spec_compose(all.skip(i as int)) {
                Ok(rest) => spec_compose(all) == Result::<Seq<MountView>, BuildError>::Ok(
                    mounts@.map_values(|m: Mount| m@) + rest,
                ),
                Err(e) => spec_compose(all) == Result::<Seq<MountView>, BuildError>::Err(e),
            },
        decreases n - i,
    {
        assert(all.skip(i as int)[0] == all[i as int]);
        assert(all.skip(i as int).drop_first() =~= all.skip(i as int + 1));
        let ghost views_before = mounts@.map_values(|m: Mount| m@);
        match services[i].build_web_service() {
            Err(e) => {
                return Err(e);
            },
            Ok(subtree) => {
                let prefix = services[i].prefix();
                let ghost mv = MountView { prefix: all[i as int].prefix_spec(), subtree: subtree@ };
                mounts.push(Mount { prefix, subtree });
                assert(mounts@.map_values(|m: Mount| m@) =~= views_before.push(mv));
                proof {
                    if let Ok(rest) = spec_compose(all.skip(i as int + 1)) {
                        assert(views_before + (seq![mv] + rest) =~= views_before.push(mv) + rest);
                    }
                }
            },
        }
        i += 1;
    }
    assert(all.skip(n as int) =~= Seq::<S>::empty());
    assert(mounts@.map_values(|m: Mount| m@) + Seq::<MountView>::empty() =~= mounts@.map_values(
        |m: Mount| m@,
    ));
    let tree = RootTree { mounts };
    assert(tree@.mounts == tree.mounts@.map_values(|m: Mount| m@));
    Ok(tree)
}

/// Composition fails atomically: one service whose build fails means no root
/// tree is produced at all.
pub proof fn lemma_compose_atomic<S: Service>(services: Seq<S>, i: int)
    requires
        0 <= i < services.len(),
        services[i].build_spec() is Err,
    ensures
        spec_compose(services) is Err,
    decreases i,
{
    if services[0].build_spec() is Ok {
        assert(services.drop_first()[i - 1] == services[i]);
        lemma_compose_atomic(services.drop_first(), i - 1);
    }
}

/// The error surfaced by a failed composition is the first failing
/// service's own error.
pub proof fn lemma_compose_surfaces_first_failure<S: Service>(services: Seq<S>, i: int)
    requires
        0 <= i < services.len(),
        services[i].build_spec() is Err,
        forall|j: int| 0 <= j < i ==> services[j].build_spec() is Ok,
    ensures
        spec_compose(services) == Result::<Seq<MountView>, BuildError>::Err(
            services[i].build_spec()->Err_0,
        ),
    decreases i,
{
    if i > 0 {
        assert(services[0].build_spec() is Ok);
        assert(forall|j: int|
            0 <= j < services.len() - 1 ==> services.drop_first()[j] == services[j + 1]);
        lemma_compose_surfaces_first_failure(services.drop_first(), i - 1);
    }
}

} // verus!
