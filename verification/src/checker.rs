//! The exhaustive state-space checker: explores every system snapshot
//! reachable from the initial one within a bound, holds a property against
//! each, deduplicates snapshots by value, and reports pass or fail together
//! with the exploration size.
//!
//! The whole exploration is pinned to the specification-level function
//! [`explore`]: the executable search returns exactly its value, so two runs
//! over one system with one bound cannot differ — see
//! [`lemma_exploration_deterministic`].

use vstd::prelude::*;

use crate::actor::register::observed;
use crate::actor::register::respond_value;
use crate::actor::register::response_values;
use crate::actor::system::copy_vec;
use crate::actor::system::successors;
use crate::actor::system::views;
use crate::actor::system::ActorSystem;
use crate::actor::system::ActorSystemSnapshot;
use crate::actor::system::SnapV;

verus! {

/// A single-state invariant over snapshots, as a closed form the checker can
/// evaluate: always hold, never hold, or "all `Respond` values observed so
/// far agree and lie within a range of code points".
#[derive(Clone, Copy, PartialEq, Eq, Structural, Debug)]
pub enum Property {
    AlwaysHolds,
    NeverHolds,
    UniqueResponseWithin { lo: char, hi: char },
}

impl Property {
    /// What the property states of one snapshot.
    pub open spec fn holds(self, s: SnapV) -> bool {
        match self {
            Property::AlwaysHolds => true,
            Property::NeverHolds => false,
            Property::UniqueResponseWithin { lo, hi } => {
                &&& forall|i: int, j: int|
                    0 <= i < s.network.len() && 0 <= j < s.network.len() ==> match (
                    respond_value(#[trigger] s.network[i].msg),
                    respond_value(#[trigger] s.network[j].msg),
                ) {
                        (Option::Some(a), Option::Some(b)) => a == b,
                        _ => true,
                    }
                &&& forall|i: int|
                    0 <= i < s.network.len() ==> match respond_value(
                        #[trigger] s.network[i].msg,
                    ) {
                        Option::Some(v) => (lo as u32) <= (v as u32) <= (hi as u32),
                        Option::None => true,
                    }
            },
        }
    }

    /// Decides the property on one snapshot.
    pub fn eval(&self, s: &ActorSystemSnapshot) -> (r: bool)
        ensures
            r == self.holds(s@),
    {
        match self {
            Property::AlwaysHolds => true,
            Property::NeverHolds => false,
            Property::UniqueResponseWithin { lo, hi } => {
                let vals = response_values(s);
                if vals.len() == 0 {
                    proof {
                        assert forall|i: int|
                            0 <= i < s@.network.len() implies respond_value(
                            #[trigger] s@.network[i].msg,
                        ) is None by {
                            if let Option::Some(v) = respond_value(s@.network[i].msg) {
                                assert(observed(s@.network, v));
                                assert(vals@.contains(v));
                            }
                        }
                    }
                    true
                } else if vals.len() == 1 {
                    let v = vals[0];
                    let r = (*lo as u32) <= (v as u32) && (v as u32) <= (*hi as u32);
                    proof {
                        assert forall|i: int|
                            0 <= i < s@.network.len() implies match respond_value(
                            #[trigger] s@.network[i].msg,
                        ) {
                            Option::Some(w) => w == v,
                            Option::None => true,
                        } by {
                            if let Option::Some(w) = respond_value(s@.network[i].msg) {
                                assert(observed(s@.network, w));
                                assert(vals@.contains(w));
                                let k = choose|k: int| 0 <= k < vals@.len() && vals@[k] == w;
                                assert(k == 0);
                            }
                        }
                        assert(vals@.contains(v));
                        if r {
                            assert(self.holds(s@));
                        } else {
                            let k = choose|k: int|
                                0 <= k < s@.network.len() && respond_value(
                                    #[trigger] s@.network[k].msg,
                                ) == Option::Some(v);
                            assert(!self.holds(s@));
                        }
                    }
                    r
                } else {
                    proof {
                        let a = vals@[0];
                        let b = vals@[1];
                        assert((a as u32) < (b as u32));
                        assert(vals@.contains(a) && vals@.contains(b));
                        let ka = choose|k: int|
                            0 <= k < s@.network.len() && respond_value(
                                #[trigger] s@.network[k].msg,
                            ) == Option::Some(a);
                        let kb = choose|k: int|
                            0 <= k < s@.network.len() && respond_value(
                                #[trigger] s@.network[k].msg,
                            ) == Option::Some(b);
                        assert(!self.holds(s@));
                    }
                    false
                }
            },
        }
    }
}

/// What one absorption of a snapshot's successors leaves behind: either the
/// first successor that violates the property, or the visited list and
/// parent indices extended with every newly discovered successor.
#[verifier::ext_equal]
pub ghost struct AbsorbV {
    pub vis: Seq<SnapV>,
    pub par: Seq<usize>,
    pub viol: Option<SnapV>,
}

/// Folds a sequence of successors of `vis[src]` into the visited list:
/// stops at the first property violation; otherwise appends each successor
/// not already visited, recording `src` as its parent.
pub open spec fn absorb(
    vis: Seq<SnapV>,
    par: Seq<usize>,
    src: usize,
    succs: Seq<SnapV>,
    p: Property,
) -> AbsorbV
    decreases succs.len(),
{
    if succs.len() == 0 {
        AbsorbV { vis, par, viol: Option::None }
    } else if !p.holds(succs[0]) {
        AbsorbV { vis, par, viol: Option::Some(succs[0]) }
    } else if vis.contains(succs[0]) {
        absorb(vis, par, src, succs.drop_first(), p)
    } else {
        absorb(vis.push(succs[0]), par.push(src), src, succs.drop_first(), p)
    }
}

/// The derivation of the snapshot at index `i`: the snapshots from the
/// initial one up to and including `vis[i]`, following recorded parents.
pub open spec fn chain(vis: Seq<SnapV>, par: Seq<usize>, i: int) -> Seq<SnapV>
    decreases i,
{
    if 0 < i && i < par.len() && (par[i] as int) < i {
        chain(vis, par, par[i] as int) + seq![vis[i]]
    } else {
        seq![vis[i]]
    }
}

/// The state and outcome of a finished exploration: the distinct snapshots
/// discovered with their parent indices; a violation with its derivation
/// where the property failed; and whether the frontier emptied (complete)
/// rather than the bound being hit.
#[verifier::ext_equal]
pub ghost struct ExploreV {
    pub vis: Seq<SnapV>,
    pub par: Seq<usize>,
    pub viol: Option<(SnapV, Seq<SnapV>)>,
    pub complete: bool,
}

/// Exploration from an intermediate state: `vis[next..]` is the frontier;
/// each step expands one snapshot, absorbing all its successors, until the
/// frontier empties, the count of expanded snapshots reaches the bound, or
/// the property fails.
pub open spec fn explore_rec(
    sys: ActorSystem,
    p: Property,
    vis: Seq<SnapV>,
    par: Seq<usize>,
    next: int,
    bound: int,
) -> ExploreV
    decreases bound - next,
{
    if next >= vis.len() {
        ExploreV { vis, par, viol: Option::None, complete: true }
    } else if next >= bound {
        ExploreV { vis, par, viol: Option::None, complete: false }
    } else {
        let ab = absorb(vis, par, next as usize, successors(sys, vis[next]), p);
        match ab.viol {
            Option::Some(t) => ExploreV {
                vis: ab.vis,
                par: ab.par,
                viol: Option::Some((t, chain(vis, par, next))),
                complete: false,
            },
            Option::None => explore_rec(sys, p, ab.vis, ab.par, next + 1, bound),
        }
    }
}

/// The whole exploration of a system: start every actor, hold the property
/// against the initial snapshot — failing immediately, with an empty
/// derivation, if it rejects — and then expand snapshot by snapshot up to
/// the bound.
pub open spec fn explore(sys: ActorSystem, p: Property, bound: int) -> ExploreV {
    let init = sys.init_snapshot_spec();
    if !p.holds(init) {
        ExploreV {
            vis: seq![init],
            par: seq![0usize],
            viol: Option::Some((init, Seq::empty())),
            complete: false,
        }
    } else {
        explore_rec(sys, p, seq![init], seq![0usize], 0, bound)
    }
}

/// The reported outcome of a check run.  Reaching the bound without a
/// violation is distinct from exhausting the frontier: the former checked
/// the protocol only up to the bound.
#[derive(Clone, PartialEq, Debug)]
pub enum CheckResult {
    Pass,
    Incomplete,
    Fail { snapshot: ActorSystemSnapshot, path: Vec<ActorSystemSnapshot> },
}

/// Explores every reachable snapshot of an actor system and holds a
/// property against each one.
#[derive(Clone, Debug)]
pub struct Checker {
    pub system: ActorSystem,
    pub property: Property,
    pub visited: Vec<ActorSystemSnapshot>,
    pub parents: Vec<usize>,
}

/// Structural equality of two snapshots, over the full composite value:
/// ordered actor states plus network contents.
fn snapshot_eq(a: &ActorSystemSnapshot, b: &ActorSystemSnapshot) -> (r: bool)
    ensures
        r == (a@ == b@),
{
    if a.actor_states.len() != b.actor_states.len() || a.network.len() != b.network.len() {
        return false;
    }
    let mut i: usize = 0;
    while i < a.actor_states.len()
        invariant
            i <= a@.states.len(),
            a@.states.len() == b@.states.len(),
            a@.network.len() == b@.network.len(),
            forall|k: int| 0 <= k < i ==> a@.states[k] == b@.states[k],
        decreases a@.states.len() - i,
    {
        if !(a.actor_states[i] == b.actor_states[i]) {
            return false;
        }
        i += 1;
    }
    let mut j: usize = 0;
    while j < a.network.len()
        invariant
            j <= a@.network.len(),
            a@.states.len() == b@.states.len(),
            a@.network.len() == b@.network.len(),
            forall|k: int| 0 <= k < a@.states.len() ==> a@.states[k] == b@.states[k],
            forall|k: int| 0 <= k < j ==> a@.network[k] == b@.network[k],
        decreases a@.network.len() - j,
    {
        if !(a.network[j] == b.network[j]) {
            return false;
        }
        j += 1;
    }
    proof {
        assert(a@.states =~= b@.states);
        assert(a@.network =~= b@.network);
        assert(a@ =~= b@);
    }
    true
}

/// A copy of a snapshot with the same value.
fn snapshot_dup(s: &ActorSystemSnapshot) -> (r: ActorSystemSnapshot)
    ensures
        r@ == s@,
{
    let r = ActorSystemSnapshot {
        actor_states: copy_vec(&s.actor_states),
        network: copy_vec(&s.network),
    };
    proof {
        assert(r@ =~= s@);
    }
    r
}

/// Whether a snapshot with this value was already visited.
fn contains_snapshot(vis: &Vec<ActorSystemSnapshot>, t: &ActorSystemSnapshot) -> (r: bool)
    ensures
        r == views(vis@).contains(t@),
{
    let mut i: usize = 0;
    while i < vis.len()
        invariant
            i <= vis@.len(),
            forall|k: int| 0 <= k < i ==> views(vis@)[k] != t@,
        decreases vis@.len() - i,
    {
        if snapshot_eq(&vis[i], t) {
            proof {
                assert(views(vis@)[i as int] == t@);
            }
            return true;
        }
        i += 1;
    }
    proof {
        if views(vis@).contains(t@) {
            let k = choose|k: int| 0 <= k < views(vis@).len() && views(vis@)[k] == t@;
            assert(views(vis@)[k] != t@);
        }
    }
    false
}

/// A derivation is unchanged by discovering more snapshots: it reads only
/// indices at or below its endpoint.
proof fn lemma_chain_grow(
    vis1: Seq<SnapV>,
    par1: Seq<usize>,
    vis2: Seq<SnapV>,
    par2: Seq<usize>,
    i: int,
)
    requires
        vis1.len() <= vis2.len(),
        par1.len() == vis1.len(),
        par2.len() == vis2.len(),
        forall|k: int| 0 <= k < vis1.len() ==> vis2[k] == vis1[k],
        forall|k: int| 0 <= k < par1.len() ==> par2[k] == par1[k],
        0 <= i < vis1.len(),
    ensures
        chain(vis2, par2, i) == chain(vis1, par1, i),
    decreases i,
{
    if 0 < i && i < par1.len() && (par1[i] as int) < i {
        lemma_chain_grow(vis1, par1, vis2, par2, par1[i] as int);
    }
}

impl ActorSystem {
    /// A checker of this system under the given property.
    pub fn checker(self, property: Property) -> (c: Checker)
        ensures
            c.system == self,
            c.property == property,
            c.visited@.len() == 0,
    {
        Checker { system: self, property, visited: Vec::new(), parents: Vec::new() }
    }
}

impl Checker {
    /// The distinct snapshots discovered by the last check run; its length
    /// is the visited-snapshot count.
    pub fn sources(&self) -> (r: &Vec<ActorSystemSnapshot>)
        ensures
            r@ == self.visited@,
    {
        &self.visited
    }

    /// The derivation of visited snapshot `i`, following recorded parents.
    fn build_chain(&self, i: usize) -> (r: Vec<ActorSystemSnapshot>)
        requires
            i < self.visited@.len(),
            self.parents@.len() == self.visited@.len(),
            forall|k: int| 0 < k < self.parents@.len() ==> (self.parents@[k] as int) < k,
        ensures
            views(r@) == chain(views(self.visited@), self.parents@, i as int),
        decreases i,
    {
        let p = self.parents[i];
        if 0 < i && p < i {
            let mut r = self.build_chain(p);
            r.push(snapshot_dup(&self.visited[i]));
            proof {
                assert(views(r@) =~= chain(views(self.visited@), self.parents@, i as int));
            }
            r
        } else {
            let mut r: Vec<ActorSystemSnapshot> = Vec::new();
            r.push(snapshot_dup(&self.visited[i]));
            proof {
                assert(i == 0 || !((self.parents@[i as int] as int) < i as int));
                assert(views(r@) =~= chain(views(self.visited@), self.parents@, i as int));
            }
            r
        }
    }

    /// Explores every snapshot reachable from the initial one, deduplicating
    /// by structural equality, until the frontier empties (`Pass`), the
    /// count of expanded snapshots reaches `bound` (`Incomplete`), or the
    /// property rejects a snapshot (`Fail` with the offending snapshot and
    /// its derivation from the initial one).  The entire outcome, including
    /// the visited collection left in the checker, equals the
    /// specification-level [`explore`] of the system.
    pub fn check(&mut self, bound: usize) -> (r: CheckResult)
        ensures
            final(self).system == old(self).system,
            final(self).property == old(self).property,
            ({
                let ex = explore(old(self).system, old(self).property, bound as int);
                &&& views(final(self).visited@) == ex.vis
                &&& final(self).parents@ == ex.par
                &&& match r {
                    CheckResult::Pass => ex.viol is None && ex.complete,
                    CheckResult::Incomplete => ex.viol is None && !ex.complete,
                    CheckResult::Fail { snapshot, path } => ex.viol == Option::Some(
                        (snapshot@, views(path@)),
                    ),
                }
            }),
    {
        let ghost ex = explore(self.system, self.property, bound as int);
        self.visited = Vec::new();
        self.parents = Vec::new();
        let init = self.system.init_snapshot();
        let ok = self.property.eval(&init);
        self.visited.push(init);
        self.parents.push(0);
        proof {
            assert(views(self.visited@) =~= seq![self.system.init_snapshot_spec()]);
            assert(self.parents@ =~= seq![0usize]);
        }
        if !ok {
            let snapshot = snapshot_dup(&self.visited[0]);
            let path: Vec<ActorSystemSnapshot> = Vec::new();
            proof {
                assert(views(path@) =~= Seq::<SnapV>::empty());
            }
            return CheckResult::Fail { snapshot, path };
        }
        let mut next: usize = 0;
        while next < self.visited.len() && next < bound
            invariant
                self.system == old(self).system,
                self.property == old(self).property,
                self.parents@.len() == self.visited@.len(),
                1 <= self.visited@.len(),
                next <= self.visited@.len(),
                forall|k: int| 0 < k < self.parents@.len() ==> (self.parents@[k] as int) < k,
                ex == explore(old(self).system, old(self).property, bound as int),
                explore_rec(
                    self.system,
                    self.property,
                    views(self.visited@),
                    self.parents@,
                    next as int,
                    bound as int,
                ) == ex,
            decreases bound - next,
        {
            let ghost vis0 = views(self.visited@);
            let ghost par0 = self.parents@;
            let succs = self.system.successors_exec(&self.visited[next]);
            proof {
                assert(vis0[next as int] == self.visited@[next as int]@);
                assert(views(succs@).skip(0) =~= views(succs@));
            }
            let mut j: usize = 0;
            while j < succs.len()
                invariant
                    j <= succs@.len(),
                    self.system == old(self).system,
                    self.property == old(self).property,
                    self.parents@.len() == self.visited@.len(),
                    next < vis0.len(),
                    vis0.len() <= self.visited@.len(),
                    next < bound,
                    forall|k: int| 0 < k < self.parents@.len() ==> (self.parents@[k] as int) < k,
                    forall|k: int| 0 <= k < vis0.len() ==> views(self.visited@)[k] == vis0[k],
                    forall|k: int| 0 <= k < par0.len() ==> self.parents@[k] == par0[k],
                    par0.len() == vis0.len(),
                    views(succs@) == successors(self.system, vis0[next as int]),
                    ex == explore(old(self).system, old(self).property, bound as int),
                    explore_rec(self.system, self.property, vis0, par0, next as int, bound as int)
                        == ex,
                    absorb(
                        views(self.visited@),
                        self.parents@,
                        next,
                        views(succs@).skip(j as int),
                        self.property,
                    ) == absorb(vis0, par0, next, views(succs@), self.property),
                decreases succs@.len() - j,
            {
                proof {
                    assert(views(succs@).skip(j as int)[0] == succs@[j as int]@);
                    assert(views(succs@).skip(j as int).drop_first() =~= views(succs@).skip(j + 1));
                }
                let t = &succs[j];
                if !self.property.eval(t) {
                    let snapshot = snapshot_dup(t);
                    let path = self.build_chain(next);
                    proof {
                        let ab = absorb(vis0, par0, next, views(succs@), self.property);
                        assert(ab == absorb(
                            views(self.visited@),
                            self.parents@,
                            next,
                            views(succs@).skip(j as int),
                            self.property,
                        ));
                        assert(views(succs@).skip(j as int)[0] == t@);
                        assert(ab.viol == Option::Some(t@));
                        assert(ab.vis == views(self.visited@));
                        assert(ab.par == self.parents@);
                        assert(explore_rec(
                            self.system,
                            self.property,
                            vis0,
                            par0,
                            next as int,
                            bound as int,
                        ) == ExploreV {
                            vis: ab.vis,
                            par: ab.par,
                            viol: Option::Some((t@, chain(vis0, par0, next as int))),
                            complete: false,
                        });
                        lemma_chain_grow(vis0, par0, views(self.visited@), self.parents@, next as int);
                        assert(ex.viol == Option::Some((snapshot@, views(path@))));
                        assert(views(self.visited@) == ex.vis);
                    }
                    return CheckResult::Fail { snapshot, path };
                }
                let ghost visj = views(self.visited@);
                let ghost parj = self.parents@;
                if !contains_snapshot(&self.visited, t) {
                    let copy = snapshot_dup(t);
                    self.visited.push(copy);
                    self.parents.push(next);
                    proof {
                        assert(views(self.visited@) =~= visj.push(t@));
                        assert(self.parents@ == parj.push(next));
                        assert(absorb(
                            visj,
                            parj,
                            next,
                            views(succs@).skip(j as int),
                            self.property,
                        ) == absorb(
                            visj.push(t@),
                            parj.push(next),
                            next,
                            views(succs@).skip(j + 1),
                            self.property,
                        ));
                    }
                } else {
                    proof {
                        assert(absorb(
                            visj,
                            parj,
                            next,
                            views(succs@).skip(j as int),
                            self.property,
                        ) == absorb(visj, parj, next, views(succs@).skip(j + 1), self.property));
                    }
                }
                j += 1;
            }
            proof {
                assert(views(succs@).skip(succs@.len() as int) =~= Seq::<SnapV>::empty());
            }
            next += 1;
        }
        proof {
            if next as int >= views(self.visited@).len() {
                assert(ex =~= ExploreV {
                    vis: views(self.visited@),
                    par: self.parents@,
                    viol: Option::None,
                    complete: true,
                });
            } else {
                assert(ex =~= ExploreV {
                    vis: views(self.visited@),
                    par: self.parents@,
                    viol: Option::None,
                    complete: false,
                });
            }
        }
        if next >= self.visited.len() {
            CheckResult::Pass
        } else {
            CheckResult::Incomplete
        }
    }
}

/// Whether `to` lies within `n` successor steps of `from`.
pub open spec fn reachable_within(sys: ActorSystem, from: SnapV, to: SnapV, n: nat) -> bool
    decreases n,
{
    if n == 0 {
        from == to
    } else {
        from == to || exists|mid: SnapV|
            #[trigger] successors(sys, from).contains(mid) && reachable_within(
                sys,
                mid,
                to,
                (n - 1) as nat,
            )
    }
}

/// Whether a collection of snapshots is closed under successors.
pub open spec fn closed_under_successors(sys: ActorSystem, vis: Seq<SnapV>) -> bool {
    forall|k: int, s: SnapV|
        0 <= k < vis.len() && #[trigger] successors(sys, vis[k]).contains(s) ==> vis.contains(s)
}

proof fn lemma_contains_extends(a: Seq<SnapV>, b: Seq<SnapV>, x: SnapV)
    requires
        a.len() <= b.len(),
        forall|k: int| 0 <= k < a.len() ==> b[k] == a[k],
        a.contains(x),
    ensures
        b.contains(x),
{
    let k = choose|k: int| 0 <= k < a.len() && a[k] == x;
    assert(b[k] == x);
}

/// Absorbing successors without a violation leaves the visited list a
/// pointwise extension that contains every absorbed successor, each newly
/// added snapshot satisfying the property.
proof fn lemma_absorb_sound(
    vis: Seq<SnapV>,
    par: Seq<usize>,
    src: usize,
    succs: Seq<SnapV>,
    p: Property,
)
    requires
        absorb(vis, par, src, succs, p).viol is None,
    ensures
        absorb(vis, par, src, succs, p).vis.len() >= vis.len(),
        forall|k: int| 0 <= k < vis.len() ==> absorb(vis, par, src, succs, p).vis[k] == vis[k],
        forall|j: int|
            0 <= j < succs.len() ==> absorb(vis, par, src, succs, p).vis.contains(#[trigger] succs[j]),
        forall|k: int|
            vis.len() <= k < absorb(vis, par, src, succs, p).vis.len() ==> p.holds(
                #[trigger] absorb(vis, par, src, succs, p).vis[k],
            ),
    decreases succs.len(),
{
    if succs.len() == 0 {
    } else {
        let ab = absorb(vis, par, src, succs, p);
        if vis.contains(succs[0]) {
            lemma_absorb_sound(vis, par, src, succs.drop_first(), p);
            lemma_contains_extends(vis, ab.vis, succs[0]);
            assert(forall|j: int|
                1 <= j < succs.len() ==> succs.drop_first()[j - 1] == #[trigger] succs[j]);
        } else {
            let vis2 = vis.push(succs[0]);
            let par2 = par.push(src);
            lemma_absorb_sound(vis2, par2, src, succs.drop_first(), p);
            assert(vis2[vis.len() as int] == succs[0]);
            lemma_contains_extends(vis2, ab.vis, succs[0]);
            assert(forall|j: int|
                1 <= j < succs.len() ==> succs.drop_first()[j - 1] == #[trigger] succs[j]);
            assert(ab == absorb(vis2, par2, src, succs.drop_first(), p));
            assert forall|k: int| 0 <= k < vis.len() implies ab.vis[k] == vis[k] by {
                assert(ab.vis[k] == vis2[k]);
            }
            assert forall|k: int| vis.len() <= k < ab.vis.len() implies p.holds(
                #[trigger] ab.vis[k],
            ) by {
                if k == vis.len() {
                    assert(ab.vis[k] == vis2[k]);
                    assert(vis2[k] == succs[0]);
                }
            }
        }
    }
}

/// A completed, violation-free exploration from a state whose expanded
/// prefix is already covered leaves a visited list that extends the input,
/// is closed under successors, and satisfies the property throughout.
proof fn lemma_explore_rec_sound(
    sys: ActorSystem,
    p: Property,
    vis: Seq<SnapV>,
    par: Seq<usize>,
    next: int,
    bound: int,
)
    requires
        0 <= next <= vis.len(),
        forall|k: int, s: SnapV|
            0 <= k < next && #[trigger] successors(sys, vis[k]).contains(s) ==> vis.contains(s),
        forall|k: int| 0 <= k < vis.len() ==> p.holds(#[trigger] vis[k]),
        explore_rec(sys, p, vis, par, next, bound).viol is None,
        explore_rec(sys, p, vis, par, next, bound).complete,
    ensures
        explore_rec(sys, p, vis, par, next, bound).vis.len() >= vis.len(),
        forall|k: int|
            0 <= k < vis.len() ==> explore_rec(sys, p, vis, par, next, bound).vis[k] == vis[k],
        closed_under_successors(sys, explore_rec(sys, p, vis, par, next, bound).vis),
        forall|k: int|
            0 <= k < explore_rec(sys, p, vis, par, next, bound).vis.len() ==> p.holds(
                #[trigger] explore_rec(sys, p, vis, par, next, bound).vis[k],
            ),
    decreases bound - next,
{
    let r = explore_rec(sys, p, vis, par, next, bound);
    if next >= vis.len() {
        assert(next == vis.len());
        assert(closed_under_successors(sys, vis));
    } else if next >= bound {
        assert(!r.complete);
    } else {
        let ab = absorb(vis, par, next as usize, successors(sys, vis[next]), p);
        assert(ab.viol is None);
        lemma_absorb_sound(vis, par, next as usize, successors(sys, vis[next]), p);
        assert forall|k: int, s: SnapV|
            0 <= k < next + 1 && #[trigger] successors(sys, ab.vis[k]).contains(s) implies ab.vis.contains(
            s,
        ) by {
            assert(ab.vis[k] == vis[k]);
            if k < next {
                lemma_contains_extends(vis, ab.vis, s);
            } else {
                let j = choose|j: int|
                    0 <= j < successors(sys, vis[next]).len() && successors(sys, vis[next])[j] == s;
            }
        }
        assert forall|k: int| 0 <= k < ab.vis.len() implies p.holds(#[trigger] ab.vis[k]) by {
            if k < vis.len() {
                assert(ab.vis[k] == vis[k]);
            }
        }
        lemma_explore_rec_sound(sys, p, ab.vis, ab.par, next + 1, bound);
    }
}

/// Every snapshot reachable from a member of a closed collection is itself a
/// member.
proof fn lemma_closed_covers(sys: ActorSystem, vis: Seq<SnapV>, from: SnapV, to: SnapV, n: nat)
    requires
        closed_under_successors(sys, vis),
        vis.contains(from),
        reachable_within(sys, from, to, n),
    ensures
        vis.contains(to),
    decreases n,
{
    if n == 0 || from == to {
    } else {
        let mid = choose|mid: SnapV|
            #[trigger] successors(sys, from).contains(mid) && reachable_within(
                sys,
                mid,
                to,
                (n - 1) as nat,
            );
        let k = choose|k: int| 0 <= k < vis.len() && vis[k] == from;
        assert(successors(sys, vis[k]).contains(mid));
        lemma_closed_covers(sys, vis, mid, to, (n - 1) as nat);
    }
}

/// Soundness of a passing check: when the frontier empties without a
/// violation, every snapshot reachable from the initial one — in any number
/// of delivery and drop steps — is among the visited snapshots, and the
/// property holds of it.  Over the write-once-register system this is what
/// establishes that a `Pass` means no reachable snapshot ever shows two
/// distinct `Respond` values.
pub proof fn lemma_pass_covers_reachable(
    sys: ActorSystem,
    p: Property,
    bound: int,
    to: SnapV,
    n: nat,
)
    requires
        explore(sys, p, bound).viol is None,
        explore(sys, p, bound).complete,
        reachable_within(sys, sys.init_snapshot_spec(), to, n),
    ensures
        explore(sys, p, bound).vis.contains(to),
        p.holds(to),
{
    let init = sys.init_snapshot_spec();
    assert(p.holds(init));
    let vis0 = seq![init];
    let par0 = seq![0usize];
    assert(explore(sys, p, bound) == explore_rec(sys, p, vis0, par0, 0, bound));
    assert(forall|k: int| 0 <= k < vis0.len() ==> p.holds(#[trigger] vis0[k]));
    lemma_explore_rec_sound(sys, p, vis0, par0, 0, bound);
    let r = explore_rec(sys, p, vis0, par0, 0, bound);
    assert(r.vis[0] == init);
    assert(r.vis.contains(init));
    lemma_closed_covers(sys, r.vis, init, to, n);
    let k = choose|k: int| 0 <= k < r.vis.len() && r.vis[k] == to;
    assert(p.holds(r.vis[k]));
}

/// No two positions of a sequence hold one value.
pub open spec fn all_distinct(vis: Seq<SnapV>) -> bool {
    forall|i: int, j: int| 0 <= i < j < vis.len() ==> vis[i] != vis[j]
}

proof fn lemma_absorb_distinct(
    vis: Seq<SnapV>,
    par: Seq<usize>,
    src: usize,
    succs: Seq<SnapV>,
    p: Property,
)
    requires
        all_distinct(vis),
    ensures
        all_distinct(absorb(vis, par, src, succs, p).vis),
    decreases succs.len(),
{
    if succs.len() == 0 || !p.holds(succs[0]) {
    } else if vis.contains(succs[0]) {
        lemma_absorb_distinct(vis, par, src, succs.drop_first(), p);
    } else {
        let vis2 = vis.push(succs[0]);
        assert forall|i: int, j: int| 0 <= i < j < vis2.len() implies vis2[i] != vis2[j] by {
            if j == vis.len() {
                if vis2[i] == succs[0] {
                    assert(vis.contains(succs[0]));
                }
            }
        }
        lemma_absorb_distinct(vis2, par.push(src), src, succs.drop_first(), p);
    }
}

proof fn lemma_explore_rec_distinct(
    sys: ActorSystem,
    p: Property,
    vis: Seq<SnapV>,
    par: Seq<usize>,
    next: int,
    bound: int,
)
    requires
        all_distinct(vis),
    ensures
        all_distinct(explore_rec(sys, p, vis, par, next, bound).vis),
    decreases bound - next,
{
    if next >= vis.len() || next >= bound {
    } else {
        let ab = absorb(vis, par, next as usize, successors(sys, vis[next]), p);
        lemma_absorb_distinct(vis, par, next as usize, successors(sys, vis[next]), p);
        if ab.viol is None {
            lemma_explore_rec_distinct(sys, p, ab.vis, ab.par, next + 1, bound);
        }
    }
}

/// Structurally equal snapshots are merged, never re-expanded: the visited
/// collection of an exploration holds no snapshot value twice, so its length
/// counts distinct snapshots.
pub proof fn lemma_visited_distinct(sys: ActorSystem, p: Property, bound: int)
    ensures
        all_distinct(explore(sys, p, bound).vis),
{
    let init = sys.init_snapshot_spec();
    if p.holds(init) {
        lemma_explore_rec_distinct(sys, p, seq![init], seq![0usize], 0, bound);
    }
}

/// Determinism of exploration: over one actor system, one property and one
/// bound, every run yields one outcome — the same pass or fail result and
/// the same visited-snapshot collection, hence the same count.
pub proof fn lemma_exploration_deterministic(
    sys: ActorSystem,
    p: Property,
    bound: int,
    r1: ExploreV,
    r2: ExploreV,
)
    requires
        r1 == explore(sys, p, bound),
        r2 == explore(sys, p, bound),
    ensures
        r1 == r2,
        r1.vis.len() == r2.vis.len(),
{
}

} // verus!
