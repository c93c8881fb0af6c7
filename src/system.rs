use vstd::prelude::*;

use crate::gravity::{GravityModel, OtherGrav};

verus! {

broadcast use vstd::seq_lib::group_seq_properties;

/// A massless test body. `S` is the state vector (position then velocity).
/// Timestamps are counted in steps: entry `t` was taken `t` steps after the start.
pub struct SatBody<S> {
    pub name: String,
    pub state: S,
    pub state_history: Vec<S>,
    pub time_history: Vec<usize>,
}

/// A massive perturber, integrated along with the satellites and attracting them.
/// `pos_old` is its state at the start of the step under way (only its position
/// part perturbs other bodies).
pub struct OtherBody<S> {
    pub name: String,
    pub id: usize,
    pub state: S,
    pub pos_old: S,
    pub state_history: Vec<S>,
    pub time_history: Vec<usize>,
}

/// A perturber as seen by one force-law evaluation: its place among the other
/// bodies, its id, and its state at the start of the step.
#[derive(Clone, Copy)]
pub struct Perturber<S> {
    pub index: usize,
    pub id: usize,
    pub state: S,
}

impl<S: Copy> SatBody<S> {
    /// A satellite with the given initial state and empty histories.
    pub fn new(name: String, state: S) -> (r: SatBody<S>)
        ensures
            r.name == name,
            r.state == state,
            r.state_history@ == Seq::<S>::empty(),
            r.time_history@ == Seq::<usize>::empty(),
    {
        SatBody { name, state, state_history: Vec::new(), time_history: Vec::new() }
    }
}

impl<S: Copy> OtherBody<S> {
    /// A perturber with the given id and initial state and empty histories.
    pub fn new(name: String, id: usize, state: S) -> (r: OtherBody<S>)
        ensures
            r.name == name,
            r.id == id,
            r.state == state,
            r.pos_old == state,
            r.state_history@ == Seq::<S>::empty(),
            r.time_history@ == Seq::<usize>::empty(),
    {
        OtherBody { name, id, state, pos_old: state, state_history: Vec::new(), time_history: Vec::new() }
    }
}

/// The perturbers that act on a body: every one whose id differs from the
/// excluded id (`None` excludes nothing), keeping their order.
pub open spec fn excluding<S>(snap: Seq<Perturber<S>>, excluded: Option<usize>) -> Seq<Perturber<S>> {
    snap.filter(|p: Perturber<S>| Some(p.id) != excluded)
}

/// Drops from `snap` the perturber whose id is the excluded one, so that no body
/// attracts itself.
pub fn perturbers<S: Copy>(snap: &Vec<Perturber<S>>, excluded: Option<usize>) -> (r: Vec<Perturber<S>>)
    ensures
        r@ == excluding(snap@, excluded),
{
    let mut r: Vec<Perturber<S>> = Vec::new();
    let mut i: usize = 0;
    while i < snap.len()
        invariant
            i <= snap@.len(),
            r@ == excluding(snap@.take(i as int), excluded),
        decreases snap@.len() - i,
    {
        let p = snap[i];
        proof {
            assert(snap@.take(i as int + 1) == snap@.take(i as int).push(p));
            snap@.take(i as int).lemma_filter_push(p, |p: Perturber<S>| Some(p.id) != excluded);
        }
        let keep = match excluded {
            Some(e) => p.id != e,
            None => true,
        };
        if keep {
            r.push(p);
        }
        i += 1;
    }
    assert(snap@.take(snap@.len() as int) == snap@);
    r
}

/// A body evaluated with the id of one perturber never sees that perturber,
/// even when it stands in the collection; every perturber with another id is kept.
pub proof fn third_body_exclusion<S>(snap: Seq<Perturber<S>>, id: usize)
    ensures
        forall|k: int| 0 <= k < excluding(snap, Some(id)).len()
            ==> (#[trigger] excluding(snap, Some(id))[k]).id != id,
        forall|j: int| 0 <= j < snap.len() && snap[j].id != id
            ==> excluding(snap, Some(id)).contains(#[trigger] snap[j]),
{
    let pred = |p: Perturber<S>| Some(p.id) != Some(id);
    assert forall|k: int| 0 <= k < excluding(snap, Some(id)).len()
        implies (#[trigger] excluding(snap, Some(id))[k]).id != id by {
        snap.lemma_filter_pred(pred, k);
    }
    assert forall|j: int| 0 <= j < snap.len() && snap[j].id != id
        implies excluding(snap, Some(id)).contains(#[trigger] snap[j]) by {
        snap.lemma_filter_contains(pred, j);
    }
}

/// The multi-body integrator: advances every satellite and every perturber
/// by `maxsteps` fixed steps.
pub struct DynamicalSystem<S> {
    pub satellites: Vec<SatBody<S>>,
    pub other_bodies: Vec<OtherBody<S>>,
    /// The force law that acts on satellites.
    pub model: GravityModel,
    pub maxsteps: usize,
    /// Whether states and timestamps are kept in the bodies' histories.
    pub storeflag: bool,
}

/// The timestamps `0, 1, .., n - 1`, counted in steps.
pub open spec fn steps_seq(n: nat) -> Seq<usize> {
    Seq::new(n, |t: int| t as usize)
}

/// The ids of the perturbers, in order.
pub open spec fn body_ids<S>(others: Seq<OtherBody<S>>) -> Seq<usize> {
    others.map_values(|b: OtherBody<S>| b.id)
}

/// The perturbers as they stand at the start of step `k` of the trajectories `to`.
pub open spec fn snapshot_at<S>(ids: Seq<usize>, to: Seq<Seq<S>>, k: int) -> Seq<Perturber<S>> {
    Seq::new(ids.len(), |j: int| Perturber { index: j as usize, id: ids[j], state: to[j][k] })
}

/// `r` is a result of one step of `f` from state `s` at step `k`, under force law
/// `model`, with the perturbers `perts` handed to it.
pub open spec fn advanced<S, F: Fn(&GravityModel, &Vec<Perturber<S>>, &S, usize) -> S>(
    f: F,
    model: GravityModel,
    perts: Seq<Perturber<S>>,
    s: S,
    k: usize,
    r: S,
) -> bool {
    exists|v: Vec<Perturber<S>>| v@ == perts && #[trigger] f.ensures((&model, &v, &s, k), r)
}

/// `ts` (one trajectory per satellite) and `to` (one per perturber) are a run of
/// `steps` steps: each satellite moves under `model` and feels every perturber; each
/// perturber moves under the third-body-only law and feels every other perturber;
/// all of them see the perturbers' states at the start of the step.
pub open spec fn is_run<S, F: Fn(&GravityModel, &Vec<Perturber<S>>, &S, usize) -> S>(
    f: F,
    model: GravityModel,
    ids: Seq<usize>,
    steps: nat,
    ts: Seq<Seq<S>>,
    to: Seq<Seq<S>>,
) -> bool {
    &&& to.len() == ids.len()
    &&& forall|i: int| 0 <= i < ts.len() ==> #[trigger] ts[i].len() == steps + 1
    &&& forall|j: int| 0 <= j < to.len() ==> #[trigger] to[j].len() == steps + 1
    &&& forall|i: int, k: int|
        0 <= i < ts.len() && 0 <= k < steps ==> #[trigger] advanced(
            f,
            model,
            excluding(snapshot_at(ids, to, k), None),
            ts[i][k],
            k as usize,
            ts[i][k + 1],
        )
    &&& forall|j: int, k: int|
        0 <= j < to.len() && 0 <= k < steps ==> #[trigger] advanced(
            f,
            GravityModel::OtherModel(OtherGrav),
            excluding(snapshot_at(ids, to, k), Some(ids[j])),
            to[j][k],
            k as usize,
            to[j][k + 1],
        )
}

/// Satellite `b` has followed trajectory `traj` from `start`: its state is the
/// trajectory's last, and with `store` its histories have grown by the trajectory
/// and its timestamps.
pub open spec fn sat_follows<S>(b: SatBody<S>, start: SatBody<S>, traj: Seq<S>, store: bool) -> bool {
    &&& traj.len() >= 1
    &&& traj[0] == start.state
    &&& b.name == start.name
    &&& b.state == traj.last()
    &&& if store {
        &&& b.state_history@ == start.state_history@ + traj
        &&& b.time_history@ == start.time_history@ + steps_seq(traj.len())
    } else {
        &&& b.state_history == start.state_history
        &&& b.time_history == start.time_history
    }
}

/// As `sat_follows`, for a perturber, whose id stays.
pub open spec fn other_follows<S>(b: OtherBody<S>, start: OtherBody<S>, traj: Seq<S>, store: bool) -> bool {
    &&& traj.len() >= 1
    &&& traj[0] == start.state
    &&& b.name == start.name
    &&& b.id == start.id
    &&& b.state == traj.last()
    &&& if store {
        &&& b.state_history@ == start.state_history@ + traj
        &&& b.time_history@ == start.time_history@ + steps_seq(traj.len())
    } else {
        &&& b.state_history == start.state_history
        &&& b.time_history == start.time_history
    }
}

impl<S: Copy> SatBody<S> {
    /// Moves to `new` and, with `store`, appends it and its timestamp to the histories.
    fn advance_to(&mut self, new: S, step: usize, store: bool)
        ensures
            final(self).name == old(self).name,
            final(self).state == new,
            store ==> final(self).state_history@ == old(self).state_history@.push(new),
            store ==> final(self).time_history@ == old(self).time_history@.push(step),
            !store ==> final(self).state_history == old(self).state_history,
            !store ==> final(self).time_history == old(self).time_history,
    {
        self.state = new;
        if store {
            self.state_history.push(new);
            self.time_history.push(step);
        }
    }
}

impl<S: Copy> OtherBody<S> {
    /// Moves to `new` and, with `store`, appends it and its timestamp to the histories.
    fn advance_to(&mut self, new: S, step: usize, store: bool)
        ensures
            final(self).name == old(self).name,
            final(self).id == old(self).id,
            final(self).pos_old == old(self).pos_old,
            final(self).state == new,
            store ==> final(self).state_history@ == old(self).state_history@.push(new),
            store ==> final(self).time_history@ == old(self).time_history@.push(step),
            !store ==> final(self).state_history == old(self).state_history,
            !store ==> final(self).time_history == old(self).time_history,
    {
        self.state = new;
        if store {
            self.state_history.push(new);
            self.time_history.push(step);
        }
    }

    /// Copies the current state into the previous-position buffer.
    fn snapshot_position(&mut self) -> (r: Perturber<S>)
        ensures
            final(self).name == old(self).name,
            final(self).id == old(self).id,
            final(self).state == old(self).state,
            final(self).state_history == old(self).state_history,
            final(self).time_history == old(self).time_history,
            final(self).pos_old == old(self).state,
            r.id == old(self).id,
            r.state == old(self).state,
    {
        self.pos_old = self.state;
        Perturber { index: 0, id: self.id, state: self.state }
    }
}

/// Timestamps grow by one step at a time.
proof fn lemma_steps_push(n: nat)
    requires
        n <= usize::MAX,
    ensures
        steps_seq(n + 1) == steps_seq(n).push(n as usize),
{
    assert(steps_seq(n + 1) =~= steps_seq(n).push(n as usize));
}

/// Appending one state to a trajectory appends it to the history that follows it.
proof fn lemma_history_push<S>(h: Seq<S>, traj: Seq<S>, x: S)
    ensures
        (h + traj).push(x) == h + traj.push(x),
{
    assert((h + traj).push(x) =~= h + traj.push(x));
}

/// A history that starts a trajectory.
proof fn lemma_history_start<S>(h: Seq<S>, x: S)
    ensures
        h.push(x) == h + seq![x],
        steps_seq(1) == seq![0usize],
{
    assert(h.push(x) =~= h + seq![x]);
    assert(steps_seq(1) =~= seq![0usize]);
}

/// A run of `steps` steps grows by one step when every satellite and every
/// perturber takes it from the snapshot at its start.
proof fn lemma_run_extends<S, F: Fn(&GravityModel, &Vec<Perturber<S>>, &S, usize) -> S>(
    f: F,
    model: GravityModel,
    ids: Seq<usize>,
    steps: nat,
    ts: Seq<Seq<S>>,
    to: Seq<Seq<S>>,
    nss: Seq<S>,
    nos: Seq<S>,
)
    requires
        is_run(f, model, ids, steps, ts, to),
        steps < usize::MAX,
        nss.len() == ts.len(),
        nos.len() == to.len(),
        forall|i: int| 0 <= i < ts.len() ==> #[trigger] advanced(
            f,
            model,
            excluding(snapshot_at(ids, to, steps as int), None),
            ts[i][steps as int],
            steps as usize,
            nss[i],
        ),
        forall|j: int| 0 <= j < to.len() ==> #[trigger] advanced(
            f,
            GravityModel::OtherModel(OtherGrav),
            excluding(snapshot_at(ids, to, steps as int), Some(ids[j])),
            to[j][steps as int],
            steps as usize,
            nos[j],
        ),
    ensures
        is_run(
            f,
            model,
            ids,
            steps + 1,
            Seq::new(ts.len(), |i: int| ts[i].push(nss[i])),
            Seq::new(to.len(), |j: int| to[j].push(nos[j])),
        ),
{
    let ts2 = Seq::new(ts.len(), |i: int| ts[i].push(nss[i]));
    let to2 = Seq::new(to.len(), |j: int| to[j].push(nos[j]));
    assert forall|k: int| 0 <= k <= steps implies #[trigger] snapshot_at(ids, to2, k)
        == snapshot_at(ids, to, k) by {
        assert(snapshot_at(ids, to2, k) =~= snapshot_at(ids, to, k));
    }
    assert forall|i: int, k: int| 0 <= i < ts2.len() && 0 <= k < steps + 1 implies #[trigger] advanced(
        f,
        model,
        excluding(snapshot_at(ids, to2, k), None),
        ts2[i][k],
        k as usize,
        ts2[i][k + 1],
    ) by {
        assert(snapshot_at(ids, to2, k) == snapshot_at(ids, to, k));
        if k < steps {
            assert(advanced(
                f,
                model,
                excluding(snapshot_at(ids, to, k), None),
                ts[i][k],
                k as usize,
                ts[i][k + 1],
            ));
        } else {
            assert(advanced(
                f,
                model,
                excluding(snapshot_at(ids, to, steps as int), None),
                ts[i][steps as int],
                steps as usize,
                nss[i],
            ));
        }
    }
    assert forall|j: int, k: int| 0 <= j < to2.len() && 0 <= k < steps + 1 implies #[trigger] advanced(
        f,
        GravityModel::OtherModel(OtherGrav),
        excluding(snapshot_at(ids, to2, k), Some(ids[j])),
        to2[j][k],
        k as usize,
        to2[j][k + 1],
    ) by {
        assert(snapshot_at(ids, to2, k) == snapshot_at(ids, to, k));
        if k < steps {
            assert(advanced(
                f,
                GravityModel::OtherModel(OtherGrav),
                excluding(snapshot_at(ids, to, k), Some(ids[j])),
                to[j][k],
                k as usize,
                to[j][k + 1],
            ));
        } else {
            assert(advanced(
                f,
                GravityModel::OtherModel(OtherGrav),
                excluding(snapshot_at(ids, to, steps as int), Some(ids[j])),
                to[j][steps as int],
                steps as usize,
                nos[j],
            ));
        }
    }
}

/// A body ready for the next run: its last recorded state, if any, is its
/// initial state, and its histories are empty.
pub open spec fn restarted_state<S>(state: S, history: Seq<S>) -> S {
    if history.len() > 0 {
        history.last()
    } else {
        state
    }
}

impl<S: Copy> SatBody<S> {
    /// Seeds the next run from the last recorded state and clears the histories.
    pub fn restart(&mut self)
        ensures
            final(self).name == old(self).name,
            final(self).state == restarted_state(old(self).state, old(self).state_history@),
            final(self).state_history@ == Seq::<S>::empty(),
            final(self).time_history@ == Seq::<usize>::empty(),
    {
        let n = self.state_history.len();
        if n > 0 {
            self.state = self.state_history[n - 1];
        }
        self.state_history = Vec::new();
        self.time_history = Vec::new();
    }
}

impl<S: Copy> OtherBody<S> {
    /// Seeds the next run from the last recorded state and clears the histories.
    pub fn restart(&mut self)
        ensures
            final(self).name == old(self).name,
            final(self).id == old(self).id,
            final(self).pos_old == old(self).pos_old,
            final(self).state == restarted_state(old(self).state, old(self).state_history@),
            final(self).state_history@ == Seq::<S>::empty(),
            final(self).time_history@ == Seq::<usize>::empty(),
    {
        let n = self.state_history.len();
        if n > 0 {
            self.state = self.state_history[n - 1];
        }
        self.state_history = Vec::new();
        self.time_history = Vec::new();
    }
}

impl<S: Copy> DynamicalSystem<S> {
    /// Makes every body ready for the next run (see `SatBody::restart`).
    pub fn restart(&mut self)
        ensures
            final(self).model == old(self).model,
            final(self).maxsteps == old(self).maxsteps,
            final(self).storeflag == old(self).storeflag,
            final(self).satellites@.len() == old(self).satellites@.len(),
            final(self).other_bodies@.len() == old(self).other_bodies@.len(),
            forall|i: int|
                0 <= i < old(self).satellites@.len() ==> {
                    let (b, a) = (#[trigger] final(self).satellites@[i], old(self).satellites@[i]);
                    &&& b.name == a.name
                    &&& b.state == restarted_state(a.state, a.state_history@)
                    &&& b.state_history@ == Seq::<S>::empty()
                    &&& b.time_history@ == Seq::<usize>::empty()
                },
            forall|j: int|
                0 <= j < old(self).other_bodies@.len() ==> {
                    let (b, a) = (#[trigger] final(self).other_bodies@[j], old(self).other_bodies@[j]);
                    &&& b.name == a.name
                    &&& b.id == a.id
                    &&& b.pos_old == a.pos_old
                    &&& b.state == restarted_state(a.state, a.state_history@)
                    &&& b.state_history@ == Seq::<S>::empty()
                    &&& b.time_history@ == Seq::<usize>::empty()
                },
    {
        let ghost sats0 = self.satellites@;
        let ghost others0 = self.other_bodies@;
        let mut i: usize = 0;
        while i < self.satellites.len()
            invariant
                self.model == old(self).model,
                self.maxsteps == old(self).maxsteps,
                self.storeflag == old(self).storeflag,
                sats0 == old(self).satellites@,
                self.other_bodies@ == others0,
                others0 == old(self).other_bodies@,
                self.satellites@.len() == sats0.len(),
                i <= sats0.len(),
                forall|i2: int|
                    0 <= i2 < i ==> {
                        let (b, a) = (#[trigger] self.satellites@[i2], sats0[i2]);
                        &&& b.name == a.name
                        &&& b.state == restarted_state(a.state, a.state_history@)
                        &&& b.state_history@ == Seq::<S>::empty()
                        &&& b.time_history@ == Seq::<usize>::empty()
                    },
                forall|i2: int| i <= i2 < sats0.len() ==> #[trigger] self.satellites@[i2] == sats0[i2],
            decreases sats0.len() - i,
        {
            self.satellites[i].restart();
            i += 1;
        }
        let mut j: usize = 0;
        while j < self.other_bodies.len()
            invariant
                self.model == old(self).model,
                self.maxsteps == old(self).maxsteps,
                self.storeflag == old(self).storeflag,
                others0 == old(self).other_bodies@,
                sats0 == old(self).satellites@,
                self.satellites@.len() == sats0.len(),
                forall|i2: int|
                    0 <= i2 < sats0.len() ==> {
                        let (b, a) = (#[trigger] self.satellites@[i2], sats0[i2]);
                        &&& b.name == a.name
                        &&& b.state == restarted_state(a.state, a.state_history@)
                        &&& b.state_history@ == Seq::<S>::empty()
                        &&& b.time_history@ == Seq::<usize>::empty()
                    },
                self.other_bodies@.len() == others0.len(),
                j <= others0.len(),
                forall|j2: int|
                    0 <= j2 < j ==> {
                        let (b, a) = (#[trigger] self.other_bodies@[j2], others0[j2]);
                        &&& b.name == a.name
                        &&& b.id == a.id
                        &&& b.pos_old == a.pos_old
                        &&& b.state == restarted_state(a.state, a.state_history@)
                        &&& b.state_history@ == Seq::<S>::empty()
                        &&& b.time_history@ == Seq::<usize>::empty()
                    },
                forall|j2: int| j <= j2 < others0.len() ==> #[trigger] self.other_bodies@[j2] == others0[j2],
            decreases others0.len() - j,
        {
            self.other_bodies[j].restart();
            j += 1;
        }
    }

    /// A system with the given bodies, force law, step count and history flag.
    pub fn new(
        satellites: Vec<SatBody<S>>,
        other_bodies: Vec<OtherBody<S>>,
        model: GravityModel,
        maxsteps: usize,
        storeflag: bool,
    ) -> (r: DynamicalSystem<S>)
        ensures
            r.satellites == satellites,
            r.other_bodies == other_bodies,
            r.model == model,
            r.maxsteps == maxsteps,
            r.storeflag == storeflag,
    {
        DynamicalSystem { satellites, other_bodies, model, maxsteps, storeflag }
    }

    /// Advances all bodies by `maxsteps` steps. `advance(model, perturbers, state, k)`
    /// takes one integration step of `state` from step `k` under force law `model`,
    /// attracted by `perturbers`.
    ///
    /// With `storeflag`, every body first records its initial state with timestamp 0,
    /// then after step `k` its new state with timestamp `k + 1`. In each step the
    /// satellites move first, under the system's force law and attracted by every
    /// perturber; then each perturber moves under the third-body-only law, attracted
    /// by every other perturber. Every body sees the perturbers as they stood at the
    /// start of the step, which is also what `pos_old` holds.
    pub fn propagate<F>(&mut self, advance: F)
        where
            F: Fn(&GravityModel, &Vec<Perturber<S>>, &S, usize) -> S,
        requires
            forall|m: &GravityModel, p: &Vec<Perturber<S>>, s: &S, k: usize|
                #[trigger] advance.requires((m, p, s, k)),
        ensures
            final(self).model == old(self).model,
            final(self).maxsteps == old(self).maxsteps,
            final(self).storeflag == old(self).storeflag,
            final(self).satellites@.len() == old(self).satellites@.len(),
            final(self).other_bodies@.len() == old(self).other_bodies@.len(),
            exists|ts: Seq<Seq<S>>, to: Seq<Seq<S>>|
                #[trigger] is_run(
                    advance,
                    old(self).model,
                    body_ids(old(self).other_bodies@),
                    old(self).maxsteps as nat,
                    ts,
                    to,
                ) && ts.len() == old(self).satellites@.len() && (forall|i: int|
                    0 <= i < ts.len() ==> sat_follows(
                        #[trigger] final(self).satellites@[i],
                        old(self).satellites@[i],
                        ts[i],
                        old(self).storeflag,
                    )) && (forall|j: int|
                    0 <= j < to.len() ==> other_follows(
                        #[trigger] final(self).other_bodies@[j],
                        old(self).other_bodies@[j],
                        to[j],
                        old(self).storeflag,
                    ) && final(self).other_bodies@[j].pos_old == to[j][if old(self).maxsteps
                        == 0 {
                        0
                    } else {
                        old(self).maxsteps - 1
                    }]),
            forall|i: int|
                0 <= i < old(self).satellites@.len() ==> {
                    let (b, a) = (#[trigger] final(self).satellites@[i], old(self).satellites@[i]);
                    if old(self).storeflag {
                        &&& b.state_history@.len() == a.state_history@.len() + old(self).maxsteps + 1
                        &&& b.time_history@.len() == a.time_history@.len() + old(self).maxsteps + 1
                    } else {
                        &&& b.state_history == a.state_history
                        &&& b.time_history == a.time_history
                    }
                },
            forall|j: int|
                0 <= j < old(self).other_bodies@.len() ==> {
                    let (b, a) = (#[trigger] final(self).other_bodies@[j], old(self).other_bodies@[j]);
                    if old(self).storeflag {
                        &&& b.state_history@.len() == a.state_history@.len() + old(self).maxsteps + 1
                        &&& b.time_history@.len() == a.time_history@.len() + old(self).maxsteps + 1
                    } else {
                        &&& b.state_history == a.state_history
                        &&& b.time_history == a.time_history
                    }
                },
    {
        let store = self.storeflag;
        let maxsteps = self.maxsteps;
        let n_sats = self.satellites.len();
        let n_others = self.other_bodies.len();
        let ghost model = self.model;
        let ghost old_sats = self.satellites@;
        let ghost old_others = self.other_bodies@;
        let ghost ids = body_ids(old_others);

        // initial states, with timestamp 0
        let mut i: usize = 0;
        while i < n_sats
            invariant
                self.model == model,
                self.maxsteps == maxsteps,
                self.storeflag == store,
                self.satellites@.len() == n_sats,
                n_sats == old_sats.len(),
                self.other_bodies@ == old_others,
                i <= n_sats,
                forall|i2: int|
                    0 <= i2 < i ==> sat_follows(
                        #[trigger] self.satellites@[i2],
                        old_sats[i2],
                        seq![old_sats[i2].state],
                        store,
                    ),
                forall|i2: int| i <= i2 < n_sats ==> #[trigger] self.satellites@[i2] == old_sats[i2],
            decreases n_sats - i,
        {
            let st = self.satellites[i].state;
            proof {
                lemma_history_start(old_sats[i as int].state_history@, st);
                lemma_history_start(old_sats[i as int].time_history@, 0usize);
            }
            self.satellites[i].advance_to(st, 0, store);
            i += 1;
        }
        let mut j: usize = 0;
        while j < n_others
            invariant
                self.model == model,
                self.maxsteps == maxsteps,
                self.storeflag == store,
                self.satellites@.len() == n_sats,
                self.other_bodies@.len() == n_others,
                n_others == old_others.len(),
                n_sats == old_sats.len(),
                j <= n_others,
                forall|i2: int|
                    0 <= i2 < n_sats ==> sat_follows(
                        #[trigger] self.satellites@[i2],
                        old_sats[i2],
                        seq![old_sats[i2].state],
                        store,
                    ),
                forall|j2: int|
                    0 <= j2 < j ==> other_follows(
                        #[trigger] self.other_bodies@[j2],
                        old_others[j2],
                        seq![old_others[j2].state],
                        store,
                    ) && self.other_bodies@[j2].pos_old == old_others[j2].state,
                forall|j2: int| j <= j2 < n_others ==> #[trigger] self.other_bodies@[j2] == old_others[j2],
            decreases n_others - j,
        {
            let st = self.other_bodies[j].state;
            proof {
                lemma_history_start(old_others[j as int].state_history@, st);
                lemma_history_start(old_others[j as int].time_history@, 0usize);
            }
            self.other_bodies[j].advance_to(st, 0, store);
            let _ = self.other_bodies[j].snapshot_position();
            j += 1;
        }

        let ghost mut ts: Seq<Seq<S>> = Seq::new(n_sats as nat, |i: int| seq![old_sats[i].state]);
        let ghost mut to: Seq<Seq<S>> = Seq::new(n_others as nat, |j: int| seq![old_others[j].state]);
        proof {
            assert(is_run(advance, model, ids, 0, ts, to));
        }

        let mut k: usize = 0;
        while k < maxsteps
            invariant
                forall|m: &GravityModel, p: &Vec<Perturber<S>>, s: &S, k: usize|
                    #[trigger] advance.requires((m, p, s, k)),
                self.model == model,
                self.maxsteps == maxsteps,
                self.storeflag == store,
                self.satellites@.len() == n_sats,
                self.other_bodies@.len() == n_others,
                n_sats == old_sats.len(),
                n_others == old_others.len(),
                ids == body_ids(old_others),
                k <= maxsteps,
                ts.len() == n_sats,
                is_run(advance, model, ids, k as nat, ts, to),
                forall|i2: int|
                    0 <= i2 < n_sats ==> sat_follows(
                        #[trigger] self.satellites@[i2],
                        old_sats[i2],
                        ts[i2],
                        store,
                    ),
                forall|j2: int|
                    0 <= j2 < n_others ==> other_follows(
                        #[trigger] self.other_bodies@[j2],
                        old_others[j2],
                        to[j2],
                        store,
                    ) && self.other_bodies@[j2].pos_old == to[j2][if k == 0 {
                        0
                    } else {
                        k - 1
                    }],
            decreases maxsteps - k,
        {
            // every perturber's state at the start of the step
            let ghost sats_k = self.satellites@;
            let mut snap: Vec<Perturber<S>> = Vec::new();
            let mut j: usize = 0;
            while j < n_others
                invariant
                    self.model == model,
                    self.maxsteps == maxsteps,
                    self.storeflag == store,
                    self.satellites@.len() == n_sats,
                    self.other_bodies@.len() == n_others,
                    n_others == old_others.len(),
                    ids == body_ids(old_others),
                    k < maxsteps,
                    j <= n_others,
                    is_run(advance, model, ids, k as nat, ts, to),
                    self.satellites@ == sats_k,
                    snap@.len() == j,
                    forall|j2: int|
                        0 <= j2 < j ==> #[trigger] snap@[j2] == snapshot_at(ids, to, k as int)[j2],
                    forall|j2: int|
                        0 <= j2 < n_others ==> other_follows(
                            #[trigger] self.other_bodies@[j2],
                            old_others[j2],
                            to[j2],
                            store,
                        ),
                    forall|j2: int|
                        0 <= j2 < j ==> #[trigger] self.other_bodies@[j2].pos_old == to[j2][k as int],
                decreases n_others - j,
            {
                let p = self.other_bodies[j].snapshot_position();
                snap.push(Perturber { index: j, id: p.id, state: p.state });
                j += 1;
            }
            proof {
                assert(snap@ =~= snapshot_at(ids, to, k as int));
            }

            // satellites, attracted by every perturber
            let ghost others_a = self.other_bodies@;
            let all = perturbers(&snap, None);
            let ghost mut nss: Seq<S> = Seq::empty();
            let mut i: usize = 0;
            while i < n_sats
                invariant
                    forall|m: &GravityModel, p: &Vec<Perturber<S>>, s: &S, k: usize|
                        #[trigger] advance.requires((m, p, s, k)),
                    self.model == model,
                    self.maxsteps == maxsteps,
                    self.storeflag == store,
                    self.satellites@.len() == n_sats,
                    n_sats == old_sats.len(),
                    k < maxsteps,
                    i <= n_sats,
                    ts.len() == n_sats,
                    is_run(advance, model, ids, k as nat, ts, to),
                    all@ == excluding(snapshot_at(ids, to, k as int), None),
                    self.other_bodies@ == others_a,
                    nss.len() == i,
                    forall|i2: int|
                        0 <= i2 < i ==> sat_follows(
                            #[trigger] self.satellites@[i2],
                            old_sats[i2],
                            ts[i2].push(nss[i2]),
                            store,
                        ),
                    forall|i2: int|
                        0 <= i2 < i ==> #[trigger] advanced(
                            advance,
                            model,
                            excluding(snapshot_at(ids, to, k as int), None),
                            ts[i2][k as int],
                            k,
                            nss[i2],
                        ),
                    forall|i2: int|
                        i <= i2 < n_sats ==> sat_follows(
                            #[trigger] self.satellites@[i2],
                            old_sats[i2],
                            ts[i2],
                            store,
                        ),
                decreases n_sats - i,
            {
                let st = self.satellites[i].state;
                let new = advance(&self.model, &all, &st, k);
                proof {
                    nss = nss.push(new);
                    assert(advance.ensures((&model, &all, &st, k), new));
                    lemma_steps_push(k as nat + 1);
                    lemma_history_push(old_sats[i as int].state_history@, ts[i as int], new);
                    lemma_history_push(
                        old_sats[i as int].time_history@,
                        steps_seq(k as nat + 1),
                        (k + 1) as usize,
                    );
                }
                self.satellites[i].advance_to(new, k + 1, store);
                i += 1;
            }

            // perturbers, each attracted by the others
            let ghost sats_b = self.satellites@;
            let ghost mut nos: Seq<S> = Seq::empty();
            let mut j: usize = 0;
            while j < n_others
                invariant
                    forall|m: &GravityModel, p: &Vec<Perturber<S>>, s: &S, k: usize|
                        #[trigger] advance.requires((m, p, s, k)),
                    self.model == model,
                    self.maxsteps == maxsteps,
                    self.storeflag == store,
                    self.other_bodies@.len() == n_others,
                    n_others == old_others.len(),
                    ids == body_ids(old_others),
                    k < maxsteps,
                    j <= n_others,
                    is_run(advance, model, ids, k as nat, ts, to),
                    snap@ == snapshot_at(ids, to, k as int),
                    self.satellites@ == sats_b,
                    nos.len() == j,
                    forall|j2: int|
                        0 <= j2 < j ==> other_follows(
                            #[trigger] self.other_bodies@[j2],
                            old_others[j2],
                            to[j2].push(nos[j2]),
                            store,
                        ) && self.other_bodies@[j2].pos_old == to[j2][k as int],
                    forall|j2: int|
                        0 <= j2 < j ==> #[trigger] advanced(
                            advance,
                            GravityModel::OtherModel(OtherGrav),
                            excluding(snapshot_at(ids, to, k as int), Some(ids[j2])),
                            to[j2][k as int],
                            k,
                            nos[j2],
                        ),
                    forall|j2: int|
                        j <= j2 < n_others ==> other_follows(
                            #[trigger] self.other_bodies@[j2],
                            old_others[j2],
                            to[j2],
                            store,
                        ) && self.other_bodies@[j2].pos_old == to[j2][k as int],
                decreases n_others - j,
            {
                let st = self.other_bodies[j].state;
                let id = self.other_bodies[j].id;
                let ps = perturbers(&snap, Some(id));
                let law = GravityModel::OtherModel(OtherGrav);
                let new = advance(&law, &ps, &st, k);
                proof {
                    nos = nos.push(new);
                    assert(advance.ensures((&law, &ps, &st, k), new));
                    lemma_steps_push(k as nat + 1);
                    lemma_history_push(old_others[j as int].state_history@, to[j as int], new);
                    lemma_history_push(
                        old_others[j as int].time_history@,
                        steps_seq(k as nat + 1),
                        (k + 1) as usize,
                    );
                }
                self.other_bodies[j].advance_to(new, k + 1, store);
                j += 1;
            }

            proof {
                lemma_run_extends(advance, model, ids, k as nat, ts, to, nss, nos);
                ts = Seq::new(ts.len(), |i: int| ts[i].push(nss[i]));
                to = Seq::new(to.len(), |j: int| to[j].push(nos[j]));
            }
            k += 1;
        }
        proof {
            assert(is_run(advance, model, ids, maxsteps as nat, ts, to));
        }
    }
}

} // verus!
