use vstd::prelude::*;
use std::collections::HashMap;
use crate::registry::{member_targets, Clients};
use crate::station::{playing_text, Media, Station};
use crate::text::{nat_text, u64_text};
use crate::timer::{elapsed_secs, Timer};

verus! {

broadcast use vstd::std_specs::hash::group_hash_axioms;

/// The message a tick broadcasts for a queue `q` whose head has played for
/// `elapsed` seconds: the next item once the head has run out, the head when
/// its timer has just started, and otherwise the bare elapsed seconds.
pub open spec fn tick_message(q: Seq<Media>, elapsed: int) -> Option<Seq<char>> {
    if q.len() == 0 {
        None
    } else if q[0].duration as int <= elapsed {
        if q.len() > 1 {
            Some(playing_text(q[1]))
        } else {
            None
        }
    } else if elapsed == 0 {
        Some(playing_text(q[0]))
    } else {
        Some(nat_text(elapsed as nat))
    }
}

/// The head of `q` has run out after `elapsed` seconds and leaves the queue.
pub open spec fn head_expires(q: Seq<Media>, elapsed: int) -> bool {
    q.len() > 0 && q[0].duration as int <= elapsed
}

/// The tick of station `id` at the reading `now` (re)starts its timer: none
/// runs yet, or the reading lies before the running timer's start.
pub open spec fn restarts(timers: Map<u128, Timer>, id: u128, now: u128) -> bool {
    !timers.contains_key(id) || now < timers[id].start()
}

/// Seconds the head of station `id` has played at the reading `now`: zero
/// where the tick (re)starts the timer.
pub open spec fn elapsed_for(timers: Map<u128, Timer>, id: u128, now: u128) -> int {
    if restarts(timers, id, now) {
        0
    } else {
        elapsed_secs(timers[id].start(), now)
    }
}

/// The timers after a tick of station `id` with queue `q` at the reading `now`.
/// A head that ran out keeps its timer until the shorter queue is stored.
pub open spec fn timers_after(
    timers: Map<u128, Timer>,
    id: u128,
    q: Seq<Media>,
    now: u128,
) -> Map<u128, Timer> {
    if q.len() == 0 {
        timers.remove(id)
    } else if restarts(timers, id, now) {
        timers.insert(id, Timer::started_at_spec(now))
    } else {
        timers
    }
}

/// The queue after a tick that found `elapsed` seconds played.
pub open spec fn queue_after(q: Seq<Media>, elapsed: int) -> Seq<Media> {
    if head_expires(q, elapsed) {
        q.drop_first()
    } else {
        q
    }
}

/// The station ids of `v` with at least one member, in order.
pub open spec fn joined_ids(v: Seq<(u128, Seq<Seq<char>>)>) -> Seq<u128>
    decreases v.len(),
{
    if v.len() == 0 {
        Seq::empty()
    } else if v.last().1.len() > 0 {
        joined_ids(v.drop_last()).push(v.last().0)
    } else {
        joined_ids(v.drop_last())
    }
}

/// The members of station `id` in `v`; none where it has no entry.
pub open spec fn members_of(v: Seq<(u128, Seq<Seq<char>>)>, id: u128) -> Seq<Seq<char>>
    decreases v.len(),
{
    if v.len() == 0 {
        Seq::empty()
    } else if v.last().0 == id {
        v.last().1
    } else {
        members_of(v.drop_last(), id)
    }
}

/// Moves the queue of `station` on by one tick at which its head has played
/// for `elapsed` seconds, and returns the message that the tick broadcasts.
pub fn advance_queue(station: &mut Station, elapsed: u64) -> (r: Option<String>)
    ensures
        final(station).id == old(station).id,
        final(station).owner_username == old(station).owner_username,
        final(station).name == old(station).name,
        final(station).media_queue@ == queue_after(old(station).media_queue@, elapsed as int),
        r is Some == tick_message(old(station).media_queue@, elapsed as int) is Some,
        r matches Some(m) ==> tick_message(old(station).media_queue@, elapsed as int) == Some(m@),
{
    if station.media_queue.len() == 0 {
        return None;
    }
    if station.media_queue[0].duration as i128 <= elapsed as i128 {
        station.media_queue.remove(0);
        if station.media_queue.len() > 0 {
            Some(station.media_queue[0].playing_message())
        } else {
            None
        }
    } else if elapsed == 0 {
        Some(station.media_queue[0].playing_message())
    } else {
        Some(u64_text(elapsed))
    }
}

/// What one tick did to one station: the record to persist when its queue
/// moved on, the message, and the connections to send it to.
pub struct StationUpdate {
    pub station_id: u128,
    /// The station after the tick; to be written back when `popped`.
    pub station: Station,
    pub popped: bool,
    pub message: Option<String>,
    pub recipients: Vec<String>,
}

/// Station membership and playback timers.
pub struct StationManager {
    stations: Vec<(u128, Vec<String>)>,
    timers: HashMap<u128, Timer>,
}

impl StationManager {
    /// Each station, in join order, with its members in join order.
    pub closed spec fn members(&self) -> Seq<(u128, Seq<Seq<char>>)> {
        self.stations@.map_values(
            |e: (u128, Vec<String>)| (e.0, e.1@.map_values(|t: String| t@)),
        )
    }

    /// The running timers, by station id.
    pub closed spec fn timers(&self) -> Map<u128, Timer> {
        self.timers@
    }

    /// No station appears twice.
    pub open spec fn wf(&self) -> bool {
        forall|i: int, j: int|
            0 <= i < j < self.members().len() ==> self.members()[i].0 != self.members()[j].0
    }

    /// A manager with no stations and no timers.
    pub fn new() -> (r: StationManager)
        ensures
            r.wf(),
            r.members() == Seq::<(u128, Seq<Seq<char>>)>::empty(),
            r.timers() == Map::<u128, Timer>::empty(),
    {
        let r = StationManager { stations: Vec::new(), timers: HashMap::new() };
        assert(r.members() =~= Seq::<(u128, Seq<Seq<char>>)>::empty());
        r
    }

    /// Adds `client_id` to the members of station `station_id`, after any
    /// earlier entry of it; a station not seen before gets an entry of its own.
    pub fn join_station(&mut self, station_id: u128, client_id: &str)
        requires
            old(self).wf(),
        ensures
            final(self).wf(),
            final(self).timers() == old(self).timers(),
            forall|i: int|
                0 <= i < old(self).members().len() && old(self).members()[i].0 == station_id
                    ==> final(self).members() == old(self).members().update(
                    i,
                    (station_id, old(self).members()[i].1.push(client_id@)),
                ),
            (forall|i: int|
                0 <= i < old(self).members().len() ==> old(self).members()[i].0 != station_id)
                ==> final(self).members() == old(self).members().push(
                (station_id, seq![client_id@]),
            ),
    {
        let ghost before = self.members();
        let mut i: usize = 0;
        while i < self.stations.len()
            invariant
                i <= self.stations@.len(),
                self.members() == before,
                self.timers() == old(self).timers(),
                before == old(self).members(),
                old(self).wf(),
                before.len() == self.stations@.len(),
                forall|k: int| 0 <= k < i ==> before[k].0 != station_id,
            decreases self.stations@.len() - i,
        {
            if self.stations[i].0 == station_id {
                let ghost old_members = self.stations@[i as int].1@;
                self.stations[i].1.push(String::from_str(client_id));
                assert(self.stations@[i as int].1@.map_values(|t: String| t@) =~= old_members.map_values(
                    |t: String| t@,
                ).push(client_id@));
                assert(self.members() =~= before.update(
                    i as int,
                    (station_id, before[i as int].1.push(client_id@)),
                ));
                assert forall|j: int|
                    0 <= j < before.len() && before[j].0 == station_id implies j == i by {
                    if j != i {
                        assert(before[j].0 != before[i as int].0);
                    }
                }
                assert forall|a: int, b: int|
                    0 <= a < b < self.members().len() implies self.members()[a].0
                        != self.members()[b].0 by {
                    assert(before[a].0 != before[b].0);
                }
                return ;
            }
            i = i + 1;
        }
        let fresh = vec![String::from_str(client_id)];
        assert(fresh@.map_values(|t: String| t@) =~= seq![client_id@]);
        self.stations.push((station_id, fresh));
        assert(self.members() =~= before.push((station_id, seq![client_id@])));
    }

    /// Records that `client_id` joined station `station_id`, whose record is
    /// `station`, and returns the "now playing" message for its head item,
    /// which the joining connection alone is sent; none when the queue is
    /// empty.
    pub fn join(&mut self, station_id: u128, station: &Station, client_id: &str) -> (r: Option<
        String,
    >)
        requires
            old(self).wf(),
        ensures
            final(self).wf(),
            final(self).timers() == old(self).timers(),
            members_of(final(self).members(), station_id) == members_of(
                old(self).members(),
                station_id,
            ).push(client_id@),
            forall|k: u128|
                k != station_id ==> members_of(final(self).members(), k) == members_of(
                    old(self).members(),
                    k,
                ),
            r is Some == (station.media_queue@.len() > 0),
            r matches Some(m) ==> m@ == playing_text(station.media_queue@[0]),
    {
        let ghost before = self.members();
        self.join_station(station_id, client_id);
        proof {
            lemma_join_members(before, self.members(), station_id, client_id@);
        }
        if station.media_queue.len() > 0 {
            Some(station.media_queue[0].playing_message())
        } else {
            None
        }
    }

    /// Handles a join of connection `id` to station `station_id`, whose record
    /// is `station`: records the membership and, when the queue is not empty,
    /// returns the "now playing" message for its head with the connections
    /// it goes to: the joining connection alone, where it is registered with
    /// a channel.
    pub fn receive_msg<S>(
        &mut self,
        id: &str,
        station_id: u128,
        station: &Station,
        clients: &Clients<S>,
    ) -> (r: Option<(String, Vec<String>)>)
        requires
            old(self).wf(),
        ensures
            final(self).wf(),
            final(self).timers() == old(self).timers(),
            members_of(final(self).members(), station_id) == members_of(
                old(self).members(),
                station_id,
            ).push(id@),
            forall|k: u128|
                k != station_id ==> members_of(final(self).members(), k) == members_of(
                    old(self).members(),
                    k,
                ),
            r is Some == (station.media_queue@.len() > 0),
            r matches Some((m, to)) ==> {
                &&& m@ == playing_text(station.media_queue@[0])
                &&& to@.map_values(|t: String| t@) == member_targets(clients@, seq![id@])
                &&& forall|k: int| 0 <= k < to@.len() ==> (#[trigger] to@[k])@ == id@
            },
    {
        match self.join(station_id, station, id) {
            Some(m) => {
                let only = vec![String::from_str(id)];
                let to = clients.member_targets(&only);
                proof {
                    assert(only@.map_values(|t: String| t@) =~= seq![id@]);
                    lemma_member_targets_within(clients@, seq![id@]);
                    assert forall|k: int| 0 <= k < to@.len() implies (#[trigger] to@[k])@ == id@ by {
                        assert(to@.map_values(|t: String| t@)[k] == to@[k]@);
                        assert(seq![id@].contains(to@[k]@));
                    }
                }
                Some((m, to))
            },
            None => None,
        }
    }

    /// The ids of the stations that have members, in join order: the
    /// stations a sweep reconciles.
    pub fn station_ids(&self) -> (r: Vec<u128>)
        ensures
            r@ == joined_ids(self.members()),
    {
        let mut out: Vec<u128> = Vec::new();
        let mut i: usize = 0;
        while i < self.stations.len()
            invariant
                i <= self.stations@.len(),
                self.members().len() == self.stations@.len(),
                out@ == joined_ids(self.members().subrange(0, i as int)),
            decreases self.stations@.len() - i,
        {
            let ghost pre = self.members().subrange(0, i as int + 1);
            assert(pre.drop_last() =~= self.members().subrange(0, i as int));
            if self.stations[i].1.len() > 0 {
                out.push(self.stations[i].0);
            }
            i = i + 1;
        }
        assert(self.members().subrange(0, i as int) =~= self.members());
        out
    }

    /// The members of station `id`, in join order.
    pub fn members_of(&self, id: u128) -> (r: Vec<String>)
        ensures
            r@.map_values(|t: String| t@) == members_of(self.members(), id),
    {
        let mut i: usize = self.stations.len();
        assert(self.members().subrange(0, i as int) =~= self.members());
        while i > 0
            invariant
                i <= self.stations@.len(),
                self.members().len() == self.stations@.len(),
                members_of(self.members(), id) == members_of(
                    self.members().subrange(0, i as int),
                    id,
                ),
            decreases i,
        {
            let ghost pre = self.members().subrange(0, i as int);
            assert(pre.drop_last() =~= self.members().subrange(0, i as int - 1));
            if self.stations[i - 1].0 == id {
                let r = self.stations[i - 1].1.clone();
                return r;
            }
            i = i - 1;
        }
        Vec::new()
    }

    /// One reconciliation tick of station `id`, whose record is `station`, at
    /// the clock reading `now_nanos`: starts a timer where none runs (or where
    /// the reading lies before its start), moves the queue on when its head
    /// has run out, and returns the message to broadcast. A head that ran out
    /// keeps its timer: once the shorter queue is stored, `commit_pop` drops
    /// it; if storing fails, the next tick pops the same head again. An empty
    /// queue broadcasts nothing and keeps no timer.
    pub fn update_station(&mut self, id: u128, station: &mut Station, now_nanos: u128) -> (r:
        Option<String>)
        ensures
            final(self).members() == old(self).members(),
            final(self).timers() == timers_after(
                old(self).timers(),
                id,
                old(station).media_queue@,
                now_nanos,
            ),
            final(station).id == old(station).id,
            final(station).owner_username == old(station).owner_username,
            final(station).name == old(station).name,
            final(station).media_queue@ == queue_after(
                old(station).media_queue@,
                elapsed_for(old(self).timers(), id, now_nanos),
            ),
            r is Some == tick_message(
                old(station).media_queue@,
                elapsed_for(old(self).timers(), id, now_nanos),
            ) is Some,
            r matches Some(m) ==> tick_message(
                old(station).media_queue@,
                elapsed_for(old(self).timers(), id, now_nanos),
            ) == Some(m@),
    {
        if station.media_queue.len() == 0 {
            self.timers.remove(&id);
            return None;
        }
        let running: Option<u64> = match self.timers.get(&id) {
            Some(t) => match t.elapsed_at(now_nanos) {
                Ok(e) => Some(e),
                Err(_) => None,
            },
            None => None,
        };
        let elapsed: u64 = match running {
            Some(e) => e,
            None => {
                self.timers.insert(id, Timer::started_at(now_nanos));
                0
            },
        };
        advance_queue(station, elapsed)
    }

    /// Drops the timer of station `id`, once its shorter queue is stored.
    pub fn commit_pop(&mut self, id: u128)
        ensures
            final(self).timers() == old(self).timers().remove(id),
            final(self).members() == old(self).members(),
    {
        self.timers.remove(&id);
    }

    /// One sweep: reconciles each station of `loaded` whose record could be
    /// loaded, at the clock reading `now_nanos`, and skips those whose load
    /// failed. Each update carries the connections of `clients` that are
    /// members of its station and can be sent to.
    pub fn update_clients<S>(
        &mut self,
        loaded: Vec<(u128, Option<Station>)>,
        clients: &Clients<S>,
        now_nanos: u128,
    ) -> (r: Vec<Option<StationUpdate>>)
        requires
            forall|i: int, j: int| 0 <= i < j < loaded@.len() ==> loaded@[i].0 != loaded@[j].0,
        ensures
            final(self).members() == old(self).members(),
            r@.len() == loaded@.len(),
            forall|k: u128|
                (forall|i: int| 0 <= i < loaded@.len() ==> loaded@[i].0 != k) ==> same_at(
                    final(self).timers(),
                    old(self).timers(),
                    k,
                ),
            forall|i: int|
                0 <= i < loaded@.len() ==> #[trigger] reconciled(
                    old(self).timers(),
                    final(self).timers(),
                    old(self).members(),
                    clients@,
                    loaded@[i].0,
                    loaded@[i].1,
                    now_nanos,
                    r@[i],
                ),
    {
        let ghost t0 = self.timers();
        let total: usize = loaded.len();
        let ghost n = loaded@.len();
        let ghost inputs = loaded@;
        assert(n == total);
        let mut out: Vec<Option<StationUpdate>> = Vec::new();
        let mut rest = loaded;
        assert(rest@.subrange(0, n as int) =~= rest@);
        let mut i: usize = 0;
        while rest.len() > 0
            invariant
                i <= n,
                n == inputs.len(),
                n <= usize::MAX,
                rest@ == inputs.subrange(i as int, n as int),
                forall|a: int, b: int| 0 <= a < b < n ==> inputs[a].0 != inputs[b].0,
                self.members() == old(self).members(),
                out@.len() == i,
                forall|j: int| i <= j < n ==> same_at(self.timers(), t0, inputs[j].0),
                forall|k: u128|
                    (forall|j: int| 0 <= j < n ==> inputs[j].0 != k) ==> same_at(
                        self.timers(),
                        t0,
                        k,
                    ),
                forall|j: int|
                    0 <= j < i ==> #[trigger] reconciled(
                        t0,
                        self.timers(),
                        old(self).members(),
                        clients@,
                        inputs[j].0,
                        inputs[j].1,
                        now_nanos,
                        out@[j],
                    ),
            decreases rest@.len(),
        {
            let (id, record) = rest.remove(0);
            assert(inputs[i as int].0 == id);
            let ghost before = self.timers();
            let ghost out_before = out@;
            assert(forall|k: u128|
                (forall|j: int| 0 <= j < n ==> inputs[j].0 != k) ==> same_at(before, t0, k));
            match record {
                None => {
                    out.push(None);
                },
                Some(station) => {
                    let mut station = station;
                    let before_len = station.media_queue.len();
                    let message = self.update_station(id, &mut station, now_nanos);
                    let popped = station.media_queue.len() < before_len;
                    let members = self.members_of(id);
                    let recipients = clients.member_targets(&members);
                    out.push(
                        Some(StationUpdate { station_id: id, station, popped, message, recipients }),
                    );
                },
            }
            proof {
                let q = match inputs[i as int].1 {
                    Some(st) => st.media_queue@,
                    None => Seq::empty(),
                };
                lemma_elapsed_agrees(before, t0, id, now_nanos);
                lemma_timers_after_agrees(before, t0, id, q, now_nanos);
                assert forall|k: u128| k != id implies same_at(self.timers(), before, k) by {
                    if inputs[i as int].1 is Some {
                        lemma_timers_after_frame(before, id, q, now_nanos, k);
                    }
                }
                assert forall|j: int| 0 <= j < i + 1 implies #[trigger] reconciled(
                    t0,
                    self.timers(),
                    old(self).members(),
                    clients@,
                    inputs[j].0,
                    inputs[j].1,
                    now_nanos,
                    out@[j],
                ) by {
                    if j < i {
                        assert(out@[j] == out_before[j]);
                        assert(inputs[j].0 != id);
                        assert(reconciled(
                            t0,
                            before,
                            old(self).members(),
                            clients@,
                            inputs[j].0,
                            inputs[j].1,
                            now_nanos,
                            out_before[j],
                        ));
                    }
                }
                assert forall|k: u128| (forall|j: int| 0 <= j < n ==> inputs[j].0 != k) implies same_at(
                    self.timers(),
                    t0,
                    k,
                ) by {
                    assert(inputs[i as int].0 != k);
                    assert(same_at(self.timers(), before, k));
                    assert(same_at(before, t0, k));
                }
                assert forall|j: int| i + 1 <= j < n implies same_at(
                    self.timers(),
                    t0,
                    inputs[j].0,
                ) by {
                    assert(inputs[j].0 != id);
                }
                assert(rest@ =~= inputs.subrange(i + 1, n as int));
            }
            i = i + 1;
        }
        out
    }
}

/// A tick of station `id` leaves the timers of the other stations alone.
proof fn lemma_timers_after_frame(
    m: Map<u128, Timer>,
    id: u128,
    q: Seq<Media>,
    now: u128,
    k: u128,
)
    requires
        k != id,
    ensures
        same_at(timers_after(m, id, q, now), m, k),
{
}

/// The elapsed time of station `id` depends on its own timer alone.
proof fn lemma_elapsed_agrees(a: Map<u128, Timer>, b: Map<u128, Timer>, id: u128, now: u128)
    requires
        same_at(a, b, id),
    ensures
        elapsed_for(a, id, now) == elapsed_for(b, id, now),
{
}

/// What a tick does to the timer of station `id` depends on that timer alone.
proof fn lemma_timers_after_agrees(
    a: Map<u128, Timer>,
    b: Map<u128, Timer>,
    id: u128,
    q: Seq<Media>,
    now: u128,
)
    requires
        same_at(a, b, id),
    ensures
        same_at(timers_after(a, id, q, now), timers_after(b, id, q, now), id),
{
    lemma_elapsed_agrees(a, b, id, now);
}

/// The maps `a` and `b` agree at key `k`.
pub open spec fn same_at(a: Map<u128, Timer>, b: Map<u128, Timer>, k: u128) -> bool {
    &&& a.contains_key(k) == b.contains_key(k)
    &&& a.contains_key(k) ==> a[k] == b[k]
}

/// `u` is what one sweep made of station `id`, whose load gave `record`, with
/// the timers `t0` before the sweep and `t1` after it: nothing at all where
/// the load failed, else the tick of that station alone.
pub open spec fn reconciled(
    t0: Map<u128, Timer>,
    t1: Map<u128, Timer>,
    members: Seq<(u128, Seq<Seq<char>>)>,
    clients: Seq<(Seq<char>, crate::registry::ClientView)>,
    id: u128,
    record: Option<Station>,
    now: u128,
    u: Option<StationUpdate>,
) -> bool {
    match record {
        None => u is None && same_at(t1, t0, id),
        Some(s) => {
            let e = elapsed_for(t0, id, now);
            &&& same_at(t1, timers_after(t0, id, s.media_queue@, now), id)
            &&& u matches Some(up) && {
                &&& up.station_id == id
                &&& up.station.id == s.id
                &&& up.station.owner_username == s.owner_username
                &&& up.station.name == s.name
                &&& up.station.media_queue@ == queue_after(s.media_queue@, e)
                &&& up.popped == head_expires(s.media_queue@, e)
                &&& (up.message is Some) == (tick_message(s.media_queue@, e) is Some)
                &&& (up.message matches Some(m) ==> tick_message(s.media_queue@, e) == Some(m@))
                &&& up.recipients@.map_values(|t: String| t@) == member_targets(
                    clients,
                    members_of(members, id),
                )
            }
        },
    }
}

/// Every id that member targets yields is one of the members.
proof fn lemma_member_targets_within(
    v: Seq<(Seq<char>, crate::registry::ClientView)>,
    members: Seq<Seq<char>>,
)
    ensures
        forall|k: int|
            0 <= k < member_targets(v, members).len() ==> members.contains(
                #[trigger] member_targets(v, members)[k],
            ),
    decreases v.len(),
{
    if v.len() > 0 {
        let rest = member_targets(v.drop_last(), members);
        lemma_member_targets_within(v.drop_last(), members);
        let all = member_targets(v, members);
        assert forall|k: int| 0 <= k < all.len() implies members.contains(#[trigger] all[k]) by {
            if k < rest.len() {
                assert(all[k] == rest[k]);
            } else {
                assert(all[k] == v.last().0);
            }
        }
    }
}

/// Joining adds the member to the joined station and to no other.
proof fn lemma_join_members(
    before: Seq<(u128, Seq<Seq<char>>)>,
    after: Seq<(u128, Seq<Seq<char>>)>,
    id: u128,
    c: Seq<char>,
)
    requires
        forall|i: int, j: int| 0 <= i < j < before.len() ==> before[i].0 != before[j].0,
        forall|i: int|
            0 <= i < before.len() && before[i].0 == id ==> after == before.update(
                i,
                (id, before[i].1.push(c)),
            ),
        (forall|i: int| 0 <= i < before.len() ==> before[i].0 != id) ==> after == before.push(
            (id, seq![c]),
        ),
    ensures
        members_of(after, id) == members_of(before, id).push(c),
        forall|k: u128| k != id ==> members_of(after, k) == members_of(before, k),
    decreases before.len(),
{
    let n = before.len() as int;
    if exists|i: int| 0 <= i < n && before[i].0 == id {
        let i = choose|i: int| 0 <= i < n && before[i].0 == id;
        assert(after == before.update(i, (id, before[i].1.push(c))));
        if i == n - 1 {
            assert(after.drop_last() =~= before.drop_last());
            assert forall|k: u128| k != id implies members_of(after, k) == members_of(before, k) by {
                assert(after.drop_last() =~= before.drop_last());
                assert(after.last().0 == id);
            }
        } else {
            let b2 = before.drop_last();
            let a2 = after.drop_last();
            assert(a2 =~= b2.update(i, (id, b2[i].1.push(c))));
            assert(before.last().0 != id);
            assert forall|j: int| 0 <= j < b2.len() && b2[j].0 == id implies a2 == b2.update(
                j,
                (id, b2[j].1.push(c)),
            ) by {
                assert(j == i);
            }
            lemma_join_members(b2, a2, id, c);
            assert(after.last() == before.last());
            assert forall|k: u128| k != id implies members_of(after, k) == members_of(before, k) by {
                assert(after.last() == before.last());
                assert(after.len() == before.len());
                if after.last().0 != k {
                    assert(members_of(after, k) == members_of(a2, k));
                    assert(members_of(before, k) == members_of(b2, k));
                }
            }
        }
    } else {
        lemma_members_absent(before, id);
        assert(after.drop_last() =~= before);
        assert forall|k: u128| k != id implies members_of(after, k) == members_of(before, k) by {
            assert(after.drop_last() =~= before);
        }
    }
}

/// A station without an entry has no members.
proof fn lemma_members_absent(v: Seq<(u128, Seq<Seq<char>>)>, id: u128)
    requires
        forall|i: int| 0 <= i < v.len() ==> v[i].0 != id,
    ensures
        members_of(v, id) == Seq::<Seq<char>>::empty(),
    decreases v.len(),
{
    if v.len() > 0 {
        lemma_members_absent(v.drop_last(), id);
    }
}

} // verus!

verus! {

/// A join code with one trailing newline, if any, taken off.
pub open spec fn trimmed_code(p: Seq<char>) -> Seq<char> {
    if p.len() > 0 && p.last() == '\n' {
        p.drop_last()
    } else {
        p
    }
}

/// The store key under which join code `p` resolves to a station id.
pub open spec fn join_code_text(p: Seq<char>) -> Seq<char> {
    "join-code:"@ + trimmed_code(p)
}

/// The store key of the join code in a `join_station` payload: `join-code:`
/// and the payload without one trailing newline.
pub fn join_code_key(payload: &str) -> (r: String)
    ensures
        r@ == join_code_text(payload@),
{
    let len = payload.unicode_len();
    let code = if len > 0 && payload.get_char(len - 1) == '\n' {
        payload.substring_char(0, len - 1)
    } else {
        payload
    };
    assert(code@ =~= trimmed_code(payload@));
    let mut key = String::from_str("join-code:");
    key.append(code);
    key
}

/// A tick of a station with an empty queue broadcasts nothing, leaves the
/// queue empty, starts no timer and keeps none.
pub proof fn lemma_empty_queue_tick(timers: Map<u128, Timer>, id: u128, now: u128, elapsed: int)
    ensures
        tick_message(Seq::<Media>::empty(), elapsed) is None,
        queue_after(Seq::<Media>::empty(), elapsed) == Seq::<Media>::empty(),
        timers_after(timers, id, Seq::<Media>::empty(), now) == timers.remove(id),
        !timers_after(timers, id, Seq::<Media>::empty(), now).contains_key(id),
{
}

} // verus!

verus! {

/// When a tick finds the head run out, it announces the next item and keeps
/// the timer, so that a failed store leaves the station as it was. Once the
/// shorter queue is stored and the timer dropped, the following tick starts a
/// timer at its own reading and announces that same item once more unless it
/// has run out too.
pub proof fn lemma_expiry_then_restart(
    timers: Map<u128, Timer>,
    id: u128,
    q: Seq<Media>,
    now: u128,
    later: u128,
)
    requires
        q.len() >= 2,
        head_expires(q, elapsed_for(timers, id, now)),
    ensures
        tick_message(q, elapsed_for(timers, id, now)) == Some(playing_text(q[1])),
        queue_after(q, elapsed_for(timers, id, now)) == q.drop_first(),
        timers_after(timers, id, q, now).contains_key(id),
        elapsed_for(timers_after(timers, id, q, now).remove(id), id, later) == 0,
        q[1].duration > 0 ==> tick_message(q.drop_first(), 0) == Some(playing_text(q[1])),
        q[1].duration > 0 ==> timers_after(
            timers_after(timers, id, q, now).remove(id),
            id,
            q.drop_first(),
            later,
        ) == timers_after(timers, id, q, now).remove(id).insert(
            id,
            Timer::started_at_spec(later),
        ),
{
}

} // verus!
