use vstd::prelude::*;

verus! {

/// A lower-case hexadecimal digit.
pub open spec fn is_hex_digit(c: char) -> bool {
    ('0' <= c && c <= '9') || ('a' <= c && c <= 'f')
}

/// Relies on `uuid::Uuid::new_v4` and its simple (unhyphenated) text: a random
/// connection id of 32 lower-case hexadecimal digits.
#[verifier::external_body]
fn random_connection_id() -> (r: String)
    ensures
        r@.len() == 32,
        forall|i: int| 0 <= i < r@.len() ==> is_hex_digit(#[trigger] r@[i]),
{
    uuid::Uuid::new_v4().as_simple().to_string()
}

/// A live connection: who it belongs to, what it listens to, and, once the
/// transport is upgraded, the sending half of its outbound channel.
pub struct Client<S> {
    pub user_id: usize,
    pub topics: Vec<String>,
    pub sender: Option<S>,
}

/// What the contracts see of a connection.
pub struct ClientView {
    pub user_id: usize,
    pub topics: Seq<Seq<char>>,
    /// The outbound channel is attached.
    pub connected: bool,
}

/// The topic set of a fresh connection.
pub open spec fn default_topics() -> Seq<Seq<char>> {
    seq!["default"@]
}

/// A freshly registered connection of `user_id`.
pub open spec fn fresh_client(user_id: usize) -> ClientView {
    ClientView { user_id, topics: default_topics(), connected: false }
}

/// A publish on `topic`, restricted to `user` when it is `Some`, reaches `c`.
pub open spec fn reaches(c: ClientView, topic: Seq<char>, user: Option<usize>) -> bool {
    &&& c.connected
    &&& c.topics.contains(topic)
    &&& (user is None || user == Some(c.user_id))
}

/// The ids, in registry order, that a publish on `topic` for `user` reaches.
pub open spec fn publish_targets(
    v: Seq<(Seq<char>, ClientView)>,
    topic: Seq<char>,
    user: Option<usize>,
) -> Seq<Seq<char>>
    decreases v.len(),
{
    if v.len() == 0 {
        Seq::empty()
    } else {
        let rest = publish_targets(v.drop_last(), topic, user);
        if reaches(v.last().1, topic, user) {
            rest.push(v.last().0)
        } else {
            rest
        }
    }
}

/// The ids, in registry order, of connected entries listed in `members`.
pub open spec fn member_targets(
    v: Seq<(Seq<char>, ClientView)>,
    members: Seq<Seq<char>>,
) -> Seq<Seq<char>>
    decreases v.len(),
{
    if v.len() == 0 {
        Seq::empty()
    } else {
        let rest = member_targets(v.drop_last(), members);
        if v.last().1.connected && members.contains(v.last().0) {
            rest.push(v.last().0)
        } else {
            rest
        }
    }
}

/// `v` with `id` mapped to `c`: in place when `id` is present, else appended.
pub open spec fn put(
    v: Seq<(Seq<char>, ClientView)>,
    id: Seq<char>,
    c: ClientView,
) -> Seq<(Seq<char>, ClientView)> {
    if exists|i: int| 0 <= i < v.len() && v[i].0 == id {
        v.update(choose|i: int| 0 <= i < v.len() && v[i].0 == id, (id, c))
    } else {
        v.push((id, c))
    }
}

/// The entries of `v` hold distinct ids.
pub open spec fn unique_ids(v: Seq<(Seq<char>, ClientView)>) -> bool {
    forall|i: int, j: int| 0 <= i < j < v.len() ==> v[i].0 != v[j].0
}

impl<S> View for Client<S> {
    type V = ClientView;

    open spec fn view(&self) -> ClientView {
        ClientView {
            user_id: self.user_id,
            topics: self.topics@.map_values(|t: String| t@),
            connected: self.sender is Some,
        }
    }
}

/// The registry of live connections, keyed by connection id.
pub struct Clients<S> {
    entries: Vec<(String, Client<S>)>,
}

impl<S> View for Clients<S> {
    type V = Seq<(Seq<char>, ClientView)>;

    closed spec fn view(&self) -> Seq<(Seq<char>, ClientView)> {
        self.entries@.map_values(|e: (String, Client<S>)| (e.0@, e.1@))
    }
}

/// Whether `topics` holds `topic`.
fn holds_topic(topics: &Vec<String>, topic: &String) -> (r: bool)
    ensures
        r == topics@.map_values(|t: String| t@).contains(topic@),
{
    let ghost tv = topics@.map_values(|t: String| t@);
    let mut i: usize = 0;
    while i < topics.len()
        invariant
            i <= topics@.len(),
            tv == topics@.map_values(|t: String| t@),
            forall|k: int| 0 <= k < i ==> tv[k] != topic@,
        decreases topics@.len() - i,
    {
        if topics[i] == *topic {
            assert(tv[i as int] == topic@);
            return true;
        }
        i = i + 1;
    }
    false
}

/// Whether `ids` holds `id`.
fn holds_id(ids: &Vec<String>, id: &String) -> (r: bool)
    ensures
        r == ids@.map_values(|t: String| t@).contains(id@),
{
    holds_topic(ids, id)
}

impl<S> Clients<S> {
    /// The ids are distinct.
    pub open spec fn wf(&self) -> bool {
        unique_ids(self@)
    }

    /// An empty registry.
    pub fn new() -> (r: Clients<S>)
        ensures
            r@ == Seq::<(Seq<char>, ClientView)>::empty(),
            r.wf(),
    {
        Clients { entries: Vec::new() }
    }

    /// The position of `id`, if it is registered.
    fn find(&self, id: &String) -> (r: Option<usize>)
        ensures
            r matches Some(i) ==> i < self@.len() && self@[i as int].0 == id@,
            r is None ==> forall|i: int| 0 <= i < self@.len() ==> self@[i].0 != id@,
    {
        let mut i: usize = 0;
        while i < self.entries.len()
            invariant
                i <= self@.len(),
                self@.len() == self.entries@.len(),
                forall|k: int| 0 <= k < i ==> self@[k].0 != id@,
            decreases self@.len() - i,
        {
            if self.entries[i].0 == *id {
                return Some(i);
            }
            i = i + 1;
        }
        None
    }

    /// Records a connection `id` of `user_id` with the default topic set and
    /// no outbound channel, replacing any earlier entry under that id.
    pub fn register_client(&mut self, id: String, user_id: usize)
        requires
            old(self).wf(),
        ensures
            final(self).wf(),
            final(self)@ == put(old(self)@, id@, fresh_client(user_id)),
    {
        let ghost idv = id@;
        let client = Client { user_id, topics: vec![String::from_str("default")], sender: None };
        assert(client@.topics =~= default_topics());
        match self.find(&id) {
            Some(i) => {
                self.entries.set(i, (id, client));
                assert(self@ =~= old(self)@.update(i as int, (idv, fresh_client(user_id))));
            },
            None => {
                self.entries.push((id, client));
                assert(self@ =~= old(self)@.push((idv, fresh_client(user_id))));
            },
        }
    }

    /// The length of the longest registered id.
    fn longest_id(&self) -> (r: usize)
        ensures
            forall|i: int| 0 <= i < self@.len() ==> self@[i].0.len() <= r,
    {
        let mut longest: usize = 0;
        let mut i: usize = 0;
        while i < self.entries.len()
            invariant
                i <= self@.len(),
                self@.len() == self.entries@.len(),
                forall|k: int| 0 <= k < i ==> self@[k].0.len() <= longest,
            decreases self@.len() - i,
        {
            let len = self.entries[i].0.as_str().unicode_len();
            if len > longest {
                longest = len;
            }
            i = i + 1;
        }
        longest
    }

    /// Registers a connection of `user_id` under a fresh id, which it returns:
    /// 32 random lower-case hexadecimal digits, lengthened with `0`s in the
    /// rare case that they are taken.
    pub fn register(&mut self, user_id: usize) -> (r: String)
        requires
            old(self).wf(),
        ensures
            final(self).wf(),
            forall|i: int| 0 <= i < old(self)@.len() ==> old(self)@[i].0 != r@,
            final(self)@ == old(self)@.push((r@, fresh_client(user_id))),
            r@.len() >= 32,
            forall|i: int| 0 <= i < r@.len() ==> is_hex_digit(#[trigger] r@[i]),
    {
        let mut id = random_connection_id();
        let longest = self.longest_id();
        while self.find(&id).is_some()
            invariant
                self == old(self),
                forall|i: int| 0 <= i < self@.len() ==> self@[i].0.len() <= longest,
                id@.len() >= 32,
                forall|i: int| 0 <= i < id@.len() ==> is_hex_digit(#[trigger] id@[i]),
            decreases longest + 1 - id@.len(),
        {
            let ghost before = id@;
            id.append("0");
            proof {
                reveal_strlit("0");
            }
            assert(id@ =~= before + seq!['0']);
            assert forall|i: int| 0 <= i < id@.len() implies is_hex_digit(#[trigger] id@[i]) by {
                if i < before.len() {
                    assert(id@[i] == before[i]);
                }
            }
        }
        let r = id.clone();
        self.register_client(id, user_id);
        r
    }

    /// The connection registered under `id`, if any.
    pub fn lookup(&self, id: &str) -> (r: Option<&Client<S>>)
        requires
            self.wf(),
        ensures
            r is Some <==> exists|i: int| 0 <= i < self@.len() && self@[i].0 == id@,
            forall|i: int|
                0 <= i < self@.len() && self@[i].0 == id@ ==> (r matches Some(c) && c@
                    == self@[i].1),
    {
        let key = String::from_str(id);
        match self.find(&key) {
            Some(i) => Some(&self.entries[i].1),
            None => None,
        }
    }

    /// Removes the connection `id`; nothing happens if it is absent.
    pub fn remove(&mut self, id: &str)
        requires
            old(self).wf(),
        ensures
            final(self).wf(),
            forall|i: int|
                0 <= i < old(self)@.len() && old(self)@[i].0 == id@ ==> final(self)@ == old(
                    self,
                )@.remove(i),
            (forall|i: int| 0 <= i < old(self)@.len() ==> old(self)@[i].0 != id@)
                ==> final(self)@ == old(self)@,
    {
        let key = String::from_str(id);
        match self.find(&key) {
            Some(i) => {
                self.entries.remove(i);
                assert(self@ =~= old(self)@.remove(i as int));
            },
            None => {},
        }
    }

    /// Attaches the outbound channel of connection `id`; returns whether the
    /// connection was there. Nothing changes if it is absent.
    pub fn attach_outbound(&mut self, id: &str, sender: S) -> (r: bool)
        requires
            old(self).wf(),
        ensures
            final(self).wf(),
            r == exists|i: int| 0 <= i < old(self)@.len() && old(self)@[i].0 == id@,
            forall|i: int|
                0 <= i < old(self)@.len() && old(self)@[i].0 == id@ ==> final(self)@ == old(
                    self,
                )@.update(i, (id@, ClientView { connected: true, ..old(self)@[i].1 })),
            !r ==> final(self)@ == old(self)@,
    {
        let key = String::from_str(id);
        match self.find(&key) {
            Some(i) => {
                let ghost before = self@;
                self.entries[i].1.sender = Some(sender);
                assert(self@ =~= before.update(
                    i as int,
                    (id@, ClientView { connected: true, ..before[i as int].1 }),
                ));
                true
            },
            None => false,
        }
    }

    /// Replaces the topic set of connection `id`; nothing happens if it is
    /// absent.
    pub fn set_topics(&mut self, id: &str, topics: Vec<String>)
        requires
            old(self).wf(),
        ensures
            final(self).wf(),
            forall|i: int|
                0 <= i < old(self)@.len() && old(self)@[i].0 == id@ ==> final(self)@ == old(
                    self,
                )@.update(
                    i,
                    (
                        id@,
                        ClientView {
                            topics: topics@.map_values(|t: String| t@),
                            ..old(self)@[i].1
                        },
                    ),
                ),
            (forall|i: int| 0 <= i < old(self)@.len() ==> old(self)@[i].0 != id@)
                ==> final(self)@ == old(self)@,
    {
        let key = String::from_str(id);
        let ghost tv = topics@.map_values(|t: String| t@);
        match self.find(&key) {
            Some(i) => {
                let ghost before = self@;
                self.entries[i].1.topics = topics;
                assert(self@ =~= before.update(
                    i as int,
                    (id@, ClientView { topics: tv, ..before[i as int].1 }),
                ));
            },
            None => {},
        }
    }

    /// The ids, in registry order, of the connected entries whose topic set
    /// holds `topic` and, when `user_id` is `Some`, whose user is that one.
    pub fn publish_targets(&self, topic: &str, user_id: Option<usize>) -> (r: Vec<String>)
        ensures
            r@.map_values(|t: String| t@) == publish_targets(self@, topic@, user_id),
    {
        let t = String::from_str(topic);
        let mut out: Vec<String> = Vec::new();
        let mut i: usize = 0;
        while i < self.entries.len()
            invariant
                i <= self@.len(),
                self@.len() == self.entries@.len(),
                t@ == topic@,
                out@.map_values(|t: String| t@) == publish_targets(
                    self@.subrange(0, i as int),
                    topic@,
                    user_id,
                ),
            decreases self@.len() - i,
        {
            let ghost pre = self@.subrange(0, i as int + 1);
            assert(pre.drop_last() =~= self@.subrange(0, i as int));
            let entry = &self.entries[i];
            let user_ok = match user_id {
                Some(u) => entry.1.user_id == u,
                None => true,
            };
            if entry.1.sender.is_some() && user_ok && holds_topic(&entry.1.topics, &t) {
                out.push(entry.0.clone());
            }
            assert(out@.map_values(|t: String| t@) =~= publish_targets(pre, topic@, user_id));
            i = i + 1;
        }
        assert(self@.subrange(0, self@.len() as int) =~= self@);
        out
    }

    /// The ids, in registry order, of the connected entries listed in
    /// `members`; each at most once however often it is listed.
    pub fn member_targets(&self, members: &Vec<String>) -> (r: Vec<String>)
        ensures
            r@.map_values(|t: String| t@) == member_targets(
                self@,
                members@.map_values(|t: String| t@),
            ),
    {
        let ghost mv = members@.map_values(|t: String| t@);
        let mut out: Vec<String> = Vec::new();
        let mut i: usize = 0;
        while i < self.entries.len()
            invariant
                i <= self@.len(),
                self@.len() == self.entries@.len(),
                mv == members@.map_values(|t: String| t@),
                out@.map_values(|t: String| t@) == member_targets(
                    self@.subrange(0, i as int),
                    mv,
                ),
            decreases self@.len() - i,
        {
            let ghost pre = self@.subrange(0, i as int + 1);
            assert(pre.drop_last() =~= self@.subrange(0, i as int));
            let entry = &self.entries[i];
            if entry.1.sender.is_some() && holds_id(members, &entry.0) {
                out.push(entry.0.clone());
            }
            assert(out@.map_values(|t: String| t@) =~= member_targets(pre, mv));
            i = i + 1;
        }
        assert(self@.subrange(0, self@.len() as int) =~= self@);
        out
    }
}

} // verus!

verus! {

/// A connection just registered under `id` listens to the default topic set
/// alone, and nothing else in the registry changes.
pub proof fn lemma_register_default_topics(
    v: Seq<(Seq<char>, ClientView)>,
    id: Seq<char>,
    user_id: usize,
)
    requires
        unique_ids(v),
    ensures
        exists|i: int|
            0 <= i < put(v, id, fresh_client(user_id)).len() && #[trigger] put(
                v,
                id,
                fresh_client(user_id),
            )[i] == (id, fresh_client(user_id)),
        forall|i: int|
            0 <= i < v.len() && v[i].0 != id ==> #[trigger] put(v, id, fresh_client(user_id))[i]
                == v[i],
        fresh_client(user_id).topics == default_topics(),
{
    let w = put(v, id, fresh_client(user_id));
    if exists|i: int| 0 <= i < v.len() && v[i].0 == id {
        let j = choose|j: int| 0 <= j < v.len() && v[j].0 == id;
        assert forall|k: int| 0 <= k < v.len() && v[k].0 == id implies k == j by {
            if k < j {
                assert(v[k].0 != v[j].0);
            } else if k > j {
                assert(v[j].0 != v[k].0);
            }
        }
        assert(w[j] == (id, fresh_client(user_id)));
    } else {
        assert(w[v.len() as int] == (id, fresh_client(user_id)));
    }
}

/// A publish on `topic` for `user` reaches exactly the connected entries whose
/// topic set holds `topic` and, when `user` is `Some`, whose user is that one.
pub proof fn lemma_publish_reaches_exactly(
    v: Seq<(Seq<char>, ClientView)>,
    topic: Seq<char>,
    user: Option<usize>,
)
    ensures
        forall|id: Seq<char>|
            #[trigger] publish_targets(v, topic, user).contains(id) <==> exists|i: int|
                0 <= i < v.len() && v[i].0 == id && reaches(v[i].1, topic, user),
    decreases v.len(),
{
    if v.len() > 0 {
        let w = v.drop_last();
        lemma_publish_reaches_exactly(w, topic, user);
        let rest = publish_targets(w, topic, user);
        assert forall|id: Seq<char>|
            #[trigger] publish_targets(v, topic, user).contains(id) <==> exists|i: int|
                0 <= i < v.len() && v[i].0 == id && reaches(v[i].1, topic, user) by {
            if publish_targets(v, topic, user).contains(id) {
                if rest.contains(id) {
                    let i = choose|i: int|
                        0 <= i < w.len() && w[i].0 == id && reaches(w[i].1, topic, user);
                    assert(v[i] == w[i]);
                } else {
                    let k = choose|k: int|
                        0 <= k < publish_targets(v, topic, user).len() && publish_targets(
                            v,
                            topic,
                            user,
                        )[k] == id;
                    assert(reaches(v.last().1, topic, user));
                    assert(k == rest.len());
                    assert(v[v.len() - 1].0 == id);
                }
            }
            if exists|i: int| 0 <= i < v.len() && v[i].0 == id && reaches(v[i].1, topic, user) {
                let i = choose|i: int|
                    0 <= i < v.len() && v[i].0 == id && reaches(v[i].1, topic, user);
                if i < v.len() - 1 {
                    assert(w[i] == v[i]);
                    assert(rest.contains(id));
                    let k = choose|k: int| 0 <= k < rest.len() && rest[k] == id;
                    if reaches(v.last().1, topic, user) {
                        assert(publish_targets(v, topic, user)[k] == id);
                    }
                } else {
                    assert(publish_targets(v, topic, user)[rest.len() as int] == id);
                }
            }
        }
    }
}

} // verus!
