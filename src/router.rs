use vstd::prelude::*;

verus! {

/// The handlers that inbound frames can be routed to.
#[derive(Debug, Clone, Copy, PartialEq, Eq, Structural)]
pub enum Receiver {
    /// Replaces the sender's topic set.
    TopicRequest,
    /// Joins the sender to a station by join code.
    JoinStation,
}

/// Where an inbound frame goes.
#[derive(Debug, Clone, PartialEq, Eq)]
pub enum Dispatch {
    /// `ping`, with or without a trailing newline: nothing to do.
    Heartbeat,
    /// No `=` in the frame: dropped.
    Malformed,
    /// No handler of this id: dropped.
    Unknown(String),
    /// The payload after the first `=`, for the named handler.
    Deliver(Receiver, String),
}

/// What the contracts see of a [`Dispatch`].
pub enum Route {
    Heartbeat,
    Malformed,
    Unknown(Seq<char>),
    Deliver(Receiver, Seq<char>),
}

impl View for Dispatch {
    type V = Route;

    open spec fn view(&self) -> Route {
        match self {
            Dispatch::Heartbeat => Route::Heartbeat,
            Dispatch::Malformed => Route::Malformed,
            Dispatch::Unknown(s) => Route::Unknown(s@),
            Dispatch::Deliver(h, p) => Route::Deliver(*h, p@),
        }
    }
}

/// The frame is a heartbeat.
pub open spec fn is_heartbeat(f: Seq<char>) -> bool {
    f == "ping"@ || f == "ping\n"@
}

/// `i` is the position of the first `=` in `f`.
pub open spec fn is_first_eq(f: Seq<char>, i: int) -> bool {
    &&& 0 <= i < f.len()
    &&& f[i] == '='
    &&& forall|k: int| 0 <= k < i ==> f[k] != '='
}

/// `i` is the position of the first entry of `v` named `name`.
pub open spec fn is_first_named(v: Seq<(Seq<char>, Receiver)>, name: Seq<char>, i: int) -> bool {
    &&& 0 <= i < v.len()
    &&& v[i].0 == name
    &&& forall|k: int| 0 <= k < i ==> v[k].0 != name
}

/// The handler that `v` registers under `name`: its first entry of that name.
pub open spec fn receiver_for(v: Seq<(Seq<char>, Receiver)>, name: Seq<char>) -> Option<Receiver> {
    if exists|i: int| is_first_named(v, name, i) {
        Some(v[choose|i: int| is_first_named(v, name, i)].1)
    } else {
        None
    }
}

/// Where frame `f` goes under the handler registry `v`.
pub open spec fn route(f: Seq<char>, v: Seq<(Seq<char>, Receiver)>) -> Route {
    if is_heartbeat(f) {
        Route::Heartbeat
    } else if exists|i: int| is_first_eq(f, i) {
        let i = choose|i: int| is_first_eq(f, i);
        let name = f.take(i);
        match receiver_for(v, name) {
            Some(h) => Route::Deliver(h, f.skip(i + 1)),
            None => Route::Unknown(name),
        }
    } else {
        Route::Malformed
    }
}

/// The registry of named handlers.
pub struct ReceiverManager {
    receivers: Vec<(String, Receiver)>,
}

impl View for ReceiverManager {
    type V = Seq<(Seq<char>, Receiver)>;

    closed spec fn view(&self) -> Seq<(Seq<char>, Receiver)> {
        self.receivers@.map_values(|e: (String, Receiver)| (e.0@, e.1))
    }
}

impl ReceiverManager {
    /// The registry of `topic_request` and `join_station`.
    pub fn new() -> (r: ReceiverManager)
        ensures
            r@ == seq![
                ("topic_request"@, Receiver::TopicRequest),
                ("join_station"@, Receiver::JoinStation),
            ],
    {
        let r = ReceiverManager {
            receivers: vec![
                (String::from_str("topic_request"), Receiver::TopicRequest),
                (String::from_str("join_station"), Receiver::JoinStation),
            ],
        };
        assert(r@ =~= seq![
            ("topic_request"@, Receiver::TopicRequest),
            ("join_station"@, Receiver::JoinStation),
        ]);
        r
    }

    /// Registers `receiver` under `name`, after the existing entries; an
    /// earlier entry of the same name keeps precedence.
    pub fn add(&mut self, name: String, receiver: Receiver)
        ensures
            final(self)@ == old(self)@.push((name@, receiver)),
    {
        let ghost nv = name@;
        self.receivers.push((name, receiver));
        assert(self@ =~= old(self)@.push((nv, receiver)));
    }

    /// The handler registered under `name`.
    pub fn get(&self, name: &String) -> (r: Option<Receiver>)
        ensures
            r == receiver_for(self@, name@),
    {
        let mut i: usize = 0;
        while i < self.receivers.len()
            invariant
                i <= self@.len(),
                self@.len() == self.receivers@.len(),
                forall|k: int| 0 <= k < i ==> self@[k].0 != name@,
            decreases self@.len() - i,
        {
            if self.receivers[i].0 == *name {
                assert(is_first_named(self@, name@, i as int));
                let ghost j = choose|j: int| is_first_named(self@, name@, j);
                assert(j == i) by {
                    if j < i {
                        assert(self@[j].0 != name@);
                    } else if j > i {
                        assert(self@[i as int].0 != name@);
                    }
                }
                return Some(self.receivers[i].1);
            }
            i = i + 1;
        }
        None
    }

    /// Routes the inbound frame `frame`.
    pub fn client_msg(&self, frame: &str) -> (r: Dispatch)
        ensures
            r@ == route(frame@, self@),
    {
        let text = String::from_str(frame);
        if text == String::from_str("ping") || text == String::from_str("ping\n") {
            return Dispatch::Heartbeat;
        }
        let len = frame.unicode_len();
        let mut i: usize = 0;
        while i < len
            invariant
                i <= len,
                len == frame@.len(),
                !is_heartbeat(frame@),
                forall|k: int| 0 <= k < i ==> frame@[k] != '=',
            decreases len - i,
        {
            if frame.get_char(i) == '=' {
                let ghost f = frame@;
                assert(is_first_eq(f, i as int));
                let ghost j = choose|j: int| is_first_eq(f, j);
                assert(j == i) by {
                    if j < i {
                        assert(f[j] != '=');
                    } else if j > i {
                        assert(f[i as int] != '=');
                    }
                }
                let name = String::from_str(frame.substring_char(0, i));
                let payload = String::from_str(frame.substring_char(i + 1, len));
                assert(name@ =~= f.take(i as int));
                assert(payload@ =~= f.skip(i + 1));
                assert(!is_heartbeat(f));
                let found = self.get(&name);
                assert(route(f, self@) == match receiver_for(self@, name@) {
                    Some(h) => Route::Deliver(h, payload@),
                    None => Route::Unknown(name@),
                });
                return match found {
                    Some(h) => Dispatch::Deliver(h, payload),
                    None => Dispatch::Unknown(name),
                };
            }
            i = i + 1;
        }
        Dispatch::Malformed
    }
}

/// A `ping` frame, with or without its newline, is a heartbeat under every
/// handler registry: dispatching it does nothing, however often.
pub proof fn lemma_ping_is_heartbeat(v: Seq<(Seq<char>, Receiver)>)
    ensures
        route("ping"@, v) == Route::Heartbeat,
        route("ping\n"@, v) == Route::Heartbeat,
{
}

} // verus!
