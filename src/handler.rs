use vstd::prelude::*;
use crate::registry::{publish_targets, Clients};

verus! {

/// A request to register a connection for a user.
#[derive(Debug, Clone, Copy, PartialEq, Eq, Structural)]
pub struct RegisterRequest {
    pub user_id: usize,
}

/// The answer to a registration: where the connection joins.
#[derive(Debug, Clone, PartialEq)]
pub struct RegisterResponse {
    pub url: String,
}

/// A message to publish on a topic, to one user or to all.
#[derive(Debug, Clone, PartialEq)]
pub struct Event {
    pub topic: String,
    pub user_id: Option<usize>,
    pub message: String,
}

/// A request that replaces a connection's topic set.
#[derive(Debug, Clone, PartialEq)]
pub struct TopicsRequest {
    pub topics: Vec<String>,
}

/// The handler of `topic_request` frames.
#[derive(Debug, Clone, Copy, PartialEq, Eq, Structural)]
pub struct TopicRequestReceiver;

/// The join URL of connection `id`.
pub open spec fn join_url(id: Seq<char>) -> Seq<char> {
    "ws://127.0.0.1:8000/ws/"@ + id
}

impl RegisterResponse {
    /// The response for connection `id`: its join URL.
    pub fn for_connection(id: &str) -> (r: RegisterResponse)
        ensures
            r.url@ == join_url(id@),
    {
        let mut url = String::from_str("ws://127.0.0.1:8000/ws/");
        url.append(id);
        RegisterResponse { url }
    }
}

impl Event {
    /// The connections that this event is sent to, in registry order.
    pub fn targets<S>(&self, clients: &Clients<S>) -> (r: Vec<String>)
        ensures
            r@.map_values(|t: String| t@) == publish_targets(clients@, self.topic@, self.user_id),
    {
        clients.publish_targets(self.topic.as_str(), self.user_id)
    }
}

impl TopicRequestReceiver {
    /// Replaces the topic set of connection `id` with the requested one;
    /// nothing happens if the connection is gone.
    pub fn receive_msg<S>(&self, id: &str, request: TopicsRequest, clients: &mut Clients<S>)
        requires
            old(clients).wf(),
        ensures
            final(clients).wf(),
            forall|i: int|
                0 <= i < old(clients)@.len() && old(clients)@[i].0 == id@ ==> final(clients)@
                    == old(clients)@.update(
                    i,
                    (
                        id@,
                        crate::registry::ClientView {
                            topics: request.topics@.map_values(|t: String| t@),
                            ..old(clients)@[i].1
                        },
                    ),
                ),
            (forall|i: int| 0 <= i < old(clients)@.len() ==> old(clients)@[i].0 != id@)
                ==> final(clients)@ == old(clients)@,
    {
        clients.set_topics(id, request.topics);
    }
}

} // verus!
