use session_broker::handler::{Event, RegisterResponse, TopicRequestReceiver, TopicsRequest};
use session_broker::manager::{advance_queue, join_code_key, StationManager};
use session_broker::registry::Clients;
use session_broker::router::{Dispatch, Receiver, ReceiverManager};
use session_broker::station::{parse_station_id, station_key, Media, Station, StreamingService};
use session_broker::text::{i64_text, u64_text};
use session_broker::timer::{Clock, Timer, NANOS_PER_SEC};

const STATION_UUID: &str = "550e8400-e29b-41d4-a716-446655440000";

fn media(name: &str, duration: i64) -> Media {
    Media {
        name: name.to_string(),
        url: format!("https://example.com/{}", name),
        duration,
        service: StreamingService::Spotify,
    }
}

fn media_json(name: &str, duration: i64) -> String {
    format!(
        "{{\"name\":\"{}\",\"url\":\"https://example.com/{}\",\"duration\":{},\"streamingService\":\"SPOTIFY\"}}",
        name, name, duration
    )
}

fn station_with(queue: Vec<Media>) -> Station {
    Station {
        id: parse_station_id(STATION_UUID).unwrap(),
        owner_username: "owner".to_string(),
        name: "Lounge".to_string(),
        media_queue: queue,
    }
}

fn connected(clients: &mut Clients<u32>, id: &str, user_id: usize) {
    clients.register_client(id.to_string(), user_id);
    assert!(clients.attach_outbound(id, 0));
}

#[test]
fn timer_counts_whole_seconds() {
    let t = Timer::started_at(5 * NANOS_PER_SEC);
    assert_eq!(t.elapsed_at(5 * NANOS_PER_SEC), Ok(0));
    assert_eq!(t.elapsed_at(15 * NANOS_PER_SEC - 1), Ok(9));
    assert_eq!(t.elapsed_at(15 * NANOS_PER_SEC), Ok(10));
    assert_eq!(t.elapsed_at(4 * NANOS_PER_SEC).unwrap_err().behind_nanos, NANOS_PER_SEC);
}

#[test]
fn timer_started_now_reads_small_elapsed() {
    let clock = Clock::new();
    let t = Timer::new(&clock);
    let first = t.get_time(&clock).unwrap();
    let second = t.get_time(&clock).unwrap();
    assert!(first <= second);
    assert!(second < 5);
    let a = clock.now_nanos();
    let b = clock.now_nanos();
    assert!(a <= b);
}

#[test]
fn decimal_text() {
    assert_eq!(u64_text(0), "0");
    assert_eq!(u64_text(1234567890), "1234567890");
    assert_eq!(u64_text(u64::MAX), u64::MAX.to_string());
    assert_eq!(i64_text(-42), "-42");
    assert_eq!(i64_text(i64::MIN), i64::MIN.to_string());
}

#[test]
fn media_json_matches_store_format() {
    assert_eq!(media("A", 10).to_json(), media_json("A", 10));
    let netflix = Media {
        name: "Film".to_string(),
        url: "u".to_string(),
        duration: -3,
        service: StreamingService::Netflix,
    };
    assert_eq!(
        netflix.to_json(),
        "{\"name\":\"Film\",\"url\":\"u\",\"duration\":-3,\"streamingService\":\"NETFLIX\"}"
    );
}

#[test]
fn media_json_escapes_strings() {
    let m = Media {
        name: "say \"hi\"\n".to_string(),
        url: "a\\b".to_string(),
        duration: 1,
        service: StreamingService::Spotify,
    };
    assert_eq!(
        m.to_json(),
        "{\"name\":\"say \\\"hi\\\"\\n\",\"url\":\"a\\\\b\",\"duration\":1,\"streamingService\":\"SPOTIFY\"}"
    );
}

#[test]
fn playing_message_prefix() {
    assert_eq!(media("A", 10).playing_message(), format!("playing={}", media_json("A", 10)));
}

#[test]
fn station_record_json_and_key() {
    let s = station_with(vec![media("A", 10), media("B", 5)]);
    assert_eq!(
        s.to_json(),
        format!(
            "{{\"id\":\"{}\",\"ownerUsername\":\"owner\",\"name\":\"Lounge\",\"mediaQueue\":[{},{}]}}",
            STATION_UUID,
            media_json("A", 10),
            media_json("B", 5)
        )
    );
    let empty = station_with(vec![]);
    assert!(empty.to_json().ends_with("\"mediaQueue\":[]}"));
    assert_eq!(station_key(s.id), format!("Station_{}", STATION_UUID));
}

#[test]
fn station_id_parsing() {
    assert_eq!(parse_station_id(STATION_UUID), Some(0x550e8400e29b41d4a716446655440000));
    assert_eq!(parse_station_id("not-a-uuid"), None);
    assert_eq!(parse_station_id(""), None);
}

#[test]
fn join_code_key_strips_one_newline() {
    assert_eq!(join_code_key("ABC123"), "join-code:ABC123");
    assert_eq!(join_code_key("ABC123\n"), "join-code:ABC123");
    assert_eq!(join_code_key("ABC123\n\n"), "join-code:ABC123\n");
    assert_eq!(join_code_key(""), "join-code:");
}

#[test]
fn register_gives_default_topics() {
    let mut clients: Clients<u32> = Clients::new();
    let id = clients.register(7);
    assert_eq!(id.len(), 32);
    let c = clients.lookup(&id).unwrap();
    assert_eq!(c.user_id, 7);
    assert_eq!(c.topics, vec!["default".to_string()]);
    assert!(c.sender.is_none());
    assert!(clients.attach_outbound(&id, 1));
    assert_eq!(clients.lookup(&id).unwrap().topics, vec!["default".to_string()]);
    assert_eq!(clients.lookup(&id).unwrap().sender, Some(1));
}

#[test]
fn topic_request_replaces_topics() {
    let mut clients: Clients<u32> = Clients::new();
    clients.register_client("c1".to_string(), 1);
    let req = TopicsRequest { topics: vec!["news".to_string(), "sport".to_string()] };
    TopicRequestReceiver.receive_msg("c1", req, &mut clients);
    assert_eq!(
        clients.lookup("c1").unwrap().topics,
        vec!["news".to_string(), "sport".to_string()]
    );
    let req = TopicsRequest { topics: vec!["x".to_string()] };
    TopicRequestReceiver.receive_msg("gone", req, &mut clients);
    assert!(clients.lookup("gone").is_none());
}

#[test]
fn remove_is_idempotent_and_attach_after_remove_is_noop() {
    let mut clients: Clients<u32> = Clients::new();
    clients.register_client("c1".to_string(), 1);
    clients.register_client("c2".to_string(), 2);
    clients.remove("c1");
    clients.remove("c1");
    assert!(clients.lookup("c1").is_none());
    assert!(clients.lookup("c2").is_some());
    assert!(!clients.attach_outbound("c1", 3));
    assert!(clients.lookup("c1").is_none());
}

#[test]
fn register_same_id_replaces_entry() {
    let mut clients: Clients<u32> = Clients::new();
    connected(&mut clients, "c1", 1);
    clients.register_client("c1".to_string(), 9);
    let c = clients.lookup("c1").unwrap();
    assert_eq!(c.user_id, 9);
    assert!(c.sender.is_none());
}

#[test]
fn publish_filters_by_topic_and_user() {
    let mut clients: Clients<u32> = Clients::new();
    connected(&mut clients, "a", 1);
    connected(&mut clients, "b", 2);
    connected(&mut clients, "c", 1);
    clients.register_client("d".to_string(), 1);
    clients.set_topics("c", vec!["news".to_string()]);
    let all = Event { topic: "default".to_string(), user_id: None, message: "m".to_string() };
    assert_eq!(all.targets(&clients), vec!["a".to_string(), "b".to_string()]);
    let user1 = Event { topic: "default".to_string(), user_id: Some(1), message: "m".to_string() };
    assert_eq!(user1.targets(&clients), vec!["a".to_string()]);
    let news = Event { topic: "news".to_string(), user_id: None, message: "m".to_string() };
    assert_eq!(news.targets(&clients), vec!["c".to_string()]);
    let nobody = Event { topic: "news".to_string(), user_id: Some(2), message: "m".to_string() };
    assert!(nobody.targets(&clients).is_empty());
}

#[test]
fn register_response_url() {
    assert_eq!(RegisterResponse::for_connection("abc").url, "ws://127.0.0.1:8000/ws/abc");
}

#[test]
fn dispatch_ping_is_heartbeat() {
    let m = ReceiverManager::new();
    for _ in 0..3 {
        assert_eq!(m.client_msg("ping"), Dispatch::Heartbeat);
        assert_eq!(m.client_msg("ping\n"), Dispatch::Heartbeat);
    }
    assert_eq!(m.client_msg("ping\n\n"), Dispatch::Malformed);
}

#[test]
fn dispatch_routes_by_handler_id() {
    let m = ReceiverManager::new();
    assert_eq!(m.client_msg("hello"), Dispatch::Malformed);
    assert_eq!(m.client_msg("nope=1"), Dispatch::Unknown("nope".to_string()));
    assert_eq!(
        m.client_msg("topic_request={\"topics\":[\"a=b\"]}"),
        Dispatch::Deliver(Receiver::TopicRequest, "{\"topics\":[\"a=b\"]}".to_string())
    );
    assert_eq!(
        m.client_msg("join_station=ABC\n"),
        Dispatch::Deliver(Receiver::JoinStation, "ABC\n".to_string())
    );
    assert_eq!(m.client_msg("=x"), Dispatch::Unknown(String::new()));
}

#[test]
fn dispatch_extended_registry() {
    let mut m = ReceiverManager::new();
    m.add("join".to_string(), Receiver::JoinStation);
    m.add("topic_request".to_string(), Receiver::JoinStation);
    assert_eq!(m.client_msg("join=1"), Dispatch::Deliver(Receiver::JoinStation, "1".to_string()));
    assert_eq!(
        m.client_msg("topic_request=1"),
        Dispatch::Deliver(Receiver::TopicRequest, "1".to_string())
    );
}

#[test]
fn join_sends_head_to_joiner() {
    let mut manager = StationManager::new();
    let station = station_with(vec![media("A", 10), media("B", 5)]);
    let msg = manager.join(station.id, &station, "c1");
    assert_eq!(msg, Some(format!("playing={}", media_json("A", 10))));
    assert_eq!(manager.members_of(station.id), vec!["c1".to_string()]);
    assert_eq!(manager.join(station.id, &station_with(vec![]), "c2"), None);
    assert_eq!(manager.members_of(station.id), vec!["c1".to_string(), "c2".to_string()]);
    manager.join(station.id, &station, "c1");
    assert_eq!(
        manager.members_of(station.id),
        vec!["c1".to_string(), "c2".to_string(), "c1".to_string()]
    );
    assert_eq!(manager.station_ids(), vec![station.id]);
}

#[test]
fn first_tick_announces_head() {
    let mut manager = StationManager::new();
    let mut station = station_with(vec![media("A", 10), media("B", 5)]);
    manager.join(station.id, &station, "c1");
    let id = station.id;
    let msg = manager.update_station(id, &mut station, 100 * NANOS_PER_SEC);
    assert_eq!(msg, Some(format!("playing={}", media_json("A", 10))));
    assert_eq!(station.media_queue.len(), 2);
    let msg = manager.update_station(id, &mut station, 104 * NANOS_PER_SEC);
    assert_eq!(msg, Some("4".to_string()));
    assert_eq!(station.media_queue.len(), 2);
}

#[test]
fn expired_head_is_popped_and_next_announced() {
    let mut manager = StationManager::new();
    let mut station = station_with(vec![media("A", 10), media("B", 5)]);
    let id = station.id;
    manager.join(station.id, &station, "c1");
    manager.update_station(id, &mut station, 100 * NANOS_PER_SEC);
    let msg = manager.update_station(id, &mut station, 110 * NANOS_PER_SEC);
    assert_eq!(msg, Some(format!("playing={}", media_json("B", 5))));
    assert_eq!(station.media_queue, vec![media("B", 5)]);
    manager.commit_pop(id);
    let msg = manager.update_station(id, &mut station, 140 * NANOS_PER_SEC);
    assert_eq!(msg, Some(format!("playing={}", media_json("B", 5))));
    let msg = manager.update_station(id, &mut station, 141 * NANOS_PER_SEC);
    assert_eq!(msg, Some("1".to_string()));
    let msg = manager.update_station(id, &mut station, 145 * NANOS_PER_SEC);
    assert_eq!(msg, None);
    assert!(station.media_queue.is_empty());
    let msg = manager.update_station(id, &mut station, 150 * NANOS_PER_SEC);
    assert_eq!(msg, None);
}

#[test]
fn reading_before_start_restarts_timer() {
    let mut manager = StationManager::new();
    let mut station = station_with(vec![media("A", 10)]);
    let id = station.id;
    manager.update_station(id, &mut station, 100 * NANOS_PER_SEC);
    let msg = manager.update_station(id, &mut station, 50 * NANOS_PER_SEC);
    assert_eq!(msg, Some(format!("playing={}", media_json("A", 10))));
    let msg = manager.update_station(id, &mut station, 53 * NANOS_PER_SEC);
    assert_eq!(msg, Some("3".to_string()));
}

#[test]
fn failed_store_keeps_timer_and_pops_again() {
    let mut manager = StationManager::new();
    let record = vec![media("A", 10), media("B", 5)];
    let mut station = station_with(record.clone());
    let id = station.id;
    manager.update_station(id, &mut station, 100 * NANOS_PER_SEC);
    let msg = manager.update_station(id, &mut station, 110 * NANOS_PER_SEC);
    assert_eq!(msg, Some(format!("playing={}", media_json("B", 5))));
    // The shorter queue was not stored: the record is reloaded unchanged and
    // the timer still runs, so the next tick pops the same head.
    let mut reloaded = station_with(record);
    let msg = manager.update_station(id, &mut reloaded, 140 * NANOS_PER_SEC);
    assert_eq!(msg, Some(format!("playing={}", media_json("B", 5))));
    assert_eq!(reloaded.media_queue, vec![media("B", 5)]);
    manager.commit_pop(id);
    let msg = manager.update_station(id, &mut reloaded, 141 * NANOS_PER_SEC);
    assert_eq!(msg, Some(format!("playing={}", media_json("B", 5))));
}

#[test]
fn empty_queue_tick_does_nothing() {
    let mut manager = StationManager::new();
    let mut station = station_with(vec![]);
    let id = station.id;
    assert_eq!(manager.update_station(id, &mut station, 100 * NANOS_PER_SEC), None);
    station.media_queue.push(media("A", 10));
    // No timer was left behind: the first tick with a queue starts one.
    let msg = manager.update_station(id, &mut station, 200 * NANOS_PER_SEC);
    assert_eq!(msg, Some(format!("playing={}", media_json("A", 10))));
}

#[test]
fn advance_queue_by_elapsed() {
    let mut s = station_with(vec![media("A", 10), media("B", 5)]);
    assert_eq!(advance_queue(&mut s, 0), Some(format!("playing={}", media_json("A", 10))));
    assert_eq!(advance_queue(&mut s, 9), Some("9".to_string()));
    assert_eq!(s.media_queue.len(), 2);
    assert_eq!(advance_queue(&mut s, 12), Some(format!("playing={}", media_json("B", 5))));
    assert_eq!(s.media_queue, vec![media("B", 5)]);
    assert_eq!(advance_queue(&mut s, 5), None);
    assert!(s.media_queue.is_empty());
    assert_eq!(advance_queue(&mut s, 5), None);
}

#[test]
fn sweep_isolates_failed_station() {
    let mut clients: Clients<u32> = Clients::new();
    connected(&mut clients, "c1", 1);
    connected(&mut clients, "c2", 2);
    clients.register_client("c3".to_string(), 3);
    let mut manager = StationManager::new();
    let healthy = station_with(vec![media("A", 10), media("B", 5)]);
    let broken_id: u128 = 42;
    manager.join_station(broken_id, "c1");
    manager.join(healthy.id, &healthy, "c2");
    manager.join(healthy.id, &healthy, "c3");
    manager.join(healthy.id, &healthy, "gone");
    manager.join(healthy.id, &healthy, "c2");
    assert_eq!(manager.station_ids(), vec![broken_id, healthy.id]);
    let loaded = vec![(broken_id, None), (healthy.id, Some(healthy))];
    let updates = manager.update_clients(loaded, &clients, 100 * NANOS_PER_SEC);
    assert_eq!(updates.len(), 2);
    assert!(updates[0].is_none());
    let up = updates[1].as_ref().unwrap();
    assert_eq!(up.message, Some(format!("playing={}", media_json("A", 10))));
    assert_eq!(up.recipients, vec!["c2".to_string()]);
    assert!(!up.popped);
}

#[test]
fn sweep_pops_and_reports_persist() {
    let mut clients: Clients<u32> = Clients::new();
    connected(&mut clients, "c1", 1);
    let mut manager = StationManager::new();
    let station = station_with(vec![media("A", 10), media("B", 5)]);
    let id = station.id;
    manager.join(station.id, &station, "c1");
    let first = manager.update_clients(vec![(id, Some(station))], &clients, 0);
    assert!(!first[0].as_ref().unwrap().popped);
    let after_first = first[0].as_ref().unwrap().station.clone();
    let second = manager.update_clients(vec![(id, Some(after_first))], &clients, 10 * NANOS_PER_SEC);
    let up = second[0].as_ref().unwrap();
    assert!(up.popped);
    assert_eq!(up.station.media_queue, vec![media("B", 5)]);
    assert_eq!(up.message, Some(format!("playing={}", media_json("B", 5))));
    assert_eq!(up.recipients, vec!["c1".to_string()]);
    manager.commit_pop(id);
    let after_pop = up.station.clone();
    let third = manager.update_clients(vec![(id, Some(after_pop))], &clients, 11 * NANOS_PER_SEC);
    let up = third[0].as_ref().unwrap();
    assert!(!up.popped);
    assert_eq!(up.message, Some(format!("playing={}", media_json("B", 5))));
}

#[test]
fn join_message_goes_to_joiner_only() {
    let mut clients: Clients<u32> = Clients::new();
    connected(&mut clients, "c1", 1);
    connected(&mut clients, "c2", 2);
    clients.register_client("c3".to_string(), 3);
    let mut manager = StationManager::new();
    let station = station_with(vec![media("A", 10), media("B", 5)]);
    manager.join(station.id, &station, "c2");
    let (msg, to) = manager.receive_msg("c1", station.id, &station, &clients).unwrap();
    assert_eq!(msg, format!("playing={}", media_json("A", 10)));
    assert_eq!(to, vec!["c1".to_string()]);
    let (_, to) = manager.receive_msg("c3", station.id, &station, &clients).unwrap();
    assert!(to.is_empty());
    assert!(manager.receive_msg("c1", station.id, &station_with(vec![]), &clients).is_none());
    assert_eq!(
        manager.members_of(station.id),
        vec!["c2".to_string(), "c1".to_string(), "c3".to_string(), "c1".to_string()]
    );
}

#[test]
fn register_ids_are_hex_and_distinct() {
    let mut clients: Clients<u32> = Clients::new();
    let a = clients.register(1);
    let b = clients.register(1);
    assert_ne!(a, b);
    assert!(a.chars().all(|c| c.is_ascii_digit() || ('a'..='f').contains(&c)));
    assert!(clients.lookup(&a).is_some() && clients.lookup(&b).is_some());
}

#[test]
fn emptied_queue_drops_running_timer() {
    let mut manager = StationManager::new();
    let mut station = station_with(vec![media("A", 10)]);
    let id = station.id;
    manager.update_station(id, &mut station, 100 * NANOS_PER_SEC);
    station.media_queue.clear();
    assert_eq!(manager.update_station(id, &mut station, 103 * NANOS_PER_SEC), None);
    station.media_queue.push(media("B", 5));
    let msg = manager.update_station(id, &mut station, 104 * NANOS_PER_SEC);
    assert_eq!(msg, Some(format!("playing={}", media_json("B", 5))));
}

#[test]
fn media_json_escapes_control_characters() {
    let m = Media {
        name: "\u{1}\t\r\u{8}\u{c}\u{1f}\u{7f}é".to_string(),
        url: "/".to_string(),
        duration: 0,
        service: StreamingService::Spotify,
    };
    assert_eq!(
        m.to_json(),
        "{\"name\":\"\\u0001\\t\\r\\b\\f\\u001f\u{7f}é\",\"url\":\"/\",\"duration\":0,\"streamingService\":\"SPOTIFY\"}"
    );
}
