use vstd::prelude::*;
use crate::text::{digit_char, i64_text, int_text};
use vstd::arithmetic::power::pow;

verus! {

/// The lower-case hexadecimal digit for `d`, which is below sixteen.
pub open spec fn hex_char(d: nat) -> char {
    if d < 10 {
        digit_char(d)
    } else if d == 10 {
        'a'
    } else if d == 11 {
        'b'
    } else if d == 12 {
        'c'
    } else if d == 13 {
        'd'
    } else if d == 14 {
        'e'
    } else {
        'f'
    }
}

/// How a JSON string literal writes `c`: quote and backslash escaped, the
/// short escapes for backspace, tab, line feed, form feed and carriage
/// return, `\u00XX` for the other characters below U+0020, else `c` itself.
pub open spec fn json_escape_char(c: char) -> Seq<char> {
    let n = c as u32;
    if c == '"' {
        seq!['\\', '"']
    } else if c == '\\' {
        seq!['\\', '\\']
    } else if n == 8 {
        seq!['\\', 'b']
    } else if n == 9 {
        seq!['\\', 't']
    } else if n == 10 {
        seq!['\\', 'n']
    } else if n == 12 {
        seq!['\\', 'f']
    } else if n == 13 {
        seq!['\\', 'r']
    } else if n < 32 {
        seq!['\\', 'u', '0', '0', hex_char((n / 16) as nat), hex_char((n % 16) as nat)]
    } else {
        seq![c]
    }
}

/// The characters of `s`, each written as a JSON string literal writes it.
pub open spec fn json_escaped(s: Seq<char>) -> Seq<char>
    decreases s.len(),
{
    if s.len() == 0 {
        Seq::empty()
    } else {
        json_escaped(s.drop_last()) + json_escape_char(s.last())
    }
}

/// The JSON string literal of `s`: its escaped characters between quotes.
pub open spec fn json_string_text(s: Seq<char>) -> Seq<char> {
    seq!['"'] + json_escaped(s) + seq!['"']
}

/// Hexadecimal digit `k` of `id`, counting from the most significant.
pub open spec fn uuid_digit(id: u128, k: int) -> char {
    hex_char(((id as int / pow(16, (31 - k) as nat)) % 16) as nat)
}

/// The hyphenated lower-case text of the UUID whose 128-bit value is `id`:
/// its 32 hexadecimal digits, most significant first, in groups of 8, 4, 4,
/// 4 and 12 joined by `-`.
pub open spec fn uuid_text(id: u128) -> Seq<char> {
    Seq::new(
        36,
        |i: int|
            if i == 8 || i == 13 || i == 18 || i == 23 {
                '-'
            } else if i < 8 {
                uuid_digit(id, i)
            } else if i < 13 {
                uuid_digit(id, i - 1)
            } else if i < 18 {
                uuid_digit(id, i - 2)
            } else if i < 23 {
                uuid_digit(id, i - 3)
            } else {
                uuid_digit(id, i - 4)
            },
    )
}

/// The 128-bit value of the UUID that `uuid::Uuid::parse_str` reads from `s`,
/// if it reads one.
pub uninterp spec fn uuid_parse(s: Seq<char>) -> Option<u128>;

/// Relies on `serde_json::to_string` on a `str`: it writes the string literal,
/// escaped as `format_escaped_str` does, into a `Vec<u8>`, which cannot fail.
#[verifier::external_body]
fn json_quote(s: &str) -> (r: Option<String>)
    ensures
        r is Some,
        r->Some_0@ == json_string_text(s@),
{
    serde_json::to_string(s).ok()
}

/// Relies on `uuid::Uuid::from_u128` and the `Display` of `uuid::Uuid`: the
/// hyphenated text of a station id.
#[verifier::external_body]
fn uuid_to_text(id: u128) -> (r: String)
    ensures
        r@ == uuid_text(id),
{
    uuid::Uuid::from_u128(id).to_string()
}

/// Relies on `uuid::Uuid::parse_str` and `uuid::Uuid::as_u128`: the value of
/// the UUID that `s` spells, if any.
#[verifier::external_body]
fn uuid_from_text(s: &str) -> (r: Option<u128>)
    ensures
        r == uuid_parse(s@),
{
    match uuid::Uuid::parse_str(s) {
        Ok(u) => Some(u.as_u128()),
        Err(_) => None,
    }
}

/// The streaming service that plays a media item.
#[derive(Debug, Clone, Copy, PartialEq, Eq, Structural)]
pub enum StreamingService {
    Spotify,
    Netflix,
}

/// One item of a station's queue.
#[derive(Debug, Clone, PartialEq)]
pub struct Media {
    pub name: String,
    pub url: String,
    /// Play time in seconds.
    pub duration: i64,
    pub service: StreamingService,
}

/// A shared playback session: an ordered queue whose head is playing.
#[derive(Debug, Clone, PartialEq)]
pub struct Station {
    /// The station's UUID, as its 128-bit value.
    pub id: u128,
    pub owner_username: String,
    pub name: String,
    pub media_queue: Vec<Media>,
}

/// The JSON name of a streaming service.
pub open spec fn service_text(s: StreamingService) -> Seq<char> {
    match s {
        StreamingService::Spotify => "\"SPOTIFY\""@,
        StreamingService::Netflix => "\"NETFLIX\""@,
    }
}

/// The JSON object of a media item, fields in the order
/// `name`, `url`, `duration`, `streamingService`.
pub open spec fn media_json(m: Media) -> Seq<char> {
    "{\"name\":"@ + json_string_text(m.name@) + ",\"url\":"@ + json_string_text(m.url@)
        + ",\"duration\":"@ + int_text(m.duration as int) + ",\"streamingService\":"@
        + service_text(m.service) + "}"@
}

/// The JSON array of a queue of media items.
pub open spec fn queue_json(q: Seq<Media>) -> Seq<char> {
    "["@ + queue_items_json(q) + "]"@
}

/// The comma-separated JSON objects of a queue of media items.
pub open spec fn queue_items_json(q: Seq<Media>) -> Seq<char>
    decreases q.len(),
{
    if q.len() == 0 {
        Seq::empty()
    } else if q.len() == 1 {
        media_json(q[0])
    } else {
        queue_items_json(q.drop_last()) + ","@ + media_json(q.last())
    }
}

/// The JSON record of a station as the store keeps it.
pub open spec fn station_json(s: Station) -> Seq<char> {
    "{\"id\":\""@ + uuid_text(s.id) + "\",\"ownerUsername\":"@ + json_string_text(
        s.owner_username@,
    ) + ",\"name\":"@ + json_string_text(s.name@) + ",\"mediaQueue\":"@ + queue_json(
        s.media_queue@,
    ) + "}"@
}

/// The store key of a station record.
pub open spec fn station_key_text(id: u128) -> Seq<char> {
    "Station_"@ + uuid_text(id)
}

/// The "now playing" message for a media item.
pub open spec fn playing_text(m: Media) -> Seq<char> {
    "playing="@ + media_json(m)
}

fn quoted(s: &String) -> (r: String)
    ensures
        r@ == json_string_text(s@),
{
    json_quote(s.as_str()).unwrap()
}

impl StreamingService {
    /// The service's JSON name, quoted.
    pub fn to_json(&self) -> (r: String)
        ensures
            r@ == service_text(*self),
    {
        match self {
            StreamingService::Spotify => String::from_str("\"SPOTIFY\""),
            StreamingService::Netflix => String::from_str("\"NETFLIX\""),
        }
    }
}

impl Media {
    /// The item as a JSON object.
    pub fn to_json(&self) -> (r: String)
        ensures
            r@ == media_json(*self),
    {
        let mut s = String::from_str("{\"name\":");
        s.append(quoted(&self.name).as_str());
        s.append(",\"url\":");
        s.append(quoted(&self.url).as_str());
        s.append(",\"duration\":");
        s.append(i64_text(self.duration).as_str());
        s.append(",\"streamingService\":");
        s.append(self.service.to_json().as_str());
        s.append("}");
        s
    }

    /// The "now playing" message for this item: `playing=` and its JSON.
    pub fn playing_message(&self) -> (r: String)
        ensures
            r@ == playing_text(*self),
    {
        let mut s = String::from_str("playing=");
        s.append(self.to_json().as_str());
        s
    }
}

/// The queue as a JSON array.
pub fn queue_to_json(q: &Vec<Media>) -> (r: String)
    ensures
        r@ == queue_json(q@),
{
    let mut items = String::new();
    let mut i: usize = 0;
    while i < q.len()
        invariant
            i <= q@.len(),
            items@ == queue_items_json(q@.subrange(0, i as int)),
        decreases q@.len() - i,
    {
        proof {
            let p = q@.subrange(0, i as int + 1);
            assert(p.drop_last() == q@.subrange(0, i as int));
            assert(p.last() == q@[i as int]);
        }
        if i > 0 {
            items.append(",");
        }
        items.append(q[i].to_json().as_str());
        i = i + 1;
    }
    assert(q@.subrange(0, q@.len() as int) == q@);
    let mut s = String::from_str("[");
    s.append(items.as_str());
    s.append("]");
    s
}

/// The store key of the station with id `id`: `Station_` and the UUID text.
pub fn station_key(id: u128) -> (r: String)
    ensures
        r@ == station_key_text(id),
{
    let mut s = String::from_str("Station_");
    s.append(uuid_to_text(id).as_str());
    s
}

/// The station id that a store value spells, if it spells a UUID.
pub fn parse_station_id(text: &str) -> (r: Option<u128>)
    ensures
        r == uuid_parse(text@),
{
    uuid_from_text(text)
}

impl Station {
    /// The record as the store keeps it, in JSON.
    pub fn to_json(&self) -> (r: String)
        ensures
            r@ == station_json(*self),
    {
        let mut s = String::from_str("{\"id\":\"");
        s.append(uuid_to_text(self.id).as_str());
        s.append("\",\"ownerUsername\":");
        s.append(quoted(&self.owner_username).as_str());
        s.append(",\"name\":");
        s.append(quoted(&self.name).as_str());
        s.append(",\"mediaQueue\":");
        s.append(queue_to_json(&self.media_queue).as_str());
        s.append("}");
        s
    }
}

} // verus!
