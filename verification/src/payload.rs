//! The subscription payload that opens a market-event stream.

use vstd::prelude::*;
use crate::session::session_id_of;
use crate::json::{is_plain_text, json_bool, json_escape, json_string_items, lemma_escape_unique, lemma_items_unique, json_string, json_string_array, quote_json_string, push_json_string_array};

verus! {

/// What a subscription asks for: the symbols, the streaming session, and
/// whether events come one per line.
pub struct MarketPayload {
    pub symbols: Vec<String>,
    pub sessionid: String,
    pub linebreak: bool,
}

/// The compact JSON text of a payload, as serde_json writes it through a
/// `Value`: the object's keys in sorted order (`linebreak`, `sessionid`,
/// `symbols`), no spaces.
pub open spec fn payload_json(symbols: Seq<Seq<char>>, sessionid: Seq<char>, linebreak: bool) -> Seq<char> {
    "{\"linebreak\":"@ + json_bool(linebreak) + ",\"sessionid\":"@ + json_string(sessionid)
        + ",\"symbols\":"@ + json_string_array(symbols) + "}"@
}

impl MarketPayload {
    /// The compact JSON text of this payload.
    pub fn to_json(&self) -> (text: String)
        ensures
            text@ == payload_json(self.symbols@.map_values(|p: String| p@), self.sessionid@, self.linebreak),
    {
        let mut out = String::new();
        out.append("{\"linebreak\":");
        if self.linebreak {
            out.append("true");
        } else {
            out.append("false");
        }
        out.append(",\"sessionid\":");
        let sid = quote_json_string(self.sessionid.as_str());
        out.append(sid.as_str());
        out.append(",\"symbols\":");
        push_json_string_array(&mut out, &self.symbols);
        out.append("}");
        out
    }
}

/// Builds the payload that subscribes session `sessionid` to the events of
/// `symbols`, as JSON text.
pub fn create_payload(symbols: Vec<String>, sessionid: String, linebreak: bool) -> (text: String)
    ensures
        text@ == payload_json(symbols@.map_values(|p: String| p@), sessionid@, linebreak),
{
    let payload = MarketPayload { symbols, sessionid, linebreak };
    payload.to_json()
}

/// The session id that a session answer gives, when it is made of plain
/// characters, goes into the subscription payload exactly as the answer's own
/// id would.
pub proof fn lemma_payload_carries_session_id(
    symbols: Seq<Seq<char>>,
    answer: Map<Seq<char>, (Seq<char>, Seq<char>)>,
    linebreak: bool,
)
    requires
        answer.contains_key("stream"@),
        is_plain_text(answer["stream"@].1),
    ensures
        payload_json(symbols, session_id_of(answer), linebreak) == payload_json(
            symbols,
            answer["stream"@].1,
            linebreak,
        ),
{
    crate::session::lemma_session_id_plain(answer);
}

/// The part of a payload text before its session id's opening quote.
spec fn payload_head(linebreak: bool) -> Seq<char> {
    "{\"linebreak\":"@ + json_bool(linebreak) + ",\"sessionid\":"@
}

/// The part of a payload text after its session id's closing quote.
spec fn payload_tail(symbols: Seq<Seq<char>>) -> Seq<char> {
    ",\"symbols\":"@ + "["@ + json_string_items(symbols) + "]"@ + "}"@
}

proof fn lemma_payload_parts(symbols: Seq<Seq<char>>, sessionid: Seq<char>, linebreak: bool)
    ensures
        payload_json(symbols, sessionid, linebreak) == payload_head(linebreak) + seq!['"']
            + (json_escape(sessionid) + seq!['"'] + payload_tail(symbols)),
{
    assert(payload_json(symbols, sessionid, linebreak) =~= payload_head(linebreak) + seq!['"']
        + (json_escape(sessionid) + seq!['"'] + payload_tail(symbols)));
}

/// The character after the opening `{"linebreak":` tells the flag.
proof fn lemma_payload_flag(t: Seq<char>, rest1: Seq<char>, rest2: Seq<char>, l1: bool, l2: bool)
    requires
        t == payload_head(l1) + rest1,
        t == payload_head(l2) + rest2,
    ensures
        l1 == l2,
{
    reveal_strlit("{\"linebreak\":");
    reveal_strlit("true");
    reveal_strlit("false");
    assert(t[13] == json_bool(l1)[0]);
    assert(t[13] == json_bool(l2)[0]);
}

proof fn lemma_payload_tail(symbols: Seq<Seq<char>>)
    ensures
        payload_tail(symbols).len() >= 12,
        payload_tail(symbols).subrange(12, payload_tail(symbols).len() as int)
            == json_string_items(symbols) + seq![']'] + seq!['}'],
{
    reveal_strlit(",\"symbols\":");
    reveal_strlit("[");
    reveal_strlit("]");
    reveal_strlit("}");
    assert(payload_tail(symbols).subrange(12, payload_tail(symbols).len() as int)
        =~= json_string_items(symbols) + seq![']'] + seq!['}']);
}

/// The text of a payload determines what it was made from: two payloads with
/// the same text have the same symbols (in the same order, repeated and
/// empty ones kept), the same session id and the same line-break flag.
pub proof fn lemma_payload_injective(
    symbols1: Seq<Seq<char>>,
    sessionid1: Seq<char>,
    linebreak1: bool,
    symbols2: Seq<Seq<char>>,
    sessionid2: Seq<char>,
    linebreak2: bool,
)
    requires
        payload_json(symbols1, sessionid1, linebreak1) == payload_json(symbols2, sessionid2, linebreak2),
    ensures
        symbols1 == symbols2,
        sessionid1 == sessionid2,
        linebreak1 == linebreak2,
{
    let t = payload_json(symbols1, sessionid1, linebreak1);
    let x1 = json_escape(sessionid1) + seq!['"'] + payload_tail(symbols1);
    let x2 = json_escape(sessionid2) + seq!['"'] + payload_tail(symbols2);
    lemma_payload_parts(symbols1, sessionid1, linebreak1);
    lemma_payload_parts(symbols2, sessionid2, linebreak2);
    assert(t =~= payload_head(linebreak1) + (seq!['"'] + x1));
    assert(t =~= payload_head(linebreak2) + (seq!['"'] + x2));
    lemma_payload_flag(t, seq!['"'] + x1, seq!['"'] + x2, linebreak1, linebreak2);
    let n: int = payload_head(linebreak1).len() as int + 1;
    assert(t.subrange(n, t.len() as int) =~= x1);
    assert(t.subrange(n, t.len() as int) =~= x2);
    lemma_escape_unique(sessionid1, sessionid2, payload_tail(symbols1), payload_tail(symbols2));
    lemma_payload_tail(symbols1);
    lemma_payload_tail(symbols2);
    lemma_items_unique(symbols1, symbols2, seq!['}'], seq!['}']);
}

/// Every payload has the same layout, whatever its symbols, id and flag:
/// `{"linebreak":` and the flag, then `,"sessionid":` and the id's JSON string,
/// then the fixed key `,"symbols":[`, the symbols' JSON strings separated by
/// commas and in order, and `]}` to close.
pub proof fn lemma_payload_layout(symbols: Seq<Seq<char>>, sessionid: Seq<char>, linebreak: bool)
    ensures
        payload_json(symbols, sessionid, linebreak) == "{\"linebreak\":"@ + json_bool(linebreak)
            + ",\"sessionid\":"@ + json_string(sessionid) + ",\"symbols\":["@
            + json_string_items(symbols) + "]}"@,
{
    reveal_strlit(",\"symbols\":[");
    reveal_strlit(",\"symbols\":");
    reveal_strlit("[");
    reveal_strlit("]}");
    reveal_strlit("]");
    reveal_strlit("}");
    assert(",\"symbols\":["@ =~= ",\"symbols\":"@ + "["@);
    assert("]}"@ =~= "]"@ + "}"@);
    assert(payload_json(symbols, sessionid, linebreak) =~= "{\"linebreak\":"@ + json_bool(linebreak)
        + ",\"sessionid\":"@ + json_string(sessionid) + ",\"symbols\":["@
        + json_string_items(symbols) + "]}"@);
}

/// The symbols change nothing in a payload but the list itself: the payload
/// for any symbols is the payload for no symbols with the symbols' JSON
/// strings put between its closing `[` and `]}`.
pub proof fn lemma_payload_symbols_only_in_list(symbols: Seq<Seq<char>>, sessionid: Seq<char>, linebreak: bool)
    ensures
        ({
            let empty = payload_json(Seq::<Seq<char>>::empty(), sessionid, linebreak);
            &&& empty.len() >= 2
            &&& payload_json(symbols, sessionid, linebreak) == empty.subrange(0, empty.len() - 2)
                + json_string_items(symbols) + empty.subrange(empty.len() - 2, empty.len() as int)
        }),
{
    reveal_strlit("]}");
    let none = Seq::<Seq<char>>::empty();
    lemma_payload_layout(symbols, sessionid, linebreak);
    lemma_payload_layout(none, sessionid, linebreak);
    let front = "{\"linebreak\":"@ + json_bool(linebreak) + ",\"sessionid\":"@ + json_string(sessionid)
        + ",\"symbols\":["@;
    let empty = payload_json(none, sessionid, linebreak);
    assert(json_string_items(none) =~= Seq::<char>::empty());
    assert(empty =~= front + "]}"@);
    assert(empty.subrange(0, empty.len() - 2) =~= front);
    assert(empty.subrange(empty.len() - 2, empty.len() as int) =~= "]}"@);
}

/// The session id changes nothing in a payload but its own string: the payload
/// for any id is the payload for the empty id with the id's JSON string in
/// place of `""`.
pub proof fn lemma_payload_sessionid_only_in_string(symbols: Seq<Seq<char>>, sessionid: Seq<char>, linebreak: bool)
    ensures
        ({
            let blank = payload_json(symbols, Seq::<char>::empty(), linebreak);
            let k = ("{\"linebreak\":"@ + json_bool(linebreak) + ",\"sessionid\":"@).len() as int;
            &&& blank.len() >= k + 2
            &&& blank.subrange(k, k + 2) == seq!['"', '"']
            &&& payload_json(symbols, sessionid, linebreak) == blank.subrange(0, k) + json_string(sessionid)
                + blank.subrange(k + 2, blank.len() as int)
        }),
{
    let none = Seq::<char>::empty();
    let k = payload_head(linebreak).len() as int;
    let blank = payload_json(symbols, none, linebreak);
    assert(json_escape(none) =~= none);
    assert(json_string(none) =~= seq!['"', '"']);
    assert(blank =~= payload_head(linebreak) + seq!['"', '"'] + (",\"symbols\":"@ + json_string_array(symbols)
        + "}"@));
    assert(payload_json(symbols, sessionid, linebreak) =~= payload_head(linebreak) + json_string(sessionid)
        + (",\"symbols\":"@ + json_string_array(symbols) + "}"@));
    assert(blank.subrange(0, k) =~= payload_head(linebreak));
    assert(blank.subrange(k, k + 2) =~= seq!['"', '"']);
    assert(blank.subrange(k + 2, blank.len() as int) =~= ",\"symbols\":"@ + json_string_array(symbols) + "}"@);
}

} // verus!
