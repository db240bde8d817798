//! Streaming sessions: the session data that the session endpoints answer
//! with, the session id taken out of it, and the authorization header of the
//! requests that ask for it.

use vstd::prelude::*;
use vstd::utf8::{encode_utf8, encode_scalar};
use substring::Substring;
use crate::json::{json_string, quote_json_string};

verus! {

/// One stream of a session answer: where to connect, and the session's id.
pub struct SessionDataL2 {
    pub url: String,
    pub sessionid: String,
}

/// What one entry of a session answer stands for: its url and its session id.
pub open spec fn stream_view(s: SessionDataL2) -> (Seq<char>, Seq<char>) {
    (s.url@, s.sessionid@)
}

impl SessionDataL2 {
    /// The stream as display text: `(url: <url>, sessionid: <sessionid>`,
    /// with no closing parenthesis.
    pub fn display_text(&self) -> (text: String)
        ensures
            text@ == "(url: "@ + self.url@ + ", sessionid: "@ + self.sessionid@,
    {
        let mut out = String::new();
        out.append("(url: ");
        out.append(self.url.as_str());
        out.append(", sessionid: ");
        out.append(self.sessionid.as_str());
        out
    }
}

/// A session answer: its streams, each under its name (the endpoint answers
/// with one stream, named `stream`).
pub struct SessionDataL1 {
    stream: Vec<(String, SessionDataL2)>,
}

/// The map from name to stream that a list of named streams stands for,
/// later entries taking the place of earlier ones of the same name.
pub open spec fn entries_map(s: Seq<(String, SessionDataL2)>) -> Map<Seq<char>, (Seq<char>, Seq<char>)>
    decreases s.len(),
{
    if s.len() == 0 {
        Map::empty()
    } else {
        entries_map(s.drop_last()).insert(s.last().0@, stream_view(s.last().1))
    }
}

/// No name occurs twice in the list.
pub open spec fn names_distinct(s: Seq<(String, SessionDataL2)>) -> bool {
    forall|i: int, j: int| 0 <= i < s.len() && 0 <= j < s.len() && i != j ==> s[i].0@ != s[j].0@
}

/// In a list without repeated names, the map holds exactly the listed names,
/// each with its own stream.
pub proof fn lemma_entries_map(s: Seq<(String, SessionDataL2)>)
    requires
        names_distinct(s),
    ensures
        forall|i: int| 0 <= i < s.len() ==> #[trigger] entries_map(s).contains_key(s[i].0@)
            && entries_map(s)[s[i].0@] == stream_view(s[i].1),
        forall|k: Seq<char>| #[trigger] entries_map(s).contains_key(k) ==> exists|i: int|
            0 <= i < s.len() && s[i].0@ == k,
    decreases s.len(),
{
    if s.len() > 0 {
        let init = s.drop_last();
        assert(names_distinct(init));
        lemma_entries_map(init);
        assert(entries_map(s) == entries_map(init).insert(s.last().0@, stream_view(s.last().1)));
        assert forall|k: Seq<char>| #[trigger] entries_map(s).contains_key(k) implies exists|i: int|
            0 <= i < s.len() && s[i].0@ == k by {
            if k == s.last().0@ {
                assert(s[s.len() - 1].0@ == k);
            } else {
                assert(entries_map(init).contains_key(k));
                let i = choose|i: int| 0 <= i < init.len() && init[i].0@ == k;
                assert(s[i] == init[i]);
            }
        }
        assert forall|i: int| 0 <= i < s.len() implies #[trigger] entries_map(s).contains_key(s[i].0@)
            && entries_map(s)[s[i].0@] == stream_view(s[i].1) by {
            if i < s.len() - 1 {
                assert(s[i] == init[i]);
                assert(s[i].0@ != s.last().0@);
            }
        }
    }
}

impl SessionDataL1 {
    #[verifier::type_invariant]
    closed spec fn wf(self) -> bool {
        names_distinct(self.stream@)
    }

    /// An answer with no streams.
    pub fn new() -> (data: Self)
        ensures
            data@ == Map::<Seq<char>, (Seq<char>, Seq<char>)>::empty(),
    {
        let data = SessionDataL1 { stream: Vec::new() };
        assert(data@ =~= Map::<Seq<char>, (Seq<char>, Seq<char>)>::empty());
        data
    }

    /// The index of the entry named `name`, if there is one.
    fn find(&self, name: &String) -> (found: Option<usize>)
        ensures
            found matches Some(i) ==> i < self.stream@.len() && self.stream@[i as int].0@ == name@,
            found is None ==> forall|i: int| 0 <= i < self.stream@.len() ==> self.stream@[i].0@ != name@,
    {
        let mut i: usize = 0;
        while i < self.stream.len()
            invariant
                i <= self.stream@.len(),
                forall|j: int| 0 <= j < i ==> self.stream@[j].0@ != name@,
            decreases self.stream.len() - i,
        {
            if self.stream[i].0 == *name {
                return Some(i);
            }
            i = i + 1;
        }
        None
    }

    /// Adds the stream `value` under `name`, in place of any stream of that name.
    pub fn insert(&mut self, name: String, value: SessionDataL2)
        ensures
            final(self)@ == old(self)@.insert(name@, stream_view(value)),
    {
        proof {
            use_type_invariant(&*self);
            lemma_entries_map(self.stream@);
        }
        let ghost old_map = self@;
        let ghost key = name@;
        let ghost val = stream_view(value);
        let found = self.find(&name);
        let mut entries: Vec<(String, SessionDataL2)> = Vec::new();
        std::mem::swap(&mut entries, &mut self.stream);
        match found {
            Some(j) => {
                let ghost s = entries@.update(j as int, (name, value));
                assert(names_distinct(s));
                entries.set(j, (name, value));
                self.stream = entries;
                proof {
                    lemma_entries_map(s);
                    assert(self.stream@ == s);
                    let ghost olds = old(self).stream@;
                    assert forall|k: Seq<char>| #[trigger] entries_map(s).contains_key(k)
                        implies old_map.insert(key, val).contains_key(k) by {
                        let i = choose|i: int| 0 <= i < s.len() && s[i].0@ == k;
                        if i != j {
                            assert(s[i] == olds[i]);
                            assert(old_map.contains_key(olds[i].0@));
                        }
                    }
                    assert forall|k: Seq<char>| #[trigger] old_map.insert(key, val).contains_key(k)
                        implies entries_map(s).contains_key(k) by {
                        if k == key {
                            assert(s[j as int].0@ == key);
                        } else {
                            assert(old_map.contains_key(k));
                            let i = choose|i: int| 0 <= i < olds.len() && olds[i].0@ == k;
                            assert(i != j);
                            assert(s[i] == olds[i]);
                        }
                    }
                    assert forall|k: Seq<char>| #[trigger] entries_map(s).contains_key(k)
                        implies entries_map(s)[k] == old_map.insert(key, val)[k] by {
                        let i = choose|i: int| 0 <= i < s.len() && s[i].0@ == k;
                        if i != j {
                            assert(s[i] == old(self).stream@[i]);
                        }
                    }
                    assert(entries_map(s) =~= old_map.insert(key, val));
                }
            },
            None => {
                let ghost s = entries@.push((name, value));
                assert(names_distinct(s));
                entries.push((name, value));
                self.stream = entries;
                proof {
                    assert(self.stream@ == s);
                    assert(s.drop_last() =~= old(self).stream@);
                }
            },
        }
    }

    /// The stream named `name`, if the answer has one.
    pub fn get(&self, name: &str) -> (found: Option<&SessionDataL2>)
        ensures
            found is Some <==> self@.contains_key(name@),
            found matches Some(v) ==> self@[name@] == stream_view(*v),
    {
        proof {
            use_type_invariant(self);
            lemma_entries_map(self.stream@);
        }
        let key = name.to_owned();
        match self.find(&key) {
            Some(i) => {
                proof {
                    assert(entries_map(self.stream@).contains_key(self.stream@[i as int].0@));
                }
                Some(&self.stream[i].1)
            },
            None => None,
        }
    }

    /// The names of the streams, each once.
    pub fn names(&self) -> (names: Vec<String>)
        ensures
            names@.len() == self@.dom().len(),
            forall|i: int| 0 <= i < names@.len() ==> self@.contains_key(#[trigger] names@[i]@),
            forall|i: int, j: int| 0 <= i < names@.len() && 0 <= j < names@.len() && i != j
                ==> names@[i]@ != names@[j]@,
    {
        proof {
            use_type_invariant(self);
            lemma_entries_map(self.stream@);
        }
        let mut names: Vec<String> = Vec::new();
        let mut i: usize = 0;
        while i < self.stream.len()
            invariant
                i <= self.stream@.len(),
                names@.len() == i,
                forall|j: int| 0 <= j < i ==> #[trigger] names@[j]@ == self.stream@[j].0@,
            decreases self.stream.len() - i,
        {
            names.push(self.stream[i].0.clone());
            i = i + 1;
        }
        proof {
            lemma_names_dom_len(self.stream@);
        }
        names
    }
}

/// In a list without repeated names, the map has as many names as the list entries.
proof fn lemma_names_dom_len(s: Seq<(String, SessionDataL2)>)
    requires
        names_distinct(s),
    ensures
        entries_map(s).dom().len() == s.len(),
        entries_map(s).dom().finite(),
    decreases s.len(),
{
    if s.len() > 0 {
        let init = s.drop_last();
        assert(names_distinct(init));
        lemma_names_dom_len(init);
        lemma_entries_map(init);
        if entries_map(init).contains_key(s.last().0@) {
            let i = choose|i: int| 0 <= i < init.len() && init[i].0@ == s.last().0@;
            assert(s[i] == init[i]);
        }
    }
}

impl View for SessionDataL1 {
    type V = Map<Seq<char>, (Seq<char>, Seq<char>)>;

    closed spec fn view(&self) -> Self::V {
        entries_map(self.stream@)
    }
}


/// What `Substring::substring(start, end)` of the substring crate gives:
/// nothing when `end <= start`, else the characters from position `start` up
/// to position `end`, each position cut down to the number of characters.
pub open spec fn char_substring(s: Seq<char>, start: int, end: int) -> Seq<char> {
    if end <= start {
        Seq::<char>::empty()
    } else {
        let n = s.len() as int;
        s.subrange(if start < n { start } else { n }, if end < n { end } else { n })
    }
}

/// Calls `Substring::substring` of the substring crate on a `str`. Its source
/// returns "" when `end <= start`, and otherwise slices between the byte
/// offsets of the `start`-th and the `end`-th character, either taken as the
/// string's end where the string has fewer characters; the contract states
/// that over characters.
#[verifier::external_body]
fn substring_of(s: &str, start: usize, end: usize) -> (sub: &str)
    ensures
        sub@ == char_substring(s@, start as int, end as int),
{
    s.substring(start, end)
}

/// The JSON text of the session id of the stream named `stream`, as
/// serde_json renders the value at `["stream"]["sessionid"]` of the answer:
/// the quoted and escaped id, or `null` where the answer has no such stream.
pub open spec fn sessionid_json(m: Map<Seq<char>, (Seq<char>, Seq<char>)>) -> Seq<char> {
    if m.contains_key("stream"@) {
        json_string(m["stream"@].1)
    } else {
        "null"@
    }
}

/// The text between the first character and the byte length less one, in
/// characters: for ASCII text that drops the first and the last character.
pub open spec fn strip_ends(t: Seq<char>) -> Seq<char> {
    char_substring(t, 1, encode_utf8(t).len() - 1)
}

/// The session id that a session answer gives, as the session requests
/// return it.
pub open spec fn session_id_of(m: Map<Seq<char>, (Seq<char>, Seq<char>)>) -> Seq<char> {
    strip_ends(sessionid_json(m))
}

/// A text's UTF-8 encoding is at least as long as the text.
pub proof fn lemma_utf8_len(t: Seq<char>)
    ensures
        encode_utf8(t).len() >= t.len(),
    decreases t.len(),
{
    if t.len() > 0 {
        lemma_utf8_len(t.drop_first());
        assert(encode_scalar(t[0] as u32).len() >= 1);
    }
}

/// Drops the first character and cuts the text at its byte length less one,
/// counted in characters: the step that takes the quotes off a rendered
/// session id.
pub fn strip_quotes(text: &str) -> (stripped: String)
    requires
        text@.len() >= 1,
    ensures
        stripped@ == strip_ends(text@),
{
    proof {
        lemma_utf8_len(text@);
    }
    let n = text.as_bytes().len();
    substring_of(text, 1, n - 1).to_owned()
}

impl SessionDataL1 {
    /// The JSON text of the session id of the stream named `stream`, or
    /// `null` where there is no such stream.
    pub fn sessionid_json(&self) -> (text: String)
        ensures
            text@ == sessionid_json(self@),
    {
        let stream = "stream";
        proof {
            reveal_strlit("stream");
        }
        match self.get(stream) {
            Some(entry) => quote_json_string(entry.sessionid.as_str()),
            None => "null".to_owned(),
        }
    }

    /// The session id of this answer, as the session requests return it.
    pub fn session_id(&self) -> (sid: String)
        ensures
            sid@ == session_id_of(self@),
    {
        let text = self.sessionid_json();
        proof {
            reveal_strlit("null");
        }
        strip_quotes(text.as_str())
    }
}

/// A session answer whose `stream` has a session id of plain characters
/// gives back exactly that id.
pub proof fn lemma_session_id_plain(m: Map<Seq<char>, (Seq<char>, Seq<char>)>)
    requires
        m.contains_key("stream"@),
        crate::json::is_plain_text(m["stream"@].1),
    ensures
        session_id_of(m) == m["stream"@].1,
{
    let sid = m["stream"@].1;
    crate::json::lemma_escape_plain(sid);
    let t = json_string(sid);
    assert(t =~= seq!['"'] + sid + seq!['"']);
    assert(vstd::utf8::is_ascii_chars(t)) by {
        assert forall|i: int| 0 <= i < t.len() implies '\0' <= #[trigger] t[i] <= '\u{7f}' by {
            if 0 < i < t.len() - 1 {
                assert(t[i] == sid[i - 1]);
                assert(crate::json::is_plain_char(sid[i - 1]));
            }
        }
    }
    vstd::utf8::is_ascii_chars_encode_utf8(t);
    assert(t.subrange(1, t.len() - 1) =~= sid);
}

/// The `Authorization` header value that authenticates a request with `token`.
pub fn bearer_header(token: &str) -> (header: String)
    ensures
        header@ == "Bearer "@ + token@,
{
    let mut out = String::new();
    out.append("Bearer ");
    out.append(token);
    out
}

} // verus!
