//! JSON text as the stream's endpoints read and write it: string literals,
//! arrays of strings, and the escaping that serde_json applies to them.

use vstd::prelude::*;

verus! {

/// The lower-case hexadecimal digit of a value below sixteen.
pub open spec fn hex_digit(n: int) -> char {
    seq!['0', '1', '2', '3', '4', '5', '6', '7', '8', '9', 'a', 'b', 'c', 'd', 'e', 'f'][n]
}

/// How one character stands inside a JSON string literal: the quote and the
/// backslash are escaped, the five usual control characters by their short
/// escapes, the other control characters below U+0020 as `\u00XX` in lower-case
/// hexadecimal, and every other character (U+007F and non-ASCII included) as it is.
pub open spec fn json_escape_char(c: char) -> Seq<char> {
    if c == '"' {
        seq!['\\', '"']
    } else if c == '\\' {
        seq!['\\', '\\']
    } else if c == '\u{8}' {
        seq!['\\', 'b']
    } else if c == '\t' {
        seq!['\\', 't']
    } else if c == '\n' {
        seq!['\\', 'n']
    } else if c == '\u{c}' {
        seq!['\\', 'f']
    } else if c == '\r' {
        seq!['\\', 'r']
    } else if (c as int) < 0x20 {
        seq!['\\', 'u', '0', '0', hex_digit((c as int) / 16), hex_digit((c as int) % 16)]
    } else {
        seq![c]
    }
}

/// The escaped contents of a JSON string literal for `s`.
pub open spec fn json_escape(s: Seq<char>) -> Seq<char>
    decreases s.len(),
{
    if s.len() == 0 {
        Seq::<char>::empty()
    } else {
        json_escape(s.drop_last()) + json_escape_char(s.last())
    }
}

/// The JSON string literal for `s`: its escaped contents between double quotes.
pub open spec fn json_string(s: Seq<char>) -> Seq<char> {
    seq!['"'] + json_escape(s) + seq!['"']
}

/// The string literals of `items`, separated by commas.
pub open spec fn json_string_items(items: Seq<Seq<char>>) -> Seq<char>
    decreases items.len(),
{
    if items.len() == 0 {
        Seq::<char>::empty()
    } else if items.len() == 1 {
        json_string(items[0])
    } else {
        json_string_items(items.drop_last()) + ","@ + json_string(items.last())
    }
}

/// The compact JSON array of the strings `items`.
pub open spec fn json_string_array(items: Seq<Seq<char>>) -> Seq<char> {
    "["@ + json_string_items(items) + "]"@
}

/// The compact JSON text of a boolean.
pub open spec fn json_bool(b: bool) -> Seq<char> {
    if b {
        "true"@
    } else {
        "false"@
    }
}

/// A character that JSON writes as it is: printable ASCII other than the
/// double quote and the backslash.
pub open spec fn is_plain_char(c: char) -> bool {
    0x20 <= (c as int) < 0x7f && c != '"' && c != '\\'
}

/// A string whose every character is plain.
pub open spec fn is_plain_text(s: Seq<char>) -> bool {
    forall|i: int| 0 <= i < s.len() ==> is_plain_char(#[trigger] s[i])
}

/// Plain text needs no escaping.
pub proof fn lemma_escape_plain(s: Seq<char>)
    requires
        is_plain_text(s),
    ensures
        json_escape(s) == s,
    decreases s.len(),
{
    if s.len() > 0 {
        assert(is_plain_char(s[s.len() - 1]));
        assert(is_plain_text(s.drop_last()));
        lemma_escape_plain(s.drop_last());
        assert(s =~= s.drop_last().push(s.last()));
    }
}

/// The JSON string literal of plain text is the text between double quotes.
pub proof fn lemma_json_string_plain(s: Seq<char>)
    requires
        is_plain_text(s),
    ensures
        json_string(s) == seq!['"'] + s + seq!['"'],
{
    lemma_escape_plain(s);
}

/// Escaping works character by character, so it distributes over concatenation.
pub proof fn lemma_escape_concat(a: Seq<char>, b: Seq<char>)
    ensures
        json_escape(a + b) == json_escape(a) + json_escape(b),
    decreases b.len(),
{
    if b.len() == 0 {
        assert(a + b =~= a);
        assert(json_escape(a) + json_escape(b) =~= json_escape(a));
    } else {
        lemma_escape_concat(a, b.drop_last());
        assert((a + b).drop_last() =~= a + b.drop_last());
        assert((a + b).last() == b.last());
        assert(json_escape(a) + json_escape(b) =~= json_escape(a) + json_escape(b.drop_last())
            + json_escape_char(b.last()));
    }
}

/// The escape of a non-empty text begins with the escape of its first character.
proof fn lemma_escape_front(s: Seq<char>)
    requires
        s.len() > 0,
    ensures
        json_escape(s) == json_escape_char(s[0]) + json_escape(s.drop_first()),
{
    let head = seq![s[0]];
    lemma_escape_concat(head, s.drop_first());
    assert(head + s.drop_first() =~= s);
    assert(head.drop_last() =~= Seq::<char>::empty());
    assert(head.last() == s[0]);
    assert(json_escape(head.drop_last()) =~= Seq::<char>::empty());
    assert(json_escape(head) == json_escape(head.drop_last()) + json_escape_char(head.last()));
    assert(json_escape(head) =~= json_escape_char(s[0]));
}

/// Distinct values below sixteen have distinct hexadecimal digits.
proof fn lemma_hex_digit_injective(i: int, j: int)
    requires
        0 <= i < 16,
        0 <= j < 16,
        hex_digit(i) == hex_digit(j),
    ensures
        i == j,
{
    let digits = seq!['0', '1', '2', '3', '4', '5', '6', '7', '8', '9', 'a', 'b', 'c', 'd', 'e', 'f'];
    assert(forall|k: int, l: int| 0 <= k < 16 && 0 <= l < 16 && k != l ==> digits[k] != digits[l]);
}

/// The escapes of characters form a prefix code: an escape followed by any
/// text fixes the character and the text that follows.
proof fn lemma_escape_char_code(a: char, b: char, x: Seq<char>, y: Seq<char>)
    requires
        json_escape_char(a) + x == json_escape_char(b) + y,
    ensures
        a == b,
        x == y,
{
    let ea = json_escape_char(a);
    let eb = json_escape_char(b);
    let t = ea + x;
    assert(t[0] == ea[0]);
    assert(t[0] == eb[0]);
    if ea.len() == 1 {
        assert(ea[0] == a);
        if eb.len() > 1 {
            assert(eb[0] == '\\');
        }
        assert(eb[0] == b);
    } else {
        assert(ea[0] == '\\');
        assert(eb.len() > 1);
        assert(t[1] == ea[1]);
        assert(t[1] == eb[1]);
        if ea[1] == 'u' {
            assert(eb.len() == 6);
            assert(t[4] == ea[4] && t[4] == eb[4]);
            assert(t[5] == ea[5] && t[5] == eb[5]);
            lemma_hex_digit_injective((a as int) / 16, (b as int) / 16);
            lemma_hex_digit_injective((a as int) % 16, (b as int) % 16);
            assert(a as int == b as int);
        } else {
            assert(eb.len() == 2);
        }
    }
    assert(ea =~= eb);
    assert(x =~= t.subrange(ea.len() as int, t.len() as int));
    assert(y =~= (eb + y).subrange(eb.len() as int, t.len() as int));
}

/// An escaped text followed by a closing double quote fixes the text and what
/// follows the quote: an escape never begins with a bare double quote.
pub proof fn lemma_escape_unique(s1: Seq<char>, s2: Seq<char>, r1: Seq<char>, r2: Seq<char>)
    requires
        json_escape(s1) + seq!['"'] + r1 == json_escape(s2) + seq!['"'] + r2,
    ensures
        s1 == s2,
        r1 == r2,
    decreases s1.len(),
{
    let t = json_escape(s1) + seq!['"'] + r1;
    if s1.len() == 0 {
        assert(json_escape(s1) =~= Seq::<char>::empty());
        assert(t[0] == '"');
        if s2.len() > 0 {
            lemma_escape_front(s2);
            let e = json_escape_char(s2[0]);
            assert(t =~= e + (json_escape(s2.drop_first()) + seq!['"'] + r2));
            assert(t[0] == e[0]);
        }
        assert(json_escape(s2) =~= Seq::<char>::empty());
        assert(r1 =~= t.drop_first());
        assert(r2 =~= (json_escape(s2) + seq!['"'] + r2).drop_first());
    } else {
        lemma_escape_front(s1);
        let e1 = json_escape_char(s1[0]);
        assert(t =~= e1 + (json_escape(s1.drop_first()) + seq!['"'] + r1));
        if s2.len() == 0 {
            assert(json_escape(s2) =~= Seq::<char>::empty());
            assert(t[0] == '"');
            assert(t[0] == e1[0]);
        } else {
            lemma_escape_front(s2);
            let e2 = json_escape_char(s2[0]);
            assert(t =~= e2 + (json_escape(s2.drop_first()) + seq!['"'] + r2));
            lemma_escape_char_code(s1[0], s2[0], json_escape(s1.drop_first()) + seq!['"'] + r1,
                json_escape(s2.drop_first()) + seq!['"'] + r2);
            lemma_escape_unique(s1.drop_first(), s2.drop_first(), r1, r2);
            assert(s1 =~= seq![s1[0]] + s1.drop_first());
            assert(s2 =~= seq![s2[0]] + s2.drop_first());
        }
    }
}

/// A list of two or more string literals begins with the first literal and a comma.
proof fn lemma_items_front(items: Seq<Seq<char>>)
    requires
        items.len() >= 2,
    ensures
        json_string_items(items) == json_string(items[0]) + ","@ + json_string_items(items.drop_first()),
    decreases items.len(),
{
    let rest = items.drop_first();
    if items.len() == 2 {
        assert(items.drop_last() =~= seq![items[0]]);
        assert(rest.len() == 1 && rest[0] == items[1]);
        assert(json_string_items(items.drop_last()) == json_string(items[0]));
    } else {
        lemma_items_front(items.drop_last());
        assert(items.drop_last().drop_first() =~= rest.drop_last());
        assert(rest.last() == items.last());
        assert(items.drop_last()[0] == items[0]);
        assert(json_string_items(items) =~= json_string(items[0]) + ","@ + json_string_items(rest));
    }
}

/// A list of string literals followed by a closing bracket fixes the strings,
/// in order, and what follows the bracket.
pub proof fn lemma_items_unique(
    s1: Seq<Seq<char>>,
    s2: Seq<Seq<char>>,
    r1: Seq<char>,
    r2: Seq<char>,
)
    requires
        json_string_items(s1) + seq![']'] + r1 == json_string_items(s2) + seq![']'] + r2,
    ensures
        s1 == s2,
        r1 == r2,
    decreases s1.len(),
{
    reveal_strlit(",");
    let t = json_string_items(s1) + seq![']'] + r1;
    if s1.len() == 0 || s2.len() == 0 {
        if s1.len() == 0 {
            assert(t =~= seq![']'] + r1);
        }
        if s2.len() == 0 {
            assert(t =~= seq![']'] + r2);
        }
        if s1.len() > 0 {
            lemma_items_tail(s1, r1);
            assert(t[0] == '"');
        }
        if s2.len() > 0 {
            lemma_items_tail(s2, r2);
            assert(t[0] == '"');
        }
        assert(r1 =~= t.drop_first());
        assert(s1 =~= s2);
    } else {
        lemma_items_tail(s1, r1);
        lemma_items_tail(s2, r2);
        let x1 = items_after_first(s1, r1);
        let x2 = items_after_first(s2, r2);
        assert(t.drop_first() =~= json_escape(s1[0]) + seq!['"'] + x1);
        assert(t.drop_first() =~= json_escape(s2[0]) + seq!['"'] + x2);
        lemma_escape_unique(s1[0], s2[0], x1, x2);
        if s1.len() >= 2 && s2.len() >= 2 {
            assert(x1.drop_first() =~= json_string_items(s1.drop_first()) + seq![']'] + r1);
            assert(x2.drop_first() =~= json_string_items(s2.drop_first()) + seq![']'] + r2);
            lemma_items_unique(s1.drop_first(), s2.drop_first(), r1, r2);
        } else if s1.len() >= 2 {
            assert(x1[0] == ',');
            assert(x2[0] == ']');
        } else if s2.len() >= 2 {
            assert(x2[0] == ',');
            assert(x1[0] == ']');
        } else {
            assert(r1 =~= x1.drop_first());
            assert(r2 =~= x2.drop_first());
        }
        assert(s1 =~= seq![s1[0]] + s1.drop_first());
        assert(s2 =~= seq![s2[0]] + s2.drop_first());
    }
}

/// What follows the first literal of a non-empty list and its closing bracket.
spec fn items_after_first(items: Seq<Seq<char>>, r: Seq<char>) -> Seq<char> {
    if items.len() >= 2 {
        ","@ + json_string_items(items.drop_first()) + seq![']'] + r
    } else {
        seq![']'] + r
    }
}

proof fn lemma_items_tail(items: Seq<Seq<char>>, r: Seq<char>)
    requires
        items.len() > 0,
    ensures
        json_string_items(items) + seq![']'] + r == seq!['"'] + json_escape(items[0]) + seq!['"']
            + items_after_first(items, r),
{
    if items.len() >= 2 {
        lemma_items_front(items);
    }
    assert(json_string_items(items) + seq![']'] + r =~= seq!['"'] + json_escape(items[0]) + seq!['"']
        + items_after_first(items, r));
}

#[verifier::external_type_specification]
#[verifier::external_body]
pub struct ExJsonError(serde_json::Error);

/// Calls `serde_json::to_string` on a `str`. Its source writes the string
/// through `format_escaped_str` into a `Vec<u8>`, with the escape table that
/// `json_escape_char` restates, and a write into a `Vec` cannot fail; so the
/// contract claims that the result is `Ok` and holds the JSON string literal.
#[verifier::external_body]
fn serde_string_literal(s: &str) -> (res: Result<String, serde_json::Error>)
    ensures
        res is Ok,
        res is Ok ==> res->Ok_0@ == json_string(s@),
{
    serde_json::to_string(s)
}

/// The JSON string literal for `s`, as serde_json writes it.
pub fn quote_json_string(s: &str) -> (text: String)
    ensures
        text@ == json_string(s@),
{
    match serde_string_literal(s) {
        Ok(text) => text,
        Err(_) => {
            proof {
                assert(false);
            }
            String::new()
        },
    }
}

/// Appends the compact JSON array of the strings `items` to `out`.
pub fn push_json_string_array(out: &mut String, items: &Vec<String>)
    ensures
        final(out)@ == old(out)@ + json_string_array(items@.map_values(|p: String| p@)),
{
    let ghost start = out@;
    let ghost views = items@.map_values(|p: String| p@);
    out.append("[");
    let mut i: usize = 0;
    while i < items.len()
        invariant
            i <= items.len(),
            views == items@.map_values(|p: String| p@),
            out@ == start + "["@ + json_string_items(views.take(i as int)),
        decreases items.len() - i,
    {
        let quoted = quote_json_string(items[i].as_str());
        let ghost before = out@;
        assert(views.take(i + 1).drop_last() =~= views.take(i as int));
        assert(views.take(i + 1).last() == items@[i as int]@);
        if i > 0 {
            out.append(",");
            out.append(quoted.as_str());
            assert(out@ =~= before + ","@ + quoted@);
        } else {
            out.append(quoted.as_str());
            assert(views.take(1) =~= seq![views[0]]);
            assert(json_string_items(views.take(0)) =~= Seq::<char>::empty());
            assert(out@ =~= start + "["@ + json_string(views[0]));
        }
        i = i + 1;
    }
    out.append("]");
    assert(views.take(items.len() as int) =~= views);
    assert(out@ =~= start + ("["@ + json_string_items(views) + "]"@));
}

} // verus!
