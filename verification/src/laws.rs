//! What holds of the parser as a whole.

use vstd::prelude::*;
use crate::chars::{is_digit, is_whitespace};
use crate::error::{ErrorKind, ParseError};
use crate::grammar::{
    after, array_scan, char_at, dispatch_scan, document_scan, done, elements_scan, fail,
    literal_scan, member_scan, members_scan, object_scan, remaining, string_body_scan,
    string_scan,
    through_whitespace, value_scan, whitespace_len,
};
use crate::numeral::{
    are_number_parts, is_number_text, lemma_number_parts_scan, lemma_number_scan_is_numeral,
};
use crate::parser::parses_to;
use crate::value::{Json, Value};

verus! {

/// Parsing is a function of the input: whatever two runs on the same input
/// return, they return the same error, or values that stand for the same
/// JSON value.
pub proof fn lemma_parse_deterministic(
    input: Seq<char>,
    max_depth: nat,
    first: Result<Value, ParseError>,
    second: Result<Value, ParseError>,
)
    requires
        parses_to(input, max_depth, first),
        parses_to(input, max_depth, second),
    ensures
        match (first, second) {
            (Ok(a), Ok(b)) => a@ == b@,
            (Err(a), Err(b)) => a == b,
            _ => false,
        },
{
}

/// Every character of `text` is whitespace.
pub open spec fn all_whitespace(text: Seq<char>) -> bool {
    forall|i: int| 0 <= i < text.len() ==> is_whitespace(#[trigger] text[i])
}

/// A run of `n` whitespace characters at `pos` that ends at the end of the
/// input or before another character is the whole run there.
pub proof fn lemma_whitespace_run(s: Seq<char>, pos: int, n: nat)
    requires
        0 <= pos,
        pos + n <= s.len(),
        forall|i: int| pos <= i < pos + n ==> is_whitespace(#[trigger] s[i]),
        pos + n == s.len() || !is_whitespace(s[pos + n]),
    ensures
        whitespace_len(s, pos) == n,
    decreases n,
{
    if n > 0 {
        assert(is_whitespace(s[pos]));
        lemma_whitespace_run(s, pos + 1, (n - 1) as nat);
    }
}

/// One of the three literals with nothing but whitespace around it is a
/// document: it parses to the literal's value, and the whole input is read.
pub proof fn lemma_literal_document(
    before: Seq<char>,
    text: Seq<char>,
    value: Json,
    behind: Seq<char>,
    max_depth: nat,
)
    requires
        all_whitespace(before),
        all_whitespace(behind),
        (text == "null"@ && value == Json::Null) || (text == "true"@ && value == Json::Boolean(
            true,
        )) || (text == "false"@ && value == Json::Boolean(false)),
    ensures
        document_scan(before + text + behind, 0, max_depth) == done(
            value,
            (before + text + behind).len() as int,
        ),
{
    reveal_strlit("null");
    reveal_strlit("true");
    reveal_strlit("false");
    let s = before + text + behind;
    let at = before.len() as int;
    let end = at + text.len();
    assert forall|i: int| 0 <= i < at implies is_whitespace(#[trigger] s[i]) by {
        assert(s[i] == before[i]);
    }
    assert(s[at] == text[0]);
    lemma_whitespace_run(s, 0, before.len());
    assert(s.subrange(at, end) =~= text);
    assert forall|i: int| end <= i < end + behind.len() implies is_whitespace(#[trigger] s[i]) by {
        assert(s[i] == behind[i - end]);
    }
    lemma_whitespace_run(s, end, behind.len());
    assert(dispatch_scan(s, at, max_depth, s[at]) == literal_scan(s, at, text, value));
}

/// Every numeral of the JSON number grammar, with nothing but whitespace
/// around it, is a document: it parses to a number that holds the numeral
/// itself, and the whole input is read.
pub proof fn lemma_number_document(
    before: Seq<char>,
    text: Seq<char>,
    behind: Seq<char>,
    max_depth: nat,
)
    requires
        all_whitespace(before),
        all_whitespace(behind),
        is_number_text(text),
    ensures
        document_scan(before + text + behind, 0, max_depth) == done(
            Json::Number(text),
            (before + text + behind).len() as int,
        ),
{
    let (sign, integer, fraction, exponent) = choose|
        sign: Seq<char>,
        integer: Seq<char>,
        fraction: Seq<char>,
        exponent: Seq<char>,
    |
        #[trigger] are_number_parts(sign, integer, fraction, exponent) && text == sign + integer
            + fraction + exponent;
    let s = before + text + behind;
    let at = before.len() as int;
    let end = at + text.len();
    assert(is_digit(integer[0]));
    assert(text.len() >= 1);
    assert(text[0] == '-' || is_digit(text[0])) by {
        if sign.len() == 0 {
            assert(text[0] == integer[0]);
        } else {
            assert(sign[0] == '-');
            assert(text[0] == sign[0]);
        }
    }
    assert forall|i: int| 0 <= i < at implies is_whitespace(#[trigger] s[i]) by {
        assert(s[i] == before[i]);
    }
    assert(s[at] == text[0]);
    lemma_whitespace_run(s, 0, before.len());
    assert(s.subrange(at, end) =~= text);
    assert forall|i: int| end <= i < end + behind.len() implies is_whitespace(#[trigger] s[i]) by {
        assert(s[i] == behind[i - end]);
    }
    lemma_whitespace_run(s, end, behind.len());
    if end < s.len() {
        assert(is_whitespace(s[end]));
    }
    lemma_number_parts_scan(s, at, sign, integer, fraction, exponent);
}

/// A numeral alone is a document.
pub proof fn lemma_number_alone(text: Seq<char>, max_depth: nat)
    requires
        is_number_text(text),
    ensures
        document_scan(text, 0, max_depth) == done(Json::Number(text), text.len() as int),
{
    lemma_number_document(Seq::empty(), text, Seq::empty(), max_depth);
    assert(Seq::<char>::empty() + text + Seq::<char>::empty() =~= text);
}

/// A character that stands for itself inside a string: any but the quote
/// and the backslash.
pub open spec fn is_plain(c: char) -> bool {
    c != '"' && c != '\\'
}

/// Plain characters up to a quote are taken as they stand.
pub proof fn lemma_plain_string_body(s: Seq<char>, pos: int, n: nat, decoded: Seq<char>)
    requires
        0 <= pos,
        pos + n < s.len(),
        forall|i: int| pos <= i < pos + n ==> is_plain(#[trigger] s[i]),
        s[pos + n] == '"',
    ensures
        string_body_scan(s, pos, decoded) == done(decoded + s.subrange(pos, pos + n), n as int + 1),
    decreases n,
{
    if n == 0 {
        assert(decoded + s.subrange(pos, pos) =~= decoded);
    } else {
        assert(is_plain(s[pos]));
        lemma_plain_string_body(s, pos + 1, (n - 1) as nat, decoded.push(s[pos]));
        assert(decoded.push(s[pos]) + s.subrange(pos + 1, pos + n) =~= decoded + s.subrange(
            pos,
            pos + n,
        ));
    }
}

/// A string without escapes is read as the text between its quotes.
pub proof fn lemma_plain_string(s: Seq<char>, pos: int, text: Seq<char>)
    requires
        0 <= pos,
        pos + text.len() + 2 <= s.len(),
        s[pos] == '"',
        s.subrange(pos + 1, pos + 1 + text.len()) == text,
        forall|i: int| 0 <= i < text.len() ==> is_plain(#[trigger] text[i]),
        s[pos + 1 + text.len()] == '"',
    ensures
        string_scan(s, pos) == done(text, text.len() as int + 2),
{
    assert forall|i: int| pos + 1 <= i < pos + 1 + text.len() implies is_plain(#[trigger] s[i]) by {
        assert(s[i] == s.subrange(pos + 1, pos + 1 + text.len())[i - pos - 1]);
    }
    lemma_plain_string_body(s, pos + 1, text.len(), Seq::empty());
    assert(Seq::<char>::empty() + text =~= text);
}

/// Arrays opened beyond the limit are refused where the limit is passed:
/// with `depth` more arrays allowed and `depth + 1` opened in a row, the
/// parse fails at the last of them.
pub proof fn lemma_nesting_beyond_limit(s: Seq<char>, pos: int, depth: nat)
    requires
        0 <= pos,
        pos + depth < s.len(),
        forall|i: int| pos <= i <= pos + depth ==> #[trigger] s[i] == '[',
    ensures
        value_scan(s, pos, depth) == after(depth as int, fail::<Json>(ErrorKind::MaxDepthExceeded)),
    decreases depth,
{
    assert(s[pos] == '[');
    assert(whitespace_len(s, pos) == 0);
    if depth > 0 {
        let inner = (depth - 1) as nat;
        assert(s[pos + 1] == '[');
        assert(whitespace_len(s, pos + 1) == 0);
        lemma_nesting_beyond_limit(s, pos + 1, inner);
        assert(array_scan(s, pos, inner) == after(
            1,
            elements_scan(s, pos + 1, inner, Seq::empty()),
        ));
        assert(elements_scan(s, pos + 1, inner, Seq::empty()) == after(
            inner as int,
            fail::<Json>(ErrorKind::MaxDepthExceeded),
        ));
    }
}

/// A document that opens more arrays than the limit allows fails with
/// `MaxDepthExceeded`, at the place of the first array beyond the limit.
pub proof fn lemma_deep_document_refused(s: Seq<char>, max_depth: nat)
    requires
        max_depth < s.len(),
        forall|i: int| 0 <= i <= max_depth ==> #[trigger] s[i] == '[',
    ensures
        document_scan(s, 0, max_depth).result == Err::<Json, ErrorKind>(
            ErrorKind::MaxDepthExceeded,
        ),
        document_scan(s, 0, max_depth).advance == max_depth,
{
    lemma_nesting_beyond_limit(s, 0, max_depth);
}

/// Every number in `json` holds a numeral, and every object in it has
/// finitely many members.
pub open spec fn well_formed(json: Json) -> bool
    decreases json,
{
    match json {
        Json::Number(text) => is_number_text(text),
        Json::Array(items) => forall|i: int|
            0 <= i < items.len() ==> well_formed(#[trigger] items[i]),
        Json::Object(members) => members.dom().finite() && forall|key: Seq<char>|
            members.contains_key(key) ==> well_formed(#[trigger] members[key]),
        _ => true,
    }
}

/// Every value that is read is well formed.
pub proof fn lemma_value_well_formed(s: Seq<char>, pos: int, depth: nat)
    ensures
        match value_scan(s, pos, depth).result {
            Ok(json) => well_formed(json),
            Err(_) => true,
        },
    decreases depth, 0nat, 1nat,
{
    let at = pos + whitespace_len(s, pos);
    if 0 <= at < s.len() {
        let c = s[at];
        if c == '[' {
            if depth > 0 {
                lemma_array_well_formed(s, at, (depth - 1) as nat);
            }
        } else if c == '{' {
            if depth > 0 {
                lemma_object_well_formed(s, at, (depth - 1) as nat);
            }
        } else if c == '-' || is_digit(c) {
            lemma_number_scan_is_numeral(s, at);
        }
    }
}

/// Every array that is read is well formed.
pub proof fn lemma_array_well_formed(s: Seq<char>, pos: int, depth: nat)
    ensures
        match array_scan(s, pos, depth).result {
            Ok(json) => well_formed(json),
            Err(_) => true,
        },
    decreases depth, 2nat, 0nat,
{
    let at = pos + 1 + whitespace_len(s, pos + 1);
    if char_at(s, at) != Some(']') {
        lemma_elements_well_formed(s, at, depth, Seq::empty());
    }
}

/// Elements that are read behind well-formed ones make a well-formed array.
pub proof fn lemma_elements_well_formed(s: Seq<char>, pos: int, depth: nat, items: Seq<Json>)
    requires
        forall|i: int| 0 <= i < items.len() ==> well_formed(#[trigger] items[i]),
    ensures
        match elements_scan(s, pos, depth, items).result {
            Ok(json) => well_formed(json),
            Err(_) => true,
        },
    decreases depth, 1nat, remaining(s, pos),
{
    lemma_value_well_formed(s, pos, depth);
    let element = value_scan(s, pos, depth);
    if element.result.is_ok() {
        let longer = items.push(element.result.unwrap());
        assert forall|i: int| 0 <= i < longer.len() implies well_formed(#[trigger] longer[i]) by {
            if i < items.len() {
                assert(longer[i] == items[i]);
            }
        }
        let sep = pos + through_whitespace(s, pos, element.advance);
        if char_at(s, sep) == Some(',') {
            let next = sep + 1 + whitespace_len(s, sep + 1);
            lemma_elements_well_formed(s, next, depth, longer);
        }
    }
}

/// Every object that is read is well formed.
pub proof fn lemma_object_well_formed(s: Seq<char>, pos: int, depth: nat)
    ensures
        match object_scan(s, pos, depth).result {
            Ok(json) => well_formed(json),
            Err(_) => true,
        },
    decreases depth, 2nat, 0nat,
{
    let at = pos + 1 + whitespace_len(s, pos + 1);
    if char_at(s, at) != Some('}') {
        lemma_members_well_formed(s, at, depth, Map::empty());
    }
}

/// Members that are read behind well-formed ones make a well-formed object.
pub proof fn lemma_members_well_formed(
    s: Seq<char>,
    pos: int,
    depth: nat,
    members: Map<Seq<char>, Json>,
)
    requires
        members.dom().finite(),
        forall|key: Seq<char>| members.contains_key(key) ==> well_formed(#[trigger] members[key]),
    ensures
        match members_scan(s, pos, depth, members).result {
            Ok(json) => well_formed(json),
            Err(_) => true,
        },
    decreases depth, 1nat, remaining(s, pos),
{
    let member = member_scan(s, pos, depth);
    if member.result.is_ok() {
        let key_at = pos + whitespace_len(s, pos);
        let key = string_scan(s, key_at);
        let colon_at = key_at + through_whitespace(s, key_at, key.advance);
        lemma_value_well_formed(s, colon_at + 1, depth);
        let entry = member.result.unwrap();
        let larger = members.insert(entry.0, entry.1);
        assert forall|k: Seq<char>| larger.contains_key(k) implies well_formed(
            #[trigger] larger[k],
        ) by {
            if k != entry.0 {
                assert(members.contains_key(k));
            }
        }
        let sep = pos + through_whitespace(s, pos, member.advance);
        if char_at(s, sep) == Some(',') {
            let next = sep + 1 + whitespace_len(s, sep + 1);
            lemma_members_well_formed(s, next, depth, larger);
        }
    }
}

/// Every document that is read is well formed.
pub proof fn lemma_document_well_formed(s: Seq<char>, max_depth: nat)
    ensures
        match document_scan(s, 0, max_depth).result {
            Ok(json) => well_formed(json),
            Err(_) => true,
        },
{
    lemma_value_well_formed(s, 0, max_depth);
}

} // verus!
