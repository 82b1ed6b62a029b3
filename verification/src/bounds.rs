//! No rule reads beyond the input.

use vstd::prelude::*;
use crate::chars::{is_digit, is_whitespace};
use crate::grammar::{
    array_scan, char_at, document_scan, elements_scan, escape_scan, member_scan, members_scan,
    object_scan, string_body_scan, string_scan, through_whitespace, value_scan, whitespace_len,
};
use crate::numeral::lemma_number_in_bounds;
use crate::value::Json;

verus! {

/// Whitespace never reaches beyond the input.
pub proof fn lemma_whitespace_in_bounds(s: Seq<char>, pos: int)
    requires
        0 <= pos <= s.len(),
    ensures
        pos + whitespace_len(s, pos) <= s.len(),
    decreases s.len() - pos,
{
    if pos < s.len() && is_whitespace(s[pos]) {
        lemma_whitespace_in_bounds(s, pos + 1);
    }
}

/// The body of a string never reaches beyond the input.
pub proof fn lemma_string_body_in_bounds(s: Seq<char>, pos: int, decoded: Seq<char>)
    requires
        0 <= pos <= s.len(),
    ensures
        pos + string_body_scan(s, pos, decoded).advance <= s.len(),
    decreases s.len() - pos,
{
    if pos < s.len() {
        let c = s[pos];
        if c == '"' {
        } else if c == '\\' {
            let escape = escape_scan(s, pos + 1);
            if escape.result.is_ok() {
                lemma_string_body_in_bounds(
                    s,
                    pos + 1 + escape.advance,
                    decoded.push(escape.result.unwrap()),
                );
            }
        } else {
            lemma_string_body_in_bounds(s, pos + 1, decoded.push(c));
        }
    }
}

/// No rule reads beyond the input: a value.
pub proof fn lemma_value_in_bounds(s: Seq<char>, pos: int, depth: nat)
    requires
        0 <= pos <= s.len(),
    ensures
        pos + value_scan(s, pos, depth).advance <= s.len(),
    decreases depth, 0nat, 1nat,
{
    lemma_whitespace_in_bounds(s, pos);
    let at = pos + whitespace_len(s, pos);
    if at < s.len() {
        let c = s[at];
        if c == '"' {
            lemma_string_body_in_bounds(s, at + 1, Seq::empty());
        } else if c == '[' {
            if depth > 0 {
                lemma_array_in_bounds(s, at, (depth - 1) as nat);
            }
        } else if c == '{' {
            if depth > 0 {
                lemma_object_in_bounds(s, at, (depth - 1) as nat);
            }
        } else if c == '-' || is_digit(c) {
            lemma_number_in_bounds(s, at);
        }
    }
}

/// No rule reads beyond the input: an array.
pub proof fn lemma_array_in_bounds(s: Seq<char>, pos: int, depth: nat)
    requires
        0 <= pos < s.len(),
    ensures
        pos + array_scan(s, pos, depth).advance <= s.len(),
    decreases depth, 2nat, 0nat,
{
    lemma_whitespace_in_bounds(s, pos + 1);
    let at = pos + 1 + whitespace_len(s, pos + 1);
    if char_at(s, at) != Some(']') {
        lemma_elements_in_bounds(s, at, depth, Seq::empty());
    }
}

/// No rule reads beyond the input: the elements of an array.
pub proof fn lemma_elements_in_bounds(s: Seq<char>, pos: int, depth: nat, items: Seq<Json>)
    requires
        0 <= pos <= s.len(),
    ensures
        pos + elements_scan(s, pos, depth, items).advance <= s.len(),
    decreases depth, 1nat, s.len() - pos,
{
    lemma_value_in_bounds(s, pos, depth);
    let element = value_scan(s, pos, depth);
    if element.result.is_ok() {
        lemma_whitespace_in_bounds(s, pos + element.advance);
        let sep = pos + through_whitespace(s, pos, element.advance);
        if char_at(s, sep) == Some(',') {
            lemma_whitespace_in_bounds(s, sep + 1);
            let next = sep + 1 + whitespace_len(s, sep + 1);
            lemma_elements_in_bounds(s, next, depth, items.push(element.result.unwrap()));
        }
    }
}

/// No rule reads beyond the input: an object.
pub proof fn lemma_object_in_bounds(s: Seq<char>, pos: int, depth: nat)
    requires
        0 <= pos < s.len(),
    ensures
        pos + object_scan(s, pos, depth).advance <= s.len(),
    decreases depth, 2nat, 0nat,
{
    lemma_whitespace_in_bounds(s, pos + 1);
    let at = pos + 1 + whitespace_len(s, pos + 1);
    if char_at(s, at) != Some('}') {
        lemma_members_in_bounds(s, at, depth, Map::empty());
    }
}

/// No rule reads beyond the input: one member of an object.
pub proof fn lemma_member_in_bounds(s: Seq<char>, pos: int, depth: nat)
    requires
        0 <= pos <= s.len(),
    ensures
        pos + member_scan(s, pos, depth).advance <= s.len(),
    decreases depth, 0nat, 2nat,
{
    lemma_whitespace_in_bounds(s, pos);
    let key_at = pos + whitespace_len(s, pos);
    if char_at(s, key_at) == Some('"') {
        lemma_string_body_in_bounds(s, key_at + 1, Seq::empty());
        let key = string_scan(s, key_at);
        if key.result.is_ok() {
            lemma_whitespace_in_bounds(s, key_at + key.advance);
            let colon_at = key_at + through_whitespace(s, key_at, key.advance);
            if char_at(s, colon_at) == Some(':') {
                lemma_value_in_bounds(s, colon_at + 1, depth);
            }
        }
    }
}

/// No rule reads beyond the input: the members of an object.
pub proof fn lemma_members_in_bounds(
    s: Seq<char>,
    pos: int,
    depth: nat,
    members: Map<Seq<char>, Json>,
)
    requires
        0 <= pos <= s.len(),
    ensures
        pos + members_scan(s, pos, depth, members).advance <= s.len(),
    decreases depth, 1nat, s.len() - pos,
{
    lemma_member_in_bounds(s, pos, depth);
    let member = member_scan(s, pos, depth);
    if member.result.is_ok() {
        let entry = member.result.unwrap();
        lemma_whitespace_in_bounds(s, pos + member.advance);
        let sep = pos + through_whitespace(s, pos, member.advance);
        if char_at(s, sep) == Some(',') {
            lemma_whitespace_in_bounds(s, sep + 1);
            let next = sep + 1 + whitespace_len(s, sep + 1);
            lemma_members_in_bounds(s, next, depth, members.insert(entry.0, entry.1));
        }
    }
}

/// A parse that succeeds has read the whole input, and a parse that fails
/// names a place inside the input or its end.
pub proof fn lemma_document_reads_all(s: Seq<char>, max_depth: nat)
    ensures
        document_scan(s, 0, max_depth).result.is_ok() ==> document_scan(s, 0, max_depth).advance
            == s.len(),
        document_scan(s, 0, max_depth).advance <= s.len(),
{
    lemma_value_in_bounds(s, 0, max_depth);
    let value = value_scan(s, 0, max_depth);
    lemma_whitespace_in_bounds(s, value.advance as int);
}

} // verus!
