//! JSON values, as far as signaling builds and reads them.

use crate::text::decimal;
use vstd::prelude::*;

verus! {

/// `serde_json::Value`, carried through as it is. What it holds is spoken of
/// through `json_text` and `json_strings` only.
#[verifier::external_type_specification]
#[verifier::external_body]
pub struct ExValue(serde_json::Value);

/// The compact JSON text of a value of the `serde_json` crate.
pub uninterp spec fn json_text(value: serde_json::Value) -> Seq<char>;

/// The members of a JSON object that are strings, by their keys. A value that
/// is no object has none.
pub uninterp spec fn json_strings(value: serde_json::Value) -> Map<Seq<char>, Seq<char>>;

/// The lower-case hexadecimal digit of `n`.
pub open spec fn hex_digit(n: int) -> char {
    if n < 10 {
        (48 + n) as char
    } else {
        (87 + n) as char
    }
}

/// A character as it stands inside a JSON string: quote, backslash and control
/// characters are escaped, nothing else.
pub open spec fn json_escape(c: char) -> Seq<char> {
    if c == '"' {
        seq!['\\', '"']
    } else if c == '\\' {
        seq!['\\', '\\']
    } else if c == '\x08' {
        seq!['\\', 'b']
    } else if c == '\t' {
        seq!['\\', 't']
    } else if c == '\n' {
        seq!['\\', 'n']
    } else if c == '\x0c' {
        seq!['\\', 'f']
    } else if c == '\r' {
        seq!['\\', 'r']
    } else if (c as int) < 32 {
        seq!['\\', 'u', '0', '0', hex_digit(c as int / 16), hex_digit(c as int % 16)]
    } else {
        seq![c]
    }
}

/// A text as a JSON string, with its quotes.
pub open spec fn json_quoted(text: Seq<char>) -> Seq<char> {
    seq!['"'] + text.map_values(|c: char| json_escape(c)).flatten() + seq!['"']
}

/// The members of a JSON object, each a key and the JSON text of its value, as
/// they stand between the braces.
pub open spec fn json_members(members: Seq<(Seq<char>, Seq<char>)>) -> Seq<char>
    decreases members.len(),
{
    if members.len() == 0 {
        seq![]
    } else {
        let (key, value) = members.last();
        let comma = if members.len() == 1 {
            seq![]
        } else {
            seq![',']
        };
        json_members(members.drop_last()) + comma + json_quoted(key) + seq![':'] + value
    }
}

/// The text of a JSON object.
pub open spec fn json_object_text(members: Seq<(Seq<char>, Seq<char>)>) -> Seq<char> {
    seq!['{'] + json_members(members) + seq!['}']
}

/// Whether `a` and `b` agree on their first `n` characters and then `a` comes
/// before `b`: by the next character, or because `a` ends there.
pub open spec fn before_at(a: Seq<char>, b: Seq<char>, n: int) -> bool {
    &&& 0 <= n <= a.len()
    &&& n < b.len()
    &&& a.take(n) == b.take(n)
    &&& n < a.len() ==> a[n] < b[n]
}

/// Whether `a` comes before `b` in the order of strings.
pub open spec fn comes_before(a: Seq<char>, b: Seq<char>) -> bool {
    exists|n: int| before_at(a, b, n)
}

/// Whether the keys come in ascending order, each once.
pub open spec fn keys_ascend(members: Seq<(Seq<char>, Seq<char>)>) -> bool {
    forall|i: int, j: int|
        0 <= i < j < members.len() ==> comes_before(
            (#[trigger] members[i]).0,
            (#[trigger] members[j]).0,
        )
}

/// Members of an object with the JSON texts of their values.
pub open spec fn member_texts(members: Seq<(String, serde_json::Value)>) -> Seq<
    (Seq<char>, Seq<char>),
> {
    members.map_values(|member: (String, serde_json::Value)| (member.0@, json_text(member.1)))
}

/// `Value::from` on a string makes a JSON string of the same text.
#[verifier::external_body]
pub(crate) fn json_from_str(text: &str) -> (value: serde_json::Value)
    ensures
        json_text(value) == json_quoted(text@),
{
    serde_json::Value::from(text)
}

/// `Value::from` on a `u16` makes a JSON number, written in decimal.
#[verifier::external_body]
pub(crate) fn json_from_u16(number: u16) -> (value: serde_json::Value)
    ensures
        json_text(value) == decimal(number as nat),
{
    serde_json::Value::from(number)
}

/// `Value::from_iter` on pairs of a key and a value makes a JSON object, which
/// is written with its members in ascending order of their keys.
#[verifier::external_body]
pub(crate) fn json_object(members: Vec<(String, serde_json::Value)>) -> (value: serde_json::Value)
    requires
        keys_ascend(member_texts(members@)),
    ensures
        json_text(value) == json_object_text(member_texts(members@)),
{
    serde_json::Value::from_iter(members)
}

/// `to_string` on a value writes its compact JSON text.
#[verifier::external_body]
pub(crate) fn json_to_string(value: &serde_json::Value) -> (text: String)
    ensures
        text@ == json_text(*value),
{
    value.to_string()
}

/// Indexing a value by a key and `as_str` give the string under that key, if
/// the value is an object whose member of that key is a string.
#[verifier::external_body]
pub(crate) fn json_member_str(value: &serde_json::Value, key: &str) -> (text: Option<String>)
    ensures
        match text {
            Some(text) => json_strings(*value).contains_key(key@) && text@ == json_strings(
                *value,
            )[key@],
            None => !json_strings(*value).contains_key(key@),
        },
{
    value[key].as_str().map(|text| text.to_string())
}

/// The value of a lower-case hexadecimal digit.
pub open spec fn hex_value(c: char) -> int {
    if c <= '9' {
        c as int - '0' as int
    } else {
        c as int - 'a' as int + 10
    }
}

/// The text that the inside of a JSON string stands for.
pub open spec fn unescaped(s: Seq<char>) -> Seq<char>
    decreases s.len(),
{
    if s.len() == 0 {
        seq![]
    } else if s[0] != '\\' || s.len() == 1 {
        seq![s[0]] + unescaped(s.skip(1))
    } else if s[1] == 'u' && s.len() >= 6 {
        let code = ((hex_value(s[2]) * 16 + hex_value(s[3])) * 16 + hex_value(s[4])) * 16
            + hex_value(s[5]);
        seq![code as char] + unescaped(s.skip(6))
    } else {
        let c = if s[1] == 'b' {
            '\x08'
        } else if s[1] == 't' {
            '\t'
        } else if s[1] == 'n' {
            '\n'
        } else if s[1] == 'f' {
            '\x0c'
        } else if s[1] == 'r' {
            '\r'
        } else {
            s[1]
        };
        seq![c] + unescaped(s.skip(2))
    }
}

proof fn lemma_escape_reads_back(c: char, rest: Seq<char>)
    ensures
        unescaped(json_escape(c) + rest) == seq![c] + unescaped(rest),
{
    let s = json_escape(c) + rest;
    let n = json_escape(c).len() as int;
    assert(s.skip(n) =~= rest);
    assert(forall|i: int| 0 <= i < n ==> s[i] == json_escape(c)[i]);
    if n == 6 {
        let high = c as int / 16;
        let low = c as int % 16;
        assert(s[2] == '0' && s[3] == '0');
        assert(s[4] == hex_digit(high) && s[5] == hex_digit(low));
        assert(hex_value(hex_digit(high)) == high);
        assert(hex_value(hex_digit(low)) == low);
    } else if n == 2 {
        assert(s[0] == '\\');
    } else {
        assert(s[0] == c);
    }
}

/// A JSON string stands between quotes and is read back as the text that it was
/// written from, whatever characters that holds.
pub proof fn law_json_string_reads_back(text: Seq<char>)
    ensures
        json_quoted(text).len() >= 2,
        json_quoted(text).first() == '"',
        json_quoted(text).last() == '"',
        unescaped(json_quoted(text).subrange(1, json_quoted(text).len() - 1)) == text,
{
    let inside = text.map_values(|c: char| json_escape(c)).flatten();
    assert(json_quoted(text).subrange(1, json_quoted(text).len() - 1) =~= inside);
    lemma_inside_reads_back(text);
}

proof fn lemma_inside_reads_back(text: Seq<char>)
    ensures
        unescaped(text.map_values(|c: char| json_escape(c)).flatten()) == text,
    decreases text.len(),
{
    let escaped = text.map_values(|c: char| json_escape(c));
    if text.len() == 0 {
        assert(escaped.flatten() =~= seq![]);
        assert(unescaped(escaped.flatten()) =~= text);
    } else {
        let rest = text.drop_first();
        let later = rest.map_values(|c: char| json_escape(c));
        lemma_inside_reads_back(rest);
        assert(escaped.drop_first() =~= later);
        assert(escaped.flatten() == json_escape(text[0]) + later.flatten());
        lemma_escape_reads_back(text[0], later.flatten());
        assert(seq![text[0]] + rest =~= text);
    }
}

/// An object without members is a pair of braces, and each further member adds
/// its quoted key, a colon and its value, after a comma where it is not the
/// first.
pub proof fn law_object_text_grows(
    members: Seq<(Seq<char>, Seq<char>)>,
    key: Seq<char>,
    value: Seq<char>,
)
    ensures
        json_object_text(seq![]) == seq!['{', '}'],
        ({
            let before = json_object_text(members);
            let after = json_object_text(members.push((key, value)));
            let inside = before.subrange(1, before.len() - 1);
            let member = json_quoted(key) + seq![':'] + value;
            &&& members.len() == 0 ==> after == seq!['{'] + member + seq!['}']
            &&& members.len() > 0 ==> after == seq!['{'] + inside + seq![','] + member + seq!['}']
        }),
{
    let grown = members.push((key, value));
    assert(grown.drop_last() =~= members);
    assert(json_object_text(seq![]) =~= seq!['{', '}']);
    let before = json_object_text(members);
    assert(before.subrange(1, before.len() - 1) =~= json_members(members));
    let member = json_quoted(key) + seq![':'] + value;
    if members.len() == 0 {
        assert(json_object_text(grown) =~= seq!['{'] + member + seq!['}']);
    } else {
        assert(json_object_text(grown) =~= seq!['{'] + json_members(members) + seq![','] + member
            + seq!['}']);
    }
}

} // verus!
