//! JSON documents: what a `serde_json` value holds and the compact text it is written as.

use crate::ordering;
use crate::text;
use vstd::prelude::*;

verus! {

/// What a JSON value holds. A number is held by the text it is written as.
pub enum JsonTree {
    Null,
    Bool(bool),
    Number(Seq<char>),
    Text(Seq<char>),
    List(Seq<JsonTree>),
    Object(Seq<(Seq<char>, JsonTree)>),
}

/// How a character is written inside a JSON string.
pub open spec fn escaped_char(c: char) -> Seq<char> {
    if c == '"' || c == '\\' {
        seq!['\\', c]
    } else if c == '\x08' {
        seq!['\\', 'b']
    } else if c == '\t' {
        seq!['\\', 't']
    } else if c == '\n' {
        seq!['\\', 'n']
    } else if c == '\x0c' {
        seq!['\\', 'f']
    } else if c == '\r' {
        seq!['\\', 'r']
    } else if c as int <= 0x1f {
        seq!['\\', 'u', '0', '0', text::hex_digit(c as int / 16), text::hex_digit(c as int % 16)]
    } else {
        seq![c]
    }
}

/// The characters of `s`, each as it is written inside a JSON string.
pub open spec fn escaped(s: Seq<char>) -> Seq<char>
    decreases s.len(),
{
    if s.len() == 0 {
        Seq::empty()
    } else {
        escaped_char(s[0]) + escaped(s.skip(1))
    }
}

/// A JSON string.
pub open spec fn quoted(s: Seq<char>) -> Seq<char> {
    seq!['"'] + escaped(s) + seq!['"']
}

/// The text of a JSON value without any whitespace between its parts.
pub open spec fn compact(tree: JsonTree) -> Seq<char>
    decreases tree,
{
    match tree {
        JsonTree::Null => seq!['n', 'u', 'l', 'l'],
        JsonTree::Bool(b) => if b {
            seq!['t', 'r', 'u', 'e']
        } else {
            seq!['f', 'a', 'l', 's', 'e']
        },
        JsonTree::Number(text) => text,
        JsonTree::Text(s) => quoted(s),
        JsonTree::List(items) => seq!['['] + compact_items(items) + seq![']'],
        JsonTree::Object(members) => seq!['{'] + compact_members(members) + seq!['}'],
    }
}

/// The items of an array, separated by commas.
pub open spec fn compact_items(items: Seq<JsonTree>) -> Seq<char>
    decreases items,
{
    if items.len() == 0 {
        Seq::empty()
    } else if items.len() == 1 {
        compact(items[0])
    } else {
        compact(items[0]) + seq![','] + compact_items(items.skip(1))
    }
}

/// The members of an object, separated by commas.
pub open spec fn compact_members(members: Seq<(Seq<char>, JsonTree)>) -> Seq<char>
    decreases members,
{
    if members.len() == 0 {
        Seq::empty()
    } else {
        let first = quoted(members[0].0) + seq![':'] + compact(members[0].1);
        if members.len() == 1 {
            first
        } else {
            first + seq![','] + compact_members(members.skip(1))
        }
    }
}

/// `serde_json::Value`: a JSON value, seen only through what `json_tree` says it holds.
#[verifier::external_type_specification]
#[verifier::external_body]
pub struct ExValue(serde_json::Value);

/// `serde_json::Error`: carried from where it arises to the caller, and never looked into.
#[verifier::external_type_specification]
#[verifier::external_body]
pub struct ExError(serde_json::Error);

/// What a `serde_json::Value` holds. The members of an object stand in the order in which
/// `serde_json::Map` is walked.
pub uninterp spec fn json_tree(value: serde_json::Value) -> JsonTree;

/// Wraps `serde_json::Value::from::<&str>`: the value is the string.
#[verifier::external_body]
pub(crate) fn json_string(s: &str) -> (value: serde_json::Value)
    ensures
        json_tree(value) == JsonTree::Text(s@),
{
    serde_json::Value::from(s)
}

/// Wraps `serde_json::Value::from::<Vec<serde_json::Value>>`: the value is the array of the
/// items, in their order.
#[verifier::external_body]
pub(crate) fn json_array(items: Vec<serde_json::Value>) -> (value: serde_json::Value)
    ensures
        json_tree(value) == JsonTree::List(items@.map_values(|item: serde_json::Value| json_tree(item))),
{
    serde_json::Value::from(items)
}

/// The members of an object as they stand in a list.
pub open spec fn members_of(list: Seq<(String, serde_json::Value)>) -> Seq<(Seq<char>, JsonTree)> {
    list.map_values(|member: (String, serde_json::Value)| (member.0@, json_tree(member.1)))
}

/// Each key precedes all that come after it.
pub open spec fn ascending_keys(members: Seq<(Seq<char>, JsonTree)>) -> bool {
    forall|i: int, j: int|
        0 <= i < j < members.len() ==> ordering::precedes(
            (#[trigger] members[i]).0,
            (#[trigger] members[j]).0,
        )
}

/// Wraps `serde_json::Value::from_iter` on pairs of a key and a value: the value is the object of
/// these members. With ascending keys the members stay in their order, whether the object's map
/// is kept sorted by key or in the order of insertion, and no key replaces another.
#[verifier::external_body]
pub(crate) fn json_object(list: Vec<(String, serde_json::Value)>) -> (value: serde_json::Value)
    requires
        ascending_keys(members_of(list@)),
    ensures
        json_tree(value) == JsonTree::Object(members_of(list@)),
{
    serde_json::Value::from_iter(list)
}

/// `Clone` of `serde_json::Value` gives a value that holds the same.
pub assume_specification[ <serde_json::Value as Clone>::clone ](value: &serde_json::Value) -> (copy:
    serde_json::Value)
    ensures
        json_tree(copy) == json_tree(*value),
;

/// `text` is the compact text of the value, and every number in it is written as a number.
pub open spec fn is_text_of(text: Seq<char>, tree: JsonTree) -> bool {
    well_formed(tree) && text == compact(tree)
}

/// Wraps `serde_json::to_string` on a `serde_json::Value`: the compact text of what the value
/// holds. Writing a `Value` cannot fail: its keys are strings, its numbers are finite, and the text
/// is gathered in memory. A number is an integer or a finite float, and is written with at least
/// one digit and with nothing but digits, signs, a point and an exponent's `e`.
#[verifier::external_body]
pub(crate) fn json_to_string(value: &serde_json::Value) -> (text: Result<String, serde_json::Error>)
    ensures
        text is Ok,
        is_text_of(text->Ok_0@, json_tree(*value)),
{
    serde_json::to_string(value)
}

/// A character of a number's text.
pub open spec fn is_number_char(c: char) -> bool {
    ||| '0' <= c <= '9'
    ||| c == '-'
    ||| c == '+'
    ||| c == '.'
    ||| c == 'e'
    ||| c == 'E'
}

/// Every number in the value is written as a number.
pub open spec fn well_formed(tree: JsonTree) -> bool
    decreases tree,
{
    match tree {
        JsonTree::Number(text) => text.len() > 0 && forall|i: int|
            0 <= i < text.len() ==> is_number_char(#[trigger] text[i]),
        JsonTree::List(items) => well_formed_items(items),
        JsonTree::Object(members) => well_formed_members(members),
        _ => true,
    }
}

/// Every item of an array is well formed.
pub open spec fn well_formed_items(items: Seq<JsonTree>) -> bool
    decreases items,
{
    items.len() == 0 || (well_formed(items[0]) && well_formed_items(items.skip(1)))
}

/// Every member of an object holds a well-formed value.
pub open spec fn well_formed_members(members: Seq<(Seq<char>, JsonTree)>) -> bool
    decreases members,
{
    members.len() == 0 || (well_formed(members[0].1) && well_formed_members(members.skip(1)))
}

/// What can follow a value inside a document, or at its end.
pub open spec fn ends_value(rest: Seq<char>) -> bool {
    rest.len() == 0 || rest[0] == ',' || rest[0] == ']' || rest[0] == '}'
}

/// What follows a common prefix can be compared by itself.
pub proof fn lemma_prefix_same<A>(p: Seq<A>, x: Seq<A>, y: Seq<A>)
    requires
        p + x == p + y,
    ensures
        x == y,
{
    assert((p + x).len() == p.len() + x.len());
    assert((p + y).len() == p.len() + y.len());
    assert forall|i: int| 0 <= i < x.len() implies x[i] == y[i] by {
        assert((p + x)[p.len() + i] == x[i]);
        assert((p + y)[p.len() + i] == y[i]);
    }
    assert(x =~= y);
}

proof fn lemma_escaped_char_prefix_free(c: char, d: char, x: Seq<char>, y: Seq<char>)
    requires
        escaped_char(c) + x == escaped_char(d) + y,
    ensures
        c == d,
        x == y,
{
    let a = escaped_char(c) + x;
    let b = escaped_char(d) + y;
    assert(a[0] == escaped_char(c)[0]);
    assert(b[0] == escaped_char(d)[0]);
    if a[0] == '\\' {
        assert(a[1] == escaped_char(c)[1]);
        assert(b[1] == escaped_char(d)[1]);
        if a[1] == 'u' {
            assert(a[4] == escaped_char(c)[4]);
            assert(b[4] == escaped_char(d)[4]);
            assert(a[5] == escaped_char(c)[5]);
            assert(b[5] == escaped_char(d)[5]);
            text::lemma_hex_digit_injective(c as int / 16, d as int / 16);
            text::lemma_hex_digit_injective(c as int % 16, d as int % 16);
        }
    }
    assert(c == d);
    lemma_prefix_same(escaped_char(c), x, y);
}

proof fn lemma_escaped_prefix_free(s: Seq<char>, t: Seq<char>, x: Seq<char>, y: Seq<char>)
    requires
        escaped(s) + seq!['"'] + x == escaped(t) + seq!['"'] + y,
    ensures
        s == t,
        x == y,
    decreases s.len(),
{
    let a = escaped(s) + seq!['"'] + x;
    let b = escaped(t) + seq!['"'] + y;
    if s.len() > 0 {
        assert(a =~= escaped_char(s[0]) + (escaped(s.skip(1)) + seq!['"'] + x));
        assert(a[0] == escaped_char(s[0])[0]);
    } else {
        assert(a =~= seq!['"'] + x);
    }
    if t.len() > 0 {
        assert(b =~= escaped_char(t[0]) + (escaped(t.skip(1)) + seq!['"'] + y));
        assert(b[0] == escaped_char(t[0])[0]);
    } else {
        assert(b =~= seq!['"'] + y);
    }
    if s.len() > 0 && t.len() > 0 {
        lemma_escaped_char_prefix_free(
            s[0],
            t[0],
            escaped(s.skip(1)) + seq!['"'] + x,
            escaped(t.skip(1)) + seq!['"'] + y,
        );
        lemma_escaped_prefix_free(s.skip(1), t.skip(1), x, y);
        assert(s =~= seq![s[0]] + s.skip(1));
        assert(t =~= seq![t[0]] + t.skip(1));
    } else {
        assert(s.len() == 0 && t.len() == 0);
        assert(s =~= t);
        lemma_prefix_same(seq!['"'], x, y);
    }
}

proof fn lemma_quoted_prefix_free(s: Seq<char>, t: Seq<char>, x: Seq<char>, y: Seq<char>)
    requires
        quoted(s) + x == quoted(t) + y,
    ensures
        s == t,
        x == y,
{
    assert(quoted(s) + x =~= seq!['"'] + (escaped(s) + seq!['"'] + x));
    assert(quoted(t) + y =~= seq!['"'] + (escaped(t) + seq!['"'] + y));
    lemma_prefix_same(seq!['"'], escaped(s) + seq!['"'] + x, escaped(t) + seq!['"'] + y);
    lemma_escaped_prefix_free(s, t, x, y);
}

proof fn lemma_number_prefix_free(s: Seq<char>, t: Seq<char>, x: Seq<char>, y: Seq<char>)
    requires
        well_formed(JsonTree::Number(s)),
        well_formed(JsonTree::Number(t)),
        ends_value(x),
        ends_value(y),
        s + x == t + y,
    ensures
        s == t,
        x == y,
{
    let a = s + x;
    let b = t + y;
    assert(a.len() == b.len());
    if s.len() < t.len() {
        assert(a[s.len() as int] == x[0]);
        assert(b[s.len() as int] == t[s.len() as int]);
    } else if t.len() < s.len() {
        assert(b[t.len() as int] == y[0]);
        assert(a[t.len() as int] == s[t.len() as int]);
    }
    assert forall|i: int| 0 <= i < s.len() implies s[i] == t[i] by {
        assert(a[i] == b[i]);
    }
    assert(s =~= t);
    lemma_prefix_same(s, x, y);
}

/// The first character of a value tells which kind of value it is.
proof fn lemma_compact_first(tree: JsonTree)
    requires
        well_formed(tree),
    ensures
        compact(tree).len() > 0,
        tree is Null <==> compact(tree)[0] == 'n',
        tree is Bool <==> compact(tree)[0] == 't' || compact(tree)[0] == 'f',
        tree is Number <==> is_number_char(compact(tree)[0]),
        tree is Text <==> compact(tree)[0] == '"',
        tree is List <==> compact(tree)[0] == '[',
        tree is Object <==> compact(tree)[0] == '{',
{
    let text = compact(tree);
    match tree {
        JsonTree::Null => {},
        JsonTree::Bool(b) => {},
        JsonTree::Number(digits) => {
            assert(is_number_char(digits[0]));
        },
        JsonTree::Text(s) => {
            assert(text[0] == '"');
        },
        JsonTree::List(items) => {
            assert(text[0] == '[');
        },
        JsonTree::Object(members) => {
            assert(text[0] == '{');
        },
    }
}

/// A document is read in only one way: where the texts of two values, each with what may follow
/// it, are equal, the values are equal and so is what follows.
proof fn lemma_compact_prefix_free(a: JsonTree, b: JsonTree, x: Seq<char>, y: Seq<char>)
    requires
        well_formed(a),
        well_formed(b),
        ends_value(x),
        ends_value(y),
        compact(a) + x == compact(b) + y,
    ensures
        a == b,
        x == y,
    decreases a,
{
    lemma_compact_first(a);
    lemma_compact_first(b);
    assert((compact(a) + x)[0] == compact(a)[0]);
    assert((compact(b) + y)[0] == compact(b)[0]);
    match (a, b) {
        (JsonTree::Null, JsonTree::Null) => {
            lemma_prefix_same(compact(a), x, y);
        },
        (JsonTree::Bool(p), JsonTree::Bool(q)) => {
            assert(p == q);
            lemma_prefix_same(compact(a), x, y);
        },
        (JsonTree::Number(s), JsonTree::Number(t)) => {
            lemma_number_prefix_free(s, t, x, y);
        },
        (JsonTree::Text(s), JsonTree::Text(t)) => {
            lemma_quoted_prefix_free(s, t, x, y);
        },
        (JsonTree::List(s), JsonTree::List(t)) => {
            let s_rest = compact_items(s) + seq![']'] + x;
            let t_rest = compact_items(t) + seq![']'] + y;
            assert(compact(a) + x =~= seq!['['] + s_rest);
            assert(compact(b) + y =~= seq!['['] + t_rest);
            lemma_prefix_same(seq!['['], s_rest, t_rest);
            lemma_items_prefix_free(s, t, x, y);
        },
        (JsonTree::Object(s), JsonTree::Object(t)) => {
            let s_rest = compact_members(s) + seq!['}'] + x;
            let t_rest = compact_members(t) + seq!['}'] + y;
            assert(compact(a) + x =~= seq!['{'] + s_rest);
            assert(compact(b) + y =~= seq!['{'] + t_rest);
            lemma_prefix_same(seq!['{'], s_rest, t_rest);
            lemma_members_prefix_free(s, t, x, y);
        },
        _ => {
            assert(false);
        },
    }
}

/// What follows the first item of an array, up to the array's end and beyond.
spec fn after_item(items: Seq<JsonTree>, x: Seq<char>) -> Seq<char> {
    if items.len() == 1 {
        seq![']'] + x
    } else {
        seq![','] + (compact_items(items.skip(1)) + seq![']'] + x)
    }
}

proof fn lemma_items_prefix_free(s: Seq<JsonTree>, t: Seq<JsonTree>, x: Seq<char>, y: Seq<char>)
    requires
        well_formed_items(s),
        well_formed_items(t),
        compact_items(s) + seq![']'] + x == compact_items(t) + seq![']'] + y,
    ensures
        s == t,
        x == y,
    decreases s,
{
    let a = compact_items(s) + seq![']'] + x;
    let b = compact_items(t) + seq![']'] + y;
    if s.len() > 0 {
        lemma_compact_first(s[0]);
        assert(a =~= compact(s[0]) + after_item(s, x));
        assert(a[0] == compact(s[0])[0]);
    } else {
        assert(a =~= seq![']'] + x);
    }
    if t.len() > 0 {
        lemma_compact_first(t[0]);
        assert(b =~= compact(t[0]) + after_item(t, y));
        assert(b[0] == compact(t[0])[0]);
    } else {
        assert(b =~= seq![']'] + y);
    }
    if s.len() > 0 && t.len() > 0 {
        lemma_compact_prefix_free(s[0], t[0], after_item(s, x), after_item(t, y));
        assert(after_item(s, x)[0] == if s.len() == 1 { ']' } else { ',' });
        assert(after_item(t, y)[0] == if t.len() == 1 { ']' } else { ',' });
        if s.len() == 1 {
            lemma_prefix_same(seq![']'], x, y);
            assert(s =~= t);
        } else {
            let s_rest = compact_items(s.skip(1)) + seq![']'] + x;
            let t_rest = compact_items(t.skip(1)) + seq![']'] + y;
            lemma_prefix_same(seq![','], s_rest, t_rest);
            lemma_items_prefix_free(s.skip(1), t.skip(1), x, y);
            assert(s =~= seq![s[0]] + s.skip(1));
            assert(t =~= seq![t[0]] + t.skip(1));
        }
    } else {
        assert(s.len() == 0 && t.len() == 0);
        assert(s =~= t);
        lemma_prefix_same(seq![']'], x, y);
    }
}

/// What follows the first member of an object, up to the object's end and beyond.
spec fn after_member(members: Seq<(Seq<char>, JsonTree)>, x: Seq<char>) -> Seq<char> {
    if members.len() == 1 {
        seq!['}'] + x
    } else {
        seq![','] + (compact_members(members.skip(1)) + seq!['}'] + x)
    }
}

/// An object's text from its first member's key on.
spec fn from_member(members: Seq<(Seq<char>, JsonTree)>, x: Seq<char>) -> Seq<char> {
    seq![':'] + (compact(members[0].1) + after_member(members, x))
}

proof fn lemma_members_split(members: Seq<(Seq<char>, JsonTree)>, x: Seq<char>)
    requires
        members.len() > 0,
    ensures
        compact_members(members) + seq!['}'] + x == quoted(members[0].0) + from_member(members, x),
        (compact_members(members) + seq!['}'] + x)[0] == '"',
        after_member(members, x)[0] == if members.len() == 1 { '}' } else { ',' },
{
    let key = quoted(members[0].0);
    let value = compact(members[0].1);
    let first = key + seq![':'] + value;
    let text = compact_members(members) + seq!['}'] + x;
    if members.len() == 1 {
        assert(text =~= key + (seq![':'] + (value + (seq!['}'] + x))));
    } else {
        let others = compact_members(members.skip(1));
        assert(text =~= key + (seq![':'] + (value + (seq![','] + (others + seq!['}'] + x)))));
    }
    assert(key[0] == '"');
}

proof fn lemma_members_prefix_free(
    s: Seq<(Seq<char>, JsonTree)>,
    t: Seq<(Seq<char>, JsonTree)>,
    x: Seq<char>,
    y: Seq<char>,
)
    requires
        well_formed_members(s),
        well_formed_members(t),
        compact_members(s) + seq!['}'] + x == compact_members(t) + seq!['}'] + y,
    ensures
        s == t,
        x == y,
    decreases s,
{
    let a = compact_members(s) + seq!['}'] + x;
    let b = compact_members(t) + seq!['}'] + y;
    if s.len() > 0 {
        lemma_members_split(s, x);
    } else {
        assert(a =~= seq!['}'] + x);
    }
    if t.len() > 0 {
        lemma_members_split(t, y);
    } else {
        assert(b =~= seq!['}'] + y);
    }
    if s.len() > 0 && t.len() > 0 {
        lemma_quoted_prefix_free(s[0].0, t[0].0, from_member(s, x), from_member(t, y));
        lemma_prefix_same(
            seq![':'],
            compact(s[0].1) + after_member(s, x),
            compact(t[0].1) + after_member(t, y),
        );
        lemma_compact_prefix_free(s[0].1, t[0].1, after_member(s, x), after_member(t, y));
        if s.len() == 1 {
            lemma_prefix_same(seq!['}'], x, y);
            assert(s =~= t);
        } else {
            let s_rest = compact_members(s.skip(1)) + seq!['}'] + x;
            let t_rest = compact_members(t.skip(1)) + seq!['}'] + y;
            lemma_prefix_same(seq![','], s_rest, t_rest);
            lemma_members_prefix_free(s.skip(1), t.skip(1), x, y);
            assert(s =~= seq![s[0]] + s.skip(1));
            assert(t =~= seq![t[0]] + t.skip(1));
        }
    } else {
        assert(s.len() == 0 && t.len() == 0);
        assert(s =~= t);
        lemma_prefix_same(seq!['}'], x, y);
    }
}

/// Different values are written as different texts.
pub proof fn law_compact_injective(a: JsonTree, b: JsonTree)
    requires
        well_formed(a),
        well_formed(b),
        compact(a) == compact(b),
    ensures
        a == b,
{
    assert(compact(a) + Seq::empty() =~= compact(b) + Seq::empty());
    lemma_compact_prefix_free(a, b, Seq::empty(), Seq::empty());
}

/// The values that are no text, array or object are written as the literals they are.
pub proof fn law_compact_plain(digits: Seq<char>)
    ensures
        compact(JsonTree::Null) == "null"@,
        compact(JsonTree::Bool(true)) == "true"@,
        compact(JsonTree::Bool(false)) == "false"@,
        compact(JsonTree::Number(digits)) == digits,
{
    reveal_strlit("null");
    reveal_strlit("true");
    reveal_strlit("false");
    assert(compact(JsonTree::Null) =~= "null"@);
    assert(compact(JsonTree::Bool(true)) =~= "true"@);
    assert(compact(JsonTree::Bool(false)) =~= "false"@);
}

proof fn lemma_escaped_pieces(s: Seq<char>) -> (pieces: Seq<Seq<char>>)
    ensures
        pieces.len() == s.len(),
        pieces.flatten() == escaped(s),
        forall|i: int| 0 <= i < s.len() ==> pieces[i] == escaped_char(#[trigger] s[i]),
    decreases s.len(),
{
    if s.len() == 0 {
        Seq::empty()
    } else {
        let rest = lemma_escaped_pieces(s.skip(1));
        let pieces = seq![escaped_char(s[0])] + rest;
        assert(pieces.drop_first() =~= rest);
        assert forall|i: int| 0 <= i < s.len() implies pieces[i] == escaped_char(#[trigger] s[i]) by {
            if i > 0 {
                assert(s.skip(1)[i - 1] == s[i]);
            }
        }
        pieces
    }
}

/// How each character is written inside a JSON string.
pub proof fn law_escaped_char(c: char)
    ensures
        c == '"' ==> escaped_char(c) == "\\\""@,
        c == '\\' ==> escaped_char(c) == "\\\\"@,
        c == '\x08' ==> escaped_char(c) == "\\b"@,
        c == '\t' ==> escaped_char(c) == "\\t"@,
        c == '\n' ==> escaped_char(c) == "\\n"@,
        c == '\x0c' ==> escaped_char(c) == "\\f"@,
        c == '\r' ==> escaped_char(c) == "\\r"@,
        ' ' <= c && c != '"' && c != '\\' ==> escaped_char(c) == seq![c],
        c < ' ' && c != '\x08' && c != '\t' && c != '\n' && c != '\x0c' && c != '\r'
            ==> escaped_char(c) == "\\u00"@ + seq![
            "0123456789abcdef"@[c as int / 16],
            "0123456789abcdef"@[c as int % 16],
        ],
{
    reveal_strlit("\\\"");
    reveal_strlit("\\\\");
    reveal_strlit("\\b");
    reveal_strlit("\\t");
    reveal_strlit("\\n");
    reveal_strlit("\\f");
    reveal_strlit("\\r");
    reveal_strlit("\\u00");
    if !(' ' <= c) {
        text::law_hex_digit(c as int / 16);
        text::law_hex_digit(c as int % 16);
    }
}

/// A string is written between quotes, one character after the other. A character stands for
/// itself, but for the quote, the backslash and the control characters, which are written as an
/// escape sequence.
pub proof fn law_compact_text(s: Seq<char>) -> (pieces: Seq<Seq<char>>)
    ensures
        compact(JsonTree::Text(s)) == "\""@ + pieces.flatten() + "\""@,
        pieces.len() == s.len(),
        forall|i: int|
            0 <= i < s.len() ==> {
                let c = #[trigger] s[i];
                &&& c == '"' ==> pieces[i] == "\\\""@
                &&& c == '\\' ==> pieces[i] == "\\\\"@
                &&& c == '\x08' ==> pieces[i] == "\\b"@
                &&& c == '\t' ==> pieces[i] == "\\t"@
                &&& c == '\n' ==> pieces[i] == "\\n"@
                &&& c == '\x0c' ==> pieces[i] == "\\f"@
                &&& c == '\r' ==> pieces[i] == "\\r"@
                &&& ' ' <= c && c != '"' && c != '\\' ==> pieces[i] == seq![c]
                &&& c < ' ' && c != '\x08' && c != '\t' && c != '\n' && c != '\x0c' && c != '\r'
                    ==> pieces[i] == "\\u00"@ + seq![
                    "0123456789abcdef"@[c as int / 16],
                    "0123456789abcdef"@[c as int % 16],
                ]
            },
{
    reveal_strlit("\"");
    let pieces = lemma_escaped_pieces(s);
    assert(compact(JsonTree::Text(s)) =~= "\""@ + pieces.flatten() + "\""@);
    assert forall|i: int| 0 <= i < s.len() implies {
        let c = #[trigger] s[i];
        &&& c == '"' ==> pieces[i] == "\\\""@
        &&& c == '\\' ==> pieces[i] == "\\\\"@
        &&& c == '\x08' ==> pieces[i] == "\\b"@
        &&& c == '\t' ==> pieces[i] == "\\t"@
        &&& c == '\n' ==> pieces[i] == "\\n"@
        &&& c == '\x0c' ==> pieces[i] == "\\f"@
        &&& c == '\r' ==> pieces[i] == "\\r"@
        &&& ' ' <= c && c != '"' && c != '\\' ==> pieces[i] == seq![c]
        &&& c < ' ' && c != '\x08' && c != '\t' && c != '\n' && c != '\x0c' && c != '\r'
            ==> pieces[i] == "\\u00"@ + seq![
            "0123456789abcdef"@[c as int / 16],
            "0123456789abcdef"@[c as int % 16],
        ]
    } by {
        law_escaped_char(s[i]);
        assert(pieces[i] == escaped_char(s[i]));
    }
    pieces
}

/// An array is written as its items in their order, with commas between them, in brackets.
pub proof fn law_compact_list(items: Seq<JsonTree>) -> (texts: Seq<Seq<char>>)
    ensures
        compact(JsonTree::List(items)) == "["@ + text::joined(texts, ","@) + "]"@,
        texts.len() == items.len(),
        forall|i: int| 0 <= i < items.len() ==> texts[i] == compact(#[trigger] items[i]),
{
    reveal_strlit("[");
    reveal_strlit("]");
    let texts = lemma_items_joined(items);
    assert(compact(JsonTree::List(items)) =~= "["@ + text::joined(texts, ","@) + "]"@);
    texts
}

proof fn lemma_items_joined(items: Seq<JsonTree>) -> (texts: Seq<Seq<char>>)
    ensures
        compact_items(items) == text::joined(texts, ","@),
        texts.len() == items.len(),
        forall|i: int| 0 <= i < items.len() ==> texts[i] == compact(#[trigger] items[i]),
    decreases items.len(),
{
    reveal_strlit(",");
    if items.len() == 0 {
        Seq::empty()
    } else {
        let rest = lemma_items_joined(items.skip(1));
        let texts = seq![compact(items[0])] + rest;
        assert forall|i: int| 0 <= i < items.len() implies texts[i] == compact(#[trigger] items[i]) by {
            if i > 0 {
                assert(items.skip(1)[i - 1] == items[i]);
            }
        }
        if items.len() > 1 {
            text::lemma_joined_first(texts, ","@);
            assert(texts.skip(1) =~= rest);
            assert(","@ =~= seq![',']);
        }
        texts
    }
}

/// An object is written as its members in their order, with commas between them, in braces. A
/// member is its key as a string, a colon, and its value.
pub proof fn law_compact_object(members: Seq<(Seq<char>, JsonTree)>) -> (texts: Seq<Seq<char>>)
    ensures
        compact(JsonTree::Object(members)) == "{"@ + text::joined(texts, ","@) + "}"@,
        texts.len() == members.len(),
        forall|i: int|
            0 <= i < members.len() ==> texts[i] == compact(JsonTree::Text((#[trigger] members[i]).0))
                + ":"@ + compact(members[i].1),
{
    reveal_strlit("{");
    reveal_strlit("}");
    let texts = lemma_members_joined(members);
    assert(compact(JsonTree::Object(members)) =~= "{"@ + text::joined(texts, ","@) + "}"@);
    texts
}

proof fn lemma_members_joined(members: Seq<(Seq<char>, JsonTree)>) -> (texts: Seq<Seq<char>>)
    ensures
        compact_members(members) == text::joined(texts, ","@),
        texts.len() == members.len(),
        forall|i: int|
            0 <= i < members.len() ==> texts[i] == compact(JsonTree::Text((#[trigger] members[i]).0))
                + ":"@ + compact(members[i].1),
    decreases members.len(),
{
    reveal_strlit(",");
    reveal_strlit(":");
    if members.len() == 0 {
        Seq::empty()
    } else {
        let rest = lemma_members_joined(members.skip(1));
        let first = compact(JsonTree::Text(members[0].0)) + ":"@ + compact(members[0].1);
        let texts = seq![first] + rest;
        assert(":"@ =~= seq![':']);
        assert forall|i: int| 0 <= i < members.len() implies texts[i] == compact(
            JsonTree::Text((#[trigger] members[i]).0),
        ) + ":"@ + compact(members[i].1) by {
            if i > 0 {
                assert(members.skip(1)[i - 1] == members[i]);
            }
        }
        if members.len() > 1 {
            text::lemma_joined_first(texts, ","@);
            assert(texts.skip(1) =~= rest);
            assert(","@ =~= seq![',']);
        }
        texts
    }
}

} // verus!
