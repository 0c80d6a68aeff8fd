//! Compact JSON text, as `serde_json::to_string` writes it: no spaces, members
//! separated by `,`, keys and values by `:`.
use vstd::prelude::*;
use crate::auth::hex_digit;
use crate::json::{items_view, members_view, Json, JsonV};

verus! {

/// How `serde_json` writes one character inside a string literal: `"` and `\` behind a
/// backslash, the control characters 0x08, 0x09, 0x0A, 0x0C and 0x0D as `\b`, `\t`,
/// `\n`, `\f` and `\r`, every other character below 0x20 as `\u00` and two
/// lower-case hexadecimal digits, and anything else as it is.
pub open spec fn escaped_char(c: char) -> Seq<char> {
    if c == '"' {
        seq!['\\', '"']
    } else if c == '\\' {
        seq!['\\', '\\']
    } else if c == '\u{8}' {
        seq!['\\', 'b']
    } else if c == '\t' {
        seq!['\\', 't']
    } else if c == '\n' {
        seq!['\\', 'n']
    } else if c == '\u{c}' {
        seq!['\\', 'f']
    } else if c == '\r' {
        seq!['\\', 'r']
    } else if (c as u32) < 0x20 {
        seq![
            '\\',
            'u',
            '0',
            '0',
            hex_digit(((c as u32) / 16) as u8),
            hex_digit(((c as u32) % 16) as u8),
        ]
    } else {
        seq![c]
    }
}

/// The characters of `s`, each escaped as `serde_json` writes it.
pub open spec fn escaped(s: Seq<char>) -> Seq<char>
    decreases s.len(),
{
    if s.len() == 0 {
        Seq::empty()
    } else {
        escaped_char(s[0]) + escaped(s.drop_first())
    }
}

/// The JSON string literal that `serde_json` writes for `s`: the escaped characters in quotes.
pub open spec fn json_string_literal(s: Seq<char>) -> Seq<char> {
    seq!['"'] + escaped(s) + seq!['"']
}

/// Calls `serde_json::to_string` on a string slice.
///
/// Trusted: the result is `json_string_literal(s)`, as `format_escaped_str` and its
/// `ESCAPE` table in `serde_json`'s `ser.rs` write it (every byte that needs an escape is
/// ASCII, so escaping bytes is escaping characters). Serializing a `str` into memory
/// cannot fail (`serialize_str` only escapes and writes to a `Vec`), so the error arm is
/// never taken.
#[verifier::external_body]
fn string_literal(s: &str) -> (r: String)
    ensures
        r@ == json_string_literal(s@),
{
    match serde_json::to_string(s) {
        Ok(text) => text,
        Err(_) => String::new(),
    }
}

/// The compact text of a JSON value.
pub open spec fn compact_text(v: JsonV) -> Seq<char>
    decreases v, 1int,
{
    match v {
        JsonV::Null => "null"@,
        JsonV::Bool(b) => if b {
            "true"@
        } else {
            "false"@
        },
        JsonV::Number(t) => t,
        JsonV::Str(s) => json_string_literal(s),
        JsonV::Array(items) => "["@ + items_text(items) + "]"@,
        JsonV::Object(members) => "{"@ + members_text(members) + "}"@,
    }
}

/// The items of an array, written one after the other with `,` between them.
pub open spec fn items_text(items: Seq<JsonV>) -> Seq<char>
    decreases items, 0int,
{
    if items.len() == 0 {
        Seq::empty()
    } else if items.len() == 1 {
        compact_text(items[0])
    } else {
        items_text(items.drop_last()) + ","@ + compact_text(items.last())
    }
}

/// The members of an object, each written `"key":value`, with `,` between them.
pub open spec fn members_text(members: Seq<(Seq<char>, JsonV)>) -> Seq<char>
    decreases members, 0int,
{
    if members.len() == 0 {
        Seq::empty()
    } else if members.len() == 1 {
        member_text(members[0].0, members[0].1)
    } else {
        members_text(members.drop_last()) + ","@ + member_text(
            members.last().0,
            members.last().1,
        )
    }
}

/// One member of an object: its key as a string literal, `:`, and its value.
pub open spec fn member_text(key: Seq<char>, value: JsonV) -> Seq<char>
    decreases value, 2int,
{
    json_string_literal(key) + ":"@ + compact_text(value)
}

/// Appends the compact text of `value` to `out`.
#[verifier::loop_isolation(false)]
pub fn write_compact(value: &Json, out: &mut String)
    ensures
        final(out)@ == old(out)@ + compact_text(value@),
    decreases value,
{
    match value {
        Json::Null => out.append("null"),
        Json::Bool(b) => {
            if *b {
                out.append("true")
            } else {
                out.append("false")
            }
        },
        Json::Number(t) => out.append(t.as_str()),
        Json::Str(s) => {
            let lit = string_literal(s.as_str());
            out.append(lit.as_str());
        },
        Json::Array(items) => {
            let ghost start = out@;
            let ghost iv = items_view(items@);
            out.append("[");
            let mut i: usize = 0;
            while i < items.len()
                invariant
                    i <= items@.len(),
                    iv == items_view(items@),
                    out@ == start + "["@ + items_text(iv.take(i as int)),
                decreases items@.len() - i,
            {
                proof {
                    assert(decreases_to!(items => items@[i as int]));
                }
                if i > 0 {
                    out.append(",");
                }
                write_compact(&items[i], out);
                proof {
                    assert(iv.take(i + 1).drop_last() =~= iv.take(i as int));
                    assert(iv.take(i + 1).last() == iv[i as int]);
                    if i == 0 {
                        assert(iv.take(0) =~= Seq::<JsonV>::empty());
                        assert(items_text(iv.take(0)) =~= Seq::<char>::empty());
                    }
                }
                i = i + 1;
            }
            proof {
                assert(iv.take(items@.len() as int) =~= iv);
            }
            out.append("]");
        },
        Json::Object(members) => {
            let ghost start = out@;
            let ghost mv = members_view(members@);
            out.append("{");
            let mut i: usize = 0;
            while i < members.len()
                invariant
                    i <= members@.len(),
                    mv == members_view(members@),
                    out@ == start + "{"@ + members_text(mv.take(i as int)),
                decreases members@.len() - i,
            {
                proof {
                    assert(decreases_to!(members => members@[i as int]));
                }
                if i > 0 {
                    out.append(",");
                }
                let lit = string_literal(members[i].0.as_str());
                out.append(lit.as_str());
                out.append(":");
                write_compact(&members[i].1, out);
                proof {
                    assert(mv[i as int] == (members@[i as int].0@, members@[i as int].1@));
                    assert(member_text(mv[i as int].0, mv[i as int].1) == json_string_literal(
                        members@[i as int].0@,
                    ) + ":"@ + compact_text(members@[i as int].1@));
                    assert(mv.take(i + 1).drop_last() =~= mv.take(i as int));
                    assert(mv.take(i + 1).last() == mv[i as int]);
                    if i == 0 {
                        assert(mv.take(0) =~= Seq::<(Seq<char>, JsonV)>::empty());
                    }
                }
                i = i + 1;
            }
            proof {
                assert(mv.take(members@.len() as int) =~= mv);
            }
            out.append("}");
        },
    }
}

} // verus!
