//! What the payloads mean to a receiver, and the proofs that decoding gives
//! the encoded tokens back.
//!
//! The JSON decoder here covers exactly the payload shape this crate sends —
//! the object `{"coins":[...]}` holding a list of strings — with the usual
//! string escapes; a `\uXXXX` escape is accepted below the surrogate range
//! only (the encoder never emits one above `\u001f`). The CSV reading is the
//! line split of [`crate::lines`].

use vstd::prelude::*;

use crate::lines::split_on_nl;
use crate::payload::csv_payload;
use crate::payload::csv_tail;
use crate::payload::hex_char;
use crate::payload::is_simple_escape;
use crate::payload::json_escape;
use crate::payload::json_escape_char;
use crate::payload::json_items;
use crate::payload::json_payload;
use crate::payload::json_quoted;
use crate::payload::simple_escape_code;

verus! {

/// The numeric value of a hexadecimal digit character.
pub open spec fn hex_val(c: char) -> Option<nat> {
    if c == '0' { Some(0 as nat) }
    else if c == '1' { Some(1 as nat) }
    else if c == '2' { Some(2 as nat) }
    else if c == '3' { Some(3 as nat) }
    else if c == '4' { Some(4 as nat) }
    else if c == '5' { Some(5 as nat) }
    else if c == '6' { Some(6 as nat) }
    else if c == '7' { Some(7 as nat) }
    else if c == '8' { Some(8 as nat) }
    else if c == '9' { Some(9 as nat) }
    else if c == 'a' || c == 'A' { Some(10 as nat) }
    else if c == 'b' || c == 'B' { Some(11 as nat) }
    else if c == 'c' || c == 'C' { Some(12 as nat) }
    else if c == 'd' || c == 'D' { Some(13 as nat) }
    else if c == 'e' || c == 'E' { Some(14 as nat) }
    else if c == 'f' || c == 'F' { Some(15 as nat) }
    else { None }
}

/// The letters standing for a character in a two-character escape.
pub open spec fn is_simple_code(e: char) -> bool {
    e == '"' || e == '\\' || e == '/' || e == 'n' || e == 'r' || e == 't' || e == 'b' || e == 'f'
}

/// The character a two-character escape stands for.
pub open spec fn unescaped_simple(e: char) -> char {
    if e == '"' { '"' }
    else if e == '\\' { '\\' }
    else if e == '/' { '/' }
    else if e == 'n' { '\n' }
    else if e == 'r' { '\r' }
    else if e == 't' { '\t' }
    else if e == 'b' { '\u{8}' }
    else { '\u{c}' }
}

/// Decodes the inside of a JSON string literal up to its closing quote:
/// the decoded characters, and what follows the closing quote.
pub open spec fn parse_string_body(s: Seq<char>) -> Option<(Seq<char>, Seq<char>)>
    decreases s.len(),
{
    if s.len() == 0 {
        None
    } else if s[0] == '"' {
        Some((Seq::<char>::empty(), s.drop_first()))
    } else if s[0] == '\\' {
        if s.len() < 2 {
            None
        } else if is_simple_code(s[1]) {
            match parse_string_body(s.skip(2)) {
                Some(p) => Some((seq![unescaped_simple(s[1])] + p.0, p.1)),
                None => None,
            }
        } else if s[1] == 'u' && s.len() >= 6 {
            match (hex_val(s[2]), hex_val(s[3]), hex_val(s[4]), hex_val(s[5])) {
                (Some(h3), Some(h2), Some(h1), Some(h0)) => {
                    let v = h3 * 0x1000 + h2 * 0x100 + h1 * 0x10 + h0;
                    if v < 0xD800 {
                        match parse_string_body(s.skip(6)) {
                            Some(p) => Some((seq![(v as u32) as char] + p.0, p.1)),
                            None => None,
                        }
                    } else {
                        None
                    }
                },
                _ => None,
            }
        } else {
            None
        }
    } else if (s[0] as u32) < 0x20 {
        None
    } else {
        match parse_string_body(s.drop_first()) {
            Some(p) => Some((seq![s[0]] + p.0, p.1)),
            None => None,
        }
    }
}

/// A successful string parse consumes at least the closing quote.
pub proof fn lemma_parse_string_body_shrinks(s: Seq<char>)
    ensures
        parse_string_body(s) matches Some(p) ==> p.1.len() < s.len(),
    decreases s.len(),
{
    if s.len() == 0 {
    } else if s[0] == '"' {
    } else if s[0] == '\\' {
        if s.len() >= 2 && is_simple_code(s[1]) {
            lemma_parse_string_body_shrinks(s.skip(2));
        } else if s.len() >= 6 && s[1] == 'u' {
            lemma_parse_string_body_shrinks(s.skip(6));
        }
    } else {
        lemma_parse_string_body_shrinks(s.drop_first());
    }
}

#[via_fn]
proof fn parse_items_decreases(s: Seq<char>) {
    if s.len() > 0 && s[0] == '"' {
        lemma_parse_string_body_shrinks(s.drop_first());
    }
}

/// Decodes the quoted strings between the payload's brackets, comma-
/// separated and closed by `]}` at the very end.
pub open spec fn parse_items(s: Seq<char>) -> Option<Seq<Seq<char>>>
    decreases s.len() via parse_items_decreases
{
    if s.len() == 0 || s[0] != '"' {
        None
    } else {
        match parse_string_body(s.drop_first()) {
            None => None,
            Some(p) => {
                if p.1.len() >= 1 && p.1[0] == ',' {
                    match parse_items(p.1.drop_first()) {
                        Some(toks) => Some(seq![p.0] + toks),
                        None => None,
                    }
                } else if p.1 == seq![']', '}'] {
                    Some(seq![p.0])
                } else {
                    None
                }
            },
        }
    }
}

/// Decodes a whole JSON body of the shape this crate sends: the `coins` list,
/// or `None` where the body is not of that shape.
pub open spec fn json_decode(body: Seq<char>) -> Option<Seq<Seq<char>>> {
    let head = seq!['{', '"', 'c', 'o', 'i', 'n', 's', '"', ':', '['];
    if body.len() < 12 {
        None
    } else if body.take(10) != head {
        None
    } else if body.skip(10) == seq![']', '}'] {
        Some(Seq::<Seq<char>>::empty())
    } else {
        parse_items(body.skip(10))
    }
}

/// Escaping one character and decoding it gives the character back, in front
/// of whatever the rest decodes to.
proof fn lemma_escape_char_parses(c: char, q: Seq<char>, tok: Seq<char>, r: Seq<char>)
    requires
        parse_string_body(q) == Some((tok, r)),
    ensures
        parse_string_body(json_escape_char(c) + q) == Some((seq![c] + tok, r)),
{
    let s = json_escape_char(c) + q;
    if is_simple_escape(c) {
        assert(s[0] == '\\');
        assert(s[1] == simple_escape_code(c));
        assert(s.len() == 2 + q.len());
        assert(s.skip(2) =~= q);
        assert(unescaped_simple(simple_escape_code(c)) == c);
    } else if (c as u32) < 0x20 {
        let v = c as u32;
        assert(s[0] == '\\');
        assert(s[1] == 'u');
        assert(s[2] == '0');
        assert(s[3] == '0');
        assert(s[4] == hex_char((v / 16) as nat));
        assert(s[5] == hex_char((v % 16) as nat));
        assert(hex_val(hex_char((v / 16) as nat)) == Some((v / 16) as nat));
        assert(hex_val(hex_char((v % 16) as nat)) == Some((v % 16) as nat));
        assert((v / 16) as nat * 0x10 + (v % 16) as nat == v as nat);
        assert(s.skip(6) =~= q);
        vstd::utf8::char_u32_cast(c, v);
        assert((v as nat) < 0xD800);
    } else {
        assert(s[0] == c);
        assert(s[0] != '"' && s[0] != '\\');
        assert(s.drop_first() =~= q);
    }
}

/// Escaping a whole token and decoding it gives the token back, in front of
/// whatever the rest decodes to.
proof fn lemma_escape_parses(t: Seq<char>, q: Seq<char>, tok: Seq<char>, r: Seq<char>)
    requires
        parse_string_body(q) == Some((tok, r)),
    ensures
        parse_string_body(json_escape(t) + q) == Some((t + tok, r)),
    decreases t.len(),
{
    if t.len() == 0 {
        assert(json_escape(t) + q =~= q);
        assert(t + tok =~= tok);
    } else {
        lemma_escape_parses(t.drop_first(), q, tok, r);
        lemma_escape_char_parses(t[0], json_escape(t.drop_first()) + q, t.drop_first() + tok, r);
        assert(json_escape_char(t[0]) + (json_escape(t.drop_first()) + q) =~= json_escape(t) + q);
        assert(seq![t[0]] + (t.drop_first() + tok) =~= t + tok);
    }
}

/// The rendered list of one or more tokens, closed by `]}`, decodes to
/// exactly those tokens.
proof fn lemma_items_parse(toks: Seq<Seq<char>>)
    requires
        toks.len() > 0,
    ensures
        parse_items(json_items(toks) + seq![']', '}']) == Some(toks),
    decreases toks.len(),
{
    let tail = seq![']', '}'];
    if toks.len() == 1 {
        let s = json_items(toks) + tail;
        assert(s =~= json_quoted(toks[0]) + tail);
        assert(s[0] == '"');
        let q = seq!['"'] + tail;
        assert(q[0] == '"');
        assert(q.drop_first() =~= tail);
        assert(parse_string_body(q) == Some((Seq::<char>::empty(), tail)));
        lemma_escape_parses(toks[0], q, Seq::<char>::empty(), tail);
        assert(s.drop_first() =~= json_escape(toks[0]) + q);
        assert(toks[0] + Seq::<char>::empty() =~= toks[0]);
        assert(parse_string_body(s.drop_first()) == Some((toks[0], tail)));
        assert(tail[0] != ',');
        assert(seq![toks[0]] =~~= toks);
    } else {
        let rest = json_items(toks.drop_first()) + tail;
        let s = json_items(toks) + tail;
        assert(s =~= json_quoted(toks[0]) + (seq![','] + rest));
        assert(s[0] == '"');
        let q = seq!['"'] + (seq![','] + rest);
        assert(q[0] == '"');
        assert(q.drop_first() =~= seq![','] + rest);
        assert(parse_string_body(q) == Some((Seq::<char>::empty(), seq![','] + rest)));
        lemma_escape_parses(toks[0], q, Seq::<char>::empty(), seq![','] + rest);
        assert(s.drop_first() =~= json_escape(toks[0]) + q);
        assert(toks[0] + Seq::<char>::empty() =~= toks[0]);
        assert(parse_string_body(s.drop_first()) == Some((toks[0], seq![','] + rest)));
        assert((seq![','] + rest)[0] == ',');
        assert((seq![','] + rest).drop_first() =~= rest);
        lemma_items_parse(toks.drop_first());
        assert(seq![toks[0]] + toks.drop_first() =~~= toks);
    }
}

/// The rendered list of at least one token is never just `]}`.
proof fn lemma_items_nonempty(toks: Seq<Seq<char>>)
    requires
        toks.len() > 0,
    ensures
        json_items(toks).len() >= 2,
    decreases toks.len(),
{
    if toks.len() > 1 {
        lemma_items_nonempty(toks.drop_first());
    }
}

/// Decoding a JSON payload yields exactly the encoded tokens, in order —
/// for every token sequence, corrupted or not.
pub proof fn lemma_json_round_trip(toks: Seq<Seq<char>>)
    ensures
        json_decode(json_payload(toks)) == Some(toks),
{
    let head = seq!['{', '"', 'c', 'o', 'i', 'n', 's', '"', ':', '['];
    let body = json_payload(toks);
    assert(body.take(10) =~= head);
    assert(body.skip(10) =~= json_items(toks) + seq![']', '}']);
    if toks.len() == 0 {
        assert(json_items(toks) + seq![']', '}'] =~= seq![']', '}']);
        assert(toks =~~= Seq::<Seq<char>>::empty());
    } else {
        lemma_items_nonempty(toks);
        assert(body.skip(10).len() >= 4);
        assert(body.skip(10) != seq![']', '}']) by {
            assert(seq![']', '}'].len() == 2);
        }
        lemma_items_parse(toks);
    }
}

/// Splitting a newline-free segment, a newline, and a remainder splits the
/// segment off whole.
proof fn lemma_split_prefix(a: Seq<char>, rest: Seq<char>)
    requires
        !a.contains('\n'),
    ensures
        split_on_nl(a + seq!['\n'] + rest) == seq![a] + split_on_nl(rest),
        split_on_nl(a) == seq![a],
    decreases a.len(),
{
    if a.len() == 0 {
        assert(a =~= Seq::<char>::empty());
        let s = a + seq!['\n'] + rest;
        assert(s[0] == '\n');
        assert(s.drop_first() =~= rest);
        assert(split_on_nl(s) =~~= seq![a] + split_on_nl(rest));
        assert(split_on_nl(a) =~~= seq![a]);
    } else {
        assert(a[0] != '\n') by {
            assert(a.contains('\n') <==> exists|i: int| 0 <= i < a.len() && a[i] == '\n');
        }
        assert(!a.drop_first().contains('\n')) by {
            if a.drop_first().contains('\n') {
                let i = choose|i: int| 0 <= i < a.drop_first().len() && a.drop_first()[i] == '\n';
                assert(a[i + 1] == '\n');
            }
        }
        lemma_split_prefix(a.drop_first(), rest);
        let s = a + seq!['\n'] + rest;
        assert(s[0] == a[0]);
        assert(s.drop_first() =~= a.drop_first() + seq!['\n'] + rest);
        let r = split_on_nl(s.drop_first());
        assert(r == seq![a.drop_first()] + split_on_nl(rest));
        assert(seq![s[0]] + r[0] =~= a);
        assert(r.drop_first() =~= split_on_nl(rest));
        assert(split_on_nl(s) =~~= seq![a] + split_on_nl(rest));
        let t = a;
        assert(t[0] != '\n');
        assert(split_on_nl(t) =~~= seq![t]) by {
            let rt = split_on_nl(t.drop_first());
            assert(rt == seq![t.drop_first()]) by {
                assert(split_on_nl(t.drop_first()) == seq![t.drop_first()]);
            }
            assert(seq![t[0]] + rt[0] =~= t);
            assert(rt.drop_first() =~= Seq::<Seq<char>>::empty());
        }
    }
}

/// Splitting a newline-free header and the CSV tail of newline-free tokens
/// gives the header and then the tokens.
proof fn lemma_csv_tail_lines(a: Seq<char>, toks: Seq<Seq<char>>)
    requires
        !a.contains('\n'),
        forall|i: int| 0 <= i < toks.len() ==> !(#[trigger] toks[i]).contains('\n'),
    ensures
        split_on_nl(a + csv_tail(toks)) == seq![a] + toks,
    decreases toks.len(),
{
    if toks.len() == 0 {
        assert(a + csv_tail(toks) =~= a);
        lemma_split_prefix(a, Seq::<char>::empty());
        assert(split_on_nl(a + csv_tail(toks)) =~~= seq![a] + toks);
    } else {
        let rest = toks[0] + csv_tail(toks.drop_first());
        assert(a + csv_tail(toks) =~= a + seq!['\n'] + rest);
        lemma_split_prefix(a, rest);
        assert(forall|i: int|
            0 <= i < toks.drop_first().len() ==> !(#[trigger] toks.drop_first()[i]).contains(
                '\n',
            ));
        lemma_csv_tail_lines(toks[0], toks.drop_first());
        assert(split_on_nl(a + csv_tail(toks)) == seq![a] + (seq![toks[0]] + toks.drop_first()));
        assert(seq![a] + (seq![toks[0]] + toks.drop_first()) =~~= seq![a] + toks);
    }
}

/// Splitting a CSV payload of newline-free tokens into lines gives the
/// header line `coins` and then exactly the tokens, in order.
pub proof fn lemma_csv_round_trip(toks: Seq<Seq<char>>)
    requires
        forall|i: int| 0 <= i < toks.len() ==> !(#[trigger] toks[i]).contains('\n'),
    ensures
        split_on_nl(csv_payload(toks)) == seq![seq!['c', 'o', 'i', 'n', 's']] + toks,
{
    let header = seq!['c', 'o', 'i', 'n', 's'];
    assert(!header.contains('\n')) by {
        if header.contains('\n') {
            let i = choose|i: int| 0 <= i < header.len() && header[i] == '\n';
        }
    }
    lemma_csv_tail_lines(header, toks);
}

/// A receiver decoding the JSON body of any well-formed JSON task reads
/// exactly the task's tokens.
pub proof fn lemma_json_task_decodes(t: crate::payload::Task)
    requires
        t.wf(),
        t.encoding is Json,
    ensures
        json_decode(t.body@) == Some(t.tokens.deep_view()),
{
    lemma_json_round_trip(t.tokens.deep_view());
}

/// A receiver splitting the CSV body of any well-formed CSV task whose
/// tokens hold no newline reads the header line and then the tokens.
pub proof fn lemma_csv_task_decodes(t: crate::payload::Task)
    requires
        t.wf(),
        t.encoding is Csv,
        forall|i: int| 0 <= i < t.tokens.deep_view().len()
            ==> !(#[trigger] t.tokens.deep_view()[i]).contains('\n'),
    ensures
        split_on_nl(t.body@) == seq![seq!['c', 'o', 'i', 'n', 's']] + t.tokens.deep_view(),
{
    lemma_csv_round_trip(t.tokens.deep_view());
}

} // verus!
