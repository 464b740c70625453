//! Payload generator: encodes a permutation of tokens as a JSON or CSV body,
//! optionally corrupting one token first.
//!
//! The JSON body is the single-key object `{"coins":[...]}` with the tokens
//! as a list of JSON strings (quotes, backslashes and control characters
//! escaped); the CSV body is the literal header line `coins` followed by one
//! token per line. Corruption replaces one uniformly chosen token by an
//! anagram of itself: its characters reordered, their multiset kept.

use vstd::prelude::*;

use crate::outcome::digit_char;
use crate::random::anagram;
use crate::random::random_flag;
use crate::random::random_index;

verus! {

/// The hexadecimal digit `d` as a (lower-case) character.
pub open spec fn hex_char(d: nat) -> char {
    if d < 10 {
        digit_char(d)
    } else if d == 10 { 'a' }
    else if d == 11 { 'b' }
    else if d == 12 { 'c' }
    else if d == 13 { 'd' }
    else if d == 14 { 'e' }
    else { 'f' }
}

/// Characters with a two-character JSON escape.
pub open spec fn is_simple_escape(c: char) -> bool {
    c == '"' || c == '\\' || c == '\n' || c == '\r' || c == '\t' || c == '\u{8}' || c == '\u{c}'
}

/// The letter standing after the backslash in a two-character escape.
pub open spec fn simple_escape_code(c: char) -> char {
    if c == '"' { '"' }
    else if c == '\\' { '\\' }
    else if c == '\n' { 'n' }
    else if c == '\r' { 'r' }
    else if c == '\t' { 't' }
    else if c == '\u{8}' { 'b' }
    else { 'f' }
}

/// How one character appears inside a JSON string literal.
pub open spec fn json_escape_char(c: char) -> Seq<char> {
    if is_simple_escape(c) {
        seq!['\\', simple_escape_code(c)]
    } else if (c as u32) < 0x20 {
        seq!['\\', 'u', '0', '0', hex_char((c as u32 / 16) as nat), hex_char((c as u32 % 16) as nat)]
    } else {
        seq![c]
    }
}

/// How a whole string appears inside a JSON string literal.
pub open spec fn json_escape(s: Seq<char>) -> Seq<char>
    decreases s.len(),
{
    if s.len() == 0 {
        Seq::empty()
    } else {
        json_escape_char(s[0]) + json_escape(s.drop_first())
    }
}

/// A token as a quoted JSON string.
pub open spec fn json_quoted(s: Seq<char>) -> Seq<char> {
    seq!['"'] + json_escape(s) + seq!['"']
}

/// The comma-separated quoted tokens between the brackets.
pub open spec fn json_items(toks: Seq<Seq<char>>) -> Seq<char>
    decreases toks.len(),
{
    if toks.len() == 0 {
        Seq::empty()
    } else if toks.len() == 1 {
        json_quoted(toks[0])
    } else {
        json_quoted(toks[0]) + seq![','] + json_items(toks.drop_first())
    }
}

/// The full JSON body: `{"coins":[...]}`.
pub open spec fn json_payload(toks: Seq<Seq<char>>) -> Seq<char> {
    seq!['{', '"', 'c', 'o', 'i', 'n', 's', '"', ':', '['] + json_items(toks) + seq![']', '}']
}

/// The newline-led lines after the CSV header, one token each.
pub open spec fn csv_tail(toks: Seq<Seq<char>>) -> Seq<char>
    decreases toks.len(),
{
    if toks.len() == 0 {
        Seq::empty()
    } else {
        seq!['\n'] + toks[0] + csv_tail(toks.drop_first())
    }
}

/// The full CSV body: the header line `coins`, then one token per line.
pub open spec fn csv_payload(toks: Seq<Seq<char>>) -> Seq<char> {
    seq!['c', 'o', 'i', 'n', 's'] + csv_tail(toks)
}

/// Escaping a string one character longer escapes the old part, then the
/// new character.
pub proof fn lemma_json_escape_push(s: Seq<char>, c: char)
    ensures
        json_escape(s.push(c)) == json_escape(s) + json_escape_char(c),
    decreases s.len(),
{
    if s.len() == 0 {
        assert(s.push(c)[0] == c);
        assert(s.push(c).drop_first() =~= s);
        assert(json_escape(s.push(c)) =~= json_escape(s) + json_escape_char(c));
    } else {
        assert(s.push(c).drop_first() =~= s.drop_first().push(c));
        assert(s.push(c)[0] == s[0]);
        lemma_json_escape_push(s.drop_first(), c);
        assert(json_escape(s.push(c)) =~= json_escape(s) + json_escape_char(c));
    }
}

/// Appending a token to the list appends a comma (when one is due) and the
/// quoted token to the rendered items.
pub proof fn lemma_json_items_push(toks: Seq<Seq<char>>, t: Seq<char>)
    ensures
        toks.len() == 0 ==> json_items(toks.push(t)) == json_quoted(t),
        toks.len() > 0 ==> json_items(toks.push(t)) == json_items(toks) + seq![','] + json_quoted(
            t,
        ),
    decreases toks.len(),
{
    if toks.len() == 0 {
        assert(toks.push(t)[0] == t);
    } else {
        assert(toks.push(t).drop_first() =~= toks.drop_first().push(t));
        assert(toks.push(t)[0] == toks[0]);
        lemma_json_items_push(toks.drop_first(), t);
        if toks.len() == 1 {
            assert(json_items(toks.push(t)) =~= json_items(toks) + seq![','] + json_quoted(t));
        } else {
            assert(json_items(toks.push(t)) =~= json_items(toks) + seq![','] + json_quoted(t));
        }
    }
}

/// Appending a token appends one newline-led line to the CSV tail.
pub proof fn lemma_csv_tail_push(toks: Seq<Seq<char>>, t: Seq<char>)
    ensures
        csv_tail(toks.push(t)) == csv_tail(toks) + seq!['\n'] + t,
    decreases toks.len(),
{
    if toks.len() == 0 {
        assert(toks.push(t)[0] == t);
        assert(toks.push(t).drop_first() =~= toks);
        assert(csv_tail(toks.push(t)) =~= csv_tail(toks) + seq!['\n'] + t);
    } else {
        assert(toks.push(t).drop_first() =~= toks.drop_first().push(t));
        assert(toks.push(t)[0] == toks[0]);
        lemma_csv_tail_push(toks.drop_first(), t);
        assert(csv_tail(toks.push(t)) =~= csv_tail(toks) + seq!['\n'] + t);
    }
}

/// Relies on `String::push`: appends exactly the one character.
#[verifier::external_body]
pub(crate) fn push_char(s: &mut String, c: char)
    ensures
        final(s)@ == old(s)@.push(c),
{
    s.push(c)
}

/// A single hexadecimal digit as a string slice.
fn hex_str(d: u32) -> (r: &'static str)
    requires
        d < 16,
    ensures
        r@ == seq![hex_char(d as nat)],
{
    proof {
        reveal_strlit("0");
        reveal_strlit("1");
        reveal_strlit("2");
        reveal_strlit("3");
        reveal_strlit("4");
        reveal_strlit("5");
        reveal_strlit("6");
        reveal_strlit("7");
        reveal_strlit("8");
        reveal_strlit("9");
        reveal_strlit("a");
        reveal_strlit("b");
        reveal_strlit("c");
        reveal_strlit("d");
        reveal_strlit("e");
        reveal_strlit("f");
    }
    match d {
        0 => "0",
        1 => "1",
        2 => "2",
        3 => "3",
        4 => "4",
        5 => "5",
        6 => "6",
        7 => "7",
        8 => "8",
        9 => "9",
        10 => "a",
        11 => "b",
        12 => "c",
        13 => "d",
        14 => "e",
        _ => "f",
    }
}

/// Appends `tok`, JSON-escaped, to `s`.
fn append_escaped(s: &mut String, tok: &str)
    ensures
        final(s)@ == old(s)@ + json_escape(tok@),
{
    let n = tok.unicode_len();
    let mut i: usize = 0;
    while i < n
        invariant
            i <= n,
            n == tok@.len(),
            s@ == old(s)@ + json_escape(tok@.take(i as int)),
        decreases n - i,
    {
        let c = tok.get_char(i);
        proof {
            lemma_json_escape_push(tok@.take(i as int), c);
            assert(tok@.take(i as int + 1) =~= tok@.take(i as int).push(c));
        }
        if c == '"' {
            proof { reveal_strlit("\\\""); }
            s.append("\\\"");
        } else if c == '\\' {
            proof { reveal_strlit("\\\\"); }
            s.append("\\\\");
        } else if c == '\n' {
            proof { reveal_strlit("\\n"); }
            s.append("\\n");
        } else if c == '\r' {
            proof { reveal_strlit("\\r"); }
            s.append("\\r");
        } else if c == '\t' {
            proof { reveal_strlit("\\t"); }
            s.append("\\t");
        } else if c == '\u{8}' {
            proof { reveal_strlit("\\b"); }
            s.append("\\b");
        } else if c == '\u{c}' {
            proof { reveal_strlit("\\f"); }
            s.append("\\f");
        } else if (c as u32) < 0x20 {
            proof { reveal_strlit("\\u00"); }
            s.append("\\u00");
            let v = c as u32;
            s.append(hex_str(v / 16));
            s.append(hex_str(v % 16));
        } else {
            push_char(s, c);
        }
        i += 1;
    }
    proof {
        assert(tok@.take(n as int) =~= tok@);
    }
}

/// Encodes the tokens as the JSON body `{"coins":[...]}`.
pub fn encode_json(tokens: &Vec<String>) -> (r: String)
    ensures
        r@ == json_payload(tokens.deep_view()),
{
    let ghost head: Seq<char> = seq!['{', '"', 'c', 'o', 'i', 'n', 's', '"', ':', '['];
    let mut s = String::new();
    proof { reveal_strlit("{\"coins\":["); }
    s.append("{\"coins\":[");
    proof { assert(s@ =~= head); }
    let mut i: usize = 0;
    while i < tokens.len()
        invariant
            i <= tokens@.len(),
            s@ == head + json_items(tokens.deep_view().take(i as int)),
        decreases tokens@.len() - i,
    {
        let ghost done = tokens.deep_view().take(i as int);
        if i > 0 {
            push_char(&mut s, ',');
        }
        push_char(&mut s, '"');
        append_escaped(&mut s, tokens[i].as_str());
        push_char(&mut s, '"');
        proof {
            assert(tokens.deep_view()[i as int] == tokens@[i as int]@);
            lemma_json_items_push(done, tokens@[i as int]@);
            assert(tokens.deep_view().take(i as int + 1) =~= done.push(tokens@[i as int]@));
            assert(s@ =~= head + json_items(tokens.deep_view().take(i as int + 1)));
        }
        i += 1;
    }
    proof { reveal_strlit("]}"); }
    s.append("]}");
    proof {
        assert(tokens.deep_view().take(tokens@.len() as int) =~= tokens.deep_view());
        assert(s@ =~= json_payload(tokens.deep_view()));
    }
    s
}

/// Encodes the tokens as the CSV body: header `coins`, one token per line.
pub fn encode_csv(tokens: &Vec<String>) -> (r: String)
    ensures
        r@ == csv_payload(tokens.deep_view()),
{
    let ghost head: Seq<char> = seq!['c', 'o', 'i', 'n', 's'];
    proof { reveal_strlit("coins"); }
    let mut s = "coins".to_owned();
    proof { assert(s@ =~= head); }
    let mut i: usize = 0;
    while i < tokens.len()
        invariant
            i <= tokens@.len(),
            s@ == head + csv_tail(tokens.deep_view().take(i as int)),
        decreases tokens@.len() - i,
    {
        let ghost done = tokens.deep_view().take(i as int);
        push_char(&mut s, '\n');
        s.append(tokens[i].as_str());
        proof {
            assert(tokens.deep_view()[i as int] == tokens@[i as int]@);
            lemma_csv_tail_push(done, tokens@[i as int]@);
            assert(tokens.deep_view().take(i as int + 1) =~= done.push(tokens@[i as int]@));
            assert(s@ =~= head + csv_tail(tokens.deep_view().take(i as int + 1)));
        }
        i += 1;
    }
    proof {
        assert(tokens.deep_view().take(tokens@.len() as int) =~= tokens.deep_view());
        assert(s@ =~= csv_payload(tokens.deep_view()));
    }
    s
}

/// `new` is `orig` with exactly one position replaced by an anagram of what
/// stood there: same length, same character multiset, every other position
/// untouched.
pub open spec fn one_anagram_replacement(new: Seq<Seq<char>>, orig: Seq<Seq<char>>) -> bool {
    &&& new.len() == orig.len()
    &&& exists|i: int|
        {
            &&& 0 <= i < orig.len()
            &&& (#[trigger] new[i]).to_multiset() == orig[i].to_multiset()
            &&& new[i].len() == orig[i].len()
            &&& (forall|j: int| 0 <= j < orig.len() && j != i ==> #[trigger] new[j] == orig[j])
        }
}

/// Replaces one uniformly chosen token by an anagram of itself.
pub fn corrupt_one(tokens: &mut Vec<String>)
    requires
        old(tokens)@.len() > 0,
    ensures
        final(tokens)@.len() == old(tokens)@.len(),
        one_anagram_replacement(final(tokens).deep_view(), old(tokens).deep_view()),
{
    let idx = random_index(tokens.len());
    let replacement = anagram(tokens[idx].as_str());
    tokens.set(idx, replacement);
    proof {
        let new = tokens.deep_view();
        let orig = old(tokens).deep_view();
        assert(new[idx as int].to_multiset() == orig[idx as int].to_multiset());
        assert(forall|j: int|
            0 <= j < orig.len() && j != idx as int ==> #[trigger] new[j] == orig[j]);
    }
}

/// Which wire encoding a task uses.
#[derive(Clone, Copy, PartialEq, Eq, Structural, Debug)]
pub enum Encoding {
    Json,
    Csv,
}

impl Encoding {
    /// The `Content-Type` header value announced for this encoding.
    pub open spec fn spec_content_type(self) -> Seq<char> {
        if self is Json {
            "application/json"@
        } else {
            "text/csv"@
        }
    }

    pub fn content_type(&self) -> (r: &'static str)
        ensures
            r@ == self.spec_content_type(),
    {
        match self {
            Encoding::Json => "application/json",
            Encoding::Csv => "text/csv",
        }
    }
}

/// One unit of work: a permutation of tokens together with its encoded body.
#[derive(Debug)]
pub struct Task {
    /// Position in the generated sequence, counted from zero.
    pub index: usize,
    /// The tokens the body encodes — after any corruption.
    pub tokens: Vec<String>,
    /// The wire encoding the body uses.
    pub encoding: Encoding,
    /// Whether one token was replaced by an anagram of itself.
    pub corrupted: bool,
    /// The encoded request body.
    pub body: String,
}

impl Task {
    /// The body is exactly the chosen encoding of the task's tokens.
    pub open spec fn wf(self) -> bool {
        self.body@ == match self.encoding {
            Encoding::Json => json_payload(self.tokens.deep_view()),
            Encoding::Csv => csv_payload(self.tokens.deep_view()),
        }
    }
}

/// Builds the task for already-settled choices: the final tokens, the
/// encoding, and whether corruption was applied.
pub fn encode_task(index: usize, tokens: Vec<String>, use_json: bool, corrupted: bool) -> (t: Task)
    ensures
        t.index == index,
        t.corrupted == corrupted,
        t.encoding == (if use_json { Encoding::Json } else { Encoding::Csv }),
        t.tokens == tokens,
        t.wf(),
{
    let body = if use_json {
        encode_json(&tokens)
    } else {
        encode_csv(&tokens)
    };
    Task {
        index,
        tokens,
        encoding: if use_json { Encoding::Json } else { Encoding::Csv },
        corrupted,
        body,
    }
}

/// Generates the task for one permutation: flips two independent coins for
/// the encoding and for corruption, corrupts one token if the coin said so,
/// and encodes.
pub fn generate_task(index: usize, perm: Vec<String>) -> (t: Task)
    requires
        perm@.len() > 0,
    ensures
        t.index == index,
        t.wf(),
        !t.corrupted ==> t.tokens.deep_view() == perm.deep_view(),
        t.corrupted ==> one_anagram_replacement(t.tokens.deep_view(), perm.deep_view()),
{
    let use_json = random_flag();
    let corrupt = random_flag();
    let mut tokens = perm;
    if corrupt {
        corrupt_one(&mut tokens);
    }
    encode_task(index, tokens, use_json, corrupt)
}

/// Generates one task per permutation, numbered in sequence order.
pub fn make_tasks(perms: Vec<Vec<String>>) -> (ts: Vec<Task>)
    requires
        forall|i: int| 0 <= i < perms@.len() ==> (#[trigger] perms@[i])@.len() > 0,
    ensures
        ts@.len() == perms@.len(),
        forall|i: int| 0 <= i < ts@.len() ==> (#[trigger] ts@[i]).index == i,
        forall|i: int| 0 <= i < ts@.len() ==> (#[trigger] ts@[i]).wf(),
        forall|i: int| 0 <= i < ts@.len() ==> {
            let t = #[trigger] ts@[i];
            &&& (!t.corrupted ==> t.tokens.deep_view() == perms.deep_view()[i])
            &&& (t.corrupted ==> one_anagram_replacement(t.tokens.deep_view(), perms.deep_view()[i]))
        },
{
    let mut ts: Vec<Task> = Vec::new();
    let mut i: usize = 0;
    while i < perms.len()
        invariant
            i <= perms@.len(),
            ts@.len() == i,
            forall|k: int| 0 <= k < perms@.len() ==> (#[trigger] perms@[k])@.len() > 0,
            forall|k: int| 0 <= k < i ==> (#[trigger] ts@[k]).index == k,
            forall|k: int| 0 <= k < i ==> (#[trigger] ts@[k]).wf(),
            forall|k: int| 0 <= k < i ==> {
                let t = #[trigger] ts@[k];
                &&& (!t.corrupted ==> t.tokens.deep_view() == perms.deep_view()[k])
                &&& (t.corrupted ==> one_anagram_replacement(
                    t.tokens.deep_view(),
                    perms.deep_view()[k],
                ))
            },
        decreases perms@.len() - i,
    {
        let perm = perms[i].clone();
        proof {
            assert forall|j: int| 0 <= j < perm@.len() implies perm@[j] == perms@[i as int]@[j] by {
                assert(vstd::pervasive::cloned::<String>(perms@[i as int]@[j], perm@[j]));
            }
            assert(perm@ =~= perms@[i as int]@);
            assert(perm.deep_view() =~= perms.deep_view()[i as int]);
        }
        let t = generate_task(i, perm);
        ts.push(t);
        i += 1;
    }
    ts
}

} // verus!
