//! JSON text for the socket protocol: quoting of strings (done by
//! `serde_json`, whose escaping rule is stated here) and the framing around
//! them.

use vstd::prelude::*;
use vstd::string::*;

verus! {

/// The lowercase hexadecimal digit of `n`, for `0 <= n < 16`.
pub open spec fn hex_digit(n: u32) -> char {
    if n < 10 {
        (n + 48) as char
    } else {
        (n + 87) as char
    }
}

/// How `serde_json` writes one character inside a string literal: a quote
/// and a backslash get a backslash before them; backspace, form feed, line
/// feed, carriage return and tab become `\b`, `\f`, `\n`, `\r`, `\t`;
/// every other character below U+0020 becomes `\u00` and two lowercase
/// hexadecimal digits; every other character stays as it is.
pub open spec fn escaped_char(c: char) -> Seq<char> {
    if c == '"' {
        seq!['\\', '"']
    } else if c == '\\' {
        seq!['\\', '\\']
    } else if c == '\u{8}' {
        seq!['\\', 'b']
    } else if c == '\u{c}' {
        seq!['\\', 'f']
    } else if c == '\n' {
        seq!['\\', 'n']
    } else if c == '\r' {
        seq!['\\', 'r']
    } else if c == '\t' {
        seq!['\\', 't']
    } else if (c as u32) < 0x20 {
        seq!['\\', 'u', '0', '0', hex_digit((c as u32) / 16), hex_digit((c as u32) % 16)]
    } else {
        seq![c]
    }
}

/// The characters of `s`, each written as `escaped_char` writes it.
pub open spec fn escaped(s: Seq<char>) -> Seq<char>
    decreases s.len(),
{
    if s.len() == 0 {
        Seq::empty()
    } else {
        escaped_char(s[0]) + escaped(s.drop_first())
    }
}

/// The JSON string literal that `serde_json` writes for the given text:
/// the escaped text between two quotes.
pub open spec fn json_string_literal(s: Seq<char>) -> Seq<char> {
    seq!['"'] + escaped(s) + seq!['"']
}

/// True when no character of `s` is one that JSON escapes: no quote, no
/// backslash and no control character below U+0020.
pub open spec fn escape_free(s: Seq<char>) -> bool {
    forall|i: int|
        0 <= i < s.len() ==> s[i] != '"' && s[i] != '\\' && (s[i] as u32) >= 0x20
}

/// True when every character of `s` is at or above U+0020.
pub open spec fn printable(s: Seq<char>) -> bool {
    forall|i: int| 0 <= i < s.len() ==> (s[i] as u32) >= 0x20
}

/// `parts` joined with `sep` between consecutive parts.
pub open spec fn join(parts: Seq<Seq<char>>, sep: Seq<char>) -> Seq<char>
    decreases parts.len(),
{
    if parts.len() == 0 {
        Seq::empty()
    } else if parts.len() == 1 {
        parts[0]
    } else {
        join(parts.drop_last(), sep) + sep + parts.last()
    }
}

/// Every character `escaped_char` writes is at or above U+0020.
proof fn lemma_escaped_char_printable(c: char)
    ensures
        printable(escaped_char(c)),
{
    let v = c as u32;
    if c != '"' && c != '\\' && c != '\u{8}' && c != '\u{c}' && c != '\n' && c != '\r' && c
        != '\t' && v < 0x20 {
        assert(v / 16 < 10 && v % 16 < 16);
        assert((hex_digit(v / 16) as u32) >= 0x20);
        assert((hex_digit(v % 16) as u32) >= 0x20);
    }
}

/// A JSON string literal holds no character below U+0020: control
/// characters are always escaped.
pub proof fn lemma_literal_printable(s: Seq<char>)
    ensures
        printable(json_string_literal(s)),
{
    lemma_escaped_printable(s);
    let e = escaped(s);
    let lit = json_string_literal(s);
    assert forall|i: int| 0 <= i < lit.len() implies (#[trigger] lit[i] as u32) >= 0x20 by {
        if 1 <= i < lit.len() - 1 {
            assert(lit[i] == e[i - 1]);
        }
    }
}

proof fn lemma_escaped_printable(s: Seq<char>)
    ensures
        printable(escaped(s)),
    decreases s.len(),
{
    if s.len() > 0 {
        lemma_escaped_char_printable(s[0]);
        lemma_escaped_printable(s.drop_first());
        let head = escaped_char(s[0]);
        let tail = escaped(s.drop_first());
        assert forall|i: int| 0 <= i < (head + tail).len() implies (#[trigger] (head + tail)[i] as u32) >= 0x20 by {
            if i >= head.len() {
                assert((head + tail)[i] == tail[i - head.len()]);
            }
        }
    }
}

/// Text with nothing to escape is written unchanged between two quotes.
pub proof fn lemma_escape_free_literal(s: Seq<char>)
    requires
        escape_free(s),
    ensures
        json_string_literal(s) == seq!['"'] + s + seq!['"'],
{
    lemma_escape_free_unchanged(s);
}

proof fn lemma_escape_free_unchanged(s: Seq<char>)
    requires
        escape_free(s),
    ensures
        escaped(s) == s,
    decreases s.len(),
{
    if s.len() > 0 {
        lemma_escape_free_unchanged(s.drop_first());
        assert(escaped_char(s[0]) == seq![s[0]]);
        assert(seq![s[0]] + s.drop_first() =~= s);
    }
}

/// The value of `c` as a lowercase hexadecimal digit.
pub open spec fn hex_value(c: char) -> Option<u32> {
    let v = c as u32;
    if 48 <= v <= 57 {
        Some((v - 48) as u32)
    } else if 97 <= v <= 102 {
        Some((v - 87) as u32)
    } else {
        None
    }
}

/// Reads the escape sequence at the front of `t` (which starts with a
/// backslash): the character it stands for and its length.
pub open spec fn read_escape(t: Seq<char>) -> Option<(char, nat)> {
    if t.len() < 2 {
        None
    } else if t[1] == '"' {
        Some(('"', 2))
    } else if t[1] == '\\' {
        Some(('\\', 2))
    } else if t[1] == 'b' {
        Some(('\u{8}', 2))
    } else if t[1] == 'f' {
        Some(('\u{c}', 2))
    } else if t[1] == 'n' {
        Some(('\n', 2))
    } else if t[1] == 'r' {
        Some(('\r', 2))
    } else if t[1] == 't' {
        Some(('\t', 2))
    } else if t[1] == 'u' && t.len() >= 6 && t[2] == '0' && t[3] == '0' {
        match (hex_value(t[4]), hex_value(t[5])) {
            (Some(h), Some(l)) => Some(((h * 16 + l) as char, 6)),
            _ => None,
        }
    } else {
        None
    }
}

/// Reads the rest of a JSON string literal after its opening quote: the
/// text it stands for, and what follows its closing quote.
pub open spec fn read_string_body(t: Seq<char>) -> Option<(Seq<char>, Seq<char>)>
    decreases t.len(),
{
    if t.len() == 0 {
        None
    } else if t[0] == '"' {
        Some((Seq::empty(), t.drop_first()))
    } else if t[0] == '\\' {
        match read_escape(t) {
            Some((c, n)) => if 0 < n <= t.len() {
                match read_string_body(t.skip(n as int)) {
                    Some((s, rest)) => Some((seq![c] + s, rest)),
                    None => None,
                }
            } else {
                None
            },
            None => None,
        }
    } else {
        match read_string_body(t.drop_first()) {
            Some((s, rest)) => Some((seq![t[0]] + s, rest)),
            None => None,
        }
    }
}

/// Reads a JSON string literal at the front of `t`: the text it stands
/// for, and what follows it.
pub open spec fn read_string_literal(t: Seq<char>) -> Option<(Seq<char>, Seq<char>)> {
    if t.len() > 0 && t[0] == '"' {
        read_string_body(t.drop_first())
    } else {
        None
    }
}

/// `read_escape` reads back the escape sequence `escaped_char` writes.
proof fn lemma_read_escape(c: char, rest: Seq<char>)
    requires
        escaped_char(c).len() > 1,
    ensures
        (escaped_char(c) + rest)[0] == '\\',
        read_escape(escaped_char(c) + rest) == Some((c, escaped_char(c).len())),
{
    let t = escaped_char(c) + rest;
    let v = c as u32;
    if c != '"' && c != '\\' && c != '\u{8}' && c != '\u{c}' && c != '\n' && c != '\r' && c
        != '\t' {
        assert(v < 0x20);
        let h = v / 16;
        let l = v % 16;
        assert(t[4] == hex_digit(h));
        assert(t[5] == hex_digit(l));
        assert(hex_value(hex_digit(h)) == Some(h));
        assert(hex_value(hex_digit(l)) == Some(l));
        assert(h * 16 + l == v);
        vstd::utf8::char_u32_cast(c, v);
    }
}

/// Reading a literal's body gives back the text and what follows it.
proof fn lemma_read_string_body(s: Seq<char>, rest: Seq<char>)
    ensures
        read_string_body(escaped(s) + seq!['"'] + rest) == Some((s, rest)),
    decreases s.len(),
{
    let t = escaped(s) + seq!['"'] + rest;
    if s.len() == 0 {
        assert(t =~= seq!['"'] + rest);
        assert(t.drop_first() =~= rest);
    } else {
        let c = s[0];
        let u = escaped(s.drop_first()) + seq!['"'] + rest;
        lemma_read_string_body(s.drop_first(), rest);
        assert(t =~= escaped_char(c) + u);
        assert(seq![c] + s.drop_first() =~= s);
        if escaped_char(c).len() > 1 {
            lemma_read_escape(c, u);
            assert(t.skip(escaped_char(c).len() as int) =~= u);
        } else {
            assert(t[0] == c);
            assert(t.drop_first() =~= u);
        }
    }
}

/// Reading a JSON string literal gives back the text it was written from,
/// and what follows it.
pub proof fn lemma_read_string_literal(s: Seq<char>, rest: Seq<char>)
    ensures
        read_string_literal(json_string_literal(s) + rest) == Some((s, rest)),
        (json_string_literal(s) + rest).len() > rest.len(),
{
    let t = json_string_literal(s) + rest;
    assert(t.drop_first() =~= escaped(s) + seq!['"'] + rest);
    lemma_read_string_body(s, rest);
}

/// Reads the items of a JSON array of string literals after its opening
/// bracket and first item's start: the texts, and what follows the
/// closing bracket.
pub open spec fn read_string_items(t: Seq<char>) -> Option<(Seq<Seq<char>>, Seq<char>)>
    decreases t.len(),
{
    match read_string_literal(t) {
        Some((s, rest)) => if 0 < rest.len() < t.len() && rest[0] == ',' {
            match read_string_items(rest.drop_first()) {
                Some((items, after)) => Some((seq![s] + items, after)),
                None => None,
            }
        } else if rest.len() > 0 && rest[0] == ']' {
            Some((seq![s], rest.drop_first()))
        } else {
            None
        },
        None => None,
    }
}

/// Reads a JSON array of string literals at the front of `t`: the texts,
/// and what follows the array.
pub open spec fn read_string_array(t: Seq<char>) -> Option<(Seq<Seq<char>>, Seq<char>)> {
    if t.len() >= 2 && t[0] == '[' && t[1] == ']' {
        Some((Seq::empty(), t.skip(2)))
    } else if t.len() > 0 && t[0] == '[' {
        read_string_items(t.drop_first())
    } else {
        None
    }
}

/// Joining a single part gives that part.
pub proof fn lemma_join_single(part: Seq<char>, sep: Seq<char>)
    ensures
        join(seq![part], sep) == part,
{
}

/// Every part stands in the join, as a whole, at some position.
pub proof fn lemma_join_contains_part(parts: Seq<Seq<char>>, sep: Seq<char>, i: int)
    requires
        0 <= i < parts.len(),
    ensures
        exists|k: int|
            0 <= k && k + parts[i].len() <= join(parts, sep).len() && #[trigger] join(
                parts,
                sep,
            ).subrange(k, k + parts[i].len()) == parts[i],
    decreases parts.len(),
{
    let whole = join(parts, sep);
    if parts.len() == 1 {
        let k: int = 0;
        assert(whole.subrange(k, k + parts[i].len()) =~= parts[i]);
    } else if i == parts.len() - 1 {
        let front = join(parts.drop_last(), sep);
        let k: int = (front.len() + sep.len()) as int;
        assert(whole.subrange(k, k + parts[i].len()) =~= parts[i]);
    } else {
        let front = join(parts.drop_last(), sep);
        lemma_join_contains_part(parts.drop_last(), sep, i);
        let k = choose|k: int|
            0 <= k && k + parts[i].len() <= front.len() && #[trigger] front.subrange(
                k,
                k + parts[i].len(),
            ) == parts.drop_last()[i];
        assert(whole.subrange(k, k + parts[i].len()) =~= front.subrange(k, k + parts[i].len()));
    }
}

/// A join of two or more parts is the first part, the separator, and the
/// join of the others.
pub proof fn lemma_join_front(parts: Seq<Seq<char>>, sep: Seq<char>)
    requires
        parts.len() >= 2,
    ensures
        join(parts, sep) == parts[0] + sep + join(parts.drop_first(), sep),
    decreases parts.len(),
{
    if parts.len() > 2 {
        let front = parts.drop_last();
        let rest = parts.drop_first();
        lemma_join_front(front, sep);
        assert(front.drop_first() =~= rest.drop_last());
        assert(rest.last() == parts.last());
        assert(front[0] == parts[0]);
        assert(join(parts, sep) == join(front, sep) + sep + parts.last());
        assert(join(rest, sep) == join(rest.drop_last(), sep) + sep + rest.last());
        assert(join(parts, sep) =~= parts[0] + sep + join(rest, sep));
    } else {
        assert(parts.drop_last() =~= seq![parts[0]]);
        assert(parts.drop_first() =~= seq![parts[1]]);
        assert(join(parts, sep) == join(parts.drop_last(), sep) + sep + parts.last());
        assert(join(parts.drop_first(), sep) == parts[1]);
    }
}

/// Reading the items of an array gives back the texts it was written from.
proof fn lemma_read_string_items(items: Seq<Seq<char>>, rest: Seq<char>)
    requires
        items.len() > 0,
    ensures
        read_string_items(
            join(items.map_values(|s: Seq<char>| json_string_literal(s)), seq![',']) + seq![']']
                + rest,
        ) == Some((items, rest)),
    decreases items.len(),
{
    let lits = items.map_values(|s: Seq<char>| json_string_literal(s));
    let t = join(lits, seq![',']) + seq![']'] + rest;
    if items.len() == 1 {
        assert(t =~= json_string_literal(items[0]) + (seq![']'] + rest));
        lemma_read_string_literal(items[0], seq![']'] + rest);
        assert((seq![']'] + rest).drop_first() =~= rest);
        assert(seq![items[0]] =~= items);
    } else {
        let others = items.drop_first();
        let other_lits = others.map_values(|s: Seq<char>| json_string_literal(s));
        assert(lits.drop_first() =~= other_lits);
        lemma_join_front(lits, seq![',']);
        let after = seq![','] + join(other_lits, seq![',']) + seq![']'] + rest;
        assert(t =~= json_string_literal(items[0]) + after);
        lemma_read_string_literal(items[0], after);
        lemma_read_string_items(others, rest);
        assert(after.drop_first() =~= join(other_lits, seq![',']) + seq![']'] + rest);
        assert(seq![items[0]] + others =~= items);
    }
}

/// Reading a JSON array of string literals gives back the texts it was
/// written from, and what follows it.
pub proof fn lemma_read_string_array(items: Seq<Seq<char>>, rest: Seq<char>)
    ensures
        read_string_array(json_string_array(items) + rest) == Some((items, rest)),
{
    let lits = items.map_values(|s: Seq<char>| json_string_literal(s));
    let t = json_string_array(items) + rest;
    if items.len() == 0 {
        assert(lits =~= Seq::<Seq<char>>::empty());
        assert(t =~= seq!['[', ']'] + rest);
        assert(t.skip(2) =~= rest);
        assert(items =~= Seq::<Seq<char>>::empty());
    } else {
        lemma_read_string_items(items, rest);
        assert(t.drop_first() =~= join(lits, seq![',']) + seq![']'] + rest);
        let first = json_string_literal(items[0]);
        assert(lits[0] == first);
        if items.len() == 1 {
            assert(join(lits, seq![',']) == first);
        } else {
            lemma_join_front(lits, seq![',']);
        }
        assert(t[1] == first[0]);
    }
}

/// Joining printable parts with a printable separator gives printable text.
pub proof fn lemma_join_printable(parts: Seq<Seq<char>>, sep: Seq<char>)
    requires
        printable(sep),
        forall|i: int| 0 <= i < parts.len() ==> printable(#[trigger] parts[i]),
    ensures
        printable(join(parts, sep)),
    decreases parts.len(),
{
    if parts.len() > 1 {
        lemma_join_printable(parts.drop_last(), sep);
        let front = join(parts.drop_last(), sep);
        let whole = front + sep + parts.last();
        assert forall|i: int| 0 <= i < whole.len() implies (#[trigger] whole[i] as u32) >= 0x20 by {
            if i < front.len() {
                assert(whole[i] == front[i]);
            } else if i < front.len() + sep.len() {
                assert(whole[i] == sep[i - front.len()]);
            } else {
                assert(whole[i] == parts.last()[i - front.len() - sep.len()]);
            }
        }
    }
}

/// The JSON array of string literals that `serde_json` writes for a list
/// of strings.
pub open spec fn json_string_array(items: Seq<Seq<char>>) -> Seq<char> {
    seq!['['] + join(items.map_values(|s: Seq<char>| json_string_literal(s)), seq![',']) + seq![']']
}

/// Quotes `s` as a JSON string literal by calling `serde_json::to_string`
/// on it.  The contract states what the source of `serde_json` shows: a
/// quote, each character of `s` escaped by the rule of `escaped_char`
/// (its escape table and `write_char_escape`), and a closing quote.
/// `serde_json::to_string` fails only when writing to its buffer fails or
/// a `Serialize` impl reports an error; neither happens for a string
/// written into a `Vec`, so the empty fallback is never taken.
#[verifier::external_body]
pub(crate) fn quote(s: &str) -> (r: String)
    ensures
        r@ == json_string_literal(s@),
{
    serde_json::to_string(s).unwrap_or_default()
}

/// Joins the given parts with `sep` between them.
pub fn join_strings(parts: &Vec<String>, sep: &str) -> (r: String)
    ensures
        r@ == join(parts@.map_values(|p: String| p@), sep@),
{
    let ghost views = parts@.map_values(|p: String| p@);
    let mut r = String::new();
    let mut i: usize = 0;
    while i < parts.len()
        invariant
            i <= parts.len(),
            views == parts@.map_values(|p: String| p@),
            r@ == join(views.take(i as int), sep@),
        decreases parts.len() - i,
    {
        assert(views.take(i as int + 1).drop_last() =~= views.take(i as int));
        if i != 0 {
            r.append(sep);
        }
        r.append(parts[i].as_str());
        i = i + 1;
    }
    assert(views.take(parts.len() as int) =~= views);
    r
}

} // verus!
