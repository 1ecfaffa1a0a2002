//! JSON, as a text is read.

use vstd::prelude::*;

verus! {

/// A JSON value. A number is kept as it is written; the members of an object stand in the
/// order of the text.
pub enum Json {
    Null,
    Bool(bool),
    Number(Seq<char>),
    Text(Seq<char>),
    List(Seq<Json>),
    Object(Seq<(Seq<char>, Json)>),
}

// ---- characters ----

/// White space between the tokens of a text.
pub open spec fn is_space(c: char) -> bool {
    c == ' ' || c == '\t' || c == '\n' || c == '\r'
}

/// The text from the first character that is not white space on.
pub open spec fn skip_space(s: Seq<char>) -> Seq<char>
    decreases s.len(),
{
    if s.len() > 0 && is_space(s[0]) {
        skip_space(s.skip(1))
    } else {
        s
    }
}

/// The number that a hexadecimal digit stands for.
pub open spec fn hex_value(c: char) -> Option<int> {
    if '0' <= c <= '9' {
        Some(c as int - '0' as int)
    } else if 'a' <= c <= 'f' {
        Some(c as int - 'a' as int + 10)
    } else if 'A' <= c <= 'F' {
        Some(c as int - 'A' as int + 10)
    } else {
        None
    }
}

/// The number that four hexadecimal digits at the head of the text stand for.
pub open spec fn read_hex(s: Seq<char>) -> Option<int> {
    if s.len() < 4 {
        None
    } else {
        match (hex_value(s[0]), hex_value(s[1]), hex_value(s[2]), hex_value(s[3])) {
            (Some(a), Some(b), Some(c), Some(d)) => Some(a * 4096 + b * 256 + c * 16 + d),
            _ => None,
        }
    }
}

/// The character that a letter behind a backslash stands for.
pub open spec fn escaped_by(c: char) -> Option<char> {
    if c == '"' || c == '\\' || c == '/' {
        Some(c)
    } else if c == 'b' {
        Some('\u{8}')
    } else if c == 'f' {
        Some('\u{c}')
    } else if c == 'n' {
        Some('\n')
    } else if c == 'r' {
        Some('\r')
    } else if c == 't' {
        Some('\t')
    } else {
        None
    }
}

/// Reads one character inside a string, escaped or not, and hands out what follows it. A
/// character beyond the sixteen bits of an escape takes two of them.
pub open spec fn read_char(s: Seq<char>) -> Option<(char, Seq<char>)> {
    if s.len() == 0 {
        None
    } else if s[0] != '\\' {
        if s[0] as int >= 0x20 {
            Some((s[0], s.skip(1)))
        } else {
            None
        }
    } else if s.len() < 2 {
        None
    } else if s[1] == 'u' {
        match read_hex(s.skip(2)) {
            Some(n) => if n < 0xd800 || 0xe000 <= n {
                Some((n as char, s.skip(6)))
            } else if n < 0xdc00 && s.len() >= 12 && s[6] == '\\' && s[7] == 'u' {
                match read_hex(s.skip(8)) {
                    Some(m) => if 0xdc00 <= m < 0xe000 {
                        Some(
                            (
                                (0x10000 + (n - 0xd800) * 0x400 + (m - 0xdc00)) as char,
                                s.skip(12),
                            ),
                        )
                    } else {
                        None
                    },
                    None => None,
                }
            } else {
                None
            },
            None => None,
        }
    } else {
        match escaped_by(s[1]) {
            Some(c) => Some((c, s.skip(2))),
            None => None,
        }
    }
}

/// Reads the rest of a string behind its first quote, and hands out what follows the last.
pub open spec fn read_string(s: Seq<char>) -> Option<(Seq<char>, Seq<char>)>
    decreases s.len(),
{
    if s.len() == 0 {
        None
    } else if s[0] == '"' {
        Some((Seq::empty(), s.skip(1)))
    } else {
        match read_char(s) {
            Some((c, rest)) => if rest.len() < s.len() {
                match read_string(rest) {
                    Some((text, end)) => Some((seq![c] + text, end)),
                    None => None,
                }
            } else {
                None
            },
            None => None,
        }
    }
}

// ---- numbers ----

/// One digit or more.
pub open spec fn is_digits(s: Seq<char>) -> bool {
    s.len() > 0 && forall|i: int| 0 <= i < s.len() ==> '0' <= #[trigger] s[i] <= '9'
}

/// The whole part of a number: it may have a minus in front, and has no superfluous zero.
pub open spec fn is_whole(s: Seq<char>) -> bool {
    if s.len() > 0 && s[0] == '-' {
        is_digits(s.skip(1)) && (s[1] == '0' ==> s.len() == 2)
    } else {
        is_digits(s) && (s[0] == '0' ==> s.len() == 1)
    }
}

/// The part of a number behind the point, with the point; it may be missing.
pub open spec fn is_fraction(s: Seq<char>) -> bool {
    s.len() == 0 || (s[0] == '.' && is_digits(s.skip(1)))
}

/// The exponent of a number; it may be missing.
pub open spec fn is_exponent(s: Seq<char>) -> bool {
    ||| s.len() == 0
    ||| (s[0] == 'e' || s[0] == 'E') && (is_digits(s.skip(1)) || (s.len() > 1 && (s[1] == '+'
        || s[1] == '-') && is_digits(s.skip(2))))
}

/// A number.
pub open spec fn is_number(s: Seq<char>) -> bool {
    exists|whole: Seq<char>, fraction: Seq<char>, exponent: Seq<char>|
        {
            &&& s == #[trigger] (whole + fraction + exponent)
            &&& is_whole(whole)
            &&& is_fraction(fraction)
            &&& is_exponent(exponent)
        }
}

/// The characters that numbers are made of.
pub open spec fn in_number(c: char) -> bool {
    '0' <= c <= '9' || c == '-' || c == '+' || c == '.' || c == 'e' || c == 'E'
}

/// How many characters at the head of the text can belong to a number.
pub open spec fn number_len(s: Seq<char>) -> nat
    decreases s.len(),
{
    if s.len() > 0 && in_number(s[0]) {
        1 + number_len(s.skip(1))
    } else {
        0
    }
}

// ---- values ----

/// Whether the text begins with the word.
pub open spec fn begins_with(s: Seq<char>, word: Seq<char>) -> bool {
    s.len() >= word.len() && s.take(word.len() as int) == word
}

/// Reads a value, and hands out what follows it.
pub open spec fn read_value(s: Seq<char>) -> Option<(Json, Seq<char>)>
    decreases s.len(), 0nat,
{
    proof {
        lemma_skip_space_len(s);
    }
    let start = skip_space(s);
    if start.len() == 0 {
        None
    } else if start[0] == '"' {
        match read_string(start.skip(1)) {
            Some((text, rest)) => Some((Json::Text(text), rest)),
            None => None,
        }
    } else if start[0] == '[' {
        let first = skip_space(start.skip(1));
        if first.len() > 0 && first[0] == ']' {
            Some((Json::List(Seq::empty()), first.skip(1)))
        } else {
            match read_items(start.skip(1)) {
                Some((items, rest)) => Some((Json::List(items), rest)),
                None => None,
            }
        }
    } else if start[0] == '{' {
        let first = skip_space(start.skip(1));
        if first.len() > 0 && first[0] == '}' {
            Some((Json::Object(Seq::empty()), first.skip(1)))
        } else {
            match read_members(start.skip(1)) {
                Some((members, rest)) => Some((Json::Object(members), rest)),
                None => None,
            }
        }
    } else if begins_with(start, seq!['n', 'u', 'l', 'l']) {
        Some((Json::Null, start.skip(4)))
    } else if begins_with(start, seq!['t', 'r', 'u', 'e']) {
        Some((Json::Bool(true), start.skip(4)))
    } else if begins_with(start, seq!['f', 'a', 'l', 's', 'e']) {
        Some((Json::Bool(false), start.skip(5)))
    } else {
        let n = number_len(start) as int;
        if is_number(start.take(n)) {
            Some((Json::Number(start.take(n)), start.skip(n)))
        } else {
            None
        }
    }
}

/// Reads the items of a list up to its closing bracket.
pub open spec fn read_items(s: Seq<char>) -> Option<(Seq<Json>, Seq<char>)>
    decreases s.len(), 1nat,
{
    match read_value(s) {
        Some((item, rest)) => {
            let next = skip_space(rest);
            if next.len() == 0 || next.len() >= s.len() {
                None
            } else if next[0] == ']' {
                Some((seq![item], next.skip(1)))
            } else if next[0] == ',' {
                match read_items(next.skip(1)) {
                    Some((items, end)) => Some((seq![item] + items, end)),
                    None => None,
                }
            } else {
                None
            }
        },
        None => None,
    }
}

/// Reads the members of an object up to its closing brace.
pub open spec fn read_members(s: Seq<char>) -> Option<(Seq<(Seq<char>, Json)>, Seq<char>)>
    decreases s.len(), 1nat,
{
    let start = skip_space(s);
    if start.len() == 0 || start[0] != '"' {
        None
    } else {
        match read_string(start.skip(1)) {
            Some((key, rest)) => {
                let colon = skip_space(rest);
                if colon.len() == 0 || colon.len() >= s.len() || colon[0] != ':' {
                    None
                } else {
                    match read_value(colon.skip(1)) {
                        Some((value, rest)) => {
                            let next = skip_space(rest);
                            if next.len() == 0 || next.len() >= s.len() {
                                None
                            } else if next[0] == '}' {
                                Some((seq![(key, value)], next.skip(1)))
                            } else if next[0] == ',' {
                                match read_members(next.skip(1)) {
                                    Some((members, end)) => Some(
                                        (seq![(key, value)] + members, end),
                                    ),
                                    None => None,
                                }
                            } else {
                                None
                            }
                        },
                        None => None,
                    }
                }
            },
            None => None,
        }
    }
}

/// The value that the text is, if it is one.
pub open spec fn read_json(s: Seq<char>) -> Option<Json> {
    match read_value(s) {
        Some((value, rest)) => if skip_space(rest).len() == 0 {
            Some(value)
        } else {
            None
        },
        None => None,
    }
}

/// The text is one JSON value, without anything after it.
pub open spec fn is_json(s: Seq<char>) -> bool {
    read_value(s) matches Some((_, rest)) && rest.len() == 0
}

// ---- what follows a value does not change it ----

/// Skipping white space makes no text longer.
pub proof fn lemma_skip_space_len(s: Seq<char>)
    ensures
        skip_space(s).len() <= s.len(),
    decreases s.len(),
{
    if s.len() > 0 && is_space(s[0]) {
        lemma_skip_space_len(s.skip(1));
    }
}

proof fn lemma_skip_add(s: Seq<char>, t: Seq<char>, n: int)
    requires
        0 <= n <= s.len(),
    ensures
        (s + t).skip(n) == s.skip(n) + t,
{
    assert((s + t).skip(n) =~= s.skip(n) + t);
}

proof fn lemma_space_local(s: Seq<char>, t: Seq<char>)
    requires
        skip_space(s).len() > 0,
    ensures
        skip_space(s + t) == skip_space(s) + t,
    decreases s.len(),
{
    if s.len() > 0 {
        assert((s + t)[0] == s[0]);
        if is_space(s[0]) {
            lemma_skip_add(s, t, 1);
            lemma_space_local(s.skip(1), t);
        }
    }
}

proof fn lemma_hex_local(s: Seq<char>, t: Seq<char>)
    requires
        read_hex(s) is Some,
    ensures
        read_hex(s + t) == read_hex(s),
{
}

proof fn lemma_char_local(s: Seq<char>, t: Seq<char>)
    requires
        read_char(s) is Some,
    ensures
        ({
            let (c, rest) = read_char(s)->0;
            read_char(s + t) == Some((c, rest + t))
        }),
{
    let all = s + t;
    assert(all[0] == s[0]);
    lemma_skip_add(s, t, 1);
    if s[0] == '\\' {
        assert(all[1] == s[1]);
        lemma_skip_add(s, t, 2);
        if s[1] == 'u' {
            lemma_hex_local(s.skip(2), t);
            lemma_skip_add(s, t, 6);
            let n = read_hex(s.skip(2))->0;
            if !(n < 0xd800 || 0xe000 <= n) {
                assert(all[6] == s[6] && all[7] == s[7]);
                lemma_skip_add(s, t, 8);
                lemma_hex_local(s.skip(8), t);
                lemma_skip_add(s, t, 12);
            }
        }
    }
}

proof fn lemma_string_local(s: Seq<char>, t: Seq<char>)
    requires
        read_string(s) is Some,
    ensures
        ({
            let (text, rest) = read_string(s)->0;
            read_string(s + t) == Some((text, rest + t))
        }),
    decreases s.len(),
{
    assert((s + t)[0] == s[0]);
    if s[0] == '"' {
        lemma_skip_add(s, t, 1);
    } else {
        lemma_char_local(s, t);
        let (c, rest) = read_char(s)->0;
        lemma_string_local(rest, t);
    }
}

proof fn lemma_number_local(s: Seq<char>, t: Seq<char>)
    requires
        number_len(s) < s.len() || t.len() == 0 || !in_number(t[0]),
    ensures
        number_len(s + t) == number_len(s),
        number_len(s) <= s.len(),
    decreases s.len(),
{
    if s.len() > 0 {
        assert((s + t)[0] == s[0]);
        if in_number(s[0]) {
            lemma_skip_add(s, t, 1);
            lemma_number_local(s.skip(1), t);
        }
    } else {
        assert(s + t =~= t);
    }
}

proof fn lemma_word_local(s: Seq<char>, t: Seq<char>, word: Seq<char>)
    requires
        begins_with(s, word),
    ensures
        begins_with(s + t, word),
{
    assert((s + t).take(word.len() as int) =~= s.take(word.len() as int));
}

/// What follows a value that has been read does not change it, unless it goes on with a
/// number that is the last of the text.
pub proof fn lemma_value_local(s: Seq<char>, t: Seq<char>)
    requires
        read_value(s) is Some,
        (read_value(s)->0).1.len() > 0 || t.len() == 0 || !in_number(t[0]),
    ensures
        ({
            let (value, rest) = read_value(s)->0;
            read_value(s + t) == Some((value, rest + t))
        }),
    decreases s.len(), 0nat,
{
    lemma_skip_space_len(s);
    lemma_space_local(s, t);
    let start = skip_space(s);
    let all = start + t;
    assert(all[0] == start[0]);
    lemma_skip_add(start, t, 1);
    let inner = start.skip(1);
    let first = skip_space(inner);
    if start[0] == '"' {
        lemma_string_local(inner, t);
    } else if start[0] == '[' {
        if first.len() > 0 {
            lemma_space_local(inner, t);
            assert((first + t)[0] == first[0]);
        }
        if first.len() > 0 && first[0] == ']' {
            lemma_skip_add(first, t, 1);
        } else {
            lemma_items_local(inner, t);
            lemma_items_begin(inner);
        }
    } else if start[0] == '{' {
        if first.len() > 0 {
            lemma_space_local(inner, t);
            assert((first + t)[0] == first[0]);
        }
        if first.len() > 0 && first[0] == '}' {
            lemma_skip_add(first, t, 1);
        } else {
            lemma_members_local(inner, t);
        }
    } else if begins_with(start, seq!['n', 'u', 'l', 'l']) {
        lemma_word_local(start, t, seq!['n', 'u', 'l', 'l']);
        lemma_skip_add(start, t, 4);
    } else if begins_with(start, seq!['t', 'r', 'u', 'e']) {
        lemma_word_local(start, t, seq!['t', 'r', 'u', 'e']);
        assert(start[0] == 't') by {
            assert(start.take(4)[0] == 't');
        }
        assert(!begins_with(all, seq!['n', 'u', 'l', 'l'])) by {
            assert(all.take(4)[0] == 't');
        }
        lemma_skip_add(start, t, 4);
    } else if begins_with(start, seq!['f', 'a', 'l', 's', 'e']) {
        lemma_word_local(start, t, seq!['f', 'a', 'l', 's', 'e']);
        assert(start[0] == 'f') by {
            assert(start.take(5)[0] == 'f');
        }
        assert(all.take(4)[0] == 'f');
        lemma_skip_add(start, t, 5);
    } else {
        let n = number_len(start) as int;
        assert(in_number(start[0])) by {
            if !in_number(start[0]) {
                assert(start.take(0).len() == 0);
                lemma_number_is_not_empty(start.take(0));
            }
        }
        lemma_number_bound(start);
        if n < start.len() {
            assert(start.skip(n).len() > 0);
        } else {
            assert(start.skip(n).len() == 0);
        }
        lemma_number_local(start, t);
        assert(all.take(n) =~= start.take(n));
        lemma_skip_add(start, t, n);
        lemma_no_word(all);
    }
}

/// A text that begins like a number begins with none of the words.
proof fn lemma_no_word(s: Seq<char>)
    requires
        s.len() > 0,
        in_number(s[0]),
    ensures
        !begins_with(s, seq!['n', 'u', 'l', 'l']),
        !begins_with(s, seq!['t', 'r', 'u', 'e']),
        !begins_with(s, seq!['f', 'a', 'l', 's', 'e']),
{
    if s.len() >= 4 {
        assert(s.take(4)[0] == s[0]);
    }
    if s.len() >= 5 {
        assert(s.take(5)[0] == s[0]);
    }
    assert(seq!['n', 'u', 'l', 'l'][0] == 'n');
    assert(seq!['t', 'r', 'u', 'e'][0] == 't');
    assert(seq!['f', 'a', 'l', 's', 'e'][0] == 'f');
}

proof fn lemma_number_bound(s: Seq<char>)
    ensures
        number_len(s) <= s.len(),
    decreases s.len(),
{
    if s.len() > 0 && in_number(s[0]) {
        lemma_number_bound(s.skip(1));
    }
}

proof fn lemma_number_is_not_empty(s: Seq<char>)
    requires
        is_number(s),
    ensures
        s.len() > 0,
{
}

/// Items begin with something.
proof fn lemma_items_begin(s: Seq<char>)
    requires
        read_items(s) is Some,
    ensures
        skip_space(s).len() > 0,
{
    assert(read_value(s) is Some);
}

proof fn lemma_items_local(s: Seq<char>, t: Seq<char>)
    requires
        read_items(s) is Some,
    ensures
        ({
            let (items, rest) = read_items(s)->0;
            read_items(s + t) == Some((items, rest + t))
        }),
    decreases s.len(), 1nat,
{
    let (item, rest) = read_value(s)->0;
    let next = skip_space(rest);
    lemma_skip_space_len(rest);
    lemma_value_local(s, t);
    lemma_space_local(rest, t);
    assert((next + t)[0] == next[0]);
    lemma_skip_add(next, t, 1);
    if next[0] == ',' {
        lemma_items_local(next.skip(1), t);
    }
}

proof fn lemma_members_local(s: Seq<char>, t: Seq<char>)
    requires
        read_members(s) is Some,
    ensures
        ({
            let (members, rest) = read_members(s)->0;
            read_members(s + t) == Some((members, rest + t))
        }),
    decreases s.len(), 1nat,
{
    let start = skip_space(s);
    lemma_space_local(s, t);
    assert((start + t)[0] == start[0]);
    lemma_skip_add(start, t, 1);
    lemma_string_local(start.skip(1), t);
    let (key, rest) = read_string(start.skip(1))->0;
    let colon = skip_space(rest);
    lemma_space_local(rest, t);
    assert((colon + t)[0] == colon[0]);
    lemma_skip_add(colon, t, 1);
    let (value, rest) = read_value(colon.skip(1))->0;
    let next = skip_space(rest);
    lemma_skip_space_len(rest);
    lemma_value_local(colon.skip(1), t);
    lemma_space_local(rest, t);
    assert((next + t)[0] == next[0]);
    lemma_skip_add(next, t, 1);
    if next[0] == ',' {
        lemma_members_local(next.skip(1), t);
    }
}

} // verus!
