//! What the text of a frame tells.

use vstd::prelude::*;

use crate::json::{
    is_json, lemma_value_local, read_char, read_hex, read_json, read_members, read_string,
    read_value, Json,
};
use crate::protocol::{
    ack_json, deliver_json, error_json, hex_digit, id_member, json_escape, json_escaped,
    json_string, json_text, opt_text, ServerFrame,
};

verus! {

proof fn lemma_hex_digit(m: int, n: int)
    requires
        0 <= m < 16,
        0 <= n < 16,
        hex_digit(m) == hex_digit(n),
    ensures
        m == n,
{
}

/// No escape is the beginning of another.
proof fn lemma_escape_delimits(c: char, d: char, c_rest: Seq<char>, d_rest: Seq<char>)
    requires
        json_escape(c) + c_rest == json_escape(d) + d_rest,
    ensures
        c == d,
        c_rest == d_rest,
{
    let text = json_escape(c) + c_rest;
    assert(text == json_escape(d) + d_rest);
    assert(text[0] == json_escape(c)[0]);
    assert(text[0] == json_escape(d)[0]);
    if text[0] == '\\' {
        assert(text[1] == json_escape(c)[1]);
        assert(text[1] == json_escape(d)[1]);
        if text[1] == 'u' {
            assert(text[4] == json_escape(c)[4]);
            assert(text[4] == json_escape(d)[4]);
            assert(text[5] == json_escape(c)[5]);
            assert(text[5] == json_escape(d)[5]);
            lemma_hex_digit(c as int / 16, d as int / 16);
            lemma_hex_digit(c as int % 16, d as int % 16);
        }
    }
    assert(c == d);
    let n = json_escape(c).len() as int;
    assert(c_rest =~= text.skip(n));
    assert(d_rest =~= text.skip(n));
}

/// A JSON string tells where it ends, and which text it stands for.
proof fn lemma_escaped_delimits(s: Seq<char>, t: Seq<char>, s_rest: Seq<char>, t_rest: Seq<char>)
    requires
        json_escaped(s) + seq!['"'] + s_rest == json_escaped(t) + seq!['"'] + t_rest,
    ensures
        s == t,
        s_rest == t_rest,
    decreases s.len(),
{
    let s_text = json_escaped(s) + seq!['"'] + s_rest;
    let t_text = json_escaped(t) + seq!['"'] + t_rest;
    if s.len() == 0 || t.len() == 0 {
        if s.len() > 0 {
            assert(s_text[0] == json_escape(s.first())[0]);
            assert(t_text[0] == '"');
        }
        if t.len() > 0 {
            assert(t_text[0] == json_escape(t.first())[0]);
            assert(s_text[0] == '"');
        }
        assert(s =~= t);
        assert(s_rest =~= s_text.skip(1));
        assert(t_rest =~= t_text.skip(1));
    } else {
        let s_tail = json_escaped(s.drop_first()) + seq!['"'] + s_rest;
        let t_tail = json_escaped(t.drop_first()) + seq!['"'] + t_rest;
        assert(s_text =~= json_escape(s.first()) + s_tail);
        assert(t_text =~= json_escape(t.first()) + t_tail);
        lemma_escape_delimits(s.first(), t.first(), s_tail, t_tail);
        lemma_escaped_delimits(s.drop_first(), t.drop_first(), s_rest, t_rest);
        assert(s =~= seq![s.first()] + s.drop_first());
        assert(t =~= seq![t.first()] + t.drop_first());
    }
}

/// Two texts that begin with JSON strings and are equal begin with the same string.
pub proof fn law_json_string_delimits(
    s: Seq<char>,
    t: Seq<char>,
    s_rest: Seq<char>,
    t_rest: Seq<char>,
)
    requires
        json_string(s) + s_rest == json_string(t) + t_rest,
    ensures
        s == t,
        s_rest == t_rest,
{
    let s_text = json_string(s) + s_rest;
    let t_text = json_string(t) + t_rest;
    assert(s_text.skip(1) =~= json_escaped(s) + seq!['"'] + s_rest);
    assert(t_text.skip(1) =~= json_escaped(t) + seq!['"'] + t_rest);
    lemma_escaped_delimits(s, t, s_rest, t_rest);
}

/// The `id` member and what follows it are told apart, where what follows is the end of
/// the frame or its payload.
proof fn lemma_id_delimits(
    a: Option<Seq<char>>,
    b: Option<Seq<char>>,
    a_rest: Seq<char>,
    b_rest: Seq<char>,
)
    requires
        id_member(a) + a_rest == id_member(b) + b_rest,
        a_rest.len() > 0,
        b_rest.len() > 0,
        a_rest[0] == '}' || (a_rest.len() > 2 && a_rest[2] == 'p'),
        b_rest[0] == '}' || (b_rest.len() > 2 && b_rest[2] == 'p'),
    ensures
        a == b,
        a_rest == b_rest,
{
    reveal_strlit(",\"id\":");
    let lead = ",\"id\":"@;
    let a_text = id_member(a) + a_rest;
    let b_text = id_member(b) + b_rest;
    match (a, b) {
        (Some(s), Some(t)) => {
            assert(a_text.skip(lead.len() as int) =~= json_string(s) + a_rest);
            assert(b_text.skip(lead.len() as int) =~= json_string(t) + b_rest);
            law_json_string_delimits(s, t, a_rest, b_rest);
        },
        (Some(s), None) => {
            assert(b_text =~= b_rest);
            assert(a_text[0] == ',');
            assert(a_text[2] == 'i');
        },
        (None, Some(t)) => {
            assert(a_text =~= a_rest);
            assert(b_text[0] == ',');
            assert(b_text[2] == 'i');
        },
        (None, None) => {
            assert(a_text =~= a_rest);
            assert(b_text =~= b_rest);
        },
    }
}

/// Two frames say the same.
pub open spec fn same_message(a: ServerFrame, b: ServerFrame) -> bool {
    match (a, b) {
        (
            ServerFrame::Deliver { topic: t, id: i, payload: p },
            ServerFrame::Deliver { topic: u, id: j, payload: q },
        ) => t@ == u@ && opt_text(i) == opt_text(j) && json_text(*p) == json_text(*q),
        (ServerFrame::Ack { topic: t, id: i }, ServerFrame::Ack { topic: u, id: j }) => t@ == u@
            && opt_text(i) == opt_text(j),
        (
            ServerFrame::Error { code: c, message: m, id: i },
            ServerFrame::Error { code: d, message: n, id: j },
        ) => c@ == d@ && m@ == n@ && opt_text(i) == opt_text(j),
        _ => false,
    }
}

proof fn lemma_deliver_determined(
    t: Seq<char>,
    u: Seq<char>,
    i: Option<Seq<char>>,
    j: Option<Seq<char>>,
    p: Seq<char>,
    q: Seq<char>,
)
    requires
        deliver_json(t, i, p) == deliver_json(u, j, q),
    ensures
        t == u && i == j && p == q,
{
    let lead = ",\"payload\":"@;
    let end = "}"@;
    let p_rest = lead + p + end;
    let q_rest = lead + q + end;
    let t_rest = id_member(i) + p_rest;
    let u_rest = id_member(j) + q_rest;
    let n = "{\"op\":\"deliver\",\"topic\":"@.len() as int;
    assert(deliver_json(t, i, p).skip(n) =~= json_string(t) + t_rest);
    assert(deliver_json(u, j, q).skip(n) =~= json_string(u) + u_rest);
    law_json_string_delimits(t, u, t_rest, u_rest);
    assert(lead.len() > 2 && lead[2] == 'p') by {
        reveal_strlit(",\"payload\":");
    }
    assert(end.len() == 1) by {
        reveal_strlit("}");
    }
    lemma_id_delimits(i, j, p_rest, q_rest);
    assert(p =~= p_rest.skip(lead.len() as int).drop_last());
    assert(q =~= q_rest.skip(lead.len() as int).drop_last());
}

proof fn lemma_ack_determined(
    t: Seq<char>,
    u: Seq<char>,
    i: Option<Seq<char>>,
    j: Option<Seq<char>>,
)
    requires
        ack_json(t, i) == ack_json(u, j),
    ensures
        t == u && i == j,
{
    let end = "}"@;
    let t_rest = id_member(i) + end;
    let u_rest = id_member(j) + end;
    let n = "{\"op\":\"ack\",\"topic\":"@.len() as int;
    assert(ack_json(t, i).skip(n) =~= json_string(t) + t_rest);
    assert(ack_json(u, j).skip(n) =~= json_string(u) + u_rest);
    law_json_string_delimits(t, u, t_rest, u_rest);
    assert(end.len() == 1 && end[0] == '}') by {
        reveal_strlit("}");
    }
    lemma_id_delimits(i, j, end, end);
}

proof fn lemma_error_determined(
    c: Seq<char>,
    d: Seq<char>,
    m: Seq<char>,
    n: Seq<char>,
    i: Option<Seq<char>>,
    j: Option<Seq<char>>,
)
    requires
        error_json(c, m, i) == error_json(d, n, j),
    ensures
        c == d && m == n && i == j,
{
    let lead = ",\"message\":"@;
    let end = "}"@;
    let m_rest = id_member(i) + end;
    let n_rest = id_member(j) + end;
    let c_rest = lead + (json_string(m) + m_rest);
    let d_rest = lead + (json_string(n) + n_rest);
    let k = "{\"op\":\"error\",\"code\":"@.len() as int;
    assert(error_json(c, m, i).skip(k) =~= json_string(c) + c_rest);
    assert(error_json(d, n, j).skip(k) =~= json_string(d) + d_rest);
    law_json_string_delimits(c, d, c_rest, d_rest);
    assert(c_rest.skip(lead.len() as int) =~= json_string(m) + m_rest);
    assert(d_rest.skip(lead.len() as int) =~= json_string(n) + n_rest);
    law_json_string_delimits(m, n, m_rest, n_rest);
    assert(end.len() == 1 && end[0] == '}') by {
        reveal_strlit("}");
    }
    lemma_id_delimits(i, j, end, end);
}

/// The text of a frame determines the frame: its kind, its topic or code, its id or the
/// lack of one, and its payload. Topics and ids cannot be chosen so that one frame passes
/// for another.
pub proof fn law_text_determines_the_frame(a: ServerFrame, b: ServerFrame)
    requires
        a.json() == b.json(),
    ensures
        same_message(a, b),
{
    lemma_op_of(a);
    lemma_op_of(b);
    match (a, b) {
        (
            ServerFrame::Deliver { topic: t, id: i, payload: p },
            ServerFrame::Deliver { topic: u, id: j, payload: q },
        ) => {
            lemma_deliver_determined(
                t@,
                u@,
                opt_text(i),
                opt_text(j),
                json_text(*p),
                json_text(*q),
            );
        },
        (ServerFrame::Ack { topic: t, id: i }, ServerFrame::Ack { topic: u, id: j }) => {
            lemma_ack_determined(t@, u@, opt_text(i), opt_text(j));
        },
        (
            ServerFrame::Error { code: c, message: m, id: i },
            ServerFrame::Error { code: d, message: n, id: j },
        ) => {
            lemma_error_determined(c@, d@, m@, n@, opt_text(i), opt_text(j));
        },
        _ => {},
    }
}

/// Where the name of the operation begins, the kinds of frame differ.
proof fn lemma_op_of(frame: ServerFrame)
    ensures
        frame.json()[7] == match frame {
            ServerFrame::Deliver { .. } => 'd',
            ServerFrame::Ack { .. } => 'a',
            ServerFrame::Error { .. } => 'e',
        },
{
    reveal_strlit("{\"op\":\"deliver\",\"topic\":");
    reveal_strlit("{\"op\":\"ack\",\"topic\":");
    reveal_strlit("{\"op\":\"error\",\"code\":");
}

// ---- reading a frame back ----

/// An escape is read as the character that it stands for.
proof fn lemma_escape_reads(c: char, rest: Seq<char>)
    ensures
        read_char(json_escape(c) + rest) == Some((c, rest)),
{
    let escape = json_escape(c);
    let text = escape + rest;
    assert(text.skip(escape.len() as int) =~= rest);
    assert(text[0] == escape[0]);
    if escape.len() > 1 {
        assert(text[1] == escape[1]);
    }
    if escape.len() == 6 {
        let digits = text.skip(2);
        assert(digits[0] == '0' && digits[1] == '0');
        assert(digits[2] == hex_digit(c as int / 16));
        assert(digits[3] == hex_digit(c as int % 16));
        assert(read_hex(digits) == Some(c as int));
    }
}

/// Escaped text is read as the text that it stands for.
proof fn lemma_string_reads(s: Seq<char>, rest: Seq<char>)
    ensures
        read_string(json_escaped(s) + seq!['"'] + rest) == Some((s, rest)),
    decreases s.len(),
{
    let text = json_escaped(s) + seq!['"'] + rest;
    if s.len() == 0 {
        assert(text[0] == '"');
        assert(text.skip(1) =~= rest);
        assert(s =~= Seq::empty());
    } else {
        let tail = json_escaped(s.drop_first()) + seq!['"'] + rest;
        assert(text =~= json_escape(s.first()) + tail);
        assert(text[0] == json_escape(s.first())[0]);
        lemma_escape_reads(s.first(), tail);
        lemma_string_reads(s.drop_first(), rest);
        assert(seq![s.first()] + s.drop_first() =~= s);
    }
}

/// The text is read as the value wherever a member of an object ends behind it.
spec fn stands_for(text: Seq<char>, value: Json) -> bool {
    forall|tail: Seq<char>|
        tail.len() > 0 && (tail[0] == ',' || tail[0] == '}') ==> #[trigger] read_value(text + tail)
            == Some((value, tail))
}

proof fn lemma_string_stands(s: Seq<char>)
    ensures
        stands_for(json_string(s), Json::Text(s)),
{
    assert forall|tail: Seq<char>|
        tail.len() > 0 && (tail[0] == ',' || tail[0] == '}') implies #[trigger] read_value(
        json_string(s) + tail,
    ) == Some((Json::Text(s), tail)) by {
        let text = json_string(s) + tail;
        assert(text[0] == '"');
        assert(text.skip(1) =~= json_escaped(s) + seq!['"'] + tail);
        lemma_string_reads(s, tail);
    }
}

proof fn lemma_value_stands(text: Seq<char>)
    requires
        is_json(text),
    ensures
        stands_for(text, read_json(text)->0),
{
    assert forall|tail: Seq<char>|
        tail.len() > 0 && (tail[0] == ',' || tail[0] == '}') implies #[trigger] read_value(
        text + tail,
    ) == Some((read_json(text)->0, tail)) by {
        lemma_value_local(text, tail);
        let (value, rest) = read_value(text)->0;
        assert(rest + tail =~= tail);
    }
}

/// A member of an object: its key, the text of its value, and the value.
struct Field {
    key: Seq<char>,
    text: Seq<char>,
    value: Json,
}

/// The members in turn, with commas between them and the closing brace behind.
spec fn members_text(fields: Seq<Field>) -> Seq<char>
    decreases fields.len(),
{
    if fields.len() == 0 {
        seq!['}']
    } else {
        let field = fields.first();
        json_string(field.key) + seq![':'] + field.text + (if fields.len() == 1 {
            seq!['}']
        } else {
            seq![','] + members_text(fields.drop_first())
        })
    }
}

spec fn entries(fields: Seq<Field>) -> Seq<(Seq<char>, Json)> {
    fields.map_values(|field: Field| (field.key, field.value))
}

proof fn lemma_members_read(fields: Seq<Field>)
    requires
        fields.len() > 0,
        forall|i: int|
            0 <= i < fields.len() ==> stands_for((#[trigger] fields[i]).text, fields[i].value),
    ensures
        read_members(members_text(fields)) == Some((entries(fields), Seq::<char>::empty())),
    decreases fields.len(),
{
    let text = members_text(fields);
    let field = fields.first();
    let tail = if fields.len() == 1 {
        seq!['}']
    } else {
        seq![','] + members_text(fields.drop_first())
    };
    let colon = seq![':'] + (field.text + tail);
    assert(text[0] == '"');
    assert(text.skip(1) =~= json_escaped(field.key) + seq!['"'] + colon);
    lemma_string_reads(field.key, colon);
    assert(colon[0] == ':');
    assert(colon.skip(1) =~= field.text + tail);
    assert(stands_for(fields[0].text, fields[0].value));
    assert(read_value(field.text + tail) == Some((field.value, tail)));
    if fields.len() == 1 {
        assert(tail.skip(1) =~= Seq::<char>::empty());
        assert(entries(fields) =~= seq![(field.key, field.value)]);
    } else {
        let others = fields.drop_first();
        assert forall|i: int| 0 <= i < others.len() implies stands_for(
            (#[trigger] others[i]).text,
            others[i].value,
        ) by {
            assert(others[i] == fields[i + 1]);
        }
        lemma_members_read(others);
        assert(tail.skip(1) =~= members_text(others));
        assert(entries(fields) =~= seq![(field.key, field.value)] + entries(others));
    }
}

proof fn lemma_object_reads(fields: Seq<Field>)
    requires
        fields.len() > 0,
        forall|i: int|
            0 <= i < fields.len() ==> stands_for((#[trigger] fields[i]).text, fields[i].value),
    ensures
        read_json(seq!['{'] + members_text(fields)) == Some(Json::Object(entries(fields))),
{
    let text = seq!['{'] + members_text(fields);
    lemma_members_read(fields);
    assert(text[0] == '{');
    assert(text.skip(1) =~= members_text(fields));
    assert(members_text(fields)[0] == '"');
}

/// A text without quotes, backslashes and control characters stands for itself.
proof fn lemma_plain(s: Seq<char>)
    requires
        forall|i: int|
            0 <= i < s.len() ==> (#[trigger] s[i]) as int >= 0x20 && s[i] != '"' && s[i] != '\\',
    ensures
        json_escaped(s) == s,
    decreases s.len(),
{
    if s.len() > 0 {
        lemma_plain(s.drop_first());
        assert(seq![s.first()] + s.drop_first() =~= s);
    } else {
        assert(s =~= Seq::empty());
    }
}

spec fn text_field(key: Seq<char>, text: Seq<char>) -> Field {
    Field { key, text: json_string(text), value: Json::Text(text) }
}

spec fn id_field(id: Option<Seq<char>>) -> Seq<Field> {
    match id {
        Some(text) => seq![text_field("id"@, text)],
        None => Seq::empty(),
    }
}

/// The members of a frame.
spec fn fields_of(frame: ServerFrame) -> Seq<Field> {
    match frame {
        ServerFrame::Deliver { topic, id, payload } => seq![
            text_field("op"@, "deliver"@),
            text_field("topic"@, topic@),
        ] + id_field(opt_text(id)) + seq![
            Field {
                key: "payload"@,
                text: json_text(*payload),
                value: read_json(json_text(*payload))->0,
            },
        ],
        ServerFrame::Ack { topic, id } => seq![
            text_field("op"@, "ack"@),
            text_field("topic"@, topic@),
        ] + id_field(opt_text(id)),
        ServerFrame::Error { code, message, id } => seq![
            text_field("op"@, "error"@),
            text_field("code"@, code@),
            text_field("message"@, message@),
        ] + id_field(opt_text(id)),
    }
}

proof fn lemma_words_are_plain()
    ensures
        json_string("op"@) == seq!['"', 'o', 'p', '"'],
        json_string("id"@) == seq!['"', 'i', 'd', '"'],
        json_string("topic"@) == seq!['"', 't', 'o', 'p', 'i', 'c', '"'],
        json_string("payload"@) == seq!['"', 'p', 'a', 'y', 'l', 'o', 'a', 'd', '"'],
        json_string("code"@) == seq!['"', 'c', 'o', 'd', 'e', '"'],
        json_string("message"@) == seq!['"', 'm', 'e', 's', 's', 'a', 'g', 'e', '"'],
        json_string("deliver"@) == seq!['"', 'd', 'e', 'l', 'i', 'v', 'e', 'r', '"'],
        json_string("ack"@) == seq!['"', 'a', 'c', 'k', '"'],
        json_string("error"@) == seq!['"', 'e', 'r', 'r', 'o', 'r', '"'],
{
    reveal_strlit("op");
    reveal_strlit("id");
    reveal_strlit("topic");
    reveal_strlit("payload");
    reveal_strlit("code");
    reveal_strlit("message");
    reveal_strlit("deliver");
    reveal_strlit("ack");
    reveal_strlit("error");
    lemma_plain("op"@);
    lemma_plain("id"@);
    lemma_plain("topic"@);
    lemma_plain("payload"@);
    lemma_plain("code"@);
    lemma_plain("message"@);
    lemma_plain("deliver"@);
    lemma_plain("ack"@);
    lemma_plain("error"@);
    assert(json_string("op"@) =~= seq!['"', 'o', 'p', '"']);
    assert(json_string("id"@) =~= seq!['"', 'i', 'd', '"']);
    assert(json_string("topic"@) =~= seq!['"', 't', 'o', 'p', 'i', 'c', '"']);
    assert(json_string("payload"@) =~= seq!['"', 'p', 'a', 'y', 'l', 'o', 'a', 'd', '"']);
    assert(json_string("code"@) =~= seq!['"', 'c', 'o', 'd', 'e', '"']);
    assert(json_string("message"@) =~= seq!['"', 'm', 'e', 's', 's', 'a', 'g', 'e', '"']);
    assert(json_string("deliver"@) =~= seq!['"', 'd', 'e', 'l', 'i', 'v', 'e', 'r', '"']);
    assert(json_string("ack"@) =~= seq!['"', 'a', 'c', 'k', '"']);
    assert(json_string("error"@) =~= seq!['"', 'e', 'r', 'r', 'o', 'r', '"']);
}

/// `"key":`, as it stands in front of a value.
spec fn lead(key: Seq<char>) -> Seq<char> {
    json_string(key) + seq![':']
}

/// The constant parts of the frames' texts, as members.
proof fn lemma_constant_parts()
    ensures
        "{\"op\":\"deliver\",\"topic\":"@ == seq!['{'] + (lead("op"@) + json_string("deliver"@)
            + seq![','] + lead("topic"@)),
        "{\"op\":\"ack\",\"topic\":"@ == seq!['{'] + (lead("op"@) + json_string("ack"@) + seq![',']
            + lead("topic"@)),
        "{\"op\":\"error\",\"code\":"@ == seq!['{'] + (lead("op"@) + json_string("error"@)
            + seq![','] + lead("code"@)),
        ",\"message\":"@ == seq![','] + lead("message"@),
        ",\"payload\":"@ == seq![','] + lead("payload"@),
        ",\"id\":"@ == seq![','] + lead("id"@),
        "}"@ == seq!['}'],
{
    reveal_strlit("{\"op\":\"deliver\",\"topic\":");
    reveal_strlit("{\"op\":\"ack\",\"topic\":");
    reveal_strlit("{\"op\":\"error\",\"code\":");
    reveal_strlit(",\"message\":");
    reveal_strlit(",\"payload\":");
    reveal_strlit(",\"id\":");
    reveal_strlit("}");
    lemma_words_are_plain();
    assert("{\"op\":\"deliver\",\"topic\":"@ =~= seq!['{'] + (lead("op"@) + json_string("deliver"@)
        + seq![','] + lead("topic"@)));
    assert("{\"op\":\"ack\",\"topic\":"@ =~= seq!['{'] + (lead("op"@) + json_string("ack"@)
        + seq![','] + lead("topic"@)));
    assert("{\"op\":\"error\",\"code\":"@ =~= seq!['{'] + (lead("op"@) + json_string("error"@)
        + seq![','] + lead("code"@)));
    assert(",\"message\":"@ =~= seq![','] + lead("message"@));
    assert(",\"payload\":"@ =~= seq![','] + lead("payload"@));
    assert(",\"id\":"@ =~= seq![','] + lead("id"@));
    assert("}"@ =~= seq!['}']);
}

/// One member more in front of others.
proof fn lemma_members_cons(field: Field, others: Seq<Field>)
    requires
        others.len() > 0,
    ensures
        members_text(seq![field] + others) == lead(field.key) + field.text + seq![',']
            + members_text(others),
{
    let fields = seq![field] + others;
    assert(fields.drop_first() =~= others);
    assert(members_text(fields) =~= lead(field.key) + field.text + seq![','] + members_text(
        others,
    ));
}

/// One member alone.
proof fn lemma_members_one(field: Field)
    ensures
        members_text(seq![field]) == lead(field.key) + field.text + seq!['}'],
{
}

proof fn lemma_deliver_members(frame: ServerFrame)
    requires
        frame is Deliver,
    ensures
        frame.json() == seq!['{'] + members_text(fields_of(frame)),
{
    lemma_constant_parts();
    if let ServerFrame::Deliver { topic, id, payload } = frame {
        let last = Field {
            key: "payload"@,
            text: json_text(*payload),
            value: read_json(json_text(*payload))->0,
        };
        let op = text_field("op"@, "deliver"@);
        let about = text_field("topic"@, topic@);
        let end = match opt_text(id) {
            Some(text) => seq![text_field("id"@, text)] + seq![last],
            None => seq![last],
        };
        lemma_members_one(last);
        if let Some(text) = opt_text(id) {
            lemma_members_cons(text_field("id"@, text), seq![last]);
        }
        lemma_members_cons(about, end);
        lemma_members_cons(op, seq![about] + end);
        assert(fields_of(frame) =~= seq![op] + (seq![about] + end));
        assert(frame.json() =~= seq!['{'] + members_text(fields_of(frame)));
    }
}

proof fn lemma_ack_members(frame: ServerFrame)
    requires
        frame is Ack,
    ensures
        frame.json() == seq!['{'] + members_text(fields_of(frame)),
{
    lemma_constant_parts();
    if let ServerFrame::Ack { topic, id } = frame {
        let op = text_field("op"@, "ack"@);
        let about = text_field("topic"@, topic@);
        let end = match opt_text(id) {
            Some(text) => seq![about] + seq![text_field("id"@, text)],
            None => seq![about],
        };
        match opt_text(id) {
            Some(text) => {
                lemma_members_one(text_field("id"@, text));
                lemma_members_cons(about, seq![text_field("id"@, text)]);
            },
            None => {
                lemma_members_one(about);
            },
        }
        lemma_members_cons(op, end);
        assert(fields_of(frame) =~= seq![op] + end);
        assert(frame.json() =~= seq!['{'] + members_text(fields_of(frame)));
    }
}

proof fn lemma_error_members(frame: ServerFrame)
    requires
        frame is Error,
    ensures
        frame.json() == seq!['{'] + members_text(fields_of(frame)),
{
    lemma_constant_parts();
    if let ServerFrame::Error { code, message, id } = frame {
        let op = text_field("op"@, "error"@);
        let short = text_field("code"@, code@);
        let long = text_field("message"@, message@);
        let end = match opt_text(id) {
            Some(text) => seq![long] + seq![text_field("id"@, text)],
            None => seq![long],
        };
        match opt_text(id) {
            Some(text) => {
                lemma_members_one(text_field("id"@, text));
                lemma_members_cons(long, seq![text_field("id"@, text)]);
            },
            None => {
                lemma_members_one(long);
            },
        }
        lemma_members_cons(short, end);
        lemma_members_cons(op, seq![short] + end);
        assert(fields_of(frame) =~= seq![op] + (seq![short] + end));
        assert(frame.json() =~= seq!['{'] + members_text(fields_of(frame)));
    }
}

/// Whether the field holds a string.
spec fn is_text_field(field: Field) -> bool {
    field.value matches Json::Text(text) && field.text == json_string(text)
}

proof fn lemma_fields_stand(frame: ServerFrame)
    requires
        frame matches ServerFrame::Deliver { payload, .. } ==> is_json(json_text(*payload)),
    ensures
        fields_of(frame).len() > 0,
        forall|i: int|
            0 <= i < fields_of(frame).len() ==> stands_for(
                (#[trigger] fields_of(frame)[i]).text,
                fields_of(frame)[i].value,
            ),
{
    let fields = fields_of(frame);
    if let ServerFrame::Deliver { payload, .. } = frame {
        lemma_value_stands(json_text(*payload));
        assert(fields.last().text == json_text(*payload));
        assert forall|i: int| 0 <= i < fields.len() - 1 implies is_text_field(
            #[trigger] fields[i],
        ) by {}
    } else {
        assert forall|i: int| 0 <= i < fields.len() implies is_text_field(
            #[trigger] fields[i],
        ) by {}
    }
    assert forall|i: int| 0 <= i < fields.len() implies stands_for(
        (#[trigger] fields[i]).text,
        fields[i].value,
    ) by {
        if is_text_field(fields[i]) {
            lemma_string_stands(fields[i].value->Text_0);
        }
    }
}

proof fn lemma_entries(frame: ServerFrame)
    ensures
        Json::Object(entries(fields_of(frame))) == frame.object(),
{
    let members = frame.object()->Object_0;
    assert(entries(fields_of(frame)) =~= members);
}

/// All of a frame can be read back from its text: read as JSON, the text is one object, its
/// `op` names the kind of frame, and its other members are exactly the frame's own, with
/// the values that the frame has; an `id` is there exactly if the frame has one.
pub proof fn law_frames_read_back(frame: ServerFrame)
    requires
        frame matches ServerFrame::Deliver { payload, .. } ==> is_json(json_text(*payload)),
    ensures
        read_json(frame.json()) == Some(frame.object()),
{
    match frame {
        ServerFrame::Deliver { .. } => {
            lemma_deliver_members(frame);
        },
        ServerFrame::Ack { .. } => {
            lemma_ack_members(frame);
        },
        ServerFrame::Error { .. } => {
            lemma_error_members(frame);
        },
    }
    lemma_fields_stand(frame);
    lemma_entries(frame);
    lemma_object_reads(fields_of(frame));
}

} // verus!
