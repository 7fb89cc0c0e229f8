use vstd::prelude::*;

use crate::config::FieldValue;
use crate::fields::{entries_view, entry_view};

verus! {

pub open spec fn digit_char(d: nat) -> char {
    seq!['0', '1', '2', '3', '4', '5', '6', '7', '8', '9'][d as int]
}

/// Decimal digits of `n`, without leading zeros.
pub open spec fn decimal(n: nat) -> Seq<char>
    decreases n,
{
    if n < 10 {
        seq![digit_char(n)]
    } else {
        decimal(n / 10).push(digit_char(n % 10))
    }
}

/// Decimal text of `n`, with a minus sign when negative.
pub open spec fn signed_decimal(n: int) -> Seq<char> {
    if n < 0 {
        seq!['-'] + decimal((-n) as nat)
    } else {
        decimal(n as nat)
    }
}

pub open spec fn hex_digit(n: nat) -> char {
    seq!['0', '1', '2', '3', '4', '5', '6', '7', '8', '9', 'a', 'b', 'c', 'd', 'e', 'f'][n as int]
}

/// How serde_json writes one character inside a string literal: quote and
/// backslash behind a backslash, the five short control escapes, other
/// control characters as `\u00XX` in lower-case hex, everything else as it
/// stands.
pub open spec fn escape_char(c: char) -> Seq<char> {
    if c == '"' {
        seq!['\\', '"']
    } else if c == '\\' {
        seq!['\\', '\\']
    } else if c == '\u{8}' {
        seq!['\\', 'b']
    } else if c == '\u{c}' {
        seq!['\\', 'f']
    } else if c == '\n' {
        seq!['\\', 'n']
    } else if c == '\r' {
        seq!['\\', 'r']
    } else if c == '\t' {
        seq!['\\', 't']
    } else if 0 <= (c as int) && (c as int) < 0x20 {
        seq!['\\', 'u', '0', '0', hex_digit(((c as int) / 16) as nat), hex_digit(((c as int) % 16) as nat)]
    } else {
        seq![c]
    }
}

pub open spec fn escaped(s: Seq<char>) -> Seq<char>
    decreases s.len(),
{
    if s.len() == 0 {
        Seq::empty()
    } else {
        escaped(s.drop_last()) + escape_char(s.last())
    }
}

/// The JSON string literal that serde_json writes for `s`, quotes included.
pub open spec fn json_string_of(s: Seq<char>) -> Seq<char> {
    seq!['"'] + escaped(s) + seq!['"']
}

/// Relies on serde_json's `Display` for `Value::String`: the characters of
/// `s` between quotes, each escaped as [`escape_char`] says (serde_json's
/// `format_escaped_str_contents` and its `ESCAPE` table).
#[verifier::external_body]
fn json_string(s: &str) -> (r: String)
    ensures
        r@ == json_string_of(s@),
{
    serde_json::Value::String(s.to_owned()).to_string()
}

/// Relies on serde_json's `Display` for an unsigned number: its decimal
/// digits.
#[verifier::external_body]
fn json_u64(n: u64) -> (r: String)
    ensures
        r@ == decimal(n as nat),
{
    serde_json::Value::from(n).to_string()
}

/// Relies on serde_json's `Display` for a signed number: its decimal
/// digits, after a minus sign when negative.
#[verifier::external_body]
fn json_i64(n: i64) -> (r: String)
    ensures
        r@ == signed_decimal(n as int),
{
    serde_json::Value::from(n).to_string()
}

pub open spec fn is_digit(c: char) -> bool {
    '0' <= c && c <= '9'
}

/// One step of a recogniser for JSON number text
/// (`-? (0 | [1-9][0-9]*) (. [0-9]+)? ([eE] [+-]? [0-9]+)?`). States: 0 start,
/// 1 after the sign, 2 after a leading zero, 3 in the integer digits, 4
/// after the point, 5 in the fraction, 6 after the exponent mark, 7 after
/// its sign, 8 in the exponent digits, 9 rejected.
pub open spec fn number_step(st: u8, c: char) -> u8 {
    if st == 0 && c == '-' {
        1
    } else if (st == 0 || st == 1) && c == '0' {
        2
    } else if (st == 0 || st == 1) && '1' <= c && c <= '9' {
        3
    } else if (st == 3 || st == 5 || st == 8) && is_digit(c) {
        st
    } else if (st == 2 || st == 3) && c == '.' {
        4
    } else if (st == 4) && is_digit(c) {
        5
    } else if (st == 2 || st == 3 || st == 5) && (c == 'e' || c == 'E') {
        6
    } else if st == 6 && (c == '+' || c == '-') {
        7
    } else if (st == 6 || st == 7) && is_digit(c) {
        8
    } else {
        9
    }
}

/// The recogniser's state after reading `s` from state `st`.
pub open spec fn number_run(st: u8, s: Seq<char>) -> u8
    decreases s.len(),
{
    if s.len() == 0 {
        st
    } else {
        number_step(number_run(st, s.drop_last()), s.last())
    }
}

pub open spec fn number_scan(s: Seq<char>) -> u8 {
    number_run(0, s)
}

proof fn lemma_number_run_append(st: u8, a: Seq<char>, b: Seq<char>)
    ensures
        number_run(st, a + b) == number_run(number_run(st, a), b),
    decreases b.len(),
{
    if b.len() == 0 {
        assert(a + b =~= a);
    } else {
        assert((a + b).drop_last() =~= a + b.drop_last());
        lemma_number_run_append(st, a, b.drop_last());
    }
}

proof fn lemma_digit_char(d: nat)
    requires
        d < 10,
    ensures
        is_digit(digit_char(d)),
        digit_char(d) == '0' <==> d == 0,
{
    if d == 0 {
    } else if d == 1 {
    } else if d == 2 {
    } else if d == 3 {
    } else if d == 4 {
    } else if d == 5 {
    } else if d == 6 {
    } else if d == 7 {
    } else if d == 8 {
    } else {
    }
}

proof fn lemma_decimal_number(st: u8, n: nat)
    requires
        st == 0 || st == 1,
    ensures
        number_run(st, decimal(n)) == (if n == 0 {
            2u8
        } else {
            3u8
        }),
    decreases n,
{
    if n < 10 {
        lemma_digit_char(n);
        assert(decimal(n).drop_last() =~= Seq::<char>::empty());
        assert(number_run(st, Seq::<char>::empty()) == st);
        assert(decimal(n).last() == digit_char(n));
        assert(number_run(st, decimal(n)) == number_step(st, digit_char(n)));
    } else {
        lemma_decimal_number(st, n / 10);
        lemma_digit_char(n % 10);
        assert(decimal(n).drop_last() =~= decimal(n / 10));
        assert(decimal(n).last() == digit_char(n % 10));
        assert(number_run(st, decimal(n)) == number_step(3, digit_char(n % 10)));
    }
}

/// Decimal digits, with or without a minus sign, form a JSON number.
pub proof fn lemma_decimals_are_numbers(n: int)
    ensures
        is_json_number(signed_decimal(n)),
{
    if n < 0 {
        let m = (-n) as nat;
        lemma_number_run_append(0, seq!['-'], decimal(m));
        assert(seq!['-'].drop_last() =~= Seq::<char>::empty());
        assert(number_run(0, Seq::<char>::empty()) == 0);
        assert(number_run(0, seq!['-']) == 1);
        lemma_decimal_number(1, m);
        assert(signed_decimal(n) == seq!['-'] + decimal(m));
    } else {
        lemma_decimal_number(0, n as nat);
    }
}

/// Whether `s` holds no line feed.
pub open spec fn no_newline(s: Seq<char>) -> bool {
    forall|i: int| 0 <= i < s.len() ==> s[i] != '\n'
}

proof fn lemma_no_newline_concat(a: Seq<char>, b: Seq<char>)
    requires
        no_newline(a),
        no_newline(b),
    ensures
        no_newline(a + b),
{
    assert forall|i: int| 0 <= i < (a + b).len() implies (a + b)[i] != '\n' by {
        if i >= a.len() {
            assert((a + b)[i] == b[i - a.len()]);
        }
    }
}

proof fn lemma_hex_digit(n: nat)
    requires
        n < 16,
    ensures
        hex_digit(n) != '\n',
{
    if n < 4 {
    } else if n < 8 {
    } else if n < 12 {
    } else {
    }
}

proof fn lemma_escaped_no_newline(s: Seq<char>)
    ensures
        no_newline(escaped(s)),
    decreases s.len(),
{
    if s.len() > 0 {
        lemma_escaped_no_newline(s.drop_last());
        let c = s.last();
        if 0 <= (c as int) && (c as int) < 0x20 {
            lemma_hex_digit(((c as int) / 16) as nat);
            lemma_hex_digit(((c as int) % 16) as nat);
        }
        assert(no_newline(escape_char(c)));
        lemma_no_newline_concat(escaped(s.drop_last()), escape_char(c));
    }
}

/// A string literal written by serde_json spans one line.
pub proof fn lemma_json_string_one_line(s: Seq<char>)
    ensures
        no_newline(json_string_of(s)),
{
    lemma_escaped_no_newline(s);
    lemma_no_newline_concat(seq!['"'], escaped(s));
    lemma_no_newline_concat(seq!['"'] + escaped(s), seq!['"']);
}

proof fn lemma_number_rejects_newline(st: u8, s: Seq<char>)
    requires
        !no_newline(s),
    ensures
        number_run(st, s) == 9,
    decreases s.len(),
{
    if s.last() != '\n' {
        let i = choose|i: int| 0 <= i < s.len() && s[i] == '\n';
        assert(s.drop_last()[i] == '\n');
        lemma_number_rejects_newline(st, s.drop_last());
    }
}

/// A JSON value text spans one line.
pub proof fn lemma_value_text_one_line(t: Seq<char>)
    requires
        is_json_value_text(t),
    ensures
        no_newline(t),
{
    if t == "true"@ || t == "false"@ {
        reveal_strlit("true");
        reveal_strlit("false");
    } else if is_json_number(t) {
        if !no_newline(t) {
            lemma_number_rejects_newline(0, t);
        }
    } else {
        let s = choose|s: Seq<char>| t == json_string_of(s);
        lemma_json_string_one_line(s);
    }
}

/// An object whose members hold JSON values spans one line.
pub proof fn lemma_object_one_line(s: Seq<(Seq<char>, Seq<char>)>)
    requires
        forall|i: int| 0 <= i < s.len() ==> is_json_value_text(#[trigger] s[i].1),
    ensures
        no_newline(object_text(s)),
{
    lemma_members_one_line(s);
    reveal_strlit("{");
    reveal_strlit("}");
    lemma_no_newline_concat("{"@, members_text(s));
    lemma_no_newline_concat("{"@ + members_text(s), "}"@);
}

proof fn lemma_members_one_line(s: Seq<(Seq<char>, Seq<char>)>)
    requires
        forall|i: int| 0 <= i < s.len() ==> is_json_value_text(#[trigger] s[i].1),
    ensures
        no_newline(members_text(s)),
    decreases s.len(),
{
    reveal_strlit(":");
    reveal_strlit(",");
    if s.len() > 0 {
        let l = s.last();
        assert(is_json_value_text(s[s.len() - 1].1));
        lemma_value_text_one_line(l.1);
        lemma_json_string_one_line(l.0);
        lemma_no_newline_concat(json_string_of(l.0), ":"@);
        lemma_no_newline_concat(json_string_of(l.0) + ":"@, l.1);
        if s.len() > 1 {
            let p = s.drop_last();
            assert forall|i: int| 0 <= i < p.len() implies is_json_value_text(#[trigger] p[i].1) by {
                assert(p[i] == s[i]);
            }
            lemma_members_one_line(p);
            lemma_no_newline_concat(members_text(p), ","@);
            lemma_no_newline_concat(members_text(p) + ","@, member_text(l));
        } else {
            assert(s[0] == l);
        }
    }
}

/// The forms of JSON value that a field renders to: a string literal, a
/// number, `true` or `false`.
pub open spec fn is_json_value_text(t: Seq<char>) -> bool {
    ||| t == "true"@
    ||| t == "false"@
    ||| is_json_number(t)
    ||| exists|s: Seq<char>| t == json_string_of(s)
}

/// Every field value renders to a JSON value.
pub proof fn lemma_value_text_is_json(v: FieldValue)
    ensures
        is_json_value_text(json_value_text(v)),
{
    match v {
        FieldValue::Str(s) => {
            assert(json_value_text(v) == json_string_of(s@));
        },
        FieldValue::Text(s) => {
            assert(json_value_text(v) == json_string_of(s@));
        },
        FieldValue::Float(t) => {
            if !is_json_number(t@) {
                assert(json_value_text(v) == json_string_of(t@));
            }
        },
        FieldValue::I64(n) => {
            lemma_decimals_are_numbers(n as int);
        },
        FieldValue::U64(n) => {
            lemma_decimals_are_numbers(n as int);
        },
        FieldValue::Bool(_) => {},
    }
}

/// Whether `s` is a JSON number.
pub open spec fn is_json_number(s: Seq<char>) -> bool {
    let st = number_scan(s);
    st == 2 || st == 3 || st == 5 || st == 8
}

fn number_step_exec(st: u8, c: char) -> (r: u8)
    ensures
        r == number_step(st, c),
{
    if st == 0 && c == '-' {
        1
    } else if (st == 0 || st == 1) && c == '0' {
        2
    } else if (st == 0 || st == 1) && '1' <= c && c <= '9' {
        3
    } else if (st == 3 || st == 5 || st == 8) && '0' <= c && c <= '9' {
        st
    } else if (st == 2 || st == 3) && c == '.' {
        4
    } else if (st == 4) && '0' <= c && c <= '9' {
        5
    } else if (st == 2 || st == 3 || st == 5) && (c == 'e' || c == 'E') {
        6
    } else if st == 6 && (c == '+' || c == '-') {
        7
    } else if (st == 6 || st == 7) && '0' <= c && c <= '9' {
        8
    } else {
        9
    }
}

/// Decides [`is_json_number`].
pub fn check_json_number(s: &str) -> (r: bool)
    ensures
        r == is_json_number(s@),
{
    let n = s.unicode_len();
    let mut st: u8 = 0;
    let mut i: usize = 0;
    while i < n
        invariant
            n == s@.len(),
            i <= n,
            st == number_run(0, s@.take(i as int)),
        decreases n - i,
    {
        let c = s.get_char(i);
        proof {
            assert(s@.take(i + 1).drop_last() =~= s@.take(i as int));
        }
        st = number_step_exec(st, c);
        i = i + 1;
    }
    proof {
        assert(s@.take(n as int) =~= s@);
    }
    st == 2 || st == 3 || st == 5 || st == 8
}

/// The JSON text of a field value: strings and renderings quoted, numbers
/// and booleans bare; float text that is not a JSON number is quoted.
pub open spec fn json_value_text(v: FieldValue) -> Seq<char> {
    match v {
        FieldValue::Str(s) => json_string_of(s@),
        FieldValue::Bool(b) => if b {
            "true"@
        } else {
            "false"@
        },
        FieldValue::I64(n) => signed_decimal(n as int),
        FieldValue::U64(n) => decimal(n as nat),
        FieldValue::Float(t) => if is_json_number(t@) {
            t@
        } else {
            json_string_of(t@)
        },
        FieldValue::Text(t) => json_string_of(t@),
    }
}

/// Renders a field value as JSON text.
pub fn render_value(v: &FieldValue) -> (r: String)
    ensures
        r@ == json_value_text(*v),
{
    match v {
        FieldValue::Str(s) => json_string(s.as_str()),
        FieldValue::Bool(b) => {
            if *b {
                "true".to_owned()
            } else {
                "false".to_owned()
            }
        },
        FieldValue::I64(n) => json_i64(*n),
        FieldValue::U64(n) => json_u64(*n),
        FieldValue::Float(t) => {
            if check_json_number(t.as_str()) {
                t.clone()
            } else {
                json_string(t.as_str())
            }
        },
        FieldValue::Text(t) => json_string(t.as_str()),
    }
}

/// Renders a string as a quoted JSON literal.
pub fn render_string(s: &str) -> (r: String)
    ensures
        r@ == json_string_of(s@),
{
    json_string(s)
}

/// Renders an unsigned integer as JSON text.
pub fn render_u64(n: u64) -> (r: String)
    ensures
        r@ == decimal(n as nat),
{
    json_u64(n)
}

/// Entries with each value replaced by its JSON text.
pub open spec fn rendered(s: Seq<(Seq<char>, FieldValue)>) -> Seq<(Seq<char>, Seq<char>)> {
    s.map_values(|e: (Seq<char>, FieldValue)| (e.0, json_value_text(e.1)))
}

/// The text of one object member: quoted key, colon, value text.
pub open spec fn member_text(e: (Seq<char>, Seq<char>)) -> Seq<char> {
    json_string_of(e.0) + ":"@ + e.1
}

/// Members separated by commas.
pub open spec fn members_text(s: Seq<(Seq<char>, Seq<char>)>) -> Seq<char>
    decreases s.len(),
{
    if s.len() == 0 {
        Seq::empty()
    } else if s.len() == 1 {
        member_text(s[0])
    } else {
        members_text(s.drop_last()) + ","@ + member_text(s.last())
    }
}

/// A compact JSON object with the members in the given order.
pub open spec fn object_text(s: Seq<(Seq<char>, Seq<char>)>) -> Seq<char> {
    "{"@ + members_text(s) + "}"@
}

/// Entries whose values are strings, seen as character sequences.
pub open spec fn text_view(s: Seq<(Seq<char>, String)>) -> Seq<(Seq<char>, Seq<char>)> {
    s.map_values(|e: (Seq<char>, String)| (e.0, e.1@))
}

/// Renders members, each value being JSON text already, as one compact
/// JSON object.
pub fn render_object(entries: &Vec<(String, String)>) -> (r: String)
    ensures
        r@ == object_text(text_view(entries_view(entries@))),
{
    let ghost s = text_view(entries_view(entries@));
    let mut body = String::new();
    let n = entries.len();
    let mut i: usize = 0;
    while i < n
        invariant
            n == entries@.len(),
            s.len() == n,
            i <= n,
            s == text_view(entries_view(entries@)),
            body@ == members_text(s.take(i as int)),
        decreases n - i,
    {
        let (k, v) = &entries[i];
        proof {
            assert(entries_view(entries@)[i as int] == entry_view(entries@[i as int]));
            assert(s[i as int] == (k@, v@));
            assert(s.take(i + 1).drop_last() =~= s.take(i as int));
            reveal_strlit(",");
            reveal_strlit(":");
        }
        if i > 0 {
            body.append(",");
        }
        let key = json_string(k.as_str());
        body.append(key.as_str());
        body.append(":");
        body.append(v.as_str());
        proof {
            if i == 0 {
                assert(body@ =~= member_text(s.take(1)[0]));
            } else {
                assert(body@ =~= members_text(s.take(i as int)) + ","@ + member_text(s[i as int]));
            }
        }
        i = i + 1;
    }
    proof {
        assert(s.take(n as int) =~= s);
        reveal_strlit("{");
        reveal_strlit("}");
    }
    let mut out = "{".to_owned();
    out.append(body.as_str());
    out.append("}");
    out
}

} // verus!
