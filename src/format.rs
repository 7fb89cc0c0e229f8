use vstd::prelude::*;

use crate::config::FieldValue;
use crate::fields::{
    entries_view, entry_view, has_key, lemma_merged_domain, lemma_merged_sorted, merged,
    sorted_by_key, FieldMap,
};
use crate::filter::Level;
use crate::json::{
    decimal, is_json_value_text, json_string_of, json_value_text, lemma_decimals_are_numbers,
    lemma_object_one_line, lemma_value_text_is_json, no_newline, object_text, render_object, render_string, render_u64, render_value,
    rendered, text_view,
};

verus! {

/// One event to render.
#[derive(Clone, Debug)]
pub struct Event {
    pub level: Level,
    /// Milliseconds since the Unix epoch, `0` when the clock is unavailable.
    pub timestamp_ms: u64,
    /// The event's own fields, in the order they were recorded.
    pub fields: Vec<(String, FieldValue)>,
    /// The same fields as the plain format shows them.
    pub fields_text: String,
    /// Name of the scope current when the event was emitted, if any.
    pub span: Option<String>,
}

/// The event timestamp from the time since the Unix epoch in milliseconds:
/// `0` when the clock is unavailable, saturated at the largest `u64`.
pub fn timestamp_millis(elapsed_ms: Option<u128>) -> (r: u64)
    ensures
        r == match elapsed_ms {
            Some(m) => if m > u64::MAX as u128 {
                u64::MAX
            } else {
                m as u64
            },
            None => 0u64,
        },
{
    match elapsed_ms {
        Some(m) => {
            if m > u64::MAX as u128 {
                u64::MAX
            } else {
                m as u64
            }
        },
        None => 0,
    }
}

pub open spec fn level_name(l: Level) -> Seq<char> {
    match l {
        Level::Error => "ERROR"@,
        Level::Warn => "WARN"@,
        Level::Info => "INFO"@,
        Level::Debug => "DEBUG"@,
        Level::Trace => "TRACE"@,
    }
}

/// The colour code of each level.
pub open spec fn level_code(l: Level) -> Seq<char> {
    match l {
        Level::Error => "31"@,
        Level::Warn => "33"@,
        Level::Info => "32"@,
        Level::Debug => "34"@,
        Level::Trace => "90"@,
    }
}

pub open spec fn esc() -> char {
    '\x1b'
}

/// The level as the plain format writes it: its name, wrapped in a colour
/// escape and a reset when `color` is on.
pub open spec fn level_text(l: Level, color: bool) -> Seq<char> {
    if color {
        seq![esc(), '['] + level_code(l) + seq!['m'] + level_name(l) + seq![esc(), '[', '0', 'm']
    } else {
        level_name(l)
    }
}

/// The upper-case name of a level.
pub fn level_str(l: Level) -> (r: &'static str)
    ensures
        r@ == level_name(l),
{
    proof {
        reveal_strlit("ERROR");
        reveal_strlit("WARN");
        reveal_strlit("INFO");
        reveal_strlit("DEBUG");
        reveal_strlit("TRACE");
    }
    match l {
        Level::Error => "ERROR",
        Level::Warn => "WARN",
        Level::Info => "INFO",
        Level::Debug => "DEBUG",
        Level::Trace => "TRACE",
    }
}

/// The colour code of a level.
pub fn level_code_str(l: Level) -> (r: &'static str)
    ensures
        r@ == level_code(l),
{
    proof {
        reveal_strlit("31");
        reveal_strlit("33");
        reveal_strlit("32");
        reveal_strlit("34");
        reveal_strlit("90");
    }
    match l {
        Level::Error => "31",
        Level::Warn => "33",
        Level::Info => "32",
        Level::Debug => "34",
        Level::Trace => "90",
    }
}

/// Writes the level as the plain format shows it.
pub fn render_level(l: Level, color: bool) -> (r: String)
    ensures
        r@ == level_text(l, color),
{
    if color {
        let mut out = "\x1b[".to_owned();
        out.append(level_code_str(l));
        out.append("m");
        out.append(level_str(l));
        out.append("\x1b[0m");
        proof {
            reveal_strlit("\x1b[");
            reveal_strlit("m");
            reveal_strlit("\x1b[0m");
            assert(out@ =~= level_text(l, color));
        }
        out
    } else {
        level_str(l).to_owned()
    }
}

/// Base fields as the plain format appends them: ` key=value` each.
pub open spec fn pairs_text(s: Seq<(Seq<char>, Seq<char>)>) -> Seq<char>
    decreases s.len(),
{
    if s.len() == 0 {
        Seq::empty()
    } else {
        pairs_text(s.drop_last()) + seq![' '] + s.last().0 + seq!['='] + s.last().1
    }
}

/// Whether `s` holds no escape character.
pub open spec fn no_escape(s: Seq<char>) -> bool {
    forall|i: int| 0 <= i < s.len() ==> s[i] != esc()
}

proof fn lemma_no_escape_concat(a: Seq<char>, b: Seq<char>)
    requires
        no_escape(a),
        no_escape(b),
    ensures
        no_escape(a + b),
{
    assert forall|i: int| 0 <= i < (a + b).len() implies (a + b)[i] != esc() by {
        if i >= a.len() {
            assert((a + b)[i] == b[i - a.len()]);
        }
    }
}

proof fn lemma_pairs_no_escape(s: Seq<(Seq<char>, Seq<char>)>)
    requires
        forall|i: int| 0 <= i < s.len() ==> no_escape(#[trigger] s[i].0) && no_escape(s[i].1),
    ensures
        no_escape(pairs_text(s)),
    decreases s.len(),
{
    if s.len() > 0 {
        let p = s.drop_last();
        assert forall|i: int| 0 <= i < p.len() implies no_escape(#[trigger] p[i].0) && no_escape(
            p[i].1,
        ) by {
            assert(p[i] == s[i]);
        }
        lemma_pairs_no_escape(p);
        let l = s.last();
        assert(no_escape(l.0) && no_escape(l.1)) by {
            assert(s[s.len() - 1] == l);
        }
        lemma_no_escape_concat(pairs_text(p), seq![' ']);
        lemma_no_escape_concat(pairs_text(p) + seq![' '], l.0);
        lemma_no_escape_concat(pairs_text(p) + seq![' '] + l.0, seq!['=']);
        lemma_no_escape_concat(pairs_text(p) + seq![' '] + l.0 + seq!['='], l.1);
    }
}

/// Without colour a plain line holds no escape character, provided the
/// name, the event's field text, the scope name and the base fields' keys
/// and value texts hold none.
pub proof fn lemma_plain_uncolored_has_no_escape(f: PlainFormatter, e: Event)
    requires
        !f.color,
        no_escape(f.name@),
        no_escape(e.fields_text@),
        e.span matches Some(s) ==> no_escape(s@),
        forall|i: int|
            0 <= i < f.base_fields@.len() ==> no_escape(#[trigger] f.base_fields@[i].0@)
                && no_escape(json_value_text(f.base_fields@[i].1)),
    ensures
        no_escape(plain_line(f, e)),
{
    reveal_strlit("[");
    reveal_strlit("] ");
    reveal_strlit(" ");
    reveal_strlit(" span=");
    reveal_strlit("\n");
    reveal_strlit("ERROR");
    reveal_strlit("WARN");
    reveal_strlit("INFO");
    reveal_strlit("DEBUG");
    reveal_strlit("TRACE");
    let bs = rendered(entries_view(f.base_fields@));
    assert forall|i: int| 0 <= i < bs.len() implies no_escape(#[trigger] bs[i].0) && no_escape(
        bs[i].1,
    ) by {
        assert(entries_view(f.base_fields@)[i] == entry_view(f.base_fields@[i]));
        assert(no_escape(f.base_fields@[i].0@));
    }
    lemma_pairs_no_escape(bs);
    let lt = level_text(e.level, f.color);
    assert(no_escape(lt));
    assert(no_escape("["@));
    assert(no_escape("] "@));
    assert(no_escape(" "@));
    assert(no_escape("\n"@));
    assert(no_escape(span_suffix(f.span, e.span))) by {
        if let Some(s) = e.span {
            if f.span {
                assert(no_escape(" span="@));
                lemma_no_escape_concat(" span="@, s@);
            }
        }
    }
    lemma_no_escape_concat("["@, f.name@);
    lemma_no_escape_concat("["@ + f.name@, "] "@);
    lemma_no_escape_concat("["@ + f.name@ + "] "@, lt);
    lemma_no_escape_concat("["@ + f.name@ + "] "@ + lt, " "@);
    lemma_no_escape_concat("["@ + f.name@ + "] "@ + lt + " "@, e.fields_text@);
    lemma_no_escape_concat("["@ + f.name@ + "] "@ + lt + " "@ + e.fields_text@, pairs_text(bs));
    lemma_no_escape_concat(
        "["@ + f.name@ + "] "@ + lt + " "@ + e.fields_text@ + pairs_text(bs),
        span_suffix(f.span, e.span),
    );
    lemma_no_escape_concat(
        "["@ + f.name@ + "] "@ + lt + " "@ + e.fields_text@ + pairs_text(bs) + span_suffix(
            f.span,
            e.span,
        ),
        "\n"@,
    );
}

/// Renders one line per event as `[name] LEVEL fields base-fields[ span=..]`.
#[derive(Clone, Debug)]
pub struct PlainFormatter {
    pub name: String,
    pub color: bool,
    pub base_fields: Vec<(String, FieldValue)>,
    pub span: bool,
}

/// The scope annotation: present only when enabled and a scope is current.
pub open spec fn span_suffix(enabled: bool, span: Option<String>) -> Seq<char> {
    match span {
        Some(s) if enabled => " span="@ + s@,
        _ => Seq::empty(),
    }
}

pub open spec fn plain_line(f: PlainFormatter, e: Event) -> Seq<char> {
    "["@ + f.name@ + "] "@ + level_text(e.level, f.color) + " "@ + e.fields_text@ + pairs_text(
        rendered(entries_view(f.base_fields@)),
    ) + span_suffix(f.span, e.span) + "\n"@
}

impl PlainFormatter {
    /// The line for `e`, newline included.
    pub fn format_event(&self, e: &Event) -> (r: String)
        ensures
            r@ == plain_line(*self, *e),
    {
        proof {
            reveal_strlit("[");
            reveal_strlit("] ");
            reveal_strlit(" ");
            reveal_strlit(" span=");
            reveal_strlit("\n");
        }
        let mut out = "[".to_owned();
        out.append(self.name.as_str());
        out.append("] ");
        let lv = render_level(e.level, self.color);
        out.append(lv.as_str());
        out.append(" ");
        out.append(e.fields_text.as_str());
        let ghost head = out@;
        let ghost bs = rendered(entries_view(self.base_fields@));
        let n = self.base_fields.len();
        let mut i: usize = 0;
        while i < n
            invariant
                n == self.base_fields@.len(),
                bs == rendered(entries_view(self.base_fields@)),
                bs.len() == n,
                i <= n,
                out@ == head + pairs_text(bs.take(i as int)),
            decreases n - i,
        {
            let (k, v) = &self.base_fields[i];
            proof {
                assert(entries_view(self.base_fields@)[i as int] == entry_view(
                    self.base_fields@[i as int],
                ));
                assert(bs[i as int] == (k@, json_value_text(*v)));
                assert(bs.take(i + 1).drop_last() =~= bs.take(i as int));
                reveal_strlit("=");
            }
            out.append(" ");
            out.append(k.as_str());
            out.append("=");
            let t = render_value(v);
            out.append(t.as_str());
            proof {
                let t2 = bs.take(i + 1);
                assert(t2.last() == bs[i as int]);
                assert(pairs_text(t2) == pairs_text(t2.drop_last()) + seq![' '] + t2.last().0
                    + seq!['='] + t2.last().1);
                reveal_strlit(" ");
                reveal_strlit("=");
                assert(" "@ =~= seq![' ']);
                assert("="@ =~= seq!['=']);
                assert(out@ =~= head + pairs_text(bs.take(i + 1)));
            }
            i = i + 1;
        }
        proof {
            assert(bs.take(n as int) =~= bs);
        }
        if self.span {
            if let Some(s) = &e.span {
                out.append(" span=");
                out.append(s.as_str());
            }
        }
        out.append("\n");
        proof {
            assert(out@ =~= plain_line(*self, *e));
        }
        out
    }
}


/// Renders one JSON object per event.
#[derive(Clone, Debug)]
pub struct JsonFormatter {
    pub name: String,
    pub base_fields: Vec<(String, FieldValue)>,
    pub span: bool,
}

/// The members of an event's object, in the order they are set: timestamp,
/// level, name, the event's fields, the base fields, then the scope.
pub open spec fn json_members(f: JsonFormatter, e: Event) -> Seq<(Seq<char>, Seq<char>)> {
    seq![
        ("timestamp"@, decimal(e.timestamp_ms as nat)),
        ("level"@, json_string_of(level_name(e.level))),
        ("name"@, json_string_of(f.name@)),
    ] + rendered(entries_view(e.fields@)) + rendered(entries_view(f.base_fields@)) + span_members(
        f.span,
        e.span,
    )
}

/// The `span` member: present only when enabled and a scope is current.
pub open spec fn span_members(enabled: bool, span: Option<String>) -> Seq<(Seq<char>, Seq<char>)> {
    match span {
        Some(s) if enabled => seq![("span"@, json_string_of(s@))],
        _ => Seq::empty(),
    }
}

/// The object for an event: later members replace earlier ones with the
/// same key, and `message` is the empty string when nothing set it.
pub open spec fn json_record(f: JsonFormatter, e: Event) -> Map<Seq<char>, Seq<char>> {
    let m = merged(json_members(f, e));
    if m.contains_key("message"@) {
        m
    } else {
        m.insert("message"@, json_string_of(Seq::empty()))
    }
}

/// The object always has a `message` member; it is the empty string unless
/// some member set it.
pub proof fn lemma_json_message_present(f: JsonFormatter, e: Event)
    ensures
        json_record(f, e).contains_key("message"@),
        !has_key(json_members(f, e), "message"@) ==> json_record(f, e)["message"@]
            == json_string_of(Seq::empty()),
{
    lemma_merged_domain(json_members(f, e), "message"@);
}

proof fn lemma_merged_values_json(s: Seq<(Seq<char>, Seq<char>)>)
    requires
        forall|i: int| 0 <= i < s.len() ==> is_json_value_text(#[trigger] s[i].1),
    ensures
        forall|k: Seq<char>| #[trigger]
            merged(s).contains_key(k) ==> is_json_value_text(merged(s)[k]),
    decreases s.len(),
{
    if s.len() > 0 {
        let p = s.drop_last();
        assert forall|i: int| 0 <= i < p.len() implies is_json_value_text(#[trigger] p[i].1) by {
            assert(p[i] == s[i]);
        }
        lemma_merged_values_json(p);
        assert(is_json_value_text(s[s.len() - 1].1));
        assert(merged(s) == merged(p).insert(s.last().0, s.last().1));
        assert forall|k: Seq<char>| #[trigger]
            merged(s).contains_key(k) implies is_json_value_text(merged(s)[k]) by {
            if k != s.last().0 {
                assert(merged(p).contains_key(k));
            }
        }
    }
}

/// Every member of an event's object holds a JSON value: a string literal,
/// a number, `true` or `false`.
pub proof fn lemma_json_record_values(f: JsonFormatter, e: Event)
    ensures
        forall|k: Seq<char>| #[trigger]
            json_record(f, e).contains_key(k) ==> is_json_value_text(json_record(f, e)[k]),
{
    let ms = json_members(f, e);
    lemma_decimals_are_numbers(e.timestamp_ms as int);
    assert forall|i: int| 0 <= i < ms.len() implies is_json_value_text(#[trigger] ms[i].1) by {
        let fixed = seq![
            ("timestamp"@, decimal(e.timestamp_ms as nat)),
            ("level"@, json_string_of(level_name(e.level))),
            ("name"@, json_string_of(f.name@)),
        ];
        let ev = rendered(entries_view(e.fields@));
        let bv = rendered(entries_view(f.base_fields@));
        let sp = span_members(f.span, e.span);
        assert(ms == fixed + ev + bv + sp);
        if i < 3 {
            assert(ms[i] == fixed[i]);
            if i == 1 {
                assert(ms[i].1 == json_string_of(level_name(e.level)));
            } else if i == 2 {
                assert(ms[i].1 == json_string_of(f.name@));
            }
        } else if i < 3 + ev.len() {
            let j = i - 3;
            assert(ms[i] == ev[j]);
            assert(entries_view(e.fields@)[j] == entry_view(e.fields@[j]));
            lemma_value_text_is_json(e.fields@[j].1);
        } else if i < 3 + ev.len() + bv.len() {
            let j = i - 3 - ev.len();
            assert(ms[i] == bv[j]);
            assert(entries_view(f.base_fields@)[j] == entry_view(f.base_fields@[j]));
            lemma_value_text_is_json(f.base_fields@[j].1);
        } else {
            let j = i - 3 - ev.len() - bv.len();
            assert(ms[i] == sp[j]);
            if let Some(t) = e.span {
                assert(sp[j].1 == json_string_of(t@));
            }
        }
    }
    lemma_merged_values_json(ms);
    assert(is_json_value_text(json_string_of(Seq::empty())));
}

proof fn lemma_merged_text(s: Seq<(Seq<char>, String)>)
    ensures
        merged(text_view(s)) == merged(s).map_values(|v: String| v@),
    decreases s.len(),
{
    if s.len() == 0 {
        assert(merged(s).map_values(|v: String| v@) =~= Map::empty());
    } else {
        assert(text_view(s).drop_last() =~= text_view(s.drop_last()));
        lemma_merged_text(s.drop_last());
        assert(merged(text_view(s)) =~= merged(s).map_values(|v: String| v@));
    }
}

fn put(m: &mut FieldMap<String>, key: String, text: String)
    requires
        old(m).wf(),
    ensures
        final(m).wf(),
        merged(text_view(final(m)@)) == merged(text_view(old(m)@)).insert(key@, text@),
{
    let ghost before = m@;
    let ghost kv = key@;
    let ghost tv = text;
    m.insert(key, text);
    proof {
        lemma_merged_text(before);
        lemma_merged_text(m@);
        assert(merged(before).insert(kv, tv).map_values(|v: String| v@) =~= merged(
            before,
        ).map_values(|v: String| v@).insert(kv, tv@));
    }
}

fn put_fields(
    m: &mut FieldMap<String>,
    entries: &Vec<(String, FieldValue)>,
    Ghost(pre): Ghost<Seq<(Seq<char>, Seq<char>)>>,
)
    requires
        old(m).wf(),
        merged(text_view(old(m)@)) == merged(pre),
    ensures
        final(m).wf(),
        merged(text_view(final(m)@)) == merged(pre + rendered(entries_view(entries@))),
{
    let ghost all = rendered(entries_view(entries@));
    let n = entries.len();
    let mut i: usize = 0;
    while i < n
        invariant
            n == entries@.len(),
            all == rendered(entries_view(entries@)),
            all.len() == n,
            i <= n,
            m.wf(),
            merged(text_view(m@)) == merged(pre + all.take(i as int)),
        decreases n - i,
    {
        let (k, v) = &entries[i];
        proof {
            assert(entries_view(entries@)[i as int] == entry_view(entries@[i as int]));
            assert(all[i as int] == (k@, json_value_text(*v)));
        }
        let key = k.clone();
        let text = render_value(v);
        put(m, key, text);
        proof {
            assert((pre + all.take(i as int)).push(all[i as int]) =~= pre + all.take(i + 1));
            assert((pre + all.take(i + 1)).drop_last() =~= pre + all.take(i as int));
        }
        i = i + 1;
    }
    proof {
        assert(all.take(n as int) =~= all);
    }
}

impl JsonFormatter {
    /// The object for `e` on one line, newline included; members appear in
    /// key order.
    pub fn format_event(&self, e: &Event) -> (r: String)
        ensures
            exists|s: Seq<(Seq<char>, Seq<char>)>|
                sorted_by_key(s) && merged(s) == json_record(*self, *e) && (forall|i: int|
                    0 <= i < s.len() ==> is_json_value_text(#[trigger] s[i].1)) && no_newline(
                    object_text(s),
                ) && r@ == object_text(s) + "\n"@,
    {
        proof {
            reveal_strlit("timestamp");
            reveal_strlit("level");
            reveal_strlit("name");
            reveal_strlit("span");
            reveal_strlit("message");
            reveal_strlit("");
        }
        let mut m: FieldMap<String> = FieldMap::new();
        let ghost seen_none = Seq::<(Seq<char>, Seq<char>)>::empty();
        proof {
            assert(text_view(m@) =~= seen_none);
        }
        put(&mut m, "timestamp".to_owned(), render_u64(e.timestamp_ms));
        let ghost seen_time = seen_none.push(("timestamp"@, decimal(e.timestamp_ms as nat)));
        proof {
            assert(seen_time.drop_last() =~= seen_none);
            assert(merged(text_view(m@)) == merged(seen_time));
        }
        put(&mut m, "level".to_owned(), render_string(level_str(e.level)));
        let ghost seen_level = seen_time.push(("level"@, json_string_of(level_name(e.level))));
        proof {
            assert(seen_level.drop_last() =~= seen_time);
            assert(merged(text_view(m@)) == merged(seen_level));
        }
        put(&mut m, "name".to_owned(), render_string(self.name.as_str()));
        let ghost seen_name = seen_level.push(("name"@, json_string_of(self.name@)));
        proof {
            assert(seen_name.drop_last() =~= seen_level);
            assert(merged(text_view(m@)) == merged(seen_name));
        }
        put_fields(&mut m, &e.fields, Ghost(seen_name));
        let ghost seen_fields = seen_name + rendered(entries_view(e.fields@));
        put_fields(&mut m, &self.base_fields, Ghost(seen_fields));
        let ghost seen_base = seen_fields + rendered(entries_view(self.base_fields@));
        let ghost tail = span_members(self.span, e.span);
        if self.span {
            if let Some(s) = &e.span {
                put(&mut m, "span".to_owned(), render_string(s.as_str()));
                proof {
                    assert((seen_base + tail).drop_last() =~= seen_base);
                    assert(merged(text_view(m@)) == merged(seen_base + tail));
                }
            } else {
                assert(seen_base + tail =~= seen_base);
            }
        } else {
            assert(seen_base + tail =~= seen_base);
        }
        proof {
            assert(seen_base + tail =~= json_members(*self, *e));
            assert(merged(text_view(m@)) == merged(json_members(*self, *e)));
        }
        let ghost members = merged(json_members(*self, *e));
        let has_message = m.contains_key("message");
        proof {
            lemma_merged_text(m@);
            lemma_merged_domain(m@, "message"@);
            lemma_merged_domain(text_view(m@), "message"@);
            if has_key(m@, "message"@) {
                let j = choose|j: int| 0 <= j < m@.len() && m@[j].0 == "message"@;
                assert(text_view(m@)[j].0 == "message"@);
            }
            if has_key(text_view(m@), "message"@) {
                let j = choose|j: int| 0 <= j < text_view(m@).len() && text_view(m@)[j].0
                    == "message"@;
                assert(m@[j].0 == "message"@);
            }
        }
        if !has_message {
            put(&mut m, "message".to_owned(), render_string(""));
            proof {
                assert(""@ =~= Seq::<char>::empty());
            }
        }
        let ghost s = text_view(m@);
        proof {
            assert forall|a: int, b: int| 0 <= a < b < s.len() implies #[trigger] crate::fields::key_lt(
                s[a].0,
                s[b].0,
            ) by {
                assert(s[a].0 == m@[a].0);
                assert(s[b].0 == m@[b].0);
            }
        }
        let mut out = render_object(m.entries());
        out.append("\n");
        proof {
            reveal_strlit("\n");
            assert(merged(s) == json_record(*self, *e));
            lemma_json_record_values(*self, *e);
            lemma_merged_sorted(s);
            assert forall|i: int| 0 <= i < s.len() implies is_json_value_text(#[trigger] s[i].1) by {
                assert(merged(s).contains_key(s[i].0));
            }
            lemma_object_one_line(s);
        }
        out
    }
}

/// A formatter of either shape, fixed when logging is installed.
#[derive(Clone, Debug)]
pub enum Formatter {
    Plain(PlainFormatter),
    Json(JsonFormatter),
}

impl Formatter {
    /// The rendered line for `e`, by the variant's own rules.
    pub fn format_event(&self, e: &Event) -> (r: String)
        ensures
            match self {
                Formatter::Plain(f) => r@ == plain_line(*f, *e),
                Formatter::Json(f) => exists|s: Seq<(Seq<char>, Seq<char>)>|
                    sorted_by_key(s) && merged(s) == json_record(*f, *e) && (forall|i: int|
                        0 <= i < s.len() ==> is_json_value_text(#[trigger] s[i].1)) && no_newline(
                        object_text(s),
                    ) && r@ == object_text(s) + "\n"@,
            },
    {
        match self {
            Formatter::Plain(f) => f.format_event(e),
            Formatter::Json(f) => f.format_event(e),
        }
    }
}

} // verus!
