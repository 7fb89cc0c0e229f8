use vstd::prelude::*;

use tracing_subscriber::EnvFilter;

verus! {

/// tracing-subscriber's `EnvFilter`, carried through unopened.
#[verifier::external_type_specification]
#[verifier::external_body]
pub struct ExEnvFilter(EnvFilter);

/// The characters that `str::trim` removes: Unicode's White_Space set.
pub open spec fn is_white_space(c: char) -> bool {
    ('\u{9}' <= c && c <= '\u{d}') || c == ' ' || c == '\u{85}' || c == '\u{a0}' || c
        == '\u{1680}' || ('\u{2000}' <= c && c <= '\u{200a}') || c == '\u{2028}' || c
        == '\u{2029}' || c == '\u{202f}' || c == '\u{205f}' || c == '\u{3000}'
}

fn white_space(c: char) -> (r: bool)
    ensures
        r == is_white_space(c),
{
    ('\u{9}' <= c && c <= '\u{d}') || c == ' ' || c == '\u{85}' || c == '\u{a0}' || c
        == '\u{1680}' || ('\u{2000}' <= c && c <= '\u{200a}') || c == '\u{2028}' || c
        == '\u{2029}' || c == '\u{202f}' || c == '\u{205f}' || c == '\u{3000}'
}

/// Bytes that `c` takes in UTF-8.
pub open spec fn utf8_len(c: char) -> int {
    if (c as int) < 0x80 {
        1
    } else if (c as int) < 0x800 {
        2
    } else if (c as int) < 0x10000 {
        3
    } else {
        4
    }
}

fn utf8_len_exec(c: char) -> (r: u128)
    ensures
        r as int == utf8_len(c),
{
    if (c as u32) < 0x80 {
        1
    } else if (c as u32) < 0x800 {
        2
    } else if (c as u32) < 0x10000 {
        3
    } else {
        4
    }
}

/// Bytes that `s` takes in UTF-8.
pub open spec fn utf8_bytes(s: Seq<char>) -> int
    decreases s.len(),
{
    if s.len() == 0 {
        0
    } else {
        utf8_bytes(s.drop_last()) + utf8_len(s.last())
    }
}

/// Whether byte offset `x` falls between two characters of `p`.
pub open spec fn is_boundary(p: Seq<char>, x: int) -> bool
    decreases p.len(),
{
    if x == 0 {
        true
    } else if p.len() == 0 || x < utf8_len(p[0]) {
        false
    } else {
        is_boundary(p.drop_first(), x - utf8_len(p[0]))
    }
}

fn boundary(p: &str, x: u128) -> (r: bool)
    ensures
        r == is_boundary(p@, x as int),
{
    let n = p.unicode_len();
    let mut j: usize = 0;
    let mut rem: u128 = x;
    assert(p@.skip(0) =~= p@);
    while rem > 0 && j < n
        invariant
            n == p@.len(),
            j <= n,
            is_boundary(p@, x as int) == is_boundary(p@.skip(j as int), rem as int),
        decreases n - j,
    {
        let c = p.get_char(j);
        let l = utf8_len_exec(c);
        assert(p@.skip(j as int)[0] == c);
        if rem < l {
            return false;
        }
        assert(p@.skip(j as int).drop_first() =~= p@.skip(j + 1));
        rem = rem - l;
        j = j + 1;
    }
    if rem > 0 {
        assert(p@.skip(j as int).len() == 0);
    }
    rem == 0
}

/// Number of white-space characters that `p` begins with.
pub open spec fn lead_ws(p: Seq<char>) -> int
    decreases p.len(),
{
    if p.len() > 0 && is_white_space(p[0]) {
        1 + lead_ws(p.drop_first())
    } else {
        0
    }
}

/// Number of white-space characters that `p` ends with.
pub open spec fn trail_ws(p: Seq<char>) -> int
    decreases p.len(),
{
    if p.len() > 0 && is_white_space(p.last()) {
        1 + trail_ws(p.drop_last())
    } else {
        0
    }
}

/// `p` without white space at either end, as `str::trim` gives it.
pub open spec fn trimmed(p: Seq<char>) -> Seq<char> {
    if lead_ws(p) >= p.len() {
        Seq::empty()
    } else {
        p.subrange(lead_ws(p), p.len() - trail_ws(p))
    }
}

pub open spec fn is_ascii_alnum(c: char) -> bool {
    ('0' <= c && c <= '9') || ('a' <= c && c <= 'z') || ('A' <= c && c <= 'Z')
}

/// The parser's state while it walks a trimmed piece: its phase (0 start,
/// 1 level or target, 2 span, 3 field, 4 after fields, 5 after the span, 6
/// level), the offset where the current part began, whether it stopped
/// with an error, and whether it sliced inside a character.
pub type WalkState = (u8, int, bool, bool);

/// One character of the walk: `c` at byte offset `i` of the trimmed piece.
/// Every slice takes offsets of the trimmed piece and applies them to the
/// untrimmed piece `p`. A field match is taken to succeed, and a non-ASCII
/// first character to be alphanumeric.
pub open spec fn walk_step(p: Seq<char>, st: WalkState, c: char, i: int) -> WalkState {
    let (k, a, stopped, bad) = st;
    let cut = !is_boundary(p, a) || !is_boundary(p, i);
    if stopped || bad {
        st
    } else if k == 0 {
        if c == '[' {
            (2, i + 1, false, false)
        } else if (c as int) < 0x80 && !(c == '-' || c == ':' || c == '_' || is_ascii_alnum(c)) {
            (0, a, true, false)
        } else {
            (1, i, false, false)
        }
    } else if k == 1 && (c == '=' || c == '[') {
        if cut {
            (k, a, false, true)
        } else if c == '=' {
            (6, i + 1, false, false)
        } else {
            (2, i + 1, false, false)
        }
    } else if k == 2 && (c == ']' || c == '{') {
        if cut {
            (k, a, false, true)
        } else if c == ']' {
            (5, a, false, false)
        } else {
            (3, i + 1, false, false)
        }
    } else if k == 3 && c == '}' {
        if cut {
            (k, a, false, true)
        } else if a == i {
            (k, a, true, false)
        } else {
            (4, a, false, false)
        }
    } else if k == 4 {
        if c == ']' {
            (5, a, false, false)
        } else {
            (k, a, true, false)
        }
    } else if k == 5 {
        if c == '=' {
            (6, i + 1, false, false)
        } else {
            (k, a, true, false)
        }
    } else {
        st
    }
}

pub open spec fn walk(p: Seq<char>, t: Seq<char>) -> WalkState
    decreases t.len(),
{
    if t.len() == 0 {
        (0, 0, false, false)
    } else {
        walk_step(p, walk(p, t.drop_last()), t.last(), utf8_bytes(t.drop_last()))
    }
}

/// Whether tracing-subscriber's parser, given the comma-free piece `p`,
/// would slice it inside a character before it stops, if every field match
/// on the way succeeds. Such a piece is never accepted: the parser panics
/// on it or reports an error first.
pub open spec fn piece_cuts(p: Seq<char>) -> bool {
    let (k, a, stopped, bad) = walk(p, trimmed(p));
    bad || (!stopped && (k == 1 || k == 6) && !is_boundary(p, a))
}

/// The string as the pieces seen so far and the piece being read.
pub open spec fn split_scan(s: Seq<char>) -> (bool, Seq<char>)
    decreases s.len(),
{
    if s.len() == 0 {
        (true, Seq::empty())
    } else {
        let (ok, cur) = split_scan(s.drop_last());
        if s.last() == ',' {
            (ok && !piece_cuts(cur), Seq::empty())
        } else {
            (ok, cur.push(s.last()))
        }
    }
}

/// Whether tracing-subscriber's parser reads every comma-separated piece of
/// `s` without slicing inside a character (its parser takes offsets from
/// the trimmed piece and applies them to the untrimmed one).
pub open spec fn directives_readable(s: Seq<char>) -> bool {
    let (ok, cur) = split_scan(s);
    ok && !piece_cuts(cur)
}

fn walk_step_exec(p: &str, st: (u8, u128, bool, bool), c: char, i: u128) -> (r: (
    u8,
    u128,
    bool,
    bool,
))
    requires
        st.1 <= i,
        i + 1 < u128::MAX,
    ensures
        (r.0, r.1 as int, r.2, r.3) == walk_step(p@, (st.0, st.1 as int, st.2, st.3), c, i as int),
        r.1 <= i + 1,
{
    let (k, a, stopped, bad) = st;
    if stopped || bad {
        return st;
    }
    if k == 0 {
        if c == '[' {
            (2, i + 1, false, false)
        } else if (c as u32) < 0x80 && !(c == '-' || c == ':' || c == '_' || ('0' <= c && c
            <= '9') || ('a' <= c && c <= 'z') || ('A' <= c && c <= 'Z')) {
            (0, a, true, false)
        } else {
            (1, i, false, false)
        }
    } else if (k == 1 && (c == '=' || c == '[')) || (k == 2 && (c == ']' || c == '{')) || (k
        == 3 && c == '}') {
        let cut = !boundary(p, a) || !boundary(p, i);
        if cut {
            (k, a, false, true)
        } else if k == 1 && c == '=' {
            (6, i + 1, false, false)
        } else if k == 1 {
            (2, i + 1, false, false)
        } else if k == 2 && c == ']' {
            (5, a, false, false)
        } else if k == 2 {
            (3, i + 1, false, false)
        } else if a == i {
            (k, a, true, false)
        } else {
            (4, a, false, false)
        }
    } else if k == 4 {
        if c == ']' {
            (5, a, false, false)
        } else {
            (k, a, true, false)
        }
    } else if k == 5 {
        if c == '=' {
            (6, i + 1, false, false)
        } else {
            (k, a, true, false)
        }
    } else {
        st
    }
}

/// Decides [`piece_cuts`].
fn piece_cuts_exec(p: &str) -> (r: bool)
    ensures
        r == piece_cuts(p@),
{
    let n = p.unicode_len();
    let mut m: usize = 0;
    assert(p@.skip(0) =~= p@);
    loop
        invariant
            n == p@.len(),
            m <= n,
            lead_ws(p@) == m + lead_ws(p@.skip(m as int)),
        ensures
            m <= n,
            lead_ws(p@) == m,
            m < n ==> !is_white_space(p@[m as int]),
        decreases n - m,
    {
        if m >= n {
            assert(p@.skip(m as int).len() == 0);
            break;
        }
        let c = p.get_char(m);
        assert(p@.skip(m as int)[0] == c);
        if !white_space(c) {
            break;
        }
        assert(p@.skip(m as int).drop_first() =~= p@.skip(m + 1));
        m = m + 1;
    }
    if m >= n {
        return false;
    }
    let mut e: usize = n;
    assert(p@.take(n as int) =~= p@);
    loop
        invariant
            n == p@.len(),
            m < e <= n,
            !is_white_space(p@[m as int]),
            trail_ws(p@) == (n - e) + trail_ws(p@.take(e as int)),
        ensures
            m < e <= n,
            trail_ws(p@) == n - e,
        decreases e,
    {
        let c = p.get_char(e - 1);
        assert(p@.take(e as int).last() == c);
        if !white_space(c) {
            break;
        }
        assert(p@.take(e as int).drop_last() =~= p@.take(e - 1));
        e = e - 1;
    }
    let ghost t = p@.subrange(m as int, e as int);
    assert(trimmed(p@) == t);
    let mut st: (u8, u128, bool, bool) = (0, 0, false, false);
    let mut off: u128 = 0;
    let mut j: usize = m;
    assert(t.take(0) =~= Seq::<char>::empty());
    while j < e
        invariant
            n == p@.len(),
            m <= j <= e,
            e <= n,
            t == p@.subrange(m as int, e as int),
            off as int == utf8_bytes(t.take(j - m)),
            off <= 4 * (j - m),
            st.1 <= off,
            (st.0, st.1 as int, st.2, st.3) == walk(p@, t.take(j - m)),
        decreases e - j,
    {
        let c = p.get_char(j);
        proof {
            assert(t.take(j - m + 1).drop_last() =~= t.take(j - m));
            assert(t.take(j - m + 1).last() == c);
        }
        st = walk_step_exec(p, st, c, off);
        off = off + utf8_len_exec(c);
        j = j + 1;
    }
    assert(t.take(e - m) =~= t);
    let (k, a, stopped, bad) = st;
    bad || (!stopped && (k == 1 || k == 6) && !boundary(p, a))
}

/// Decides [`directives_readable`].
pub fn check_directives_readable(s: &str) -> (r: bool)
    ensures
        r == directives_readable(s@),
{
    let n = s.unicode_len();
    let mut ok = true;
    let mut a: usize = 0;
    let mut i: usize = 0;
    assert(s@.take(0) =~= Seq::<char>::empty());
    assert(s@.subrange(0, 0) =~= Seq::<char>::empty());
    while i < n
        invariant
            n == s@.len(),
            a <= i <= n,
            split_scan(s@.take(i as int)) == (ok, s@.subrange(a as int, i as int)),
        decreases n - i,
    {
        let c = s.get_char(i);
        proof {
            assert(s@.take(i + 1).drop_last() =~= s@.take(i as int));
            assert(s@.take(i + 1).last() == c);
        }
        if c == ',' {
            let piece = s.substring_char(a, i);
            ok = ok && !piece_cuts_exec(piece);
            a = i + 1;
            assert(s@.subrange(a as int, i + 1) =~= Seq::<char>::empty());
        } else {
            assert(s@.subrange(a as int, i as int).push(c) =~= s@.subrange(a as int, i + 1));
        }
        i = i + 1;
    }
    assert(s@.take(n as int) =~= s@);
    let piece = s.substring_char(a, n);
    ok && !piece_cuts_exec(piece)
}

/// Whether tracing-subscriber's directive grammar accepts `s` whole.
pub uninterp spec fn directives_accepted(s: Seq<char>) -> bool;

/// The text of the error that tracing-subscriber reports for `s`.
pub uninterp spec fn directive_error_of(s: Seq<char>) -> Seq<char>;

/// Relies on `EnvFilter::try_new`: a filter when every directive of `s`
/// parses, otherwise the parse error's text; both depend on `s` alone. Its
/// parser slices inside a character only on strings that are not
/// [`directives_readable`].
#[verifier::external_body]
fn parse_directives(s: &str) -> (r: Result<EnvFilter, String>)
    requires
        directives_readable(s@),
    ensures
        r is Ok <==> directives_accepted(s@),
        r matches Err(e) ==> e@ == directive_error_of(s@),
{
    EnvFilter::try_new(s).map_err(|e| e.to_string())
}

/// The five lower-case level names.
pub open spec fn is_level_name(s: Seq<char>) -> bool {
    s == "error"@ || s == "warn"@ || s == "info"@ || s == "debug"@ || s == "trace"@
}

/// Relies on `EnvFilter::new`: a filter from `s` that skips what does not
/// parse and never fails. It walks each piece with the same parser, so `s`
/// must be [`directives_readable`]; a level name is a single directive that
/// it reads as it stands.
#[verifier::external_body]
fn lenient_filter(s: &str) -> EnvFilter
    requires
        is_level_name(s@) || directives_readable(s@),
{
    EnvFilter::new(s)
}

/// A level filter together with the directive text it was built from.
pub struct Filter {
    inner: EnvFilter,
    source: Ghost<Seq<char>>,
}

impl Filter {
    /// The directive text this filter was built from.
    pub closed spec fn source(&self) -> Seq<char> {
        self.source@
    }

    /// Parses `s`, failing with the parser's text when a directive does not
    /// parse.
    pub fn parse(s: &str) -> (r: Result<Filter, String>)
        requires
            directives_readable(s@),
        ensures
            r is Ok <==> directives_accepted(s@),
            r matches Ok(f) ==> f.source() == s@,
            r matches Err(e) ==> e@ == directive_error_of(s@),
    {
        match parse_directives(s) {
            Ok(inner) => Ok(Filter { inner, source: Ghost(s@) }),
            Err(e) => Err(e),
        }
    }

    /// A filter from the directives of `s` that parse, the others skipped.
    pub fn lenient(s: &str) -> (r: Filter)
        requires
            directives_readable(s@),
        ensures
            r.source() == s@,
    {
        Filter { inner: lenient_filter(s), source: Ghost(s@) }
    }

    /// A filter that shows events of the level named `s` and more severe.
    pub fn for_level_name(s: &str) -> (r: Filter)
        requires
            is_level_name(s@),
        ensures
            r.source() == s@,
    {
        Filter { inner: lenient_filter(s), source: Ghost(s@) }
    }

    /// The tracing-subscriber filter, for installation.
    pub fn into_env_filter(self) -> EnvFilter {
        self.inner
    }
}

} // verus!
