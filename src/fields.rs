use vstd::prelude::*;

use crate::config::FieldValue;

verus! {

/// Lexicographic order on field names, character by character.
pub open spec fn key_lt(a: Seq<char>, b: Seq<char>) -> bool
    decreases a.len(),
{
    if a.len() == 0 {
        b.len() > 0
    } else if b.len() == 0 {
        false
    } else if a[0] != b[0] {
        a[0] < b[0]
    } else {
        key_lt(a.drop_first(), b.drop_first())
    }
}

pub proof fn lemma_key_lt_irreflexive(a: Seq<char>)
    ensures
        !key_lt(a, a),
    decreases a.len(),
{
    if a.len() > 0 {
        lemma_key_lt_irreflexive(a.drop_first());
    }
}

pub proof fn lemma_key_lt_total(a: Seq<char>, b: Seq<char>)
    ensures
        a != b ==> key_lt(a, b) || key_lt(b, a),
    decreases a.len(),
{
    if a.len() > 0 && b.len() > 0 && a[0] == b[0] {
        lemma_key_lt_total(a.drop_first(), b.drop_first());
        if a.drop_first() == b.drop_first() {
            assert(a =~= seq![a[0]] + a.drop_first());
            assert(b =~= seq![b[0]] + b.drop_first());
        }
    } else if a.len() == 0 && b.len() == 0 {
        assert(a =~= b);
    }
}

pub proof fn lemma_key_lt_transitive(a: Seq<char>, b: Seq<char>, c: Seq<char>)
    requires
        key_lt(a, b),
        key_lt(b, c),
    ensures
        key_lt(a, c),
    decreases a.len(),
{
    if a.len() > 0 && b.len() > 0 && c.len() > 0 && a[0] == b[0] && b[0] == c[0] {
        lemma_key_lt_transitive(a.drop_first(), b.drop_first(), c.drop_first());
    }
}

/// Whether the entries are in strictly increasing key order, which also
/// makes their keys distinct.
pub open spec fn sorted_by_key<V>(s: Seq<(Seq<char>, V)>) -> bool {
    forall|i: int, j: int| 0 <= i < j < s.len() ==> key_lt(#[trigger] s[i].0, #[trigger] s[j].0)
}

pub open spec fn has_key<V>(s: Seq<(Seq<char>, V)>, k: Seq<char>) -> bool {
    exists|i: int| 0 <= i < s.len() && s[i].0 == k
}

/// The mapping that inserting each entry in turn builds: a later entry
/// replaces an earlier one with the same key.
pub open spec fn merged<V>(s: Seq<(Seq<char>, V)>) -> Map<Seq<char>, V>
    decreases s.len(),
{
    if s.len() == 0 {
        Map::empty()
    } else {
        merged(s.drop_last()).insert(s.last().0, s.last().1)
    }
}

pub open spec fn entry_view<V>(e: (String, V)) -> (Seq<char>, V) {
    (e.0@, e.1)
}

pub open spec fn entries_view<V>(v: Seq<(String, V)>) -> Seq<(Seq<char>, V)> {
    v.map_values(|e: (String, V)| entry_view(e))
}

/// Of entries in key order, the merged mapping holds exactly their keys,
/// each with its own value.
pub proof fn lemma_merged_sorted<V>(s: Seq<(Seq<char>, V)>)
    requires
        sorted_by_key(s),
    ensures
        forall|i: int|
            0 <= i < s.len() ==> #[trigger] merged(s).contains_key(s[i].0) && merged(s)[s[i].0]
                == s[i].1,
        forall|k: Seq<char>| #[trigger] merged(s).contains_key(k) ==> has_key(s, k),
    decreases s.len(),
{
    if s.len() > 0 {
        let p = s.drop_last();
        assert forall|a: int, b: int| 0 <= a < b < p.len() implies key_lt(
            #[trigger] p[a].0,
            #[trigger] p[b].0,
        ) by {
            assert(key_lt(s[a].0, s[b].0));
        }
        lemma_merged_sorted(p);
        assert forall|i: int| 0 <= i < s.len() implies #[trigger] merged(s).contains_key(s[i].0)
            && merged(s)[s[i].0] == s[i].1 by {
            assert(merged(s) == merged(p).insert(s.last().0, s.last().1));
            if i < s.len() - 1 {
                assert(p[i] == s[i]);
                assert(merged(p).contains_key(p[i].0));
                assert(key_lt(s[i].0, s[s.len() - 1].0));
                lemma_key_lt_irreflexive(s[i].0);
            }
        }
        assert forall|k: Seq<char>| #[trigger] merged(s).contains_key(k) implies has_key(s, k) by {
            if k == s.last().0 {
                assert(s[s.len() - 1].0 == k);
            } else {
                assert(merged(p).contains_key(k));
                let j = choose|j: int| 0 <= j < p.len() && p[j].0 == k;
                assert(s[j].0 == k);
            }
        }
    }
}

/// Whether `a` is before `b` in character order.
pub fn key_less(a: &str, b: &str) -> (r: bool)
    ensures
        r == key_lt(a@, b@),
{
    let la = a.unicode_len();
    let lb = b.unicode_len();
    let mut i: usize = 0;
    assert(a@.skip(0) =~= a@);
    assert(b@.skip(0) =~= b@);
    while i < la && i < lb
        invariant
            i <= la,
            i <= lb,
            la == a@.len(),
            lb == b@.len(),
            key_lt(a@, b@) == key_lt(a@.skip(i as int), b@.skip(i as int)),
        decreases la - i,
    {
        let ca = a.get_char(i);
        let cb = b.get_char(i);
        if ca != cb {
            return ca < cb;
        }
        assert(a@.skip(i as int).drop_first() =~= a@.skip(i + 1));
        assert(b@.skip(i as int).drop_first() =~= b@.skip(i + 1));
        i = i + 1;
    }
    i < lb
}

/// Fields kept in increasing key order, each key once.
pub struct FieldMap<V> {
    entries: Vec<(String, V)>,
}

impl<V> View for FieldMap<V> {
    type V = Seq<(Seq<char>, V)>;

    closed spec fn view(&self) -> Seq<(Seq<char>, V)> {
        entries_view(self.entries@)
    }
}

impl<V> FieldMap<V> {
    pub open spec fn wf(&self) -> bool {
        sorted_by_key(self@)
    }

    pub fn new() -> (r: Self)
        ensures
            r.wf(),
            r@ == Seq::<(Seq<char>, V)>::empty(),
    {
        let r = FieldMap { entries: Vec::new() };
        assert(r@ =~= Seq::<(Seq<char>, V)>::empty());
        r
    }

    pub fn len(&self) -> (r: usize)
        ensures
            r == self@.len(),
    {
        self.entries.len()
    }

    /// Sets `key` to `value`, replacing what it held before.
    pub fn insert(&mut self, key: String, value: V)
        requires
            old(self).wf(),
        ensures
            final(self).wf(),
            merged(final(self)@) == merged(old(self)@).insert(key@, value),
    {
        let ghost s = self@;
        let ghost k = key@;
        let n = self.entries.len();
        let mut i: usize = 0;
        loop
            invariant
                i <= n,
                n == self.entries@.len(),
                k == key@,
                self@ == s,
                sorted_by_key(s),
                forall|j: int| 0 <= j < i ==> key_lt(#[trigger] s[j].0, k),
            ensures
                i <= n,
                self@ == s,
                forall|j: int| 0 <= j < i ==> key_lt(#[trigger] s[j].0, k),
                i < n ==> !key_lt(s[i as int].0, k),
            decreases n - i,
        {
            if i >= n {
                break;
            }
            let cur: &str = self.entries[i].0.as_str();
            let probe: &str = key.as_str();
            assert(cur@ == s[i as int].0);
            assert(probe@ == k);
            if !key_less(cur, probe) {
                break;
            }
            assert(key_lt(s[i as int].0, k));
            i = i + 1;
        }
        let same = i < n && self.entries[i].0 == key;
        assert(i < n ==> (same <==> s[i as int].0 == k));
        let ghost e = (k, value);
        if same {
            self.entries.set(i, (key, value));
            let ghost t = self@;
            proof {
                assert(t =~= s.update(i as int, e));
                assert forall|a: int, b: int| 0 <= a < b < t.len() implies key_lt(
                    #[trigger] t[a].0,
                    #[trigger] t[b].0,
                ) by {
                    assert(key_lt(s[a].0, s[b].0));
                }
                lemma_merged_sorted(s);
                lemma_merged_sorted(t);
                let m = merged(s).insert(k, value);
                assert forall|kk: Seq<char>| #[trigger]
                    merged(t).contains_key(kk) <==> m.contains_key(kk) by {
                    if merged(t).contains_key(kk) {
                        let j = choose|j: int| 0 <= j < t.len() && t[j].0 == kk;
                        assert(s[j].0 == kk);
                    }
                    if merged(s).contains_key(kk) {
                        let j = choose|j: int| 0 <= j < s.len() && s[j].0 == kk;
                        assert(t[j].0 == kk);
                    }
                    if kk == k {
                        assert(t[i as int].0 == kk);
                    }
                }
                assert forall|kk: Seq<char>| #[trigger]
                    merged(t).contains_key(kk) implies merged(t)[kk] == m[kk] by {
                    let j = choose|j: int| 0 <= j < t.len() && t[j].0 == kk;
                    assert(t[j].0 == kk);
                    assert(merged(t).contains_key(t[j].0));
                    if j != i {
                        assert(s[j] == t[j]);
                        assert(merged(s).contains_key(s[j].0));
                    }
                }
                assert(merged(t) =~= m);
            }
        } else {
            self.entries.insert(i, (key, value));
            let ghost t = self@;
            proof {
                assert(t =~= s.insert(i as int, e));
                if i < n {
                    lemma_key_lt_total(s[i as int].0, k);
                }
                assert forall|j: int| i <= j < n implies key_lt(k, #[trigger] s[j].0) by {
                    if j > i {
                        lemma_key_lt_transitive(k, s[i as int].0, s[j].0);
                    }
                }
                assert forall|j: int| 0 <= j < n implies #[trigger] s[j].0 != k by {
                    lemma_key_lt_irreflexive(k);
                }
                assert forall|a: int, b: int| 0 <= a < b < t.len() implies key_lt(
                    #[trigger] t[a].0,
                    #[trigger] t[b].0,
                ) by {
                    if b < i {
                        assert(key_lt(s[a].0, s[b].0));
                    } else if b == i {
                    } else if a < i {
                        assert(key_lt(s[a].0, s[b - 1].0));
                    } else if a == i {
                    } else {
                        assert(key_lt(s[a - 1].0, s[b - 1].0));
                    }
                }
                lemma_merged_sorted(s);
                lemma_merged_sorted(t);
                let m = merged(s).insert(k, value);
                assert forall|kk: Seq<char>| #[trigger]
                    merged(t).contains_key(kk) <==> m.contains_key(kk) by {
                    if merged(t).contains_key(kk) {
                        let j = choose|j: int| 0 <= j < t.len() && t[j].0 == kk;
                        if j < i {
                            assert(s[j].0 == kk);
                        } else if j > i {
                            assert(s[j - 1].0 == kk);
                        }
                    }
                    if merged(s).contains_key(kk) {
                        let j = choose|j: int| 0 <= j < s.len() && s[j].0 == kk;
                        if j < i {
                            assert(t[j].0 == kk);
                        } else {
                            assert(t[j + 1].0 == kk);
                        }
                    }
                    if kk == k {
                        assert(t[i as int].0 == kk);
                    }
                }
                assert forall|kk: Seq<char>| #[trigger]
                    merged(t).contains_key(kk) implies merged(t)[kk] == m[kk] by {
                    let j = choose|j: int| 0 <= j < t.len() && t[j].0 == kk;
                    assert(t[j].0 == kk);
                    assert(merged(t).contains_key(t[j].0));
                    if j < i {
                        assert(s[j] == t[j]);
                        assert(merged(s).contains_key(s[j].0));
                    } else if j > i {
                        assert(s[j - 1] == t[j]);
                        assert(merged(s).contains_key(s[j - 1].0));
                    }
                }
                assert(merged(t) =~= m);
            }
        }
    }

    /// Whether some entry has `key`.
    pub fn contains_key(&self, key: &str) -> (r: bool)
        ensures
            r == merged(self@).contains_key(key@),
    {
        proof {
            lemma_merged_domain(self@, key@);
        }
        let n = self.entries.len();
        let mut i: usize = 0;
        while i < n
            invariant
                n == self.entries@.len(),
                i <= n,
                self@.len() == n,
                forall|j: int| 0 <= j < i ==> #[trigger] self@[j].0 != key@,
            decreases n - i,
        {
            let cur: &str = self.entries[i].0.as_str();
            assert(cur@ == self@[i as int].0);
            if !key_less(cur, key) && !key_less(key, cur) {
                proof {
                    lemma_key_lt_total(cur@, key@);
                    assert(self@[i as int].0 == key@);
                    assert(has_key(self@, key@));
                    lemma_merged_domain(self@, key@);
                }
                return true;
            }
            proof {
                lemma_key_lt_irreflexive(key@);
            }
            i = i + 1;
        }
        false
    }

    /// The entries, in increasing key order.
    pub fn into_entries(self) -> (r: Vec<(String, V)>)
        ensures
            entries_view(r@) == self@,
    {
        self.entries
    }

    pub fn entries(&self) -> (r: &Vec<(String, V)>)
        ensures
            entries_view(r@) == self@,
    {
        &self.entries
    }
}


/// Keys in strict order are pairwise distinct.
pub proof fn lemma_sorted_keys_distinct<V>(s: Seq<(Seq<char>, V)>, i: int, j: int)
    requires
        sorted_by_key(s),
        0 <= i < s.len(),
        0 <= j < s.len(),
        i != j,
    ensures
        s[i].0 != s[j].0,
{
    lemma_key_lt_irreflexive(s[i].0);
    if i < j {
        assert(key_lt(s[i].0, s[j].0));
    } else {
        assert(key_lt(s[j].0, s[i].0));
    }
}

/// A key is in the merged mapping exactly when some entry has it.
pub proof fn lemma_merged_domain<V>(s: Seq<(Seq<char>, V)>, k: Seq<char>)
    ensures
        merged(s).contains_key(k) <==> has_key(s, k),
    decreases s.len(),
{
    if s.len() > 0 {
        let p = s.drop_last();
        lemma_merged_domain(p, k);
        if has_key(p, k) {
            let j = choose|j: int| 0 <= j < p.len() && p[j].0 == k;
            assert(s[j].0 == k);
        }
        if has_key(s, k) && k != s.last().0 {
            let j = choose|j: int| 0 <= j < s.len() && s[j].0 == k;
            assert(p[j].0 == k);
        }
    }
}

/// Merging `a` then `b`: every key of `b` takes its value from `b`, and
/// every other key keeps the one from `a`.
pub proof fn lemma_merged_append<V>(a: Seq<(Seq<char>, V)>, b: Seq<(Seq<char>, V)>, k: Seq<char>)
    ensures
        merged(a + b).contains_key(k) <==> merged(a).contains_key(k) || merged(b).contains_key(
            k,
        ),
        merged(b).contains_key(k) ==> merged(a + b)[k] == merged(b)[k],
        !merged(b).contains_key(k) && merged(a).contains_key(k) ==> merged(a + b)[k]
            == merged(a)[k],
    decreases b.len(),
{
    if b.len() == 0 {
        assert(a + b =~= a);
    } else {
        let q = b.drop_last();
        assert((a + b).drop_last() =~= a + q);
        assert((a + b).last() == b.last());
        lemma_merged_append(a, q, k);
    }
}

/// Whatever fields precede them, a key among the user fields takes the value
/// that the user fields give it.
pub proof fn lemma_user_field_wins<V>(
    computed: Seq<(Seq<char>, V)>,
    user: Seq<(Seq<char>, V)>,
    k: Seq<char>,
)
    requires
        has_key(user, k),
    ensures
        merged(computed + user).contains_key(k),
        merged(computed + user)[k] == merged(user)[k],
{
    lemma_merged_domain(user, k);
    lemma_merged_append(computed, user, k);
}

proof fn lemma_merged_push<V>(a: Seq<(Seq<char>, V)>, x: (Seq<char>, V))
    ensures
        merged(a.push(x)) == merged(a).insert(x.0, x.1),
{
    assert(a.push(x).drop_last() =~= a);
}

/// Inserts each of `entries` into `map`, in order.
pub fn insert_all<V>(map: &mut FieldMap<V>, entries: Vec<(String, V)>)
    requires
        old(map).wf(),
    ensures
        final(map).wf(),
        merged(final(map)@) == merged(old(map)@ + entries_view(entries@)),
{
    let ghost base = map@;
    let ghost all = entries_view(entries@);
    let mut rest = entries;
    let ghost mut done: int = 0;
    while rest.len() > 0
        invariant
            map.wf(),
            0 <= done <= all.len(),
            entries_view(rest@) == all.skip(done),
            merged(map@) == merged(base + all.take(done)),
        decreases rest@.len(),
    {
        let ghost before = rest@;
        let (k, v) = rest.remove(0);
        proof {
            assert(entries_view(before).len() == before.len());
            assert(done < all.len());
            assert(entries_view(before)[0] == entry_view(before[0]));
            assert(all.skip(done)[0] == all[done]);
            assert(all[done] == entry_view(before[0]));
            assert forall|j: int| 0 <= j < rest@.len() implies entries_view(rest@)[j] == all.skip(
                done + 1,
            )[j] by {
                assert(rest@[j] == before[j + 1]);
                assert(entries_view(before)[j + 1] == entry_view(before[j + 1]));
                assert(all.skip(done)[j + 1] == all.skip(done + 1)[j]);
            }
            assert(entries_view(rest@) =~= all.skip(done + 1));
            lemma_merged_push(base + all.take(done), all[done]);
            assert((base + all.take(done)).push(all[done]) =~= base + all.take(done + 1));
        }
        map.insert(k, v);
        proof {
            done = done + 1;
        }
    }
    proof {
        assert(all.skip(done).len() == 0);
        assert(all.take(done) =~= all);
    }
}

/// Version recorded in the `version` field.
pub const VERSION: &'static str = "0.1.0";

/// The computed fields, in their fixed order (process id, executable name,
/// version), with `version_text` as the version's string.
pub open spec fn computed_fields(
    include_pid: bool,
    pid: u32,
    include_exe: bool,
    exe_name: Option<String>,
    include_version: bool,
    version_text: String,
) -> Seq<(Seq<char>, FieldValue)> {
    let p = if include_pid {
        seq![("pid"@, FieldValue::U64(pid as u64))]
    } else {
        Seq::empty()
    };
    let e = match exe_name {
        Some(n) if include_exe => seq![("exe"@, FieldValue::Str(n))],
        _ => Seq::empty(),
    };
    let v = if include_version {
        seq![("version"@, FieldValue::Str(version_text))]
    } else {
        Seq::empty()
    };
    p + e + v
}

/// The fields attached to every event: the computed ones that are switched
/// on (the executable name only where it is known), then `user` in order, a
/// later field replacing an earlier one with the same key; the result is in
/// key order.
pub fn build_base_fields(
    include_pid: bool,
    pid: u32,
    include_exe: bool,
    exe_name: Option<String>,
    include_version: bool,
    user: Vec<(String, FieldValue)>,
) -> (r: Vec<(String, FieldValue)>)
    ensures
        sorted_by_key(entries_view(r@)),
        exists|version_text: String|
            version_text@ == VERSION@ && merged(entries_view(r@)) == merged(
                computed_fields(
                    include_pid,
                    pid,
                    include_exe,
                    exe_name,
                    include_version,
                    version_text,
                ) + entries_view(user@),
            ),
{
    let mut computed: Vec<(String, FieldValue)> = Vec::new();
    if include_pid {
        computed.push(("pid".to_owned(), FieldValue::U64(pid as u64)));
    }
    let ghost exe0 = exe_name;
    if include_exe {
        if let Some(n) = exe_name {
            computed.push(("exe".to_owned(), FieldValue::Str(n)));
        }
    }
    let version_text = VERSION.to_owned();
    let ghost vt = version_text;
    if include_version {
        computed.push(("version".to_owned(), FieldValue::Str(version_text)));
    }
    proof {
        reveal_strlit("pid");
        reveal_strlit("exe");
        reveal_strlit("version");
        assert(entries_view(computed@) =~= computed_fields(
            include_pid,
            pid,
            include_exe,
            exe0,
            include_version,
            vt,
        ));
    }
    let ghost cv = entries_view(computed@);
    let mut user = user;
    let ghost uv = entries_view(user@);
    computed.append(&mut user);
    let mut map: FieldMap<FieldValue> = FieldMap::new();
    proof {
        assert(entries_view(computed@) =~= cv + uv);
    }
    insert_all(&mut map, computed);
    proof {
        assert(Seq::<(Seq<char>, FieldValue)>::empty() + (cv + uv) =~= cv + uv);
    }
    let r = map.into_entries();
    proof {
        assert(vt@ == VERSION@);
    }
    r
}

} // verus!
