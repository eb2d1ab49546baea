//! A JSON value the library's logic can read: messages, envelopes, node configs. Numbers keep the
//! integer kinds the logic reads (`UInt`, `Int`); any other number is carried as its decimal text in
//! `Float`, which the logic never inspects. Objects are ordered `(key, value)` lists; a lookup reads
//! the first entry with the key, and `insert` replaces that entry in place or appends.
use vstd::prelude::*;

verus! {

/// A JSON value.
#[derive(Debug)]
pub enum Json {
    Null,
    Bool(bool),
    /// A non-negative integer.
    UInt(u64),
    /// A negative integer.
    Int(i64),
    /// Any other number, as its decimal text.
    Float(String),
    Str(String),
    Array(Vec<Json>),
    Object(Vec<(String, Json)>),
}

/// The value stored under `k` in an object's entries (the first entry with that key).
pub open spec fn lookup(entries: Seq<(String, Json)>, k: Seq<char>) -> Option<Json>
    decreases entries.len(),
{
    if entries.len() == 0 {
        None
    } else if entries[0].0@ == k {
        Some(entries[0].1)
    } else {
        lookup(entries.drop_first(), k)
    }
}

/// The index of the first entry with key `k`, if any.
pub open spec fn key_index(entries: Seq<(String, Json)>, k: Seq<char>) -> Option<int>
    decreases entries.len(),
{
    if entries.len() == 0 {
        None
    } else if entries[0].0@ == k {
        Some(0)
    } else {
        match key_index(entries.drop_first(), k) {
            Some(i) => Some(i + 1),
            None => None,
        }
    }
}

/// `key_index` finds the first entry with the key, and `lookup` reads exactly that entry.
pub proof fn lemma_key_index(entries: Seq<(String, Json)>, k: Seq<char>)
    ensures
        match key_index(entries, k) {
            Some(i) => 0 <= i < entries.len() && entries[i].0@ == k && (forall|j: int|
                0 <= j < i ==> entries[j].0@ != k) && lookup(entries, k) == Some(entries[i].1),
            None => (forall|j: int| 0 <= j < entries.len() ==> entries[j].0@ != k) && lookup(
                entries,
                k,
            ).is_none(),
        },
    decreases entries.len(),
{
    if entries.len() > 0 && entries[0].0@ != k {
        let t = entries.drop_first();
        lemma_key_index(t, k);
        assert forall|j: int| 0 <= j < t.len() implies t[j] == entries[j + 1] by {}
        match key_index(t, k) {
            Some(i) => {
                assert forall|j: int| 0 <= j < i + 1 implies entries[j].0@ != k by {
                    if j > 0 {
                        assert(entries[j] == t[j - 1]);
                    }
                }
            },
            None => {
                assert forall|j: int| 0 <= j < entries.len() implies entries[j].0@ != k by {
                    if j > 0 {
                        assert(entries[j] == t[j - 1]);
                    }
                }
            },
        }
    }
}

/// If no entry before `i` carries key `k` and entry `i` does, `lookup` reads entry `i`.
pub proof fn lemma_lookup_at(entries: Seq<(String, Json)>, k: Seq<char>, i: int)
    requires
        0 <= i < entries.len(),
        entries[i].0@ == k,
        forall|j: int| 0 <= j < i ==> entries[j].0@ != k,
    ensures
        lookup(entries, k) == Some(entries[i].1),
        key_index(entries, k) == Some(i),
    decreases i,
{
    if i > 0 {
        let t = entries.drop_first();
        assert forall|j: int| 0 <= j < i - 1 implies t[j].0@ != k by {
            assert(t[j] == entries[j + 1]);
        }
        lemma_lookup_at(t, k, i - 1);
    }
}

/// Looking up in entries with one more entry at the end: the old entries win.
pub proof fn lemma_lookup_push(entries: Seq<(String, Json)>, e: (String, Json), k: Seq<char>)
    ensures
        lookup(entries.push(e), k) == match lookup(entries, k) {
            Some(v) => Some(v),
            None => if e.0@ == k {
                Some(e.1)
            } else {
                None
            },
        },
    decreases entries.len(),
{
    let p = entries.push(e);
    if entries.len() > 0 {
        assert(p[0] == entries[0]);
        let t = entries.drop_first();
        assert(p.drop_first() =~= t.push(e));
        lemma_lookup_push(t, e, k);
        if entries[0].0@ == k {
            assert(lookup(p, k) == Some(entries[0].1));
            assert(lookup(entries, k) == Some(entries[0].1));
        } else {
            assert(lookup(p, k) == lookup(t.push(e), k));
            assert(lookup(entries, k) == lookup(t, k));
        }
    } else {
        assert(p[0] == e);
        assert(p.drop_first() =~= Seq::<(String, Json)>::empty());
        assert(lookup(entries, k).is_none());
        if e.0@ == k {
            assert(lookup(p, k) == Some(e.1));
        } else {
            assert(lookup(p, k) == lookup(p.drop_first(), k));
        }
    }
}

/// The entries after replacing (or appending) the entry for `k`: every other key reads as before,
/// and `k` reads `v`.
pub open spec fn entries_insert(entries: Seq<(String, Json)>, k: String, v: Json) -> Seq<(String, Json)> {
    match key_index(entries, k@) {
        Some(i) => entries.update(i, (k, v)),
        None => entries.push((k, v)),
    }
}

/// Reading an inserted object: the new key reads the new value, every other key is unchanged.
pub proof fn lemma_insert_lookup(entries: Seq<(String, Json)>, k: String, v: Json, k2: Seq<char>)
    ensures
        lookup(entries_insert(entries, k, v), k2) == if k2 == k@ {
            Some(v)
        } else {
            lookup(entries, k2)
        },
{
    lemma_key_index(entries, k@);
    lemma_key_index(entries, k2);
    let r = entries_insert(entries, k, v);
    match key_index(entries, k@) {
        Some(i) => {
            assert forall|j: int| 0 <= j < r.len() && j != i implies r[j] == entries[j] by {}
            if k2 == k@ {
                lemma_lookup_at(r, k2, i);
            } else {
                lemma_key_index(r, k2);
                match key_index(entries, k2) {
                    Some(m) => {
                        lemma_lookup_at(r, k2, m);
                    },
                    None => {
                        match key_index(r, k2) {
                            Some(m) => {
                                assert(r[m] == entries[m]);
                                assert(false);
                            },
                            None => {},
                        }
                    },
                }
            }
        },
        None => {
            assert forall|j: int| 0 <= j < entries.len() implies r[j] == entries[j] by {}
            if k2 == k@ {
                lemma_lookup_at(r, k2, entries.len() as int);
            } else {
                lemma_key_index(r, k2);
                match key_index(entries, k2) {
                    Some(m) => {
                        lemma_lookup_at(r, k2, m);
                    },
                    None => {
                        match key_index(r, k2) {
                            Some(m) => {
                                if m < entries.len() {
                                    assert(r[m] == entries[m]);
                                }
                                assert(false);
                            },
                            None => {},
                        }
                    },
                }
            }
        },
    }
}

/// Look up `k` in an object's entries (the first entry with that key).
pub fn entries_get<'a>(entries: &'a Vec<(String, Json)>, k: &str) -> (r: Option<&'a Json>)
    ensures
        match r {
            Some(v) => lookup(entries@, k@) == Some(*v),
            None => lookup(entries@, k@).is_none(),
        },
{
    let mut i: usize = 0;
    while i < entries.len()
        invariant
            i <= entries.len(),
            forall|j: int| 0 <= j < i ==> entries@[j].0@ != k@,
        decreases entries.len() - i,
    {
        let (key, value) = &entries[i];
        if key.as_str().unicode_len() == k.unicode_len() && str_eq(key.as_str(), k) {
            proof {
                lemma_lookup_at(entries@, k@, i as int);
            }
            return Some(value);
        }
        i = i + 1;
    }
    proof {
        lemma_key_index(entries@, k@);
        match key_index(entries@, k@) {
            Some(m) => {
                assert(false);
            },
            None => {},
        }
    }
    None
}

/// Character-wise equality of two string slices.
pub fn str_eq(a: &str, b: &str) -> (r: bool)
    ensures
        r == (a@ == b@),
{
    let n = a.unicode_len();
    if n != b.unicode_len() {
        return false;
    }
    let mut i: usize = 0;
    while i < n
        invariant
            n == a@.len(),
            n == b@.len(),
            i <= n,
            forall|j: int| 0 <= j < i ==> a@[j] == b@[j],
        decreases n - i,
    {
        if a.get_char(i) != b.get_char(i) {
            return false;
        }
        i = i + 1;
    }
    assert(a@ =~= b@);
    true
}

/// Insert `(k, v)` into an object's entries: replace the first entry with key `k`, else append.
pub fn entries_insert_exec(entries: &mut Vec<(String, Json)>, k: String, v: Json)
    ensures
        final(entries)@ == entries_insert(old(entries)@, k, v),
{
    let mut i: usize = 0;
    while i < entries.len()
        invariant
            i <= entries.len(),
            entries@ == old(entries)@,
            forall|j: int| 0 <= j < i ==> entries@[j].0@ != k@,
        decreases entries.len() - i,
    {
        if str_eq(entries[i].0.as_str(), k.as_str()) {
            proof {
                lemma_lookup_at(entries@, k@, i as int);
            }
            entries.set(i, (k, v));
            return;
        }
        i = i + 1;
    }
    proof {
        lemma_key_index(entries@, k@);
    }
    entries.push((k, v));
}

/// Two values hold the same JSON: equal scalars, equal texts, and element-wise the same arrays and
/// objects (keys in the same order).
pub open spec fn same_json(a: Json, b: Json) -> bool
    decreases a,
{
    match a {
        Json::Null => b is Null,
        Json::Bool(x) => b == Json::Bool(x),
        Json::UInt(x) => b == Json::UInt(x),
        Json::Int(x) => b == Json::Int(x),
        Json::Float(s) => b matches Json::Float(t) && s@ == t@,
        Json::Str(s) => b matches Json::Str(t) && s@ == t@,
        Json::Array(x) => b matches Json::Array(y) && x.len() == y.len() && forall|i: int|
            0 <= i < x.len() ==> same_json(#[trigger] x[i], y[i]),
        Json::Object(x) => b matches Json::Object(y) && x.len() == y.len() && forall|i: int|
            0 <= i < x.len() ==> (#[trigger] x[i]).0@ == y[i].0@ && same_json(x[i].1, y[i].1),
    }
}

impl Json {
    /// A copy of this value.
    pub fn duplicate(&self) -> (r: Json)
        ensures
            same_json(*self, r),
        decreases self,
    {
        match self {
            Json::Null => Json::Null,
            Json::Bool(b) => Json::Bool(*b),
            Json::UInt(u) => Json::UInt(*u),
            Json::Int(i) => Json::Int(*i),
            Json::Float(s) => Json::Float(s.clone()),
            Json::Str(s) => Json::Str(s.clone()),
            Json::Array(v) => {
                let mut out: Vec<Json> = Vec::new();
                let mut i: usize = 0;
                while i < v.len()
                    invariant
                        i <= v.len(),
                        out.len() == i,
                        *self == Json::Array(*v),
                        forall|k: int| 0 <= k < i ==> same_json(#[trigger] v[k], out[k]),
                    decreases v.len() - i,
                {
                    proof {
                        vstd::std_specs::vec::axiom_vec_index_decreases(*v, i as int);
                        let ghost me: Json = *self;
                        assert(decreases_to!(me => me->Array_0));
                    }
                    let c = v[i].duplicate();
                    out.push(c);
                    i = i + 1;
                }
                Json::Array(out)
            },
            Json::Object(v) => {
                let mut out: Vec<(String, Json)> = Vec::new();
                let mut i: usize = 0;
                while i < v.len()
                    invariant
                        i <= v.len(),
                        out.len() == i,
                        *self == Json::Object(*v),
                        forall|k: int| 0 <= k < i ==> (#[trigger] v[k]).0@ == out[k].0@ && same_json(v[k].1, out[k].1),
                    decreases v.len() - i,
                {
                    proof {
                        vstd::std_specs::vec::axiom_vec_index_decreases(*v, i as int);
                        let ghost me: Json = *self;
                        assert(decreases_to!(me => me->Object_0));
                        assert(decreases_to!(v[i as int] => v[i as int].1));
                    }
                    let c = v[i].1.duplicate();
                    out.push((v[i].0.clone(), c));
                    i = i + 1;
                }
                Json::Object(out)
            },
        }
    }
}

/// The entries with every entry whose key is `k` removed, order kept.
pub open spec fn entries_without(entries: Seq<(String, Json)>, k: Seq<char>) -> Seq<(String, Json)> {
    entries.filter(|e: (String, Json)| e.0@ != k)
}

impl Json {
    /// The object entries of an object value.
    pub open spec fn entries(self) -> Option<Seq<(String, Json)>> {
        match self {
            Json::Object(m) => Some(m@),
            _ => None,
        }
    }

    /// `value.get(k)` for an object; `None` for every other value.
    pub open spec fn field(self, k: Seq<char>) -> Option<Json> {
        match self {
            Json::Object(m) => lookup(m@, k),
            _ => None,
        }
    }

    /// The string content of a string value.
    pub open spec fn str_view(self) -> Option<Seq<char>> {
        match self {
            Json::Str(s) => Some(s@),
            _ => None,
        }
    }

    /// `value.get(k)`: the field of an object.
    pub fn get(&self, k: &str) -> (r: Option<&Json>)
        ensures
            match r {
                Some(v) => self.field(k@) == Some(*v),
                None => self.field(k@).is_none(),
            },
    {
        match self {
            Json::Object(m) => entries_get(m, k),
            _ => None,
        }
    }

    /// `value.as_str()`.
    pub fn as_str(&self) -> (r: Option<&str>)
        ensures
            match r {
                Some(s) => self.str_view() == Some(s@),
                None => self.str_view().is_none(),
            },
    {
        match self {
            Json::Str(s) => Some(s.as_str()),
            _ => None,
        }
    }

    /// `value.as_u64()`: a non-negative integer.
    pub fn as_u64(&self) -> (r: Option<u64>)
        ensures
            r == (match self {
                Json::UInt(n) => Some(*n),
                _ => None::<u64>,
            }),
    {
        match self {
            Json::UInt(n) => Some(*n),
            _ => None,
        }
    }

    /// `value.as_bool()`.
    pub fn as_bool(&self) -> (r: Option<bool>)
        ensures
            r == (match self {
                Json::Bool(b) => Some(*b),
                _ => None::<bool>,
            }),
    {
        match self {
            Json::Bool(b) => Some(*b),
            _ => None,
        }
    }

    /// `value.is_null()`.
    pub fn is_null(&self) -> (r: bool)
        ensures
            r == (*self is Null),
    {
        match self {
            Json::Null => true,
            _ => false,
        }
    }
}

/// The string at `config[k]`, if that field is a string.
pub open spec fn str_field(config: Json, k: Seq<char>) -> Option<Seq<char>> {
    match config.field(k) {
        Some(v) => v.str_view(),
        None => None,
    }
}

/// The non-negative integer at `config[k]`, if that field is one.
pub open spec fn u64_field(config: Json, k: Seq<char>) -> Option<u64> {
    match config.field(k) {
        Some(Json::UInt(n)) => Some(n),
        _ => None,
    }
}

/// The boolean at `config[k]`, if that field is one.
pub open spec fn bool_field(config: Json, k: Seq<char>) -> Option<bool> {
    match config.field(k) {
        Some(Json::Bool(b)) => Some(b),
        _ => None,
    }
}

/// `config.get(k).and_then(as_str)`.
pub fn get_str<'a>(config: &'a Json, k: &str) -> (r: Option<&'a str>)
    ensures
        match r {
            Some(s) => str_field(*config, k@) == Some(s@),
            None => str_field(*config, k@).is_none(),
        },
{
    match config.get(k) {
        Some(v) => v.as_str(),
        None => None,
    }
}

/// `config.get(k).and_then(as_u64)`.
pub fn get_u64(config: &Json, k: &str) -> (r: Option<u64>)
    ensures
        r == u64_field(*config, k@),
{
    match config.get(k) {
        Some(v) => v.as_u64(),
        None => None,
    }
}

/// `config.get(k).and_then(as_bool)`.
pub fn get_bool(config: &Json, k: &str) -> (r: Option<bool>)
    ensures
        r == bool_field(*config, k@),
{
    match config.get(k) {
        Some(v) => v.as_bool(),
        None => None,
    }
}

/// Remove and return the value of the first entry with key `k`, keeping the other entries in order.
pub fn entries_take(entries: &mut Vec<(String, Json)>, k: &str) -> (r: Option<Json>)
    ensures
        r == lookup(old(entries)@, k@),
        match key_index(old(entries)@, k@) {
            Some(i) => final(entries)@ == old(entries)@.remove(i),
            None => final(entries)@ == old(entries)@,
        },
{
    let mut i: usize = 0;
    while i < entries.len()
        invariant
            i <= entries.len(),
            entries@ == old(entries)@,
            forall|j: int| 0 <= j < i ==> entries@[j].0@ != k@,
        decreases entries.len() - i,
    {
        if str_eq(entries[i].0.as_str(), k) {
            proof {
                lemma_lookup_at(entries@, k@, i as int);
            }
            let (_, v) = entries.remove(i);
            return Some(v);
        }
        i = i + 1;
    }
    proof {
        lemma_key_index(entries@, k@);
    }
    None
}

impl Json {
    /// Consume the value, returning the field `k` of an object (`None` for other values or a
    /// missing key).
    pub fn take_field(self, k: &str) -> (r: Option<Json>)
        ensures
            r == self.field(k@),
    {
        match self {
            Json::Object(mut m) => entries_take(&mut m, k),
            _ => None,
        }
    }

    /// `value[k]`: the field of an object, `Null` when absent or not an object.
    pub fn index_take(self, k: &str) -> (r: Json)
        ensures
            r == match self.field(k@) {
                Some(v) => v,
                None => Json::Null,
            },
    {
        match self.take_field(k) {
            Some(v) => v,
            None => Json::Null,
        }
    }

    /// A string value.
    pub fn string(s: &str) -> (r: Json)
        ensures
            r matches Json::Str(t) && t@ == s@,
    {
        Json::Str(String::from_str(s))
    }
}

/// A one-entry object `{k: v}`.
pub fn object1(k: &str, v: Json) -> (r: Json)
    ensures
        r matches Json::Object(m) && m@.len() == 1 && m@[0].0@ == k@ && m@[0].1 == v,
{
    let mut m: Vec<(String, Json)> = Vec::new();
    m.push((String::from_str(k), v));
    Json::Object(m)
}

/// Reading a one-entry object.
pub proof fn lemma_object1_field(r: Json, k: Seq<char>, v: Json, k2: Seq<char>)
    requires
        r matches Json::Object(m) && m@.len() == 1 && m@[0].0@ == k && m@[0].1 == v,
    ensures
        r.field(k2) == if k2 == k {
            Some(v)
        } else {
            None
        },
{
    match r {
        Json::Object(m) => {
            let e = m@;
            if k2 != k {
                assert(lookup(e.drop_first(), k2).is_none());
            }
        },
        _ => {},
    }
}

/// No key occurs twice among the entries.
pub open spec fn unique_keys(e: Seq<(String, Json)>) -> bool {
    forall|a: int, b: int| 0 <= a < b < e.len() ==> e[a].0@ != e[b].0@
}

/// Inserting into entries with distinct keys keeps them distinct.
pub proof fn lemma_insert_unique(e: Seq<(String, Json)>, k: String, v: Json)
    requires
        unique_keys(e),
    ensures
        unique_keys(entries_insert(e, k, v)),
{
    lemma_key_index(e, k@);
    let r = entries_insert(e, k, v);
    match key_index(e, k@) {
        Some(i) => {
            assert forall|a: int, b: int| 0 <= a < b < r.len() implies r[a].0@ != r[b].0@ by {
                if a != i && b != i {
                    assert(r[a] == e[a] && r[b] == e[b]);
                } else if a == i {
                    assert(r[b] == e[b]);
                } else {
                    assert(r[a] == e[a]);
                }
            }
        },
        None => {
            assert forall|a: int, b: int| 0 <= a < b < r.len() implies r[a].0@ != r[b].0@ by {
                assert(r[a] == e[a]);
                if b < e.len() {
                    assert(r[b] == e[b]);
                }
            }
        },
    }
}

/// The entries with every repeated key dropped after its first occurrence: the keys become
/// distinct and every key reads as before.
pub fn first_entries(entries: Vec<(String, Json)>) -> (r: Vec<(String, Json)>)
    ensures
        unique_keys(r@),
        forall|k: Seq<char>| #[trigger] lookup(r@, k) == lookup(entries@, k),
{
    let ghost g = entries@;
    let n = entries.len();
    let mut rest = entries;
    let mut out: Vec<(String, Json)> = Vec::new();
    let mut i: usize = 0;
    while i < n
        invariant
            n == g.len(),
            i <= n,
            rest@ == g.subrange(i as int, n as int),
            unique_keys(out@),
            forall|k: Seq<char>| #[trigger] lookup(out@, k) == lookup(g.subrange(0, i as int), k),
        decreases n - i,
    {
        let ghost pre = g.subrange(0, i as int);
        let ghost nxt = g.subrange(0, i + 1);
        assert(nxt =~= pre.push(g[i as int]));
        let e = rest.remove(0);
        assert(rest@ =~= g.subrange(i + 1, n as int));
        let present = entries_get(&out, e.0.as_str()).is_some();
        let ghost before = out@;
        if !present {
            out.push(e);
            proof {
                lemma_key_index(before, g[i as int].0@);
                assert forall|a: int, b: int| 0 <= a < b < out@.len() implies out@[a].0@ != out@[b].0@ by {
                    assert(out@[a] == before[a]);
                    if b < before.len() {
                        assert(out@[b] == before[b]);
                    }
                }
            }
        }
        proof {
            assert forall|k: Seq<char>| #[trigger] lookup(out@, k) == lookup(nxt, k) by {
                lemma_lookup_push(pre, g[i as int], k);
                if !present {
                    lemma_lookup_push(before, g[i as int], k);
                } else {
                    assert(lookup(before, g[i as int].0@).is_some());
                }
            }
        }
        i = i + 1;
    }
    assert(g.subrange(0, n as int) =~= g);
    out
}

} // verus!
