//! The configuration tree: a key-ordered mapping from string keys to
//! JSON-like values, read from a user layer and a project layer.
use vstd::prelude::*;

verus! {

/// A configuration value. Array items that are strings are kept; any other
/// item stands as `None`. Numbers and nested objects are never read by the
/// resolution, so only their kind is kept.
#[derive(Clone, Debug)]
pub enum ConfigValue {
    Null,
    Bool(bool),
    Number,
    Str(String),
    Array(Vec<Option<String>>),
    Object,
}

/// A configuration tree: entries with distinct keys, in order.
pub struct ConfigTree {
    pub entries: Vec<(String, ConfigValue)>,
}

/// No two entries share a key.
pub open spec fn keys_distinct(e: Seq<(String, ConfigValue)>) -> bool {
    forall|i: int, j: int| 0 <= i < j < e.len() ==> e[i].0@ != e[j].0@
}

/// Whether some entry has key `k`.
pub open spec fn has_key(e: Seq<(String, ConfigValue)>, k: Seq<char>) -> bool {
    exists|i: int| 0 <= i < e.len() && e[i].0@ == k
}

/// The value stored under key `k`, if any.
pub open spec fn lookup(e: Seq<(String, ConfigValue)>, k: Seq<char>) -> Option<ConfigValue> {
    if has_key(e, k) {
        Some(e[choose|i: int| 0 <= i < e.len() && e[i].0@ == k].1)
    } else {
        None
    }
}

/// The value under `k` when `top` is laid over `base`: `top`'s value where
/// it has the key, else `base`'s.
pub open spec fn overlay_lookup(
    base: Seq<(String, ConfigValue)>,
    top: Seq<(String, ConfigValue)>,
    k: Seq<char>,
) -> Option<ConfigValue> {
    match lookup(top, k) {
        Some(v) => Some(v),
        None => lookup(base, k),
    }
}

/// The entries with each key seen as its characters.
pub open spec fn entry_views(e: Seq<(String, ConfigValue)>) -> Seq<(Seq<char>, ConfigValue)> {
    e.map_values(|p: (String, ConfigValue)| (p.0@, p.1))
}

/// The value stored under key `k` among entries keyed by characters, if any.
pub open spec fn vlookup(e: Seq<(Seq<char>, ConfigValue)>, k: Seq<char>) -> Option<ConfigValue> {
    if exists|i: int| 0 <= i < e.len() && e[i].0 == k {
        Some(e[choose|i: int| 0 <= i < e.len() && e[i].0 == k].1)
    } else {
        None
    }
}

/// The value under `k` when the entries `top` are laid over `base`.
pub open spec fn vlookup_over(
    base: Seq<(Seq<char>, ConfigValue)>,
    top: Seq<(Seq<char>, ConfigValue)>,
    k: Seq<char>,
) -> Option<ConfigValue> {
    match vlookup(top, k) {
        Some(v) => Some(v),
        None => vlookup(base, k),
    }
}

/// Looking a key up is the same with keys as strings or as characters.
pub proof fn lemma_lookup_views(e: Seq<(String, ConfigValue)>, k: Seq<char>)
    requires
        keys_distinct(e),
    ensures
        lookup(e, k) == vlookup(entry_views(e), k),
{
    let v = entry_views(e);
    if has_key(e, k) {
        let i = choose|i: int| 0 <= i < e.len() && e[i].0@ == k;
        assert(v[i].0 == k);
        let j = choose|j: int| 0 <= j < v.len() && v[j].0 == k;
        assert(e[j].0@ == k);
        if i != j {
            if i < j {
                assert(e[i].0@ != e[j].0@);
            } else {
                assert(e[j].0@ != e[i].0@);
            }
        }
    } else {
        assert forall|j: int| 0 <= j < v.len() implies v[j].0 != k by {
            assert(v[j].0 == e[j].0@);
        }
    }
}

proof fn lemma_lookup_at(e: Seq<(String, ConfigValue)>, i: int)
    requires
        keys_distinct(e),
        0 <= i < e.len(),
    ensures
        lookup(e, e[i].0@) == Some(e[i].1),
{
    let k = e[i].0@;
    assert(has_key(e, k));
    let j = choose|j: int| 0 <= j < e.len() && e[j].0@ == k;
    if j != i {
        if j < i {
            assert(e[j].0@ != e[i].0@);
        } else {
            assert(e[i].0@ != e[j].0@);
        }
    }
}

impl ConfigTree {
    pub open spec fn wf(&self) -> bool {
        keys_distinct(self.entries@)
    }

    /// The value stored under key `k`, if any.
    pub open spec fn spec_get(&self, k: Seq<char>) -> Option<ConfigValue> {
        lookup(self.entries@, k)
    }

    /// A tree with no entries.
    pub fn new() -> (r: ConfigTree)
        ensures
            r.wf(),
            forall|k: Seq<char>| r.spec_get(k) is None,
    {
        ConfigTree { entries: Vec::new() }
    }

    /// The value stored under `key`, if any.
    pub fn get(&self, key: &str) -> (r: Option<&ConfigValue>)
        requires
            self.wf(),
        ensures
            match r {
                Some(v) => self.spec_get(key@) == Some(*v),
                None => self.spec_get(key@) is None,
            },
    {
        let mut i: usize = 0;
        while i < self.entries.len()
            invariant
                self.wf(),
                i <= self.entries@.len(),
                forall|j: int| 0 <= j < i ==> self.entries@[j].0@ != key@,
            decreases self.entries@.len() - i,
        {
            if <str as PartialEq>::eq(self.entries[i].0.as_str(), key) {
                proof {
                    lemma_lookup_at(self.entries@, i as int);
                }
                return Some(&self.entries[i].1);
            }
            i = i + 1;
        }
        None
    }

    /// Sets the value under `key`, replacing one that was there; other keys
    /// keep their values.
    pub fn insert(&mut self, key: String, value: ConfigValue)
        requires
            old(self).wf(),
        ensures
            final(self).wf(),
            forall|k: Seq<char>| #[trigger] final(self).spec_get(k) == if k == key@ {
                Some(value)
            } else {
                old(self).spec_get(k)
            },
    {
        let ghost k0 = key@;
        let mut i: usize = 0;
        while i < self.entries.len()
            invariant
                self.wf(),
                self.entries@ == old(self).entries@,
                key@ == k0,
                i <= self.entries@.len(),
                forall|j: int| 0 <= j < i ==> self.entries@[j].0@ != k0,
            decreases self.entries@.len() - i,
        {
            if <str as PartialEq>::eq(self.entries[i].0.as_str(), key.as_str()) {
                let ghost before = self.entries@;
                self.entries.set(i, (key, value));
                proof {
                    let after = self.entries@;
                    assert forall|a: int, b: int| 0 <= a < b < after.len() implies after[a].0@
                        != after[b].0@ by {
                        assert(before[a].0@ != before[b].0@);
                    }
                    assert forall|k: Seq<char>| #[trigger] lookup(after, k) == if k == k0 {
                        Some(value)
                    } else {
                        lookup(before, k)
                    } by {
                        if k == k0 {
                            lemma_lookup_at(after, i as int);
                        } else {
                            assert forall|j: int| 0 <= j < after.len() implies (after[j].0@ == k
                                <==> before[j].0@ == k) by {
                                if j == i {
                                    assert(before[j].0@ == k0);
                                }
                            }
                            if has_key(before, k) {
                                let j = choose|j: int| 0 <= j < before.len() && before[j].0@ == k;
                                assert(after[j].0@ == k);
                                assert(j != i);
                                lemma_lookup_at(before, j);
                                lemma_lookup_at(after, j);
                            } else {
                                assert(!has_key(after, k));
                            }
                        }
                    }
                }
                return;
            }
            i = i + 1;
        }
        let ghost before = self.entries@;
        self.entries.push((key, value));
        proof {
            let after = self.entries@;
            let n = before.len() as int;
            assert forall|a: int, b: int| 0 <= a < b < after.len() implies after[a].0@
                != after[b].0@ by {
                if b < n {
                    assert(before[a].0@ != before[b].0@);
                }
            }
            assert forall|k: Seq<char>| #[trigger] lookup(after, k) == if k == k0 {
                Some(value)
            } else {
                lookup(before, k)
            } by {
                if k == k0 {
                    lemma_lookup_at(after, n);
                } else {
                    if has_key(before, k) {
                        let j = choose|j: int| 0 <= j < before.len() && before[j].0@ == k;
                        assert(after[j].0@ == k);
                        lemma_lookup_at(before, j);
                        lemma_lookup_at(after, j);
                    } else {
                        assert forall|j: int| 0 <= j < after.len() implies after[j].0@ != k by {
                            if j < n {
                                assert(before[j] == after[j]);
                            }
                        }
                    }
                }
            }
        }
    }
}

/// The string stored under `k`, if the value there is a string.
pub open spec fn config_str(e: Seq<(String, ConfigValue)>, k: Seq<char>) -> Option<Seq<char>> {
    match lookup(e, k) {
        Some(ConfigValue::Str(s)) => Some(s@),
        _ => None,
    }
}

/// The boolean stored under `k`; false where the value is no boolean.
pub open spec fn config_bool(e: Seq<(String, ConfigValue)>, k: Seq<char>) -> bool {
    match lookup(e, k) {
        Some(ConfigValue::Bool(b)) => b,
        _ => false,
    }
}

/// The string items, in order, of an array's items.
pub open spec fn strings_in(items: Seq<Option<String>>) -> Seq<Seq<char>>
    decreases items.len(),
{
    if items.len() == 0 {
        Seq::empty()
    } else {
        let rest = strings_in(items.drop_last());
        match items.last() {
            Some(s) => rest.push(s@),
            None => rest,
        }
    }
}

/// The string items of the array stored under `k`; empty where the value
/// there is no array.
pub open spec fn config_strings(e: Seq<(String, ConfigValue)>, k: Seq<char>) -> Seq<Seq<char>> {
    match lookup(e, k) {
        Some(ConfigValue::Array(items)) => strings_in(items@),
        _ => Seq::empty(),
    }
}

/// The entries of an optional layer; none for an absent one.
pub open spec fn layer_entries(t: Option<ConfigTree>) -> Seq<(String, ConfigValue)> {
    match t {
        Some(t) => t.entries@,
        None => Seq::empty(),
    }
}

/// Whether one of the first `j` entries has key `k`.
pub open spec fn has_key_before(e: Seq<(String, ConfigValue)>, k: Seq<char>, j: int) -> bool {
    exists|i: int| 0 <= i < j && e[i].0@ == k
}

impl ConfigTree {
    /// The string under `key`, if the value there is a string.
    pub fn get_str(&self, key: &str) -> (r: Option<String>)
        requires
            self.wf(),
        ensures
            crate::table::opt_view(r) == config_str(self.entries@, key@),
    {
        match self.get(key) {
            Some(ConfigValue::Str(s)) => Some(s.clone()),
            _ => None,
        }
    }

    /// The boolean under `key`; false where the value there is no boolean.
    pub fn get_bool(&self, key: &str) -> (r: bool)
        requires
            self.wf(),
        ensures
            r == config_bool(self.entries@, key@),
    {
        match self.get(key) {
            Some(ConfigValue::Bool(b)) => *b,
            _ => false,
        }
    }

    /// The string items of the array under `key`; empty where the value
    /// there is no array.
    pub fn get_strings(&self, key: &str) -> (r: Vec<String>)
        requires
            self.wf(),
        ensures
            crate::table::views(r@) == config_strings(self.entries@, key@),
    {
        let mut out: Vec<String> = Vec::new();
        match self.get(key) {
            Some(ConfigValue::Array(items)) => {
                let mut i: usize = 0;
                while i < items.len()
                    invariant
                        i <= items@.len(),
                        crate::table::views(out@) == strings_in(items@.subrange(0, i as int)),
                    decreases items@.len() - i,
                {
                    let ghost before = items@.subrange(0, i as int);
                    proof {
                        assert(items@.subrange(0, i + 1).drop_last() =~= before);
                    }
                    if let Some(s) = &items[i] {
                        out.push(s.clone());
                    }
                    i = i + 1;
                    proof {
                        assert(crate::table::views(out@) =~= strings_in(items@.subrange(0, i as int)));
                    }
                }
                proof {
                    assert(items@.subrange(0, i as int) =~= items@);
                }
            },
            _ => {
                proof {
                    assert(crate::table::views(out@) =~= Seq::<Seq<char>>::empty());
                }
            },
        }
        out
    }
}

/// Lays the project layer over the user layer: every key of the project
/// layer takes the project's value, and keys that only the user layer has
/// keep theirs. An absent layer counts as an empty one.
pub fn merge_layers(user: Option<ConfigTree>, project: Option<ConfigTree>) -> (r: ConfigTree)
    requires
        user matches Some(u) ==> u.wf(),
        project matches Some(p) ==> p.wf(),
    ensures
        r.wf(),
        forall|k: Seq<char>| #[trigger] r.spec_get(k) == overlay_lookup(
            layer_entries(user),
            layer_entries(project),
            k,
        ),
{
    let ghost ue = layer_entries(user);
    let ghost pe = layer_entries(project);
    let mut base = match user {
        Some(u) => u,
        None => ConfigTree::new(),
    };
    let mut rest: Vec<(String, ConfigValue)> = match project {
        Some(p) => p.entries,
        None => Vec::new(),
    };
    let ghost n = pe.len();
    let ghost mut j: int = 0;
    proof {
        assert(rest@ =~= pe.subrange(0, n as int));
    }
    while rest.len() > 0
        invariant
            base.wf(),
            keys_distinct(pe),
            0 <= j <= n == pe.len(),
            rest@ == pe.subrange(j, n as int),
            forall|k: Seq<char>| #[trigger] base.spec_get(k) == if has_key_before(pe, k, j) {
                lookup(pe, k)
            } else {
                lookup(ue, k)
            },
        decreases rest@.len(),
    {
        let (key, value) = rest.remove(0);
        proof {
            assert(pe[j] == (key, value));
        }
        let ghost base_before = base;
        base.insert(key, value);
        proof {
            lemma_lookup_at(pe, j);
            assert forall|k: Seq<char>| #[trigger] base.spec_get(k) == if has_key_before(
                pe,
                k,
                j + 1,
            ) {
                lookup(pe, k)
            } else {
                lookup(ue, k)
            } by {
                if k != pe[j].0@ {
                    if has_key_before(pe, k, j + 1) {
                        let x = choose|x: int| 0 <= x < j + 1 && pe[x].0@ == k;
                        assert(x < j);
                        assert(has_key_before(pe, k, j));
                    }
                } else {
                    assert(has_key_before(pe, k, j + 1));
                }
            }
            j = j + 1;
            assert(rest@ =~= pe.subrange(j, n as int));
        }
    }
    proof {
        assert forall|k: Seq<char>| #[trigger] base.spec_get(k) == overlay_lookup(ue, pe, k) by {
            if has_key_before(pe, k, j) {
                let x = choose|x: int| 0 <= x < j && pe[x].0@ == k;
                lemma_lookup_at(pe, x);
            } else {
                assert(!has_key(pe, k));
            }
        }
    }
    base
}

} // verus!
