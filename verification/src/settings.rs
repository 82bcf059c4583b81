//! A map from setting names to setting values, both strings.
use vstd::prelude::*;

verus! {

broadcast use vstd::seq_lib::group_seq_properties;

/// Setting names and their values. Each name occurs once; entries keep the
/// order in which their names were first inserted.
pub struct Settings {
    entries: Vec<(String, String)>,
}

/// The map that a list of distinct-named entries stands for.
pub open spec fn entry_map(s: Seq<(String, String)>) -> Map<Seq<char>, Seq<char>>
    decreases s.len(),
{
    if s.len() == 0 {
        Map::empty()
    } else {
        entry_map(s.drop_last()).insert(s.last().0@, s.last().1@)
    }
}

/// No two entries share a name.
pub open spec fn distinct_names(s: Seq<(String, String)>) -> bool {
    forall|i: int, j: int| 0 <= i < j < s.len() ==> s[i].0@ != s[j].0@
}

/// Which names `entry_map(s)` holds.
pub proof fn lemma_entry_map_dom(s: Seq<(String, String)>)
    ensures
        entry_map(s).dom().finite(),
        forall|k: Seq<char>|
            entry_map(s).contains_key(k) <==> exists|i: int| 0 <= i < s.len() && s[i].0@ == k,
    decreases s.len(),
{
    if s.len() > 0 {
        let t = s.drop_last();
        lemma_entry_map_dom(t);
        assert forall|k: Seq<char>|
            entry_map(s).contains_key(k) <==> exists|i: int| 0 <= i < s.len() && s[i].0@ == k by {
            if entry_map(s).contains_key(k) && k != s.last().0@ {
                let i = choose|i: int| 0 <= i < t.len() && t[i].0@ == k;
                assert(s[i] == t[i]);
            }
            if exists|i: int| 0 <= i < s.len() && s[i].0@ == k {
                let i = choose|i: int| 0 <= i < s.len() && s[i].0@ == k;
                if i < t.len() {
                    assert(t[i] == s[i]);
                }
            }
        }
    }
}

/// With distinct names, each entry's value is what the map holds for its name.
pub proof fn lemma_entry_map_value(s: Seq<(String, String)>, i: int)
    requires
        distinct_names(s),
        0 <= i < s.len(),
    ensures
        entry_map(s).contains_key(s[i].0@),
        entry_map(s)[s[i].0@] == s[i].1@,
    decreases s.len(),
{
    lemma_entry_map_dom(s);
    if i < s.len() - 1 {
        let t = s.drop_last();
        assert(t[i] == s[i]);
        lemma_entry_map_value(t, i);
    }
}

/// With distinct names, the map has one key per entry.
pub proof fn lemma_entry_map_len(s: Seq<(String, String)>)
    requires
        distinct_names(s),
    ensures
        entry_map(s).len() == s.len(),
    decreases s.len(),
{
    if s.len() > 0 {
        let t = s.drop_last();
        lemma_entry_map_len(t);
        lemma_entry_map_dom(t);
        if entry_map(t).contains_key(s.last().0@) {
            let i = choose|i: int| 0 <= i < t.len() && t[i].0@ == s.last().0@;
            assert(s[i] == t[i]);
        }
    }
}

impl View for Settings {
    type V = Map<Seq<char>, Seq<char>>;

    closed spec fn view(&self) -> Map<Seq<char>, Seq<char>> {
        entry_map(self.entries@)
    }
}

impl Settings {
    #[verifier::type_invariant]
    closed spec fn names_distinct(self) -> bool {
        distinct_names(self.entries@)
    }

    /// The empty map.
    pub fn new() -> (r: Settings)
        ensures
            r@ == Map::<Seq<char>, Seq<char>>::empty(),
    {
        Settings { entries: Vec::new() }
    }

    /// The position of the entry named `key`.
    fn position(&self, key: &String) -> (r: Option<usize>)
        ensures
            match r {
                Some(i) => i < self.entries@.len() && self.entries@[i as int].0@ == key@,
                None => forall|i: int|
                    0 <= i < self.entries@.len() ==> self.entries@[i].0@ != key@,
            },
    {
        let mut i: usize = 0;
        while i < self.entries.len()
            invariant
                i <= self.entries@.len(),
                forall|j: int| 0 <= j < i ==> self.entries@[j].0@ != key@,
            decreases self.entries@.len() - i,
        {
            if self.entries[i].0 == *key {
                return Some(i);
            }
            i = i + 1;
        }
        None
    }

    /// Sets `key` to `value`, replacing an earlier value.
    pub fn insert(&mut self, key: String, value: String)
        ensures
            final(self)@ == old(self)@.insert(key@, value@),
    {
        proof {
            use_type_invariant(&*self);
        }
        let ghost s = self.entries@;
        let found = self.position(&key);
        let mut entries: Vec<(String, String)> = Vec::new();
        std::mem::swap(&mut entries, &mut self.entries);
        match found {
            Some(i) => {
                proof {
                    lemma_entry_map_dom(s);
                }
                entries.set(i, (key, value));
                proof {
                    let t = entries@;
                    lemma_entry_map_dom(t);
                    assert forall|k: Seq<char>| #[trigger]
                        entry_map(t).contains_key(k) == entry_map(s).insert(
                            key@,
                            value@,
                        ).contains_key(k) by {
                        if exists|j: int| 0 <= j < t.len() && t[j].0@ == k {
                            let j = choose|j: int| 0 <= j < t.len() && t[j].0@ == k;
                            if j != i {
                                assert(s[j] == t[j]);
                            }
                        }
                        if exists|j: int| 0 <= j < s.len() && s[j].0@ == k {
                            let j = choose|j: int| 0 <= j < s.len() && s[j].0@ == k;
                            if j != i {
                                assert(s[j] == t[j]);
                            } else {
                                assert(t[i as int].0@ == k);
                            }
                        }
                    }
                    assert forall|k: Seq<char>| #[trigger]
                        entry_map(t).contains_key(k) implies entry_map(t)[k] == entry_map(
                        s,
                    ).insert(key@, value@)[k] by {
                        let j = choose|j: int| 0 <= j < t.len() && t[j].0@ == k;
                        lemma_entry_map_value(t, j);
                        if j != i {
                            assert(s[j] == t[j]);
                            lemma_entry_map_value(s, j);
                        }
                    }
                    assert(entry_map(t) =~= entry_map(s).insert(key@, value@));
                }
            },
            None => {
                entries.push((key, value));
                proof {
                    assert(entries@.drop_last() =~= s);
                }
            },
        }
        self.entries = entries;
    }

    /// The value of `key`, if it is set.
    pub fn get(&self, key: &str) -> (r: Option<&String>)
        ensures
            match r {
                Some(v) => self@.contains_key(key@) && v@ == self@[key@],
                None => !self@.contains_key(key@),
            },
    {
        proof {
            use_type_invariant(self);
            lemma_entry_map_dom(self.entries@);
        }
        let k = key.to_owned();
        match self.position(&k) {
            Some(i) => {
                proof {
                    lemma_entry_map_value(self.entries@, i as int);
                }
                Some(&self.entries[i].1)
            },
            None => None,
        }
    }

    /// Whether `key` is set.
    pub fn contains_key(&self, key: &str) -> (r: bool)
        ensures
            r == self@.contains_key(key@),
    {
        self.get(key).is_some()
    }

    /// The number of names that are set.
    pub fn len(&self) -> (r: usize)
        ensures
            r == self@.len(),
            self@.dom().finite(),
    {
        proof {
            use_type_invariant(self);
            lemma_entry_map_len(self.entries@);
            lemma_entry_map_dom(self.entries@);
        }
        self.entries.len()
    }

    /// The entries, each name once, in the order in which the names were first set.
    pub fn entries(&self) -> (r: &Vec<(String, String)>)
        ensures
            distinct_names(r@),
            entry_map(r@) == self@,
    {
        proof {
            use_type_invariant(self);
        }
        &self.entries
    }

    /// A map with the same names and values.
    pub fn duplicate(&self) -> (r: Settings)
        ensures
            r@ == self@,
    {
        proof {
            use_type_invariant(self);
        }
        let mut entries: Vec<(String, String)> = Vec::new();
        let mut i: usize = 0;
        while i < self.entries.len()
            invariant
                i <= self.entries@.len(),
                distinct_names(self.entries@),
                entries@ == self.entries@.take(i as int),
            decreases self.entries@.len() - i,
        {
            let k = self.entries[i].0.clone();
            let v = self.entries[i].1.clone();
            entries.push((k, v));
            assert(entries@ =~= self.entries@.take(i + 1));
            i = i + 1;
        }
        assert(entries@ =~= self.entries@);
        Settings { entries }
    }

    /// Whether both maps hold the same names with the same values.
    pub fn same_as(&self, other: &Settings) -> (r: bool)
        ensures
            r == (self@ == other@),
    {
        proof {
            use_type_invariant(self);
            use_type_invariant(other);
            lemma_entry_map_len(self.entries@);
            lemma_entry_map_len(other.entries@);
            lemma_entry_map_dom(self.entries@);
            lemma_entry_map_dom(other.entries@);
        }
        if self.entries.len() != other.entries.len() {
            return false;
        }
        let mut i: usize = 0;
        while i < self.entries.len()
            invariant
                i <= self.entries@.len() == other.entries@.len(),
                distinct_names(self.entries@),
                distinct_names(other.entries@),
                entry_map(self.entries@).len() == entry_map(other.entries@).len(),
                entry_map(self.entries@).dom().finite(),
                entry_map(other.entries@).dom().finite(),
                forall|j: int|
                    0 <= j < i ==> #[trigger] entry_map(other.entries@).contains_key(
                        self.entries@[j].0@,
                    ) && entry_map(other.entries@)[self.entries@[j].0@] == self.entries@[j].1@,
            decreases self.entries@.len() - i,
        {
            proof {
                lemma_entry_map_value(self.entries@, i as int);
            }
            match other.get(self.entries[i].0.as_str()) {
                Some(v) => {
                    if !(*v == self.entries[i].1) {
                        return false;
                    }
                },
                None => {
                    return false;
                },
            }
            assert forall|j: int|
                    0 <= j < i + 1 implies #[trigger] entry_map(other.entries@).contains_key(
                        self.entries@[j].0@,
                    ) && entry_map(other.entries@)[self.entries@[j].0@] == self.entries@[j].1@ by {
            }
            i = i + 1;
        }
        proof {
            let a = entry_map(self.entries@);
            let b = entry_map(other.entries@);
            assert forall|k: Seq<char>| a.contains_key(k) implies b.contains_key(k) && b[k] == a[k] by {
                let j = choose|j: int| 0 <= j < self.entries@.len() && self.entries@[j].0@ == k;
                lemma_entry_map_value(self.entries@, j);
            }
            assert(a.dom().subset_of(b.dom()));
            vstd::set_lib::lemma_len_subset(a.dom(), b.dom());
            assert(a.dom() =~= b.dom()) by {
                if !(b.dom().subset_of(a.dom())) {
                    let k = choose|k: Seq<char>| b.dom().contains(k) && !a.dom().contains(k);
                    vstd::set_lib::lemma_len_subset(a.dom(), b.dom().remove(k));
                }
            }
            assert(a =~= b);
        }
        true
    }
}

} // verus!
