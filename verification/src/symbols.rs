use vstd::prelude::*;

use crate::ownership::OwnershipStatus;

verus! {

broadcast use vstd::seq_lib::group_seq_properties;

/// The characters of each string of a sequence.
pub open spec fn texts(s: Seq<String>) -> Seq<Seq<char>> {
    s.map_values(|t: String| t@)
}

/// A set of ticker symbols, compared by their characters.
pub struct SymbolSet {
    symbols: Vec<String>,
}

impl SymbolSet {
    /// The symbols in insertion order.
    pub closed spec fn entries(self) -> Seq<Seq<char>> {
        texts(self.symbols@)
    }

    #[verifier::type_invariant]
    spec fn no_repeats(self) -> bool {
        self.entries().no_duplicates()
    }

    /// Position of `key` among the entries, if it is there.
    fn position(&self, key: &String) -> (r: Option<usize>)
        ensures
            match r {
                Some(i) => i < self.entries().len() && self.entries()[i as int] == key@,
                Option::None => !self.entries().contains(key@),
            },
    {
        let mut i: usize = 0;
        while i < self.symbols.len()
            invariant
                i <= self.symbols@.len(),
                forall|j: int| 0 <= j < i ==> self.entries()[j] != key@,
            decreases self.symbols@.len() - i,
        {
            if self.symbols[i] == *key {
                return Some(i);
            }
            i = i + 1;
        }
        Option::None
    }

    /// An empty set.
    pub fn new() -> (s: Self)
        ensures
            s@ == Set::<Seq<char>>::empty(),
    {
        let s = SymbolSet { symbols: Vec::new() };
        assert(s.entries() =~= Seq::<Seq<char>>::empty());
        s
    }

    /// Whether `symbol` is in the set.
    pub fn contains(&self, symbol: &str) -> (r: bool)
        ensures
            r == self@.contains(symbol@),
    {
        let key = symbol.to_owned();
        self.position(&key).is_some()
    }

    /// Whether the set holds a string with the characters of `symbol`.
    pub fn contains_string(&self, symbol: &String) -> (r: bool)
        ensures
            r == self@.contains(symbol@),
    {
        self.position(symbol).is_some()
    }

    /// Adds `symbol`; returns whether it was not there before.
    pub fn insert(&mut self, symbol: String) -> (added: bool)
        ensures
            final(self)@ == old(self)@.insert(symbol@),
            added == !old(self)@.contains(symbol@),
    {
        proof {
            use_type_invariant(&*self);
        }
        match self.position(&symbol) {
            Some(_) => {
                assert(self@.insert(symbol@) =~= self@);
                false
            },
            Option::None => {
                let ghost before = self.entries();
                let mut symbols: Vec<String> = Vec::new();
                std::mem::swap(&mut symbols, &mut self.symbols);
                symbols.push(symbol);
                assert(texts(symbols@) =~= before.push(symbol@));
                self.symbols = symbols;
                assert(self.entries().to_set() =~= before.to_set().insert(symbol@));
                true
            },
        }
    }

    /// Number of symbols in the set.
    pub fn len(&self) -> (n: usize)
        ensures
            n == self@.len(),
    {
        proof {
            use_type_invariant(self);
            self.entries().unique_seq_to_set();
        }
        self.symbols.len()
    }

    /// Whether the set is empty.
    pub fn is_empty(&self) -> (r: bool)
        ensures
            r == (self@.len() == 0),
    {
        self.len() == 0
    }

    /// The symbols as a list, each once.
    pub fn to_vec(&self) -> (v: Vec<String>)
        ensures
            texts(v@).to_set() == self@,
            texts(v@).no_duplicates(),
    {
        proof {
            use_type_invariant(self);
        }
        let mut v: Vec<String> = Vec::new();
        let mut i: usize = 0;
        while i < self.symbols.len()
            invariant
                i <= self.symbols@.len(),
                texts(v@) == self.entries().take(i as int),
            decreases self.symbols@.len() - i,
        {
            let ghost prev = v@;
            let t = self.symbols[i].clone();
            assert(t@ == self.entries()[i as int]);
            v.push(t);
            assert(v@ == prev.push(t));
            assert(texts(v@) =~= texts(prev).push(t@));
            assert(texts(v@) =~= self.entries().take(i + 1));
            i = i + 1;
        }
        assert(self.entries().take(i as int) =~= self.entries());
        v
    }
}

impl View for SymbolSet {
    type V = Set<Seq<char>>;

    closed spec fn view(&self) -> Set<Seq<char>> {
        self.entries().to_set()
    }
}

/// The keys of a list of entries.
pub open spec fn entry_keys(s: Seq<(String, OwnershipStatus)>) -> Seq<Seq<char>> {
    s.map_values(|e: (String, OwnershipStatus)| e.0@)
}

/// The index of the entry whose key is `k`.
pub open spec fn slot_of(s: Seq<(String, OwnershipStatus)>, k: Seq<char>) -> int {
    choose|i: int| 0 <= i < s.len() && entry_keys(s)[i] == k
}

/// The map that a list of entries with distinct keys stands for.
pub open spec fn entries_map(s: Seq<(String, OwnershipStatus)>) -> Map<Seq<char>, OwnershipStatus> {
    Map::new(|k: Seq<char>| entry_keys(s).contains(k), |k: Seq<char>| s[slot_of(s, k)].1)
}

proof fn lemma_slot_unique(s: Seq<(String, OwnershipStatus)>, i: int)
    requires
        entry_keys(s).no_duplicates(),
        0 <= i < s.len(),
    ensures
        slot_of(s, entry_keys(s)[i]) == i,
{
    let k = entry_keys(s)[i];
    assert(entry_keys(s)[i] == k);
    let c = slot_of(s, k);
    assert(0 <= c < s.len() && entry_keys(s)[c] == k);
}

/// Index of the entry whose key has the characters of `key`, if any.
fn find_key(entries: &Vec<(String, OwnershipStatus)>, key: &String) -> (r: Option<usize>)
    ensures
        match r {
            Some(i) => i < entries@.len() && entry_keys(entries@)[i as int] == key@,
            Option::None => !entry_keys(entries@).contains(key@),
        },
{
    let mut i: usize = 0;
    while i < entries.len()
        invariant
            i <= entries@.len(),
            forall|j: int| 0 <= j < i ==> entry_keys(entries@)[j] != key@,
        decreases entries@.len() - i,
    {
        if entries[i].0 == *key {
            return Some(i);
        }
        i = i + 1;
    }
    Option::None
}

/// A map from ticker symbols, compared by their characters, to ownership statuses.
pub struct OwnershipMap {
    entries: Vec<(String, OwnershipStatus)>,
}

impl OwnershipMap {
    /// The keys in insertion order.
    pub closed spec fn keys(self) -> Seq<Seq<char>> {
        entry_keys(self.entries@)
    }

    #[verifier::type_invariant]
    spec fn distinct_keys(self) -> bool {
        self.keys().no_duplicates()
    }

    /// An empty map.
    pub fn new() -> (m: Self)
        ensures
            m@ == Map::<Seq<char>, OwnershipStatus>::empty(),
    {
        let m = OwnershipMap { entries: Vec::new() };
        assert(m@ =~= Map::<Seq<char>, OwnershipStatus>::empty());
        m
    }

    /// Whether `symbol` has an entry.
    pub fn contains_key(&self, symbol: &str) -> (r: bool)
        ensures
            r == self@.dom().contains(symbol@),
    {
        let key = symbol.to_owned();
        find_key(&self.entries, &key).is_some()
    }

    /// Whether a key with the characters of `symbol` has an entry.
    pub fn contains_key_string(&self, symbol: &String) -> (r: bool)
        ensures
            r == self@.dom().contains(symbol@),
    {
        find_key(&self.entries, symbol).is_some()
    }

    /// The status stored for `symbol`, if any.
    pub fn get(&self, symbol: &str) -> (r: Option<OwnershipStatus>)
        ensures
            r == (if self@.dom().contains(symbol@) {
                Some(self@[symbol@])
            } else {
                Option::<OwnershipStatus>::None
            }),
    {
        proof {
            use_type_invariant(self);
        }
        let key = symbol.to_owned();
        match find_key(&self.entries, &key) {
            Some(i) => {
                proof {
                    lemma_slot_unique(self.entries@, i as int);
                }
                Some(self.entries[i].1)
            },
            Option::None => Option::None,
        }
    }

    /// Sets the status of `symbol`, replacing any earlier one.
    pub fn insert(&mut self, symbol: String, status: OwnershipStatus)
        ensures
            final(self)@ == old(self)@.insert(symbol@, status),
    {
        proof {
            use_type_invariant(&*self);
        }
        let ghost before = self.entries@;
        let ghost k = symbol@;
        let mut entries: Vec<(String, OwnershipStatus)> = Vec::new();
        std::mem::swap(&mut entries, &mut self.entries);
        match find_key(&entries, &symbol) {
            Some(i) => {
                entries.set(i, (symbol, status));
                let ghost after = entries@;
                assert(entry_keys(after) =~= entry_keys(before));
                proof {
                    assert forall|x: Seq<char>| #[trigger] entry_keys(after).contains(x) implies
                        after[slot_of(after, x)].1 == (if x == k { status } else { before[slot_of(before, x)].1 }) by {
                        let j = choose|j: int| 0 <= j < after.len() && entry_keys(after)[j] == x;
                        lemma_slot_unique(after, j);
                        lemma_slot_unique(before, j);
                    }
                    assert(entries_map(after) =~= entries_map(before).insert(k, status));
                }
                self.entries = entries;
            },
            Option::None => {
                entries.push((symbol, status));
                let ghost after = entries@;
                assert(entry_keys(after) =~= entry_keys(before).push(k));
                proof {
                    assert forall|x: Seq<char>| #[trigger] entry_keys(after).contains(x) implies
                        after[slot_of(after, x)].1 == (if x == k { status } else { before[slot_of(before, x)].1 }) by {
                        let j = choose|j: int| 0 <= j < after.len() && entry_keys(after)[j] == x;
                        lemma_slot_unique(after, j);
                        if j < before.len() {
                            lemma_slot_unique(before, j);
                        }
                    }
                    assert(entries_map(after) =~= entries_map(before).insert(k, status));
                }
                self.entries = entries;
            },
        }
    }

    /// Number of entries.
    pub fn len(&self) -> (n: usize)
        ensures
            n == self@.len(),
    {
        proof {
            use_type_invariant(self);
            self.keys().unique_seq_to_set();
            assert(self@.dom() =~= self.keys().to_set());
        }
        self.entries.len()
    }

    /// Whether the map has no entries.
    pub fn is_empty(&self) -> (r: bool)
        ensures
            r == (self@.len() == 0),
    {
        self.len() == 0
    }

    /// The keys as a list, each once.
    pub fn symbols(&self) -> (v: Vec<String>)
        ensures
            texts(v@).to_set() == self@.dom(),
            texts(v@).no_duplicates(),
    {
        proof {
            use_type_invariant(self);
        }
        let mut v: Vec<String> = Vec::new();
        let mut i: usize = 0;
        while i < self.entries.len()
            invariant
                i <= self.entries@.len(),
                texts(v@) == self.keys().take(i as int),
            decreases self.entries@.len() - i,
        {
            let ghost prev = v@;
            let t = self.entries[i].0.clone();
            v.push(t);
            assert(texts(v@) =~= texts(prev).push(t@));
            assert(texts(v@) =~= self.keys().take(i + 1));
            i = i + 1;
        }
        assert(self.keys().take(i as int) =~= self.keys());
        assert(self@.dom() =~= self.keys().to_set());
        v
    }
}

impl View for OwnershipMap {
    type V = Map<Seq<char>, OwnershipStatus>;

    closed spec fn view(&self) -> Map<Seq<char>, OwnershipStatus> {
        entries_map(self.entries@)
    }
}

} // verus!
