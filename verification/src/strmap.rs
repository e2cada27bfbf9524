use vstd::prelude::*;

verus! {

/// Holds when every key occurs at most once in the pair sequence.
pub open spec fn unique_keys(s: Seq<(Seq<char>, Seq<char>)>) -> bool {
    forall|i: int, j: int| 0 <= i < j < s.len() ==> s[i].0 != s[j].0
}

/// Holds when some entry of the pair sequence has key `k`.
pub open spec fn contains_key(s: Seq<(Seq<char>, Seq<char>)>, k: Seq<char>) -> bool {
    exists|i: int| 0 <= i < s.len() && s[i].0 == k
}

/// What inserting a pair does to an entry sequence: the first entry with the
/// same key is overwritten in place; a fresh key is appended at the end.
pub open spec fn map_insert(
    s: Seq<(Seq<char>, Seq<char>)>,
    k: Seq<char>,
    v: Seq<char>,
) -> Seq<(Seq<char>, Seq<char>)>
    decreases s.len(),
{
    if s.len() == 0 {
        seq![(k, v)]
    } else if s[0].0 == k {
        seq![(k, v)] + s.drop_first()
    } else {
        seq![s[0]] + map_insert(s.drop_first(), k, v)
    }
}

proof fn lemma_map_insert_found(
    s: Seq<(Seq<char>, Seq<char>)>,
    k: Seq<char>,
    v: Seq<char>,
    i: int,
)
    requires
        0 <= i < s.len(),
        s[i].0 == k,
        forall|j: int| 0 <= j < i ==> s[j].0 != k,
    ensures
        map_insert(s, k, v) =~= s.update(i, (k, v)),
    decreases s.len(),
{
    if i == 0 {
        assert(map_insert(s, k, v) =~= s.update(0, (k, v)));
    } else {
        lemma_map_insert_found(s.drop_first(), k, v, i - 1);
        assert(map_insert(s, k, v) =~= s.update(i, (k, v)));
    }
}

proof fn lemma_map_insert_absent(s: Seq<(Seq<char>, Seq<char>)>, k: Seq<char>, v: Seq<char>)
    requires
        !contains_key(s, k),
    ensures
        map_insert(s, k, v) =~= s.push((k, v)),
    decreases s.len(),
{
    if s.len() > 0 {
        assert(forall|i: int| 0 <= i < s.drop_first().len() ==> s.drop_first()[i] == s[i + 1]);
        lemma_map_insert_absent(s.drop_first(), k, v);
        assert(map_insert(s, k, v) =~= s.push((k, v)));
    }
}

/// Law: inserting into a mapping whose keys are unique leaves the keys
/// unique, so a value built through inserts alone is always a mapping.
pub proof fn lemma_map_insert_preserves_unique_keys(
    s: Seq<(Seq<char>, Seq<char>)>,
    k: Seq<char>,
    v: Seq<char>,
)
    requires
        unique_keys(s),
    ensures
        unique_keys(map_insert(s, k, v)),
{
    if contains_key(s, k) {
        let w = choose|w: int| 0 <= w < s.len() && s[w].0 == k;
        lemma_first_occurrence(s, k, w);
        let i = choose|i: int|
            0 <= i < s.len() && s[i].0 == k && forall|j: int| 0 <= j < i ==> s[j].0 != k;
        lemma_map_insert_found(s, k, v, i);
        assert(forall|x: int| 0 <= x < s.len() ==> s.update(i, (k, v))[x].0 == s[x].0);
    } else {
        lemma_map_insert_absent(s, k, v);
    }
}

proof fn lemma_first_occurrence(s: Seq<(Seq<char>, Seq<char>)>, k: Seq<char>, w: int)
    requires
        0 <= w < s.len(),
        s[w].0 == k,
    ensures
        exists|i: int|
            0 <= i < s.len() && s[i].0 == k && forall|j: int| 0 <= j < i ==> s[j].0 != k,
    decreases w,
{
    if forall|j: int| 0 <= j < w ==> s[j].0 != k {
        assert(0 <= w < s.len() && s[w].0 == k && forall|j: int| 0 <= j < w ==> s[j].0 != k);
    } else {
        let w2 = choose|w2: int| 0 <= w2 < w && s[w2].0 == k;
        lemma_first_occurrence(s, k, w2);
    }
}

/// A string-to-string mapping that keeps its entries in first-insertion
/// order, so that everything derived from it is deterministic.
#[derive(Debug)]
pub struct StrMap {
    entries: Vec<(String, String)>,
}

impl View for StrMap {
    type V = Seq<(Seq<char>, Seq<char>)>;

    closed spec fn view(&self) -> Seq<(Seq<char>, Seq<char>)> {
        Seq::new(self.entries@.len(), |i: int| (self.entries@[i].0@, self.entries@[i].1@))
    }
}

impl StrMap {
    /// An empty mapping.
    pub fn new() -> (r: StrMap)
        ensures
            r@ == Seq::<(Seq<char>, Seq<char>)>::empty(),
    {
        let r = StrMap { entries: Vec::new() };
        proof {
            assert(r@ =~= Seq::<(Seq<char>, Seq<char>)>::empty());
        }
        r
    }

    /// How many entries the mapping holds.
    pub fn len(&self) -> (n: usize)
        ensures
            n == self@.len(),
    {
        self.entries.len()
    }

    /// The key of the entry at position `i`.
    pub fn key_at(&self, i: usize) -> (r: &String)
        requires
            i < self@.len(),
        ensures
            r@ == self@[i as int].0,
    {
        &self.entries[i].0
    }

    /// The value of the entry at position `i`.
    pub fn value_at(&self, i: usize) -> (r: &String)
        requires
            i < self@.len(),
        ensures
            r@ == self@[i as int].1,
    {
        &self.entries[i].1
    }

    /// Binds `v` to `k`, overwriting in place any entry `k` already has;
    /// a fresh key goes to the end.
    pub fn insert(&mut self, k: String, v: String)
        ensures
            final(self)@ == map_insert(old(self)@, k@, v@),
    {
        let n = self.entries.len();
        let mut i: usize = 0;
        while i < n
            invariant
                n == self.entries@.len(),
                *self == *old(self),
                forall|j: int| 0 <= j < i ==> self@[j].0 != k@,
            decreases n - i,
        {
            if self.entries[i].0 == k {
                proof {
                    lemma_map_insert_found(self@, k@, v@, i as int);
                }
                self.entries[i] = (k, v);
                proof {
                    assert(self@ =~= old(self)@.update(i as int, (k@, v@)));
                }
                return ;
            }
            i += 1;
        }
        proof {
            lemma_map_insert_absent(self@, k@, v@);
        }
        self.entries.push((k, v));
        proof {
            assert(self@ =~= old(self)@.push((k@, v@)));
        }
    }
}

} // verus!
