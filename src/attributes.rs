use vstd::prelude::*;

verus! {

/// The plain-value form of a key/value pair of strings.
pub open spec fn pair_view(p: (String, String)) -> (Seq<char>, Seq<char>) {
    (p.0@, p.1@)
}

/// The plain-value form of a list of key/value pairs.
pub open spec fn pairs_view(v: Seq<(String, String)>) -> Seq<(Seq<char>, Seq<char>)> {
    v.map_values(|p: (String, String)| pair_view(p))
}

/// Whether some pair of `s` has key `k`.
pub open spec fn has_key(s: Seq<(Seq<char>, Seq<char>)>, k: Seq<char>) -> bool {
    exists|i: int| 0 <= i < s.len() && #[trigger] s[i].0 == k
}

/// No two pairs of `s` share a key.
pub open spec fn keys_distinct(s: Seq<(Seq<char>, Seq<char>)>) -> bool {
    forall|i: int, j: int| 0 <= i < j < s.len() ==> #[trigger] s[i].0 != #[trigger] s[j].0
}

/// The pairs of `s` whose key did not occur earlier in `s`, in their order.
pub open spec fn first_wins(s: Seq<(Seq<char>, Seq<char>)>) -> Seq<(Seq<char>, Seq<char>)>
    decreases s.len(),
{
    if s.len() == 0 {
        Seq::empty()
    } else {
        let prev = first_wins(s.drop_last());
        if has_key(prev, s.last().0) {
            prev
        } else {
            prev.push(s.last())
        }
    }
}

/// A key occurs in `first_wins(s)` exactly when it occurs in `s`, and the
/// keys of `first_wins(s)` are distinct.
pub proof fn lemma_first_wins_keys(s: Seq<(Seq<char>, Seq<char>)>)
    ensures
        keys_distinct(first_wins(s)),
        forall|k: Seq<char>| has_key(first_wins(s), k) <==> has_key(s, k),
    decreases s.len(),
{
    if s.len() > 0 {
        let d = s.drop_last();
        lemma_first_wins_keys(d);
        let prev = first_wins(d);
        assert forall|k: Seq<char>| has_key(first_wins(s), k) <==> has_key(s, k) by {
            if has_key(s, k) {
                let i = choose|i: int| 0 <= i < s.len() && #[trigger] s[i].0 == k;
                if i < s.len() - 1 {
                    assert(d[i].0 == k);
                    assert(has_key(d, k));
                    if !has_key(prev, s.last().0) {
                        let j = choose|j: int| 0 <= j < prev.len() && #[trigger] prev[j].0 == k;
                        assert(prev.push(s.last())[j].0 == k);
                    }
                } else {
                    if !has_key(prev, s.last().0) {
                        assert(prev.push(s.last())[prev.len() as int].0 == k);
                    }
                }
            }
            if has_key(first_wins(s), k) {
                let f = first_wins(s);
                let j = choose|j: int| 0 <= j < f.len() && #[trigger] f[j].0 == k;
                if j < prev.len() {
                    assert(prev[j].0 == k);
                    assert(has_key(d, k));
                    let i = choose|i: int| 0 <= i < d.len() && #[trigger] d[i].0 == k;
                    assert(s[i].0 == k);
                } else {
                    assert(s[s.len() - 1].0 == k);
                }
            }
        }
    }
}

/// Every pair of `first_wins(s)` is the first pair of `s` with its key.
pub proof fn lemma_first_wins_first_value(s: Seq<(Seq<char>, Seq<char>)>, i: int)
    requires
        0 <= i < s.len(),
        forall|j: int| 0 <= j < i ==> #[trigger] s[j].0 != s[i].0,
    ensures
        first_wins(s).contains(s[i]),
    decreases s.len(),
{
    let d = s.drop_last();
    lemma_first_wins_keys(d);
    let prev = first_wins(d);
    if i < s.len() - 1 {
        assert forall|j: int| 0 <= j < i implies #[trigger] d[j].0 != d[i].0 by {
            assert(d[j] == s[j]);
        }
        lemma_first_wins_first_value(d, i);
        assert(d[i] == s[i]);
        let k = choose|k: int| 0 <= k < prev.len() && prev[k] == s[i];
        if !has_key(prev, s.last().0) {
            assert(prev.push(s.last())[k] == s[i]);
        }
    } else {
        if has_key(prev, s.last().0) {
            assert(has_key(d, s.last().0));
            let j = choose|j: int| 0 <= j < d.len() && #[trigger] d[j].0 == s.last().0;
            assert(s[j].0 == s[i].0);
            assert(false);
        }
        assert(first_wins(s)[prev.len() as int] == s[i]);
    }
}

/// Pairs whose keys are already distinct pass through unchanged.
pub proof fn lemma_first_wins_distinct(s: Seq<(Seq<char>, Seq<char>)>)
    requires
        keys_distinct(s),
    ensures
        first_wins(s) == s,
    decreases s.len(),
{
    if s.len() > 0 {
        let d = s.drop_last();
        assert(keys_distinct(d)) by {
            assert forall|i: int, j: int| 0 <= i < j < d.len() implies #[trigger] d[i].0
                != #[trigger] d[j].0 by {
                assert(d[i] == s[i] && d[j] == s[j]);
            }
        }
        lemma_first_wins_distinct(d);
        if has_key(d, s.last().0) {
            let j = choose|j: int| 0 <= j < d.len() && #[trigger] d[j].0 == s.last().0;
            assert(s[j].0 == s[s.len() - 1].0);
        }
        assert(d.push(s.last()) =~= s);
    }
}

/// String-to-string attributes of an annotation record. Keys are unique; when
/// built from a list with a repeated key, the first value given for the key is
/// kept and later ones are dropped. Pairs keep the order of first occurrence.
#[derive(Clone, Debug, PartialEq, Eq)]
pub struct AttributeMap {
    entries: Vec<(String, String)>,
}

impl View for AttributeMap {
    type V = Seq<(Seq<char>, Seq<char>)>;

    closed spec fn view(&self) -> Seq<(Seq<char>, Seq<char>)> {
        pairs_view(self.entries@)
    }
}

/// Whether `v` holds a pair whose key is `k`.
fn contains_key(v: &Vec<(String, String)>, k: &String) -> (r: bool)
    ensures
        r == has_key(pairs_view(v@), k@),
{
    let mut i: usize = 0;
    while i < v.len()
        invariant
            i <= v.len(),
            forall|j: int| 0 <= j < i ==> (#[trigger] v@[j]).0@ != k@,
        decreases v.len() - i,
    {
        if v[i].0 == *k {
            assert(pairs_view(v@)[i as int].0 == k@);
            return true;
        }
        i = i + 1;
    }
    proof {
        if has_key(pairs_view(v@), k@) {
            let j = choose|j: int|
                0 <= j < pairs_view(v@).len() && #[trigger] pairs_view(v@)[j].0 == k@;
            assert(v@[j].0@ == k@);
        }
    }
    false
}

impl AttributeMap {
    /// The keys of the map are distinct.
    pub open spec fn wf(&self) -> bool {
        keys_distinct(self@)
    }

    /// A map with no attributes.
    pub fn new() -> (r: AttributeMap)
        ensures
            r@ == Seq::<(Seq<char>, Seq<char>)>::empty(),
            r.wf(),
    {
        AttributeMap { entries: Vec::new() }
    }

    /// Builds the map from attribute pairs in their order of appearance; of
    /// pairs with equal keys only the first is kept.
    pub fn from_entries(entries: Vec<(String, String)>) -> (r: AttributeMap)
        ensures
            r@ == first_wins(pairs_view(entries@)),
            r.wf(),
    {
        let mut kept: Vec<(String, String)> = Vec::new();
        let ghost src = pairs_view(entries@);
        let mut i: usize = 0;
        while i < entries.len()
            invariant
                i <= entries.len(),
                src == pairs_view(entries@),
                pairs_view(kept@) == first_wins(src.subrange(0, i as int)),
            decreases entries.len() - i,
        {
            let k = entries[i].0.clone();
            let v = entries[i].1.clone();
            let present = contains_key(&kept, &k);
            proof {
                let s = src.subrange(0, i as int + 1);
                assert(s.drop_last() =~= src.subrange(0, i as int));
                assert(s.last() == (k@, v@));
            }
            if !present {
                kept.push((k, v));
                assert(pairs_view(kept@) =~= first_wins(src.subrange(0, i as int)).push(
                    (entries@[i as int].0@, entries@[i as int].1@),
                ));
            }
            i = i + 1;
        }
        assert(src.subrange(0, entries.len() as int) =~= src);
        proof {
            lemma_first_wins_keys(src);
        }
        AttributeMap { entries: kept }
    }

    /// The attribute pairs, in order.
    pub fn to_vec(&self) -> (r: Vec<(String, String)>)
        ensures
            pairs_view(r@) == self@,
    {
        let mut out: Vec<(String, String)> = Vec::new();
        let mut i: usize = 0;
        while i < self.entries.len()
            invariant
                i <= self.entries.len(),
                out.len() == i,
                forall|j: int| 0 <= j < i ==> pair_view(#[trigger] out@[j]) == pair_view(self.entries@[j]),
            decreases self.entries.len() - i,
        {
            let k = self.entries[i].0.clone();
            let v = self.entries[i].1.clone();
            out.push((k, v));
            i = i + 1;
        }
        assert(pairs_view(out@) =~= pairs_view(self.entries@));
        out
    }

    /// The number of attributes.
    pub fn len(&self) -> (r: usize)
        ensures
            r == self@.len(),
    {
        self.entries.len()
    }

    /// The key of the attribute at `i`.
    pub fn key(&self, i: usize) -> (r: &String)
        requires
            i < self@.len(),
        ensures
            r@ == self@[i as int].0,
    {
        &self.entries[i].0
    }

    /// The value of the attribute at `i`.
    pub fn value(&self, i: usize) -> (r: &String)
        requires
            i < self@.len(),
        ensures
            r@ == self@[i as int].1,
    {
        &self.entries[i].1
    }

    /// The value stored under `k`, if any.
    pub fn get(&self, k: &String) -> (r: Option<&String>)
        requires
            self.wf(),
        ensures
            r is None <==> !has_key(self@, k@),
            r matches Some(v) ==> self@.contains((k@, v@)),
    {
        let mut i: usize = 0;
        while i < self.entries.len()
            invariant
                i <= self.entries.len(),
                forall|j: int| 0 <= j < i ==> (#[trigger] self@[j]).0 != k@,
            decreases self.entries.len() - i,
        {
            if self.entries[i].0 == *k {
                assert(self@[i as int] == (k@, self.entries@[i as int].1@));
                assert(self@[i as int].0 == k@);
                assert(has_key(self@, k@));
                return Some(&self.entries[i].1);
            }
            i = i + 1;
        }
        None
    }
}

} // verus!
