use vstd::prelude::*;

use crate::value::{key_less, key_lt, lemma_key_lt_total, lemma_key_lt_transitive, lemma_key_lt_irreflexive, same_text, Value, ValueView};

verus! {

/// One column of a record, as plain values.
pub type Entry = (Seq<char>, ValueView);

/// Entries are in strictly increasing key order (so no key repeats).
pub open spec fn sorted(s: Seq<Entry>) -> bool {
    forall|i: int, j: int| 0 <= i < j < s.len() ==> key_lt(#[trigger] s[i].0, #[trigger] s[j].0)
}

/// What setting column `k` to `v` makes of the entries: the value of an
/// existing key is replaced, a new key goes to its place in key order.
pub open spec fn insert_entry(s: Seq<Entry>, k: Seq<char>, v: ValueView) -> Seq<Entry>
    decreases s.len(),
{
    if s.len() == 0 {
        seq![(k, v)]
    } else if s[0].0 == k {
        s.update(0, (k, v))
    } else if key_lt(s[0].0, k) {
        seq![s[0]] + insert_entry(s.drop_first(), k, v)
    } else {
        seq![(k, v)] + s
    }
}

/// The value held under key `k`, if any.
pub open spec fn lookup(s: Seq<Entry>, k: Seq<char>) -> Option<ValueView> {
    if exists|i: int| 0 <= i < s.len() && s[i].0 == k {
        Some(s[choose|i: int| 0 <= i < s.len() && s[i].0 == k].1)
    } else {
        None
    }
}

proof fn lemma_insert_after_prefix(s: Seq<Entry>, k: Seq<char>, v: ValueView, p: int)
    requires
        0 <= p <= s.len(),
        forall|j: int| 0 <= j < p ==> key_lt(#[trigger] s[j].0, k),
    ensures
        insert_entry(s, k, v) == s.take(p) + insert_entry(s.skip(p), k, v),
    decreases p,
{
    if p == 0 {
        assert(s.take(0) + s.skip(0) =~= s);
        assert(s.take(0) + insert_entry(s.skip(0), k, v) =~= insert_entry(s, k, v));
    } else {
        lemma_key_lt_irreflexive(k);
        assert(s[0].0 != k);
        let t = s.drop_first();
        assert forall|j: int| 0 <= j < p - 1 implies key_lt(#[trigger] t[j].0, k) by {
            assert(t[j] == s[j + 1]);
        }
        lemma_insert_after_prefix(t, k, v, p - 1);
        assert(t.skip(p - 1) =~= s.skip(p));
        assert(seq![s[0]] + t.take(p - 1) =~= s.take(p));
        assert(insert_entry(s, k, v) == seq![s[0]] + insert_entry(t, k, v));
        assert(seq![s[0]] + (t.take(p - 1) + insert_entry(s.skip(p), k, v))
            =~= s.take(p) + insert_entry(s.skip(p), k, v));
    }
}

/// Adding a key above every present key appends it.
pub proof fn lemma_insert_greatest(s: Seq<Entry>, k: Seq<char>, v: ValueView)
    requires
        forall|j: int| 0 <= j < s.len() ==> key_lt(#[trigger] s[j].0, k),
    ensures
        insert_entry(s, k, v) == s.push((k, v)),
{
    lemma_insert_after_prefix(s, k, v, s.len() as int);
    assert(s.take(s.len() as int) =~= s);
    assert(s.skip(s.len() as int) =~= Seq::<Entry>::empty());
    assert(s.take(s.len() as int) + seq![(k, v)] =~= s.push((k, v)));
}

/// A record: a mapping from column name to value, kept in key order.
#[derive(Debug, Clone, PartialEq)]
pub struct Values {
    entries: Vec<(String, Value)>,
}

impl View for Values {
    type V = Seq<Entry>;

    closed spec fn view(&self) -> Seq<Entry> {
        self.entries@.map_values(|e: (String, Value)| (e.0@, e.1@))
    }
}

impl Values {
    /// A record is well formed when its keys are in strict order.
    pub open spec fn wf(&self) -> bool {
        sorted(self@)
    }

    /// Whether the keys are in strict order, as every record built by
    /// `new` and `insert` has them.
    pub fn is_well_formed(&self) -> (r: bool)
        ensures
            r == self.wf(),
    {
        let n = self.entries.len();
        if n == 0 {
            return true;
        }
        let mut i: usize = 1;
        while i < n
            invariant
                1 <= i <= n,
                n == self@.len(),
                sorted(self@.take(i as int)),
            decreases n - i,
        {
            if !key_less(self.entries[i - 1].0.as_str(), self.entries[i].0.as_str()) {
                assert(!key_lt(self@[i - 1].0, self@[i as int].0));
                return false;
            }
            assert forall|a: int, b: int| 0 <= a < b < i + 1 implies key_lt(
                #[trigger] self@.take(i + 1)[a].0,
                #[trigger] self@.take(i + 1)[b].0,
            ) by {
                if b < i {
                    assert(self@.take(i as int)[a] == self@[a]);
                    assert(self@.take(i as int)[b] == self@[b]);
                } else if a < i - 1 {
                    assert(self@.take(i as int)[a] == self@[a]);
                    assert(self@.take(i as int)[i - 1] == self@[i - 1]);
                    lemma_key_lt_transitive(self@[a].0, self@[i - 1].0, self@[i as int].0);
                }
            }
            i = i + 1;
        }
        assert(self@.take(n as int) =~= self@);
        true
    }

    /// The empty record.
    pub fn new() -> (r: Values)
        ensures
            r@ == Seq::<Entry>::empty(),
            r.wf(),
    {
        let r = Values { entries: Vec::new() };
        assert(r@ =~= Seq::<Entry>::empty());
        r
    }

    /// Number of columns.
    pub fn len(&self) -> (r: usize)
        ensures
            r == self@.len(),
    {
        self.entries.len()
    }

    pub fn is_empty(&self) -> (r: bool)
        ensures
            r == (self@.len() == 0),
    {
        self.entries.len() == 0
    }

    /// The column name at position `i` in key order.
    pub fn key_at(&self, i: usize) -> (r: &String)
        requires
            i < self@.len(),
        ensures
            r@ == self@[i as int].0,
    {
        &self.entries[i].0
    }

    /// The value at position `i` in key order.
    pub fn value_at(&self, i: usize) -> (r: &Value)
        requires
            i < self@.len(),
        ensures
            r@ == self@[i as int].1,
    {
        &self.entries[i].1
    }

    /// The value held under `key`.
    pub fn get(&self, key: &str) -> (r: Option<&Value>)
        requires
            self.wf(),
        ensures
            match r {
                Some(v) => lookup(self@, key@) == Some(v@),
                None => lookup(self@, key@).is_none(),
            },
    {
        let mut i: usize = 0;
        while i < self.entries.len()
            invariant
                i <= self@.len(),
                self@.len() == self.entries@.len(),
                self.wf(),
                forall|j: int| 0 <= j < i ==> self@[j].0 != key@,
            decreases self.entries.len() - i,
        {
            if same_text(self.entries[i].0.as_str(), key) {
                proof {
                    assert(self@[i as int].0 == key@);
                    let w = choose|j: int| 0 <= j < self@.len() && self@[j].0 == key@;
                    lemma_key_lt_irreflexive(key@);
                    if w < i {
                        assert(self@[w].0 != key@);
                    } else if w > i {
                        assert(key_lt(self@[i as int].0, self@[w].0));
                    }
                }
                return Some(&self.entries[i].1);
            }
            i = i + 1;
        }
        None
    }

    /// Sets column `key` to `value`, replacing a value already held under it.
    pub fn insert(&mut self, key: String, value: Value)
        requires
            old(self).wf(),
        ensures
            final(self)@ == insert_entry(old(self)@, key@, value@),
            final(self).wf(),
    {
        let ghost s = self@;
        let n = self.entries.len();
        let mut p: usize = 0;
        while p < n && key_less(self.entries[p].0.as_str(), key.as_str())
            invariant
                p <= n,
                n == self.entries@.len(),
                s == self@,
                forall|j: int| 0 <= j < p ==> key_lt(#[trigger] s[j].0, key@),
            decreases n - p,
        {
            p = p + 1;
        }
        proof {
            lemma_insert_after_prefix(s, key@, value@, p as int);
        }
        let ghost t = s.skip(p as int);
        if p < n && same_text(self.entries[p].0.as_str(), key.as_str()) {
            self.entries.set(p, (key, value));
            proof {
                assert(t[0].0 == key@);
                assert(s.take(p as int) + t.update(0, (key@, value@)) =~= self@);
                assert forall|i: int, j: int| 0 <= i < j < self@.len() implies key_lt(
                    #[trigger] self@[i].0,
                    #[trigger] self@[j].0,
                ) by {
                    assert(self@[i].0 == s[i].0);
                    assert(self@[j].0 == s[j].0);
                }
            }
        } else {
            proof {
                if p < n {
                    assert(t[0] == s[p as int]);
                    lemma_key_lt_total(s[p as int].0, key@);
                    assert(key_lt(key@, t[0].0));
                    assert(insert_entry(t, key@, value@) == seq![(key@, value@)] + t);
                }
            }
            self.entries.insert(p, (key, value));
            proof {
                let k = key@;
                assert(s.take(p as int) + insert_entry(t, k, value@) =~= self@);
                assert forall|i: int, j: int| 0 <= i < j < self@.len() implies key_lt(
                    #[trigger] self@[i].0,
                    #[trigger] self@[j].0,
                ) by {
                    if j < p {
                        assert(self@[i] == s[i] && self@[j] == s[j]);
                    } else if j == p {
                        assert(self@[i] == s[i]);
                    } else if i == p {
                        assert(self@[j] == s[j - 1]);
                        if j - 1 > p {
                            assert(key_lt(s[p as int].0, s[j - 1].0));
                            lemma_key_lt_transitive(k, s[p as int].0, s[j - 1].0);
                        }
                    } else if i < p {
                        assert(self@[i] == s[i] && self@[j] == s[j - 1]);
                    } else {
                        assert(self@[i] == s[i - 1] && self@[j] == s[j - 1]);
                    }
                }
            }
        }
    }
}

} // verus!
