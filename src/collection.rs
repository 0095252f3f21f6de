use vstd::prelude::*;

use crate::errors::Error;
use crate::event::Event;
use crate::record::{Entry, Values};
use crate::schema::{nameable, Schema};
use crate::segment::{self, fields_view, fits, schema_of, FieldView, Segment, CACHE_CAPACITY};
use crate::value::same_text;

verus! {

/// What an index holds: its schema, and the id and records of its live
/// segment, if any.
pub type IndexState = (Seq<FieldView>, Option<(u128, Seq<Seq<Entry>>)>);

/// The state of one schema as plain values.
pub open spec fn state_of(s: Schema) -> IndexState {
    (
        fields_view(s.fields@),
        match s.segment {
            Some(seg) => Some((seg.id(), seg.records().unwrap())),
            None => None,
        },
    )
}

/// What routing an event did, and what the caller is to do next.
#[derive(Debug)]
pub enum Routed {
    /// The record joined the index's live segment.
    Appended,
    /// A segment with this id was opened for the record; its timer is to be armed.
    Opened(u128),
    /// This segment was detached (by its timer, or on reaching capacity) and is
    /// to be terminated.
    Expire(Segment),
    /// Nothing to do: an update, a delete, or an expiry that came too late.
    Ignored,
}

/// What routing a record does, given the fresh id a new segment would take.
pub open spec fn insert_outcome(
    old: Map<Seq<char>, IndexState>,
    index: Seq<char>,
    data: Seq<Entry>,
    fresh: u128,
    r: Result<Routed, Error>,
    new: Map<Seq<char>, IndexState>,
) -> bool {
    if old.contains_key(index) {
        let fields = old[index].0;
        if schema_of(data) != fields {
            r == Err::<Routed, Error>(Error::SchemaMismatch) && new == old
        } else {
            match old[index].1 {
                Some((id, rs)) => if rs.len() + 1 >= CACHE_CAPACITY {
                    (r matches Ok(Routed::Expire(s)) && s.id() == id && s.wf() && s.schema()
                        == fields && s.records() == Some(rs.push(data))) && new == old.insert(
                        index,
                        (fields, None),
                    )
                } else {
                    r matches Ok(Routed::Appended) && new == old.insert(
                        index,
                        (fields, Some((id, rs.push(data)))),
                    )
                },
                None => r matches Ok(Routed::Opened(x)) && x == fresh && new == old.insert(
                    index,
                    (fields, Some((fresh, seq![data]))),
                ),
            }
        }
    } else if !nameable(index, data) {
        r == Err::<Routed, Error>(Error::EmptyName) && new == old
    } else {
        r matches Ok(Routed::Opened(x)) && x == fresh && new == old.insert(
            index,
            (schema_of(data), Some((fresh, seq![data]))),
        )
    }
}

/// What an expiry does: the live segment of the index leaves it when its id
/// matches; otherwise nothing changes.
pub open spec fn expire_outcome(
    old: Map<Seq<char>, IndexState>,
    index: Seq<char>,
    id: u128,
    r: Option<Segment>,
    new: Map<Seq<char>, IndexState>,
) -> bool {
    if old.contains_key(index) && old[index].1 is Some && old[index].1.unwrap().0 == id {
        (r matches Some(s) && s.id() == id && s.wf() && s.schema() == old[index].0 && s.records()
            == Some(old[index].1.unwrap().1)) && new == old.insert(index, (old[index].0, None))
    } else {
        r is None && new == old
    }
}

/// Relies on uuid::Uuid::new_v4: a random id; nothing is known of its value.
#[verifier::external_body]
fn new_segment_id() -> (r: u128) {
    uuid::Uuid::new_v4().as_u128()
}

/// The schemas of all indices, each with at most one live segment.
#[derive(Debug)]
pub struct Collection {
    schemas: Vec<Schema>,
}

/// An empty collection.
pub fn new() -> (r: Collection)
    ensures
        r@ == Map::<Seq<char>, IndexState>::empty(),
        r.wf(),
{
    let r = Collection { schemas: Vec::new() };
    assert(r@ =~= Map::<Seq<char>, IndexState>::empty());
    r
}

/// A schema's live segment is well formed, shares its schema, holds a cache,
/// and is below capacity.
pub open spec fn schema_ok(s: Schema) -> bool {
    match s.segment {
        Some(seg) => seg.wf() && seg.schema() == fields_view(s.fields@) && seg.records() is Some
            && seg.records().unwrap().len() < CACHE_CAPACITY,
        None => true,
    }
}

/// No two schemas share a name.
pub open spec fn unique_names(v: Seq<Schema>) -> bool {
    forall|a: int, b: int| 0 <= a < b < v.len() ==> v[a].name@ != v[b].name@
}

/// The schemas of a list, by name.
pub open spec fn view_of(v: Seq<Schema>) -> Map<Seq<char>, IndexState> {
    Map::new(
        |k: Seq<char>| exists|i: int| 0 <= i < v.len() && v[i].name@ == k,
        |k: Seq<char>| state_of(v[choose|i: int| 0 <= i < v.len() && v[i].name@ == k]),
    )
}

proof fn lemma_view_of_at(v: Seq<Schema>, i: int)
    requires
        unique_names(v),
        0 <= i < v.len(),
    ensures
        view_of(v).contains_key(v[i].name@),
        view_of(v)[v[i].name@] == state_of(v[i]),
{
    let k = v[i].name@;
    let w = choose|j: int| 0 <= j < v.len() && v[j].name@ == k;
    if w < i {
        assert(v[w].name@ != v[i].name@);
    } else if w > i {
        assert(v[i].name@ != v[w].name@);
    }
}

proof fn lemma_view_of_update(v: Seq<Schema>, i: int, s: Schema)
    requires
        unique_names(v),
        0 <= i < v.len(),
        s.name@ == v[i].name@,
    ensures
        unique_names(v.update(i, s)),
        view_of(v.update(i, s)) == view_of(v).insert(s.name@, state_of(s)),
{
    let w = v.update(i, s);
    assert forall|a: int, b: int| 0 <= a < b < w.len() implies w[a].name@ != w[b].name@ by {
        assert(w[a].name@ == v[a].name@ && w[b].name@ == v[b].name@);
    }
    let m = view_of(v).insert(s.name@, state_of(s));
    assert forall|k: Seq<char>| #[trigger] view_of(w).contains_key(k) <==> m.contains_key(k) by {
        if view_of(w).contains_key(k) {
            let j = choose|j: int| 0 <= j < w.len() && w[j].name@ == k;
            assert(v[j].name@ == k);
        }
        if m.contains_key(k) && k != s.name@ {
            let j = choose|j: int| 0 <= j < v.len() && v[j].name@ == k;
            assert(w[j].name@ == k);
        }
        if k == s.name@ {
            assert(w[i].name@ == k);
        }
    }
    assert forall|k: Seq<char>| view_of(w).contains_key(k) implies #[trigger] view_of(w)[k]
        == m[k] by {
        let j = choose|j: int| 0 <= j < w.len() && w[j].name@ == k;
        lemma_view_of_at(w, j);
        if j != i {
            assert(v[j] == w[j]);
            lemma_view_of_at(v, j);
        }
    }
    assert(view_of(w) =~= m);
}

proof fn lemma_view_of_push(v: Seq<Schema>, s: Schema)
    requires
        unique_names(v),
        !view_of(v).contains_key(s.name@),
    ensures
        unique_names(v.push(s)),
        view_of(v.push(s)) == view_of(v).insert(s.name@, state_of(s)),
{
    let w = v.push(s);
    let n = v.len() as int;
    assert forall|a: int, b: int| 0 <= a < b < w.len() implies w[a].name@ != w[b].name@ by {
        if b == n {
            assert(w[a] == v[a]);
            if v[a].name@ == s.name@ {
                assert(view_of(v).contains_key(s.name@));
            }
        } else {
            assert(w[a] == v[a] && w[b] == v[b]);
        }
    }
    let m = view_of(v).insert(s.name@, state_of(s));
    assert forall|k: Seq<char>| #[trigger] view_of(w).contains_key(k) <==> m.contains_key(k) by {
        if view_of(w).contains_key(k) {
            let j = choose|j: int| 0 <= j < w.len() && w[j].name@ == k;
            if j < n {
                assert(v[j].name@ == k);
            }
        }
        if m.contains_key(k) && k != s.name@ {
            let j = choose|j: int| 0 <= j < v.len() && v[j].name@ == k;
            assert(w[j].name@ == k);
        }
        if k == s.name@ {
            assert(w[n].name@ == k);
        }
    }
    assert forall|k: Seq<char>| view_of(w).contains_key(k) implies #[trigger] view_of(w)[k]
        == m[k] by {
        let j = choose|j: int| 0 <= j < w.len() && w[j].name@ == k;
        lemma_view_of_at(w, j);
        if j != n {
            assert(v[j] == w[j]);
            lemma_view_of_at(v, j);
        }
    }
    assert(view_of(w) =~= m);
}

impl View for Collection {
    type V = Map<Seq<char>, IndexState>;

    closed spec fn view(&self) -> Map<Seq<char>, IndexState> {
        view_of(self.schemas@)
    }
}

impl Collection {
    /// Index names are unique, and every live segment is sound.
    pub closed spec fn wf(&self) -> bool {
        &&& unique_names(self.schemas@)
        &&& forall|i: int| 0 <= i < self.schemas@.len() ==> schema_ok(#[trigger] self.schemas@[i])
    }

    /// Every live segment holds fewer records than the capacity: a segment
    /// that reaches it is detached at once.
    pub proof fn lemma_live_below_capacity(&self, k: Seq<char>)
        requires
            self.wf(),
            self@.contains_key(k),
            self@[k].1 is Some,
        ensures
            self@[k].1.unwrap().1.len() < CACHE_CAPACITY,
    {
        let i = choose|j: int| 0 <= j < self.schemas@.len() && self.schemas@[j].name@ == k;
        lemma_view_of_at(self.schemas@, i);
        assert(schema_ok(self.schemas@[i]));
    }

    fn find(&self, index: &str) -> (r: Option<usize>)
        requires
            self.wf(),
        ensures
            match r {
                Some(i) => i < self.schemas@.len() && self.schemas@[i as int].name@ == index@
                    && self@.contains_key(index@) && self@[index@] == state_of(self.schemas@[i as int]),
                None => !self@.contains_key(index@),
            },
    {
        let mut i: usize = 0;
        while i < self.schemas.len()
            invariant
                i <= self.schemas@.len(),
                self.wf(),
                forall|j: int| 0 <= j < i ==> self.schemas@[j].name@ != index@,
            decreases self.schemas@.len() - i,
        {
            if same_text(self.schemas[i].name.as_str(), index) {
                proof { lemma_view_of_at(self.schemas@, i as int); }
                return Some(i);
            }
            i = i + 1;
        }
        None
    }

    /// Routes a record to its index, opening a segment with id `fresh` when
    /// the index has none live. The index's schema never changes once set.
    pub fn insert_with_id(&mut self, index: &str, data: Values, fresh: u128) -> (r: Result<
        Routed,
        Error,
    >)
        requires
            old(self).wf(),
            data.wf(),
        ensures
            final(self).wf(),
            insert_outcome(old(self)@, index@, data@, fresh, r, final(self)@),
            old(self)@.contains_key(index@) ==> final(self)@.contains_key(index@) && final(self)@[index@].0
                == old(self)@[index@].0,
    {
        match self.find(index) {
            Some(i) => {
                let ghost v = self.schemas@;
                if !fits(&self.schemas[i].fields, &data) {
                    return Err(Error::SchemaMismatch);
                }
                let s = self.schemas.remove(i);
                assert(s == v[i as int]);
                let Schema { name, fields, segment } = s;
                match segment {
                    Some(mut seg) => {
                        assert(schema_ok(v[i as int]));
                        let added = seg.add(data);
                        if seg.full() {
                            let t = Schema { name, fields, segment: None };
                            self.schemas.insert(i, t);
                            proof {
                                assert(self.schemas@ =~= v.update(i as int, t));
                                lemma_view_of_update(v, i as int, t);
                                assert forall|j: int| 0 <= j < self.schemas@.len() implies schema_ok(
                                    #[trigger] self.schemas@[j],
                                ) by {
                                    if j != i {
                                        assert(self.schemas@[j] == v[j]);
                                    }
                                }
                            }
                            Ok(Routed::Expire(seg))
                        } else {
                            let t = Schema { name, fields, segment: Some(seg) };
                            self.schemas.insert(i, t);
                            proof {
                                assert(self.schemas@ =~= v.update(i as int, t));
                                lemma_view_of_update(v, i as int, t);
                                assert forall|j: int| 0 <= j < self.schemas@.len() implies schema_ok(
                                    #[trigger] self.schemas@[j],
                                ) by {
                                    if j != i {
                                        assert(self.schemas@[j] == v[j]);
                                    }
                                }
                            }
                            Ok(Routed::Appended)
                        }
                    },
                    None => {
                        let t0 = Schema { name, fields, segment: None };
                        let mut seg = segment::new(&t0, fresh);
                        let added = seg.add(data);
                        let Schema { name, fields, segment: _ } = t0;
                        let t = Schema { name, fields, segment: Some(seg) };
                        self.schemas.insert(i, t);
                        proof {
                            assert(seq![data@] =~= Seq::<Seq<Entry>>::empty().push(data@));
                            assert(self.schemas@ =~= v.update(i as int, t));
                            lemma_view_of_update(v, i as int, t);
                            assert forall|j: int| 0 <= j < self.schemas@.len() implies schema_ok(
                                #[trigger] self.schemas@[j],
                            ) by {
                                if j != i {
                                    assert(self.schemas@[j] == v[j]);
                                }
                            }
                        }
                        Ok(Routed::Opened(fresh))
                    },
                }
            },
            None => {
                let ghost v = self.schemas@;
                let t0 = match Schema::try_from(index, &data) {
                    Ok(t0) => t0,
                    Err(e) => {
                        return Err(e);
                    },
                };
                let mut seg = segment::new(&t0, fresh);
                let added = seg.add(data);
                let Schema { name, fields, segment: _ } = t0;
                let t = Schema { name, fields, segment: Some(seg) };
                self.schemas.push(t);
                proof {
                    assert(seq![data@] =~= Seq::<Seq<Entry>>::empty().push(data@));
                    lemma_view_of_push(v, t);
                    assert forall|j: int| 0 <= j < self.schemas@.len() implies schema_ok(
                        #[trigger] self.schemas@[j],
                    ) by {
                        if j < v.len() {
                            assert(self.schemas@[j] == v[j]);
                        }
                    }
                }
                Ok(Routed::Opened(fresh))
            },
        }
    }

    /// Routes a record to its index, opening a segment with a random id when
    /// the index has none live.
    pub fn insert(&mut self, index: &str, data: Values) -> (r: Result<Routed, Error>)
        requires
            old(self).wf(),
            data.wf(),
        ensures
            final(self).wf(),
            exists|fresh: u128| insert_outcome(old(self)@, index@, data@, fresh, r, final(self)@),
            old(self)@.contains_key(index@) ==> final(self)@.contains_key(index@) && final(self)@[index@].0
                == old(self)@[index@].0,
    {
        let fresh = new_segment_id();
        self.insert_with_id(index, data, fresh)
    }

    /// Detaches the live segment of `index` when its id is `id`.
    pub fn expired(&mut self, index: &str, id: u128) -> (r: Option<Segment>)
        requires
            old(self).wf(),
        ensures
            final(self).wf(),
            expire_outcome(old(self)@, index@, id, r, final(self)@),
    {
        match self.find(index) {
            None => None,
            Some(i) => {
                let ghost v = self.schemas@;
                let live = match &self.schemas[i].segment {
                    Some(seg) => seg.uuid() == id,
                    None => false,
                };
                if !live {
                    return None;
                }
                let s = self.schemas.remove(i);
                assert(s == v[i as int]);
                assert(schema_ok(v[i as int]));
                let Schema { name, fields, segment } = s;
                let t = Schema { name, fields, segment: None };
                self.schemas.insert(i, t);
                proof {
                    assert(self.schemas@ =~= v.update(i as int, t));
                    lemma_view_of_update(v, i as int, t);
                    assert forall|j: int| 0 <= j < self.schemas@.len() implies schema_ok(
                        #[trigger] self.schemas@[j],
                    ) by {
                        if j != i {
                            assert(self.schemas@[j] == v[j]);
                        }
                    }
                }
                segment
            },
        }
    }

    /// Handles one event of the queue: a record is routed, an expiry detaches
    /// the matching live segment, updates and deletes are not materialized.
    pub fn dispatch(&mut self, event: Event) -> (r: Result<Routed, Error>)
        requires
            old(self).wf(),
            event matches Event::Insert(_, v) ==> v.wf(),
        ensures
            final(self).wf(),
            match event {
                Event::Insert(index, data) => exists|fresh: u128|
                    insert_outcome(old(self)@, index@, data@, fresh, r, final(self)@),
                Event::SegmentExpired(index, id) => match r {
                    Ok(Routed::Expire(s)) => expire_outcome(old(self)@, index@, id, Some(s), final(self)@),
                    Ok(Routed::Ignored) => expire_outcome(old(self)@, index@, id, None, final(self)@),
                    _ => false,
                },
                _ => r matches Ok(Routed::Ignored) && final(self)@ == old(self)@,
            },
    {
        match event {
            Event::Insert(index, data) => self.insert(index.as_str(), data),
            Event::SegmentExpired(index, id) => match self.expired(index.as_str(), id) {
                Some(s) => Ok(Routed::Expire(s)),
                None => Ok(Routed::Ignored),
            },
            Event::Update(_, _) => Ok(Routed::Ignored),
            Event::Delete(_, _) => Ok(Routed::Ignored),
        }
    }
}

} // verus!
