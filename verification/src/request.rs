//! The canonical request: what a transport hands to the admission side and
//! what the retrieval side gets back out of the log.

use vstd::prelude::*;

verus! {

/// One annotation of a request: a key and its value.
#[derive(Clone, Debug, PartialEq, Eq)]
pub struct MetadataEntry {
    pub key: String,
    pub value: String,
}

/// A request in its transport-independent shape.
#[derive(Clone, Debug, PartialEq, Eq)]
pub struct InternalRequest {
    /// Correlation key; empty until the admission side has assigned one.
    pub request_id: String,
    /// Who sent the request; may be empty.
    pub agent_id: String,
    /// The business payload, never interpreted here.
    pub payload: Vec<u8>,
    /// Annotations, at most one per key, in the order in which the keys
    /// first appeared.
    pub metadata: Vec<MetadataEntry>,
}

/// The mathematical content of a request.
pub ghost struct RequestView {
    pub request_id: Seq<char>,
    pub agent_id: Seq<char>,
    pub payload: Seq<u8>,
    pub metadata: Seq<(Seq<char>, Seq<char>)>,
}

/// The key and value of every entry, in order.
pub open spec fn entries_view(m: Seq<MetadataEntry>) -> Seq<(Seq<char>, Seq<char>)> {
    Seq::new(m.len(), |i: int| (m[i].key@, m[i].value@))
}

/// No key occurs twice.
pub open spec fn distinct_keys(m: Seq<(Seq<char>, Seq<char>)>) -> bool {
    forall|i: int, j: int| 0 <= i < j < m.len() ==> m[i].0 != m[j].0
}

/// Whether some entry of `m` has the key `k`.
pub open spec fn has_key(m: Seq<(Seq<char>, Seq<char>)>, k: Seq<char>) -> bool {
    exists|i: int| 0 <= i < m.len() && #[trigger] m[i].0 == k
}

/// `m` with `k` bound to `v`: the entry of that key is replaced where it
/// stands, a new key goes to the end.
pub open spec fn upsert(m: Seq<(Seq<char>, Seq<char>)>, k: Seq<char>, v: Seq<char>) -> Seq<
    (Seq<char>, Seq<char>),
> {
    if has_key(m, k) {
        let i = choose|i: int| 0 <= i < m.len() && #[trigger] m[i].0 == k;
        m.update(i, (k, v))
    } else {
        m.push((k, v))
    }
}

impl RequestView {
    /// The request with every field empty.
    pub open spec fn empty() -> RequestView {
        RequestView {
            request_id: Seq::empty(),
            agent_id: Seq::empty(),
            payload: Seq::empty(),
            metadata: Seq::empty(),
        }
    }

    /// The metadata is a mapping: no key occurs twice.
    pub open spec fn wf(self) -> bool {
        distinct_keys(self.metadata)
    }
}

impl View for InternalRequest {
    type V = RequestView;

    open spec fn view(&self) -> RequestView {
        RequestView {
            request_id: self.request_id@,
            agent_id: self.agent_id@,
            payload: self.payload@,
            metadata: entries_view(self.metadata@),
        }
    }
}

impl InternalRequest {
    /// The metadata is a mapping: no key occurs twice.
    pub open spec fn wf(&self) -> bool {
        self@.wf()
    }

    /// A request with every field empty.
    pub fn empty() -> (r: InternalRequest)
        ensures
            r@ == RequestView::empty(),
            r.wf(),
    {
        let r = InternalRequest {
            request_id: String::new(),
            agent_id: String::new(),
            payload: Vec::new(),
            metadata: Vec::new(),
        };
        assert(r@.metadata =~= Seq::empty());
        r
    }

    /// Binds `key` to `value` in the metadata, replacing an earlier value.
    pub fn set_metadata(&mut self, key: String, value: String)
        requires
            old(self).wf(),
        ensures
            final(self).wf(),
            final(self)@ == (RequestView {
                metadata: upsert(old(self)@.metadata, key@, value@),
                ..old(self)@
            }),
    {
        let ghost m = self@.metadata;
        let mut i: usize = 0;
        while i < self.metadata.len()
            invariant
                i <= self.metadata.len(),
                *self == *old(self),
                m == self@.metadata,
                distinct_keys(m),
                m.len() == self.metadata@.len(),
                forall|j: int| 0 <= j < i ==> #[trigger] m[j].0 != key@,
            decreases self.metadata.len() - i,
        {
            if self.metadata[i].key == key {
                assert(m[i as int].0 == key@);
                let ghost c = choose|c: int| 0 <= c < m.len() && #[trigger] m[c].0 == key@;
                assert(c == i) by {
                    if c < i {
                        assert(m[c].0 != m[i as int].0);
                    } else if i < c {
                        assert(m[i as int].0 != m[c].0);
                    }
                }
                self.metadata.set(i, MetadataEntry { key, value });
                assert(self@.metadata =~= m.update(i as int, (key@, value@)));
                assert(distinct_keys(self@.metadata)) by {
                    assert forall|a: int, b: int| 0 <= a < b < self@.metadata.len() implies self@.metadata[a].0
                        != self@.metadata[b].0 by {
                        assert(m[a].0 != m[b].0);
                    }
                }
                return ;
            }
            i += 1;
        }
        assert(!has_key(m, key@));
        self.metadata.push(MetadataEntry { key, value });
        assert(self@.metadata =~= m.push((key@, value@)));
        assert(distinct_keys(self@.metadata)) by {
            assert forall|a: int, b: int| 0 <= a < b < self@.metadata.len() implies self@.metadata[a].0
                != self@.metadata[b].0 by {
                if b < m.len() {
                    assert(m[a].0 != m[b].0);
                } else {
                    assert(m[a].0 != key@);
                }
            }
        }
    }

    /// The value that the metadata binds to `key`, if any: that of the first
    /// entry with this key, which in a mapping is the only one.
    pub fn metadata_value(&self, key: &String) -> (r: Option<&String>)
        ensures
            match r {
                Some(v) => exists|i: int|
                    0 <= i < self@.metadata.len() && #[trigger] self@.metadata[i] == (key@, v@)
                        && !has_key(self@.metadata.take(i), key@),
                None => !has_key(self@.metadata, key@),
            },
    {
        let mut i: usize = 0;
        while i < self.metadata.len()
            invariant
                i <= self.metadata.len(),
                forall|j: int| 0 <= j < i ==> #[trigger] self@.metadata[j].0 != key@,
            decreases self.metadata.len() - i,
        {
            if self.metadata[i].key == *key {
                assert(self@.metadata[i as int] == (key@, self.metadata[i as int].value@));
                assert(!has_key(self@.metadata.take(i as int), key@));
                return Some(&self.metadata[i].value);
            }
            i += 1;
        }
        None
    }
}

} // verus!
