//! Metadata: an ordered list of `key=value` pairs attached to objects and
//! properties, stored in the archive in its serialized text form.

use vstd::prelude::*;
use vstd::string::*;
use crate::util::text::str_equals;

verus! {

/// Ordered key/value metadata.
#[derive(Clone, Debug)]
pub struct MetaData {
    /// The entries, in the order their keys were first set.
    pub entries: Vec<(String, String)>,
}

/// The key/value pairs of a metadata list as character sequences.
pub open spec fn metadata_pairs(md: MetaData) -> Seq<(Seq<char>, Seq<char>)> {
    md.entries@.map_values(|e: (String, String)| (e.0@, e.1@))
}

/// Setting `key` to `value`: the value of an existing key is replaced in
/// place, a new key is appended.
pub open spec fn pairs_with(pairs: Seq<(Seq<char>, Seq<char>)>, key: Seq<char>, value: Seq<char>) -> Seq<
    (Seq<char>, Seq<char>),
> {
    if exists|i: int| is_first_key_index(pairs, key, i) {
        let i = choose|i: int| is_first_key_index(pairs, key, i);
        pairs.update(i, (key, value))
    } else {
        pairs.push((key, value))
    }
}

/// `i` is the first position whose key is `key`.
pub open spec fn is_first_key_index(pairs: Seq<(Seq<char>, Seq<char>)>, key: Seq<char>, i: int) -> bool {
    0 <= i < pairs.len() && pairs[i].0 == key && forall|j: int| 0 <= j < i ==> pairs[j].0 != key
}

/// The serialized text of metadata: `key=value` entries joined by `;`.
pub open spec fn metadata_text(pairs: Seq<(Seq<char>, Seq<char>)>) -> Seq<char>
    decreases pairs.len(),
{
    if pairs.len() == 0 {
        Seq::empty()
    } else if pairs.len() == 1 {
        pairs[0].0 + seq!['='] + pairs[0].1
    } else {
        metadata_text(pairs.drop_last()) + seq![';'] + pairs.last().0 + seq!['='] + pairs.last().1
    }
}

/// Keys are unique in a metadata list.
pub open spec fn keys_unique(pairs: Seq<(Seq<char>, Seq<char>)>) -> bool {
    forall|i: int, j: int| 0 <= i < j < pairs.len() ==> pairs[i].0 != pairs[j].0
}

impl MetaData {
    /// Empty metadata.
    pub fn new() -> (r: Self)
        ensures
            metadata_pairs(r) == Seq::<(Seq<char>, Seq<char>)>::empty(),
    {
        let r = MetaData { entries: Vec::new() };
        assert(metadata_pairs(r) =~= Seq::<(Seq<char>, Seq<char>)>::empty());
        r
    }

    /// Set `key` to `value`, replacing the value of an existing key.
    pub fn set(&mut self, key: &str, value: &str)
        ensures
            metadata_pairs(*final(self)) == pairs_with(metadata_pairs(*old(self)), key@, value@),
    {
        let ghost pairs = metadata_pairs(*self);
        let mut i: usize = 0;
        while i < self.entries.len()
            invariant
                i <= self.entries@.len(),
                pairs == metadata_pairs(*self),
                pairs == metadata_pairs(*old(self)),
                forall|j: int| 0 <= j < i ==> pairs[j].0 != key@,
            decreases self.entries@.len() - i,
        {
            if str_equals(self.entries[i].0.as_str(), key) {
                assert(is_first_key_index(pairs, key@, i as int));
                let ghost k = choose|k: int| is_first_key_index(pairs, key@, k);
                assert(k == i) by {
                    if k < i {
                        assert(pairs[k].0 != key@);
                    } else if k > i {
                        assert(pairs[i as int].0 != key@);
                    }
                }
                let entry = (self.entries[i].0.clone(), value.to_owned());
                self.entries.set(i, entry);
                assert(metadata_pairs(*self) =~= pairs.update(i as int, (key@, value@)));
                return;
            }
            i = i + 1;
        }
        self.entries.push((key.to_owned(), value.to_owned()));
        assert(metadata_pairs(*self) =~= pairs.push((key@, value@)));
    }

    /// The value of `key`, if set.
    pub fn get(&self, key: &str) -> (r: Option<String>)
        ensures
            (exists|i: int| is_first_key_index(metadata_pairs(*self), key@, i)) ==> (r matches Some(v)
                && v@ == metadata_pairs(*self)[choose|i: int|
                is_first_key_index(metadata_pairs(*self), key@, i)].1),
            !(exists|i: int| is_first_key_index(metadata_pairs(*self), key@, i)) ==> r is None,
    {
        let ghost pairs = metadata_pairs(*self);
        let mut i: usize = 0;
        while i < self.entries.len()
            invariant
                i <= self.entries@.len(),
                pairs == metadata_pairs(*self),
                forall|j: int| 0 <= j < i ==> pairs[j].0 != key@,
            decreases self.entries@.len() - i,
        {
            if str_equals(self.entries[i].0.as_str(), key) {
                assert(is_first_key_index(pairs, key@, i as int));
                let ghost k = choose|k: int| is_first_key_index(pairs, key@, k);
                assert(k == i) by {
                    if k < i {
                        assert(pairs[k].0 != key@);
                    } else if k > i {
                        assert(pairs[i as int].0 != key@);
                    }
                }
                return Some(self.entries[i].1.clone());
            }
            i = i + 1;
        }
        None
    }

    /// A copy with the same entries.
    pub fn duplicate(&self) -> (r: MetaData)
        ensures
            metadata_pairs(r) == metadata_pairs(*self),
    {
        let mut entries: Vec<(String, String)> = Vec::new();
        let mut i: usize = 0;
        while i < self.entries.len()
            invariant
                i <= self.entries@.len(),
                entries@.len() == i,
                forall|j: int| 0 <= j < i ==> entries@[j].0@ == self.entries@[j].0@ && entries@[j].1@
                    == self.entries@[j].1@,
            decreases self.entries@.len() - i,
        {
            entries.push((self.entries[i].0.clone(), self.entries[i].1.clone()));
            i = i + 1;
        }
        let r = MetaData { entries };
        assert(metadata_pairs(r) =~= metadata_pairs(*self));
        r
    }

    /// True when no key is set.
    pub fn is_empty(&self) -> (r: bool)
        ensures
            r == (metadata_pairs(*self).len() == 0),
    {
        self.entries.len() == 0
    }

    /// The serialized text: `key=value` entries joined by `;`.
    pub fn serialize(&self) -> (r: String)
        ensures
            r@ == metadata_text(metadata_pairs(*self)),
    {
        let ghost pairs = metadata_pairs(*self);
        let mut out = String::new();
        let mut i: usize = 0;
        proof {
            reveal_strlit(";");
            reveal_strlit("=");
        }
        while i < self.entries.len()
            invariant
                i <= self.entries@.len(),
                pairs == metadata_pairs(*self),
                out@ == metadata_text(pairs.subrange(0, i as int)),
            decreases self.entries@.len() - i,
        {
            let ghost before = out@;
            if i > 0 {
                out.append(";");
            }
            out.append(self.entries[i].0.as_str());
            out.append("=");
            out.append(self.entries[i].1.as_str());
            proof {
                reveal_strlit(";");
                reveal_strlit("=");
                let sub = pairs.subrange(0, i + 1);
                assert(sub.drop_last() =~= pairs.subrange(0, i as int));
                assert(pairs[i as int] == (self.entries@[i as int].0@, self.entries@[i as int].1@));
                assert(sub.last() == pairs[i as int]);
                assert(sub[0] == pairs[0]);
                if i == 0 {
                    assert(out@ =~= metadata_text(sub));
                } else {
                    assert(out@ =~= metadata_text(sub));
                }
            }
            i = i + 1;
        }
        assert(pairs.subrange(0, pairs.len() as int) =~= pairs);
        out
    }
}

/// The value `get` gives for `key`: that of its first entry, if any.
pub open spec fn metadata_lookup(pairs: Seq<(Seq<char>, Seq<char>)>, key: Seq<char>) -> Option<Seq<char>> {
    if exists|i: int| is_first_key_index(pairs, key, i) {
        Some(pairs[choose|i: int| is_first_key_index(pairs, key, i)].1)
    } else {
        None
    }
}

proof fn lemma_first_index_unique(pairs: Seq<(Seq<char>, Seq<char>)>, key: Seq<char>, i: int, j: int)
    requires
        is_first_key_index(pairs, key, i),
        is_first_key_index(pairs, key, j),
    ensures
        i == j,
{
    if i < j {
        assert(pairs[i].0 != key);
    } else if j < i {
        assert(pairs[j].0 != key);
    }
}

proof fn lemma_lookup_at(pairs: Seq<(Seq<char>, Seq<char>)>, key: Seq<char>, i: int)
    requires
        is_first_key_index(pairs, key, i),
    ensures
        metadata_lookup(pairs, key) == Some(pairs[i].1),
{
    let k = choose|k: int| is_first_key_index(pairs, key, k);
    lemma_first_index_unique(pairs, key, i, k);
}

proof fn lemma_lookup_absent(pairs: Seq<(Seq<char>, Seq<char>)>, key: Seq<char>)
    requires
        forall|j: int| 0 <= j < pairs.len() ==> pairs[j].0 != key,
    ensures
        metadata_lookup(pairs, key) is None,
{
}

/// Reading back a write: after setting `key` to `value`, looking up `key`
/// gives `value`, and looking up any other key gives what it gave before.
pub proof fn lemma_get_after_set(
    pairs: Seq<(Seq<char>, Seq<char>)>,
    key: Seq<char>,
    value: Seq<char>,
    other: Seq<char>,
)
    ensures
        metadata_lookup(pairs_with(pairs, key, value), key) == Some(value),
        other != key ==> metadata_lookup(pairs_with(pairs, key, value), other) == metadata_lookup(pairs, other),
{
    let after = pairs_with(pairs, key, value);
    if exists|i: int| is_first_key_index(pairs, key, i) {
        let i = choose|i: int| is_first_key_index(pairs, key, i);
        assert(after == pairs.update(i, (key, value)));
        assert(is_first_key_index(after, key, i));
        lemma_lookup_at(after, key, i);
        if other != key {
            if exists|j: int| is_first_key_index(pairs, other, j) {
                let j = choose|j: int| is_first_key_index(pairs, other, j);
                assert(j != i);
                assert(is_first_key_index(after, other, j));
                lemma_lookup_at(after, other, j);
                lemma_lookup_at(pairs, other, j);
            } else {
                assert forall|j: int| 0 <= j < after.len() implies after[j].0 != other by {
                    if after[j].0 == other {
                        assert(pairs[j].0 == other);
                        lemma_first_exists(pairs, other, j);
                    }
                }
                lemma_lookup_absent(after, other);
            }
        }
    } else {
        assert(after == pairs.push((key, value)));
        assert forall|j: int| 0 <= j < pairs.len() implies pairs[j].0 != key by {
            if pairs[j].0 == key {
                lemma_first_exists(pairs, key, j);
            }
        }
        assert(is_first_key_index(after, key, pairs.len() as int));
        lemma_lookup_at(after, key, pairs.len() as int);
        if other != key {
            if exists|j: int| is_first_key_index(pairs, other, j) {
                let j = choose|j: int| is_first_key_index(pairs, other, j);
                assert(is_first_key_index(after, other, j));
                lemma_lookup_at(after, other, j);
                lemma_lookup_at(pairs, other, j);
            } else {
                assert forall|j: int| 0 <= j < after.len() implies after[j].0 != other by {
                    if j < pairs.len() && after[j].0 == other {
                        assert(pairs[j].0 == other);
                        lemma_first_exists(pairs, other, j);
                    }
                }
                lemma_lookup_absent(after, other);
            }
        }
    }
}

/// A key present at position `j` has a first position.
proof fn lemma_first_exists(pairs: Seq<(Seq<char>, Seq<char>)>, key: Seq<char>, j: int)
    requires
        0 <= j < pairs.len(),
        pairs[j].0 == key,
    ensures
        exists|i: int| is_first_key_index(pairs, key, i),
    decreases j,
{
    if forall|q: int| 0 <= q < j ==> pairs[q].0 != key {
        assert(is_first_key_index(pairs, key, j));
    } else {
        let q = choose|q: int| 0 <= q < j && pairs[q].0 == key;
        lemma_first_exists(pairs, key, q);
    }
}

/// Setting a key keeps the keys of a metadata list unique.
pub proof fn lemma_set_keeps_keys_unique(pairs: Seq<(Seq<char>, Seq<char>)>, key: Seq<char>, value: Seq<char>)
    requires
        keys_unique(pairs),
    ensures
        keys_unique(pairs_with(pairs, key, value)),
{
    let after = pairs_with(pairs, key, value);
    if exists|i: int| is_first_key_index(pairs, key, i) {
        let i = choose|i: int| is_first_key_index(pairs, key, i);
        assert(after == pairs.update(i, (key, value)));
        assert forall|a: int, b: int| 0 <= a < b < after.len() implies after[a].0 != after[b].0 by {
            assert(after[a].0 == pairs[a].0);
            assert(after[b].0 == pairs[b].0);
        }
    } else {
        assert(after == pairs.push((key, value)));
        assert forall|a: int, b: int| 0 <= a < b < after.len() implies after[a].0 != after[b].0 by {
            if b == pairs.len() {
                if pairs[a].0 == key {
                    lemma_first_exists(pairs, key, a);
                }
            }
        }
    }
}

} // verus!
