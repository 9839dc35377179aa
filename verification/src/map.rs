//! The emitted artifact: a read-only map from declared names to byte
//! payloads, backed by two parallel, index-aligned sequences fixed at build
//! time, with exact lookup, substring-disambiguation lookup, positional
//! lookup, and restartable iteration in declaration order.

use crate::codec::{payload_of, Algorithm};
use crate::text::{contains_seq, str_contains, str_eq};
use vstd::prelude::*;

verus! {

/// Index of the first key equal to `name`, if any key is.
pub open spec fn first_key_index(keys: Seq<Seq<char>>, name: Seq<char>) -> Option<int>
    decreases keys.len(),
{
    if keys.len() == 0 {
        None
    } else if keys[0] == name {
        Some(0int)
    } else {
        match first_key_index(keys.drop_first(), name) {
            None => None,
            Some(i) => Some(i + 1),
        }
    }
}

/// How many keys contain `pat` as a substring.
pub open spec fn match_count(keys: Seq<Seq<char>>, pat: Seq<char>) -> nat
    decreases keys.len(),
{
    if keys.len() == 0 {
        0nat
    } else {
        match_count(keys.drop_last(), pat) + if contains_seq(keys.last(), pat) {
            1nat
        } else {
            0nat
        }
    }
}

/// Index of the last key that contains `pat` as a substring, if any does.
/// When exactly one key matches, this is the index of that key.
pub open spec fn last_match_index(keys: Seq<Seq<char>>, pat: Seq<char>) -> Option<int>
    decreases keys.len(),
{
    if keys.len() == 0 {
        None
    } else if contains_seq(keys.last(), pat) {
        Some(keys.len() - 1)
    } else {
        last_match_index(keys.drop_last(), pat)
    }
}

/// `first_key_index` names the first exact match: a `Some` points at a key
/// equal to `name` with no earlier equal key, and `None` means no key is
/// equal to `name`.
pub proof fn lemma_first_key_index_spec(keys: Seq<Seq<char>>, name: Seq<char>)
    ensures
        (match first_key_index(keys, name) {
            Some(i) => 0 <= i < keys.len() && keys[i] == name && (forall|j: int|
                0 <= j < i ==> keys[j] != name),
            None => forall|j: int| 0 <= j < keys.len() ==> keys[j] != name,
        }),
    decreases keys.len(),
{
    if keys.len() != 0 && keys[0] != name {
        lemma_first_key_index_spec(keys.drop_first(), name);
        assert forall|j: int| 1 <= j < keys.len() implies keys[j] == keys.drop_first()[j - 1] by {
            assert(keys.drop_first()[j - 1] == keys[j]);
        }
    }
}

/// A key equal to `name` with no earlier equal key is where
/// `first_key_index` points.
pub proof fn lemma_first_key_index_at(keys: Seq<Seq<char>>, name: Seq<char>, i: int)
    requires
        0 <= i < keys.len(),
        keys[i] == name,
        forall|j: int| 0 <= j < i ==> keys[j] != name,
    ensures
        first_key_index(keys, name) == Some(i),
    decreases i,
{
    if i == 0 {
    } else {
        assert(keys[0] != name);
        lemma_first_key_index_at(keys.drop_first(), name, i - 1);
    }
}

proof fn lemma_first_key_index_none(keys: Seq<Seq<char>>, name: Seq<char>)
    requires
        forall|j: int| 0 <= j < keys.len() ==> keys[j] != name,
    ensures
        first_key_index(keys, name) is None,
    decreases keys.len(),
{
    if keys.len() != 0 {
        lemma_first_key_index_none(keys.drop_first(), name);
    }
}

proof fn lemma_match_count_prefix(keys: Seq<Seq<char>>, pat: Seq<char>, j: int)
    requires
        0 <= j <= keys.len(),
    ensures
        match_count(keys.take(j), pat) <= match_count(keys, pat),
    decreases keys.len() - j,
{
    if j == keys.len() {
        assert(keys.take(j) =~= keys);
    } else {
        assert(keys.take(j + 1).drop_last() =~= keys.take(j));
        assert(keys.take(j + 1).last() == keys[j]);
        lemma_match_count_prefix(keys, pat, j + 1);
    }
}

/// The emitted static map: parallel, index-aligned, immutable sequences of
/// `N` keys and `N` byte payloads, where `data[i]` is the payload for
/// `keys[i]`.
pub struct StaticMap {
    keys: Vec<String>,
    data: Vec<Vec<u8>>,
}

impl StaticMap {
    /// The declared names, in declaration order.
    pub closed spec fn names(self) -> Seq<Seq<char>> {
        self.keys.deep_view()
    }

    /// The stored payloads, parallel to `names`.
    pub closed spec fn payloads(self) -> Seq<Seq<u8>> {
        self.data.deep_view()
    }

    /// Well-formedness: as many payloads as keys.
    pub open spec fn wf(self) -> bool {
        self.names().len() == self.payloads().len()
    }

    /// Assembles the backing data of a declared map.
    pub(crate) fn assemble(keys: Vec<String>, data: Vec<Vec<u8>>) -> (r: StaticMap)
        requires
            keys.deep_view().len() == data.deep_view().len(),
        ensures
            r.names() == keys.deep_view(),
            r.payloads() == data.deep_view(),
            r.wf(),
    {
        StaticMap { keys, data }
    }

    /// The declared names, in declaration order.
    pub fn keys(&self) -> (r: &Vec<String>)
        ensures
            r.deep_view() == self.names(),
    {
        &self.keys
    }

    /// The stored payloads, parallel to `keys`.
    pub fn data(&self) -> (r: &Vec<Vec<u8>>)
        ensures
            r.deep_view() == self.payloads(),
    {
        &self.data
    }

    /// Direct positional access; the index space is fixed when the map is
    /// built, so an out-of-range index is a caller error, excluded here.
    pub fn get_index(&self, index: usize) -> (r: &Vec<u8>)
        requires
            index < self.payloads().len(),
        ensures
            r@ == self.payloads()[index as int],
    {
        proof {
            assert(self.data@.len() == self.payloads().len());
            assert(self.data@[index as int]@ == self.payloads()[index as int]);
        }
        &self.data[index]
    }

    /// Exact-match lookup: the payload of the first key equal to `name`, or
    /// absence when no key is.
    pub fn get(&self, name: &str) -> (r: Option<&Vec<u8>>)
        requires
            self.wf(),
        ensures
            (match first_key_index(self.names(), name@) {
                Some(i) => r matches Some(p) && p@ == self.payloads()[i],
                None => r is None,
            }),
    {
        let n = self.keys.len();
        proof {
            assert(n == self.names().len());
        }
        let mut i: usize = 0;
        while i < n
            invariant
                self.wf(),
                n == self.keys@.len(),
                n == self.names().len(),
                i <= n,
                forall|j: int| 0 <= j < i ==> self.names()[j] != name@,
            decreases n - i,
        {
            proof {
                assert(self.names()[i as int] == self.keys@[i as int]@);
            }
            if str_eq(self.keys[i].as_str(), name) {
                proof {
                    lemma_first_key_index_at(self.names(), name@, i as int);
                }
                return Some(self.get_index(i));
            }
            i = i + 1;
        }
        proof {
            lemma_first_key_index_none(self.names(), name@);
        }
        None
    }

    /// Substring-disambiguation lookup: the position of the unique key that
    /// contains `name` as a substring; absence when no key matches or more
    /// than one does.
    pub fn get_match_index(&self, name: &str) -> (r: Option<usize>)
        ensures
            (r is Some <==> match_count(self.names(), name@) == 1),
            (r matches Some(i) ==> i < self.names().len() && Some(i as int) == last_match_index(
                self.names(),
                name@,
            ) && contains_seq(self.names()[i as int], name@)),
    {
        let n = self.keys.len();
        proof {
            assert(n == self.names().len());
        }
        let mut found: usize = 0;
        let mut matching: usize = 0;
        let mut i: usize = 0;
        while i < n
            invariant
                n == self.keys@.len(),
                n == self.names().len(),
                i <= n,
                found == match_count(self.names().take(i as int), name@),
                found <= 1,
                found == 1 ==> matching < i && Some(matching as int) == last_match_index(
                    self.names().take(i as int),
                    name@,
                ) && contains_seq(self.names()[matching as int], name@),
                found == 0 ==> last_match_index(self.names().take(i as int), name@) is None,
            decreases n - i,
        {
            let ghost pre = self.names().take(i as int);
            let ghost pre2 = self.names().take(i as int + 1);
            proof {
                assert(pre2.drop_last() =~= pre);
                assert(pre2.last() == self.names()[i as int]);
                assert(self.names()[i as int] == self.keys@[i as int]@);
            }
            if str_contains(self.keys[i].as_str(), name) {
                if found == 1 {
                    proof {
                        lemma_match_count_prefix(self.names(), name@, i as int + 1);
                    }
                    return None;
                }
                found = found + 1;
                matching = i;
            }
            i = i + 1;
        }
        proof {
            assert(self.names().take(n as int) =~= self.names());
        }
        if found == 1 {
            Some(matching)
        } else {
            None
        }
    }

    /// Substring-disambiguation lookup: the payload of the unique key that
    /// contains `name` as a substring; absence when no key matches or more
    /// than one does. Ambiguity is never silently resolved.
    pub fn get_match(&self, name: &str) -> (r: Option<&Vec<u8>>)
        requires
            self.wf(),
        ensures
            (r is Some <==> match_count(self.names(), name@) == 1),
            (r matches Some(p) ==> last_match_index(self.names(), name@) matches Some(i) && p@
                == self.payloads()[i]),
    {
        match self.get_match_index(name) {
            Some(index) => Some(self.get_index(index)),
            None => None,
        }
    }

    /// A fresh iteration cursor, starting before the first entry.
    pub fn iter<'a>(&'a self) -> (r: StaticMapIter<'a>)
        requires
            self.wf(),
        ensures
            r.src() == *self,
            r.pos() == 0,
            r.wf(),
    {
        StaticMapIter { map: self, position: 0 }
    }
}

/// A forward cursor over a map's (name, payload) pairs, in declaration
/// order. Each cursor is independent; a map can drive any number of them.
pub struct StaticMapIter<'a> {
    map: &'a StaticMap,
    position: usize,
}

impl<'a> StaticMapIter<'a> {
    /// The map this cursor walks.
    pub closed spec fn src(self) -> StaticMap {
        *self.map
    }

    /// The cursor's position: how many pairs it has already produced.
    pub closed spec fn pos(self) -> int {
        self.position as int
    }

    /// A cursor is valid between position `0` and the map's length.
    pub open spec fn wf(self) -> bool {
        self.src().wf() && 0 <= self.pos() <= self.src().names().len()
    }

    /// Produces the pair at the cursor's position and advances, or yields
    /// nothing once all pairs are out; at the terminus it stays put, so
    /// exhaustion is permanent.
    pub fn next(&mut self) -> (r: Option<(&'a String, &'a Vec<u8>)>)
        requires
            old(self).wf(),
        ensures
            final(self).wf(),
            final(self).src() == old(self).src(),
            (if old(self).pos() < old(self).src().names().len() {
                &&& final(self).pos() == old(self).pos() + 1
                &&& r matches Some(p) && p.0@ == old(self).src().names()[old(self).pos()] && p.1@
                    == old(self).src().payloads()[old(self).pos()]
            } else {
                r is None && final(self).pos() == old(self).pos()
            }),
    {
        if self.position < self.map.keys.len() {
            proof {
                assert(self.map.keys@[self.position as int]@ == self.src().names()[self.pos()]);
                assert(self.map.data@[self.position as int]@ == self.src().payloads()[self.pos()]);
            }
            let name = &self.map.keys[self.position];
            let payload = &self.map.data[self.position];
            self.position = self.position + 1;
            Some((name, payload))
        } else {
            None
        }
    }

    /// Exactly how many pairs are left.
    pub fn remaining(&self) -> (r: usize)
        requires
            self.wf(),
        ensures
            r == self.src().names().len() - self.pos(),
    {
        self.map.keys.len() - self.position
    }
}

/// Law: an emitted map is parallel — it holds exactly as many payloads as
/// keys.
pub proof fn lemma_parallel_lengths(m: StaticMap)
    requires
        m.wf(),
    ensures
        m.names().len() == m.payloads().len(),
{
}

/// Law: in a map stored without compression, exact lookup of a declared
/// name that no earlier key repeats finds that asset's raw bytes unchanged.
pub proof fn lemma_uncompressed_round_trip(
    names: Seq<Seq<char>>,
    payloads: Seq<Seq<u8>>,
    raws: Seq<Seq<u8>>,
    algorithm: Algorithm,
    i: int,
)
    requires
        names.len() == payloads.len(),
        payloads.len() == raws.len(),
        forall|j: int| 0 <= j < raws.len() ==> payloads[j] == payload_of(raws[j], 0, algorithm),
        0 <= i < names.len(),
        forall|j: int| 0 <= j < i ==> names[j] != names[i],
    ensures
        first_key_index(names, names[i]) == Some(i),
        payloads[i] == raws[i],
{
    lemma_first_key_index_at(names, names[i], i);
}

} // verus!
