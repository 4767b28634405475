//! Username rules and the name-keyed containers behind the server's registries.
//! Names are byte strings; each container keeps its keys unique.

use vstd::prelude::*;
use crate::bytes::bytes_eq;

verus! {

pub const MAX_USERNAME_LENGTH: usize = 32;

pub const MAX_MESSAGE_LENGTH: usize = 1024;

pub const MAX_STATUS_LENGTH: usize = 128;

/// ASCII letters and digits, `_` and `-`.
pub open spec fn name_byte_ok(b: u8) -> bool {
    (48 <= b <= 57) || (65 <= b <= 90) || (97 <= b <= 122) || b == 95 || b == 45
}

pub open spec fn name_length_ok(n: Seq<u8>) -> bool {
    1 <= n.len() <= MAX_USERNAME_LENGTH
}

pub open spec fn name_chars_ok(n: Seq<u8>) -> bool {
    forall|i: int| 0 <= i < n.len() ==> name_byte_ok(#[trigger] n[i])
}

/// A valid username: 1 to 32 bytes, each a letter, a digit, `_` or `-`.
pub open spec fn valid_username(n: Seq<u8>) -> bool {
    name_length_ok(n) && name_chars_ok(n)
}

pub fn is_name_byte(b: u8) -> (r: bool)
    ensures
        r == name_byte_ok(b),
{
    (48u8 <= b && b <= 57u8) || (65u8 <= b && b <= 90u8) || (97u8 <= b && b <= 122u8) || b == 95u8
        || b == 45u8
}

pub fn username_length_ok(n: &[u8]) -> (r: bool)
    ensures
        r == name_length_ok(n@),
{
    n.len() >= 1 && n.len() <= MAX_USERNAME_LENGTH
}

pub fn username_chars_ok(n: &[u8]) -> (r: bool)
    ensures
        r == name_chars_ok(n@),
{
    let mut i: usize = 0;
    while i < n.len()
        invariant
            i <= n@.len(),
            forall|j: int| 0 <= j < i ==> name_byte_ok(#[trigger] n@[j]),
        decreases n@.len() - i,
    {
        if !is_name_byte(n[i]) {
            return false;
        }
        i = i + 1;
    }
    true
}

/// Whether `n` is a valid username; the answer depends on `n` alone.
pub fn is_valid_username(n: &[u8]) -> (r: bool)
    ensures
        r == valid_username(n@),
        r <==> (1 <= n@.len() <= 32 && forall|i: int|
            0 <= i < n@.len() ==> name_byte_ok(#[trigger] n@[i])),
{
    username_length_ok(n) && username_chars_ok(n)
}

/// Chat and direct-message text: 1 to 1024 bytes.
pub open spec fn message_length_ok(m: Seq<u8>) -> bool {
    1 <= m.len() <= MAX_MESSAGE_LENGTH
}

pub fn is_valid_message_length(m: &[u8]) -> (r: bool)
    ensures
        r == message_length_ok(m@),
{
    m.len() >= 1 && m.len() <= MAX_MESSAGE_LENGTH
}

/// A set of names, in the order they were added.
pub struct NameSet {
    pub names: Vec<Vec<u8>>,
}

impl View for NameSet {
    type V = Set<Seq<u8>>;

    open spec fn view(&self) -> Set<Seq<u8>> {
        Set::new(|k: Seq<u8>| exists|i: int| 0 <= i < self.names@.len() && self.names@[i]@ == k)
    }
}

impl NameSet {
    /// No name is held twice.
    pub open spec fn wf(&self) -> bool {
        forall|i: int, j: int|
            0 <= i < j < self.names@.len() ==> self.names@[i]@ != self.names@[j]@
    }

    pub fn new() -> (r: NameSet)
        ensures
            r.wf(),
            r@ == Set::<Seq<u8>>::empty(),
    {
        let r = NameSet { names: Vec::new() };
        assert(r@ =~= Set::<Seq<u8>>::empty());
        r
    }

    pub fn len(&self) -> (r: usize)
        ensures
            r == self.names@.len(),
    {
        self.names.len()
    }

    pub fn index_of(&self, k: &[u8]) -> (r: Option<usize>)
        ensures
            r matches Some(i) ==> i < self.names@.len() && self.names@[i as int]@ == k@,
            r is None ==> !self@.contains(k@),
    {
        let mut i: usize = 0;
        while i < self.names.len()
            invariant
                i <= self.names@.len(),
                forall|j: int| 0 <= j < i ==> self.names@[j]@ != k@,
            decreases self.names@.len() - i,
        {
            if bytes_eq(self.names[i].as_slice(), k) {
                return Some(i);
            }
            i = i + 1;
        }
        None
    }

    pub fn contains(&self, k: &[u8]) -> (r: bool)
        ensures
            r == self@.contains(k@),
    {
        match self.index_of(k) {
            Some(i) => {
                assert(self@.contains(k@)) by {
                    assert(self.names@[i as int]@ == k@);
                }
                true
            },
            None => false,
        }
    }

    /// Adds `k`; answers whether it was absent.
    pub fn insert(&mut self, k: Vec<u8>) -> (r: bool)
        requires
            old(self).wf(),
        ensures
            final(self).wf(),
            r == !old(self)@.contains(k@),
            final(self)@ == old(self)@.insert(k@),
    {
        if self.contains(k.as_slice()) {
            assert(self@ =~= self@.insert(k@));
            return false;
        }
        let ghost old_names = self.names@;
        self.names.push(k);
        assert forall|x: Seq<u8>| self@.contains(x) == old(self)@.insert(k@).contains(x) by {
            if old(self)@.contains(x) {
                let i = choose|i: int| 0 <= i < old_names.len() && old_names[i]@ == x;
                assert(self.names@[i]@ == x);
            }
            if x == k@ {
                assert(self.names@[old_names.len() as int]@ == x);
            }
        }
        assert(self@ =~= old(self)@.insert(k@));
        true
    }

    /// Removes `k`; answers whether it was present.
    pub fn remove(&mut self, k: &[u8]) -> (r: bool)
        requires
            old(self).wf(),
        ensures
            final(self).wf(),
            r == old(self)@.contains(k@),
            final(self)@ == old(self)@.remove(k@),
    {
        match self.index_of(k) {
            None => {
                assert(self@ =~= self@.remove(k@));
                false
            },
            Some(i) => {
                let ghost old_names = self.names@;
                assert(old(self)@.contains(k@)) by {
                    assert(old_names[i as int]@ == k@);
                }
                self.names.remove(i);
                assert(self.names@ == old_names.remove(i as int));
                assert forall|x: Seq<u8>|
                    self@.contains(x) == old(self)@.remove(k@).contains(x) by {
                    if self@.contains(x) {
                        let j = choose|j: int| 0 <= j < self.names@.len() && self.names@[j]@ == x;
                        if j < i {
                            assert(old_names[j]@ == x);
                        } else {
                            assert(old_names[j + 1]@ == x);
                        }
                    }
                    if old(self)@.contains(x) && x != k@ {
                        let j = choose|j: int| 0 <= j < old_names.len() && old_names[j]@ == x;
                        assert(j != i);
                        if j < i {
                            assert(self.names@[j]@ == x);
                        } else {
                            assert(self.names@[j - 1]@ == x);
                        }
                    }
                }
                assert(self@ =~= old(self)@.remove(k@));
                true
            },
        }
    }
}

/// A map from names to values, in the order the names were added.
pub struct NameMap<V> {
    pub keys: Vec<Vec<u8>>,
    pub vals: Vec<V>,
}

impl<V: View> View for NameMap<V> {
    type V = Map<Seq<u8>, V::V>;

    open spec fn view(&self) -> Map<Seq<u8>, V::V> {
        Map::new(
            |k: Seq<u8>| exists|i: int| 0 <= i < self.keys@.len() && self.keys@[i]@ == k,
            |k: Seq<u8>|
                self.vals@[choose|i: int| 0 <= i < self.keys@.len() && self.keys@[i]@ == k]@,
        )
    }
}

impl<V: View> NameMap<V> {
    /// Keys and values line up, and no key is held twice.
    pub open spec fn wf(&self) -> bool {
        &&& self.keys@.len() == self.vals@.len()
        &&& forall|i: int, j: int|
            0 <= i < j < self.keys@.len() ==> self.keys@[i]@ != self.keys@[j]@
    }

    pub proof fn lemma_view_at(&self, i: int)
        requires
            self.wf(),
            0 <= i < self.keys@.len(),
        ensures
            self@.contains_key(self.keys@[i]@),
            self@[self.keys@[i]@] == self.vals@[i]@,
    {
        let k = self.keys@[i]@;
        assert(self@.contains_key(k));
        let j = choose|j: int| 0 <= j < self.keys@.len() && self.keys@[j]@ == k;
        if j != i {
            if j < i {
                assert(self.keys@[j]@ != self.keys@[i]@);
            } else {
                assert(self.keys@[i]@ != self.keys@[j]@);
            }
        }
    }

    pub fn new() -> (r: NameMap<V>)
        ensures
            r.wf(),
            r@ == Map::<Seq<u8>, V::V>::empty(),
    {
        let r = NameMap { keys: Vec::new(), vals: Vec::new() };
        assert(r@ =~= Map::<Seq<u8>, V::V>::empty());
        r
    }

    pub fn index_of(&self, k: &[u8]) -> (r: Option<usize>)
        requires
            self.wf(),
        ensures
            r matches Some(i) ==> i < self.keys@.len() && self.keys@[i as int]@ == k@
                && self@.contains_key(k@) && self@[k@] == self.vals@[i as int]@,
            r is None ==> !self@.contains_key(k@),
    {
        let mut i: usize = 0;
        while i < self.keys.len()
            invariant
                self.wf(),
                i <= self.keys@.len(),
                forall|j: int| 0 <= j < i ==> self.keys@[j]@ != k@,
            decreases self.keys@.len() - i,
        {
            if bytes_eq(self.keys[i].as_slice(), k) {
                proof {
                    self.lemma_view_at(i as int);
                }
                return Some(i);
            }
            i = i + 1;
        }
        None
    }

    pub fn contains_key(&self, k: &[u8]) -> (r: bool)
        requires
            self.wf(),
        ensures
            r == self@.contains_key(k@),
    {
        self.index_of(k).is_some()
    }

    pub fn get(&self, k: &[u8]) -> (r: Option<&V>)
        requires
            self.wf(),
        ensures
            r is Some == self@.contains_key(k@),
            r matches Some(v) ==> v@ == self@[k@],
    {
        match self.index_of(k) {
            Some(i) => Some(&self.vals[i]),
            None => None,
        }
    }

    /// Removes `k` and hands back its value, if it was present.
    pub fn remove(&mut self, k: &[u8]) -> (r: Option<V>)
        requires
            old(self).wf(),
        ensures
            final(self).wf(),
            final(self)@ == old(self)@.remove(k@),
            r is Some == old(self)@.contains_key(k@),
            r matches Some(v) ==> v@ == old(self)@[k@],
    {
        match self.index_of(k) {
            None => {
                assert(self@ =~= self@.remove(k@));
                None
            },
            Some(i) => {
                let ghost old_keys = self.keys@;
                let ghost old_vals = self.vals@;
                let ghost old_self = *self;
                self.keys.remove(i);
                let v = self.vals.remove(i);
                assert(self.keys@ == old_keys.remove(i as int));
                assert(self.vals@ == old_vals.remove(i as int));
                assert(self.wf());
                assert forall|x: Seq<u8>|
                    self@.contains_key(x) == old(self)@.remove(k@).contains_key(x) by {
                    if self@.contains_key(x) {
                        let j = choose|j: int| 0 <= j < self.keys@.len() && self.keys@[j]@ == x;
                        if j < i {
                            assert(old_keys[j]@ == x);
                        } else {
                            assert(old_keys[j + 1]@ == x);
                        }
                    }
                    if old(self)@.contains_key(x) && x != k@ {
                        let j = choose|j: int| 0 <= j < old_keys.len() && old_keys[j]@ == x;
                        assert(j != i);
                        if j < i {
                            assert(self.keys@[j]@ == x);
                        } else {
                            assert(self.keys@[j - 1]@ == x);
                        }
                    }
                }
                assert forall|x: Seq<u8>| #[trigger]
                    self@.contains_key(x) implies self@[x] == old(self)@[x] by {
                    let j = choose|j: int| 0 <= j < self.keys@.len() && self.keys@[j]@ == x;
                    self.lemma_view_at(j);
                    if j < i {
                        old_self.lemma_view_at(j);
                    } else {
                        old_self.lemma_view_at(j + 1);
                    }
                }
                assert(self@ =~= old(self)@.remove(k@));
                Some(v)
            },
        }
    }

    /// Sets the value of `k`, replacing any earlier one.
    pub fn insert(&mut self, k: Vec<u8>, v: V)
        requires
            old(self).wf(),
        ensures
            final(self).wf(),
            final(self)@ == old(self)@.insert(k@, v@),
    {
        let _ = self.remove(k.as_slice());
        let ghost mid = *self;
        let ghost kv = k@;
        let ghost vv = v@;
        self.keys.push(k);
        self.vals.push(v);
        let ghost n: int = self.keys@.len() - 1;
        assert forall|i: int, j: int|
            0 <= i < j < self.keys@.len() implies self.keys@[i]@ != self.keys@[j]@ by {
            if j == n {
                assert(mid.keys@[i]@ != kv) by {
                    mid.lemma_view_at(i);
                }
            }
        }
        assert(self.wf());
        assert forall|x: Seq<u8>|
            self@.contains_key(x) == mid@.insert(kv, vv).contains_key(x) by {
            if self@.contains_key(x) && x != kv {
                let j = choose|j: int| 0 <= j < self.keys@.len() && self.keys@[j]@ == x;
                assert(j < n);
                assert(mid.keys@[j]@ == x);
            }
            if mid@.contains_key(x) {
                let j = choose|j: int| 0 <= j < mid.keys@.len() && mid.keys@[j]@ == x;
                assert(self.keys@[j]@ == x);
            }
            if x == kv {
                assert(self.keys@[n]@ == x);
            }
        }
        assert forall|x: Seq<u8>| #[trigger]
            self@.contains_key(x) implies self@[x] == mid@.insert(kv, vv)[x] by {
            let j = choose|j: int| 0 <= j < self.keys@.len() && self.keys@[j]@ == x;
            self.lemma_view_at(j);
            if j < n {
                mid.lemma_view_at(j);
                assert(x != kv) by {
                    mid.lemma_view_at(j);
                }
            }
        }
        assert(self@ =~= mid@.insert(kv, vv));
        assert(mid@.insert(kv, vv) =~= old(self)@.insert(kv, vv));
    }
}

} // verus!
