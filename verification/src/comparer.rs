//! The identity registry: insert-or-update by name, nearest-neighbor lookup
//! within a tolerance, lookup by name, and removal.
//!
//! Entries are kept in handle order.  Handles are issued by a monotonic
//! counter and never reused, so the sequence of entries is strictly sorted by
//! handle and a handle determines at most one entry.

use vstd::prelude::*;

use crate::encoding::{dist_bits, FaceEncoding};
use crate::float_bits::{float_le64, float_lt64, is_nan64, le_check, lt_check, nan_check};

verus! {

/// Bit pattern of 0.6, the recommended default tolerance for an identity
/// match when no tolerance is configured.
pub const DEFAULT_TOLERANCE_BITS: u64 = 0x3FE3_3333_3333_3333;

/// Spec-level image of one registry entry.
pub ghost struct EntryView {
    pub key: nat,
    pub name: Seq<char>,
    pub enc: Seq<u64>,
}

/// Spec-level image of the registry.
pub ghost struct RegView {
    pub entries: Seq<EntryView>,
    pub seed: nat,
    pub tolerance: u64,
}

/// One stored entry: a handle, an identity, and its vector.
struct Entry {
    key: usize,
    name: String,
    encoding: FaceEncoding,
}

/// The registry.  A single sequence of records holds each identity and its
/// vector under one handle, so the identities and the vectors always cover
/// exactly the same handles, by construction.
pub struct FaceComparer {
    seed: usize,
    entries: Vec<Entry>,
    tolerance: u64,
}

impl View for Entry {
    type V = EntryView;

    closed spec fn view(&self) -> EntryView {
        EntryView { key: self.key as nat, name: self.name@, enc: self.encoding@ }
    }
}

impl View for FaceComparer {
    type V = RegView;

    closed spec fn view(&self) -> RegView {
        RegView {
            entries: Seq::new(self.entries@.len(), |i: int| self.entries@[i]@),
            seed: self.seed as nat,
            tolerance: self.tolerance,
        }
    }
}

/// Well-formedness: every stored vector has 128 values, handles strictly
/// increase along the sequence, and the counter exceeds every issued handle.
pub open spec fn reg_wf(rv: RegView) -> bool {
    &&& forall|i: int| 0 <= i < rv.entries.len() ==> (#[trigger] rv.entries[i]).enc.len() == 128
    &&& forall|i: int, j: int|
        0 <= i < j < rv.entries.len() ==> (#[trigger] rv.entries[i]).key < (
        #[trigger] rv.entries[j]).key
    &&& forall|i: int| 0 <= i < rv.entries.len() ==> (#[trigger] rv.entries[i]).key < rv.seed
}

/// Position of the first entry whose identity is `name`, or -1 if absent.
pub open spec fn first_name_idx(s: Seq<EntryView>, name: Seq<char>) -> int
    decreases s.len(),
{
    if s.len() == 0 {
        -1
    } else if s[0].name == name {
        0
    } else {
        let r = first_name_idx(s.drop_first(), name);
        if r < 0 {
            -1
        } else {
            r + 1
        }
    }
}

/// Position of the first entry whose handle is `key`, or -1 if absent.
pub open spec fn first_key_idx(s: Seq<EntryView>, key: nat) -> int
    decreases s.len(),
{
    if s.len() == 0 {
        -1
    } else if s[0].key == key {
        0
    } else {
        let r = first_key_idx(s.drop_first(), key);
        if r < 0 {
            -1
        } else {
            r + 1
        }
    }
}

/// What `find_name` answers: the handle of the first entry under `name`.
pub open spec fn find_name_spec(rv: RegView, name: Seq<char>) -> Option<nat> {
    let i = first_name_idx(rv.entries, name);
    if i < 0 {
        None
    } else {
        Some(rv.entries[i].key)
    }
}

/// Some entry carries the handle `key`.
pub open spec fn has_key(rv: RegView, key: nat) -> bool {
    first_key_idx(rv.entries, key) >= 0
}

/// What `insert` builds: replace the vector of the first entry under `name`,
/// or append a fresh entry under the next handle.
pub open spec fn insert_spec(rv: RegView, name: Seq<char>, enc: Seq<u64>) -> RegView {
    let i = first_name_idx(rv.entries, name);
    if i >= 0 {
        RegView {
            entries: rv.entries.update(i, EntryView { key: rv.entries[i].key, name, enc }),
            seed: rv.seed,
            tolerance: rv.tolerance,
        }
    } else {
        RegView {
            entries: rv.entries.push(EntryView { key: rv.seed, name, enc }),
            seed: rv.seed + 1,
            tolerance: rv.tolerance,
        }
    }
}

/// What `remove_key` builds: the registry without the entry under `key`, or
/// the registry unchanged when no entry carries `key`.
pub open spec fn remove_key_spec(rv: RegView, key: nat) -> RegView {
    let i = first_key_idx(rv.entries, key);
    if i < 0 {
        rv
    } else {
        RegView { entries: rv.entries.remove(i), seed: rv.seed, tolerance: rv.tolerance }
    }
}

/// What `remove_name` builds: the registry without the first entry under
/// `name`, or the registry unchanged when no entry carries `name`.
pub open spec fn remove_name_spec(rv: RegView, name: Seq<char>) -> RegView {
    let i = first_name_idx(rv.entries, name);
    if i < 0 {
        rv
    } else {
        RegView { entries: rv.entries.remove(i), seed: rv.seed, tolerance: rv.tolerance }
    }
}

/// Distance pattern between the vector of entry `i` and the probe.
pub open spec fn dist_at(rv: RegView, probe: Seq<u64>, i: int) -> u64 {
    dist_bits(rv.entries[i].enc, probe)
}

/// `first_name_idx` finds a position carrying `name` and nothing before it
/// does; when it answers -1 no position carries `name`.
pub proof fn lemma_first_name_idx(s: Seq<EntryView>, name: Seq<char>)
    ensures
        first_name_idx(s, name) < 0 ==> forall|i: int|
            0 <= i < s.len() ==> (#[trigger] s[i]).name != name,
        first_name_idx(s, name) >= 0 ==> 0 <= first_name_idx(s, name) < s.len() && s[first_name_idx(
            s,
            name,
        )].name == name && (forall|i: int|
            0 <= i < first_name_idx(s, name) ==> (#[trigger] s[i]).name != name),
    decreases s.len(),
{
    if s.len() == 0 {
    } else if s[0].name == name {
    } else {
        lemma_first_name_idx(s.drop_first(), name);
        let r = first_name_idx(s.drop_first(), name);
        if r < 0 {
            assert forall|i: int| 0 <= i < s.len() implies (#[trigger] s[i]).name != name by {
                if i > 0 {
                    assert(s.drop_first()[i - 1] == s[i]);
                }
            }
        } else {
            assert(s.drop_first()[r] == s[r + 1]);
            assert forall|i: int| 0 <= i < r + 1 implies (#[trigger] s[i]).name != name by {
                if i > 0 {
                    assert(s.drop_first()[i - 1] == s[i]);
                }
            }
        }
    }
}

/// The position that carries `name` first is the answer of `first_name_idx`.
pub proof fn lemma_first_name_idx_is(s: Seq<EntryView>, name: Seq<char>, i: int)
    requires
        0 <= i < s.len(),
        s[i].name == name,
        forall|j: int| 0 <= j < i ==> (#[trigger] s[j]).name != name,
    ensures
        first_name_idx(s, name) == i,
{
    lemma_first_name_idx(s, name);
}

/// Appending an entry under a different identity does not change where an
/// identity is first found.
pub proof fn lemma_first_name_idx_push(s: Seq<EntryView>, e: EntryView, name: Seq<char>)
    requires
        e.name != name,
    ensures
        first_name_idx(s.push(e), name) == first_name_idx(s, name),
    decreases s.len(),
{
    if s.len() == 0 {
        assert(s.push(e)[0] == e);
        assert(s.push(e).drop_first() =~= Seq::<EntryView>::empty());
        assert(first_name_idx(Seq::<EntryView>::empty(), name) == -1);
        assert(first_name_idx(s.push(e), name) == -1);
    } else {
        lemma_first_name_idx_push(s.drop_first(), e, name);
        assert(s.push(e)[0] == s[0]);
        assert(s.push(e).drop_first() =~= s.drop_first().push(e));
    }
}

/// `first_key_idx` finds a position carrying `key` and nothing before it
/// does; when it answers -1 no position carries `key`.
pub proof fn lemma_first_key_idx(s: Seq<EntryView>, key: nat)
    ensures
        first_key_idx(s, key) < 0 ==> forall|i: int|
            0 <= i < s.len() ==> (#[trigger] s[i]).key != key,
        first_key_idx(s, key) >= 0 ==> 0 <= first_key_idx(s, key) < s.len() && s[first_key_idx(
            s,
            key,
        )].key == key && (forall|i: int|
            0 <= i < first_key_idx(s, key) ==> (#[trigger] s[i]).key != key),
    decreases s.len(),
{
    if s.len() == 0 {
    } else if s[0].key == key {
    } else {
        lemma_first_key_idx(s.drop_first(), key);
        let r = first_key_idx(s.drop_first(), key);
        if r < 0 {
            assert forall|i: int| 0 <= i < s.len() implies (#[trigger] s[i]).key != key by {
                if i > 0 {
                    assert(s.drop_first()[i - 1] == s[i]);
                }
            }
        } else {
            assert(s.drop_first()[r] == s[r + 1]);
            assert forall|i: int| 0 <= i < r + 1 implies (#[trigger] s[i]).key != key by {
                if i > 0 {
                    assert(s.drop_first()[i - 1] == s[i]);
                }
            }
        }
    }
}

/// The position that carries `key` first is the answer of `first_key_idx`.
pub proof fn lemma_first_key_idx_is(s: Seq<EntryView>, key: nat, i: int)
    requires
        0 <= i < s.len(),
        s[i].key == key,
        forall|j: int| 0 <= j < i ==> (#[trigger] s[j]).key != key,
    ensures
        first_key_idx(s, key) == i,
{
    lemma_first_key_idx(s, key);
}

impl FaceComparer {
    /// The registry's representation is well-formed.
    pub open spec fn wf(&self) -> bool {
        reg_wf(self@)
    }

    /// Builds a registry from parallel lists, zipping `names[i]` with
    /// `encodings[i]` under handle `i`; the caller owes lists of equal
    /// length.  The handle counter starts right past the issued handles.
    pub fn new(names: Vec<String>, encodings: Vec<FaceEncoding>, tolerance: u64) -> (r: Self)
        requires
            names@.len() == encodings@.len(),
            forall|i: int| 0 <= i < encodings@.len() ==> (#[trigger] encodings@[i]).wf(),
        ensures
            r.wf(),
            r@.seed == names@.len(),
            r@.tolerance == tolerance,
            r@.entries.len() == names@.len(),
            forall|i: int|
                0 <= i < names@.len() ==> (#[trigger] r@.entries[i]).key == i && r@.entries[i].name
                    == names@[i]@ && r@.entries[i].enc == encodings@[i]@,
    {
        let n = names.len();
        let mut entries: Vec<Entry> = Vec::new();
        let mut i: usize = 0;
        while i < n
            invariant
                n == names@.len(),
                n == encodings@.len(),
                forall|k: int| 0 <= k < encodings@.len() ==> (#[trigger] encodings@[k]).wf(),
                i <= n,
                entries@.len() == i,
                forall|j: int|
                    0 <= j < i ==> (#[trigger] entries@[j])@.key == j && entries@[j]@.name
                        == names@[j]@ && entries@[j]@.enc == encodings@[j]@,
            decreases n - i,
        {
            let name = names[i].clone();
            let encoding = encodings[i].clone();
            entries.push(Entry { key: i, name, encoding });
            i = i + 1;
        }
        let r = FaceComparer { seed: n, entries, tolerance };
        proof {
            assert(forall|j: int| 0 <= j < n ==> #[trigger] r@.entries[j] == r.entries@[j]@);
        }
        r
    }

    /// Builds a registry as [`FaceComparer::new`] does, rejecting lists of
    /// unequal length instead of requiring the caller to avoid them.
    pub fn try_new(names: Vec<String>, encodings: Vec<FaceEncoding>, tolerance: u64) -> (r: Option<
        Self,
    >)
        requires
            forall|i: int| 0 <= i < encodings@.len() ==> (#[trigger] encodings@[i]).wf(),
        ensures
            r is Some <==> names@.len() == encodings@.len(),
            r matches Some(c) ==> c.wf() && c@.seed == names@.len() && c@.tolerance == tolerance
                && c@.entries.len() == names@.len() && (forall|i: int|
                0 <= i < names@.len() ==> (#[trigger] c@.entries[i]).key == i && c@.entries[i].name
                    == names@[i]@ && c@.entries[i].enc == encodings@[i]@),
    {
        if names.len() == encodings.len() {
            Some(Self::new(names, encodings, tolerance))
        } else {
            None
        }
    }

    /// The handle that the next fresh identity would be stored under; always
    /// greater than every handle ever issued.
    pub fn next_handle(&self) -> (r: usize)
        ensures
            r == self@.seed,
    {
        self.seed
    }

    /// Count of stored entries.
    pub fn len(&self) -> (r: usize)
        ensures
            r == self@.entries.len(),
    {
        self.entries.len()
    }

    /// Snapshot of all stored identities, in handle order.
    pub fn names(&self) -> (r: Vec<String>)
        ensures
            r@.len() == self@.entries.len(),
            forall|i: int| 0 <= i < r@.len() ==> (#[trigger] r@[i])@ == self@.entries[i].name,
    {
        let n = self.entries.len();
        let mut out: Vec<String> = Vec::new();
        let mut i: usize = 0;
        while i < n
            invariant
                n == self.entries@.len(),
                i <= n,
                out@.len() == i,
                forall|j: int| 0 <= j < i ==> (#[trigger] out@[j])@ == self.entries@[j]@.name,
            decreases n - i,
        {
            out.push(self.entries[i].name.clone());
            i = i + 1;
        }
        out
    }

    /// Snapshot of all stored vectors, in handle order.
    pub fn encodings(&self) -> (r: Vec<FaceEncoding>)
        ensures
            r@.len() == self@.entries.len(),
            forall|i: int| 0 <= i < r@.len() ==> (#[trigger] r@[i])@ == self@.entries[i].enc,
    {
        let n = self.entries.len();
        let mut out: Vec<FaceEncoding> = Vec::new();
        let mut i: usize = 0;
        while i < n
            invariant
                n == self.entries@.len(),
                i <= n,
                out@.len() == i,
                forall|j: int| 0 <= j < i ==> (#[trigger] out@[j])@ == self.entries@[j]@.enc,
            decreases n - i,
        {
            out.push(self.entries[i].encoding.clone());
            i = i + 1;
        }
        out
    }

    /// Position of the first entry under `name`, as `first_name_idx` gives
    /// it.
    fn index_of_name(&self, name: &String) -> (r: Option<usize>)
        ensures
            match r {
                Some(i) => i < self@.entries.len() && first_name_idx(self@.entries, name@)
                    == i as int,
                None => first_name_idx(self@.entries, name@) < 0,
            },
    {
        let n = self.entries.len();
        let mut i: usize = 0;
        while i < n
            invariant
                n == self.entries@.len(),
                i <= n,
                forall|j: int| 0 <= j < i ==> (#[trigger] self@.entries[j]).name != name@,
            decreases n - i,
        {
            if self.entries[i].name == *name {
                proof {
                    assert(self@.entries[i as int].name == name@);
                    lemma_first_name_idx_is(self@.entries, name@, i as int);
                }
                return Some(i);
            }
            i = i + 1;
        }
        proof {
            lemma_first_name_idx(self@.entries, name@);
        }
        None
    }

    /// Position of the entry under `key`, as `first_key_idx` gives it.
    fn index_of_key(&self, key: usize) -> (r: Option<usize>)
        ensures
            match r {
                Some(i) => i < self@.entries.len() && first_key_idx(self@.entries, key as nat)
                    == i as int,
                None => first_key_idx(self@.entries, key as nat) < 0,
            },
    {
        let n = self.entries.len();
        let mut i: usize = 0;
        while i < n
            invariant
                n == self.entries@.len(),
                i <= n,
                forall|j: int| 0 <= j < i ==> (#[trigger] self@.entries[j]).key != key as nat,
            decreases n - i,
        {
            if self.entries[i].key == key {
                proof {
                    lemma_first_key_idx_is(self@.entries, key as nat, i as int);
                }
                return Some(i);
            }
            i = i + 1;
        }
        proof {
            lemma_first_key_idx(self@.entries, key as nat);
        }
        None
    }

    /// Handle of the entry whose identity exactly matches `name`, if any.
    pub fn find_name(&self, name: &String) -> (r: Option<usize>)
        ensures
            r is Some <==> find_name_spec(self@, name@) is Some,
            r matches Some(k) ==> find_name_spec(self@, name@) == Some(k as nat),
    {
        match self.index_of_name(name) {
            Some(i) => Some(self.entries[i].key),
            None => None,
        }
    }

    /// Identity stored under `key`; the caller owes a handle that is
    /// present.
    pub fn get_name_unchecked(&self, key: &usize) -> (r: String)
        requires
            has_key(self@, *key as nat),
        ensures
            r@ == self@.entries[first_key_idx(self@.entries, *key as nat)].name,
    {
        match self.index_of_key(*key) {
            Some(i) => self.entries[i].name.clone(),
            None => {
                proof {
                    assert(false);
                }
                vstd::pervasive::unreached()
            },
        }
    }

    /// Identity stored under `key`, or nothing when no entry carries `key`.
    pub fn get_name(&self, key: &usize) -> (r: Option<String>)
        ensures
            r is Some <==> has_key(self@, *key as nat),
            r matches Some(s) ==> s@ == self@.entries[first_key_idx(self@.entries, *key as nat)].name,
    {
        match self.index_of_key(*key) {
            Some(i) => Some(self.entries[i].name.clone()),
            None => None,
        }
    }

    /// Inserts or updates: an existing identity keeps its handle and gets
    /// the new vector; a fresh identity is appended under the next handle.
    pub fn insert(&mut self, name: String, value: FaceEncoding)
        requires
            old(self).wf(),
            value.wf(),
            old(self)@.seed < usize::MAX,
        ensures
            final(self)@ == insert_spec(old(self)@, name@, value@),
            final(self).wf(),
    {
        match self.index_of_name(&name) {
            Some(i) => {
                proof {
                    lemma_first_name_idx(self@.entries, name@);
                }
                let mut e = self.entries.remove(i);
                e.encoding = value;
                self.entries.insert(i, e);
                proof {
                    assert(self@.entries =~= insert_spec(old(self)@, name@, value@).entries);
                    assert(self@ == insert_spec(old(self)@, name@, value@));
                }
            },
            None => {
                let key = self.seed;
                self.entries.push(Entry { key, name, encoding: value });
                self.seed = self.seed + 1;
                proof {
                    assert(self@.entries =~= insert_spec(old(self)@, name@, value@).entries);
                    assert(self@ == insert_spec(old(self)@, name@, value@));
                }
            },
        }
    }

    /// Removes the entry under `key` from the registry; a no-op when no
    /// entry carries `key`.
    pub fn remove_key(&mut self, key: &usize)
        requires
            old(self).wf(),
        ensures
            final(self)@ == remove_key_spec(old(self)@, *key as nat),
            final(self).wf(),
    {
        match self.index_of_key(*key) {
            Some(i) => {
                self.entries.remove(i);
                proof {
                    assert(self@.entries =~= remove_key_spec(old(self)@, *key as nat).entries);
                    assert(self@ == remove_key_spec(old(self)@, *key as nat));
                }
            },
            None => {
                proof {
                    assert(self@ == remove_key_spec(old(self)@, *key as nat));
                }
            },
        }
    }

    /// Removes the first entry under `name`; a no-op when no entry carries
    /// `name`.
    pub fn remove_name(&mut self, name: &str)
        requires
            old(self).wf(),
        ensures
            final(self)@ == remove_name_spec(old(self)@, name@),
            final(self).wf(),
    {
        let owned: String = name.to_owned();
        match self.index_of_name(&owned) {
            Some(i) => {
                self.entries.remove(i);
                proof {
                    assert(self@.entries =~= remove_name_spec(old(self)@, name@).entries);
                    assert(self@ == remove_name_spec(old(self)@, name@));
                }
            },
            None => {
                proof {
                    assert(self@ == remove_name_spec(old(self)@, name@));
                }
            },
        }
    }

    /// Nearest-neighbor lookup.  Scans every stored vector, ignores NaN
    /// distances, selects the minimum distance with the earliest entry
    /// winning ties, and answers with its identity and distance when that
    /// minimum lies within the tolerance (inclusive).  An empty registry, a
    /// scan of only NaN distances, or a minimum beyond the tolerance answer
    /// nothing.
    pub fn find(&self, face: &FaceEncoding) -> (r: Option<(String, u64)>)
        requires
            self.wf(),
            face.wf(),
        ensures
            r is Some <==> exists|i: int|
                0 <= i < self@.entries.len() && !is_nan64(#[trigger] dist_at(self@, face@, i))
                    && float_le64(dist_at(self@, face@, i), self@.tolerance),
            r matches Some((name, d)) ==> exists|i: int|
                {
                    &&& 0 <= i < self@.entries.len()
                    &&& !is_nan64(#[trigger] dist_at(self@, face@, i))
                    &&& d == dist_at(self@, face@, i)
                    &&& name@ == self@.entries[i].name
                    &&& float_le64(d, self@.tolerance)
                    &&& forall|j: int|
                        0 <= j < self@.entries.len() && !is_nan64(
                            #[trigger] dist_at(self@, face@, j),
                        ) ==> float_le64(d, dist_at(self@, face@, j))
                    &&& forall|j: int|
                        0 <= j < i && !is_nan64(#[trigger] dist_at(self@, face@, j))
                            ==> float_lt64(d, dist_at(self@, face@, j))
                },
    {
        let n = self.entries.len();
        let mut have: bool = false;
        let mut best_i: usize = 0;
        let mut best_d: u64 = 0;
        let mut i: usize = 0;
        while i < n
            invariant
                self.wf(),
                face.wf(),
                n == self@.entries.len(),
                i <= n,
                !have ==> forall|j: int|
                    0 <= j < i ==> is_nan64(#[trigger] dist_at(self@, face@, j)),
                have ==> 0 <= best_i < i && best_d == dist_at(self@, face@, best_i as int)
                    && !is_nan64(best_d) && (forall|j: int|
                    0 <= j < i && !is_nan64(#[trigger] dist_at(self@, face@, j)) ==> float_le64(
                        best_d,
                        dist_at(self@, face@, j),
                    )) && (forall|j: int|
                    0 <= j < best_i && !is_nan64(#[trigger] dist_at(self@, face@, j))
                        ==> float_lt64(best_d, dist_at(self@, face@, j))),
            decreases n - i,
        {
            let e = &self.entries[i];
            proof {
                assert(self@.entries[i as int].enc == e.encoding@);
            }
            let d = e.encoding.distance(face);
            if !nan_check(d) {
                if !have || lt_check(d, best_d) {
                    have = true;
                    best_i = i;
                    best_d = d;
                }
            }
            i = i + 1;
        }
        if !have {
            return None;
        }
        if le_check(best_d, self.tolerance) {
            let name = self.entries[best_i].name.clone();
            Some((name, best_d))
        } else {
            None
        }
    }
}

impl Default for FaceComparer {
    /// An empty registry: no entries, the counter at zero, a tolerance of
    /// (positive) zero.
    fn default() -> (r: Self)
        ensures
            r.wf(),
            r@.entries.len() == 0,
            r@.seed == 0,
            r@.tolerance == 0,
    {
        FaceComparer { seed: 0, entries: Vec::new(), tolerance: 0 }
    }
}

/// Law: inserting twice under one name leaves the entry count and the name's
/// handle as after the first insert, and the name's entry then stores the
/// second vector.
pub proof fn lemma_insert_twice_same_name(rv: RegView, name: Seq<char>, v1: Seq<u64>, v2: Seq<u64>)
    requires
        reg_wf(rv),
    ensures
        ({
            let rv1 = insert_spec(rv, name, v1);
            let rv2 = insert_spec(rv1, name, v2);
            &&& rv2.entries.len() == rv1.entries.len()
            &&& rv2.seed == rv1.seed
            &&& find_name_spec(rv1, name) is Some
            &&& find_name_spec(rv2, name) == find_name_spec(rv1, name)
            &&& rv2.entries[first_name_idx(rv2.entries, name)].enc == v2
        }),
{
    let i0 = first_name_idx(rv.entries, name);
    lemma_first_name_idx(rv.entries, name);
    let rv1 = insert_spec(rv, name, v1);
    if i0 >= 0 {
        lemma_first_name_idx_is(rv1.entries, name, i0);
    } else {
        lemma_first_name_idx_is(rv1.entries, name, rv.entries.len() as int);
    }
    let i1 = first_name_idx(rv1.entries, name);
    let rv2 = insert_spec(rv1, name, v2);
    lemma_first_name_idx_is(rv2.entries, name, i1);
}

/// Law: inserting under a fresh name adds one entry, the name resolves to
/// the newly issued handle, and every other name resolves as before.
pub proof fn lemma_insert_new_name(rv: RegView, name: Seq<char>, v: Seq<u64>)
    requires
        reg_wf(rv),
        v.len() == 128,
        find_name_spec(rv, name) is None,
    ensures
        ({
            let rv1 = insert_spec(rv, name, v);
            &&& rv1.entries.len() == rv.entries.len() + 1
            &&& reg_wf(rv1)
            &&& find_name_spec(rv1, name) == Some(rv.seed)
            &&& forall|other: Seq<char>|
                other != name ==> find_name_spec(rv1, other) == find_name_spec(rv, other)
        }),
{
    let e = EntryView { key: rv.seed, name, enc: v };
    let rv1 = insert_spec(rv, name, v);
    lemma_first_name_idx(rv.entries, name);
    lemma_first_name_idx_is(rv.entries.push(e), name, rv.entries.len() as int);
    assert forall|other: Seq<char>| other != name implies find_name_spec(rv1, other)
        == find_name_spec(rv, other) by {
        lemma_first_name_idx_push(rv.entries, e, other);
        lemma_first_name_idx(rv.entries, other);
    }
}

/// The registry after inserting `names[k]` with `encs[k]`, in order.
pub open spec fn insert_all_spec(rv: RegView, names: Seq<Seq<char>>, encs: Seq<Seq<u64>>) -> RegView
    decreases names.len(),
{
    if names.len() == 0 {
        rv
    } else {
        insert_all_spec(insert_spec(rv, names[0], encs[0]), names.drop_first(), encs.drop_first())
    }
}

/// Law: inserting distinct fresh identities grows the registry by their
/// number; each of them is then retrievable, and every other identity
/// resolves as before.
pub proof fn lemma_insert_distinct_names(rv: RegView, names: Seq<Seq<char>>, encs: Seq<Seq<u64>>)
    requires
        reg_wf(rv),
        names.len() == encs.len(),
        forall|k1: int, k2: int| 0 <= k1 < k2 < names.len() ==> names[k1] != names[k2],
        forall|k: int| 0 <= k < names.len() ==> find_name_spec(rv, #[trigger] names[k]) is None,
        forall|k: int| 0 <= k < encs.len() ==> (#[trigger] encs[k]).len() == 128,
    ensures
        ({
            let rv1 = insert_all_spec(rv, names, encs);
            &&& rv1.entries.len() == rv.entries.len() + names.len()
            &&& reg_wf(rv1)
            &&& forall|k: int|
                0 <= k < names.len() ==> find_name_spec(rv1, #[trigger] names[k]) is Some
            &&& forall|other: Seq<char>|
                !names.contains(other) ==> find_name_spec(rv1, other) == find_name_spec(rv, other)
        }),
    decreases names.len(),
{
    if names.len() == 0 {
    } else {
        lemma_insert_new_name(rv, names[0], encs[0]);
        let rv0 = insert_spec(rv, names[0], encs[0]);
        let rest = names.drop_first();
        let rest_encs = encs.drop_first();
        assert forall|k: int| 0 <= k < rest.len() implies find_name_spec(
            rv0,
            #[trigger] rest[k],
        ) is None by {
            assert(rest[k] == names[k + 1]);
        }
        assert forall|k1: int, k2: int| 0 <= k1 < k2 < rest.len() implies rest[k1] != rest[k2] by {
            assert(rest[k1] == names[k1 + 1]);
            assert(rest[k2] == names[k2 + 1]);
        }
        assert forall|k: int| 0 <= k < rest_encs.len() implies (#[trigger] rest_encs[k]).len()
            == 128 by {
            assert(rest_encs[k] == encs[k + 1]);
        }
        lemma_insert_distinct_names(rv0, rest, rest_encs);
        let rv1 = insert_all_spec(rv, names, encs);
        assert(rv1 == insert_all_spec(rv0, rest, rest_encs));
        assert forall|k: int| 0 <= k < names.len() implies find_name_spec(
            rv1,
            #[trigger] names[k],
        ) is Some by {
            if k == 0 {
                if rest.contains(names[0]) {
                    let j = choose|j: int| 0 <= j < rest.len() && rest[j] == names[0];
                    assert(names[j + 1] == names[0]);
                }
                assert(!rest.contains(names[0]));
            } else {
                assert(rest[k - 1] == names[k]);
            }
        }
        assert forall|other: Seq<char>| !names.contains(other) implies find_name_spec(rv1, other)
            == find_name_spec(rv, other) by {
            assert(names[0] != other);
            if rest.contains(other) {
                let j = choose|j: int| 0 <= j < rest.len() && rest[j] == other;
                assert(names[j + 1] == other);
                assert(names.contains(other));
            }
            assert(!rest.contains(other));
        }
    }
}

/// Law: removing a name that is not present leaves the registry unchanged.
pub proof fn lemma_remove_absent_name(rv: RegView, name: Seq<char>)
    requires
        find_name_spec(rv, name) is None,
    ensures
        remove_name_spec(rv, name) == rv,
{
}

} // verus!

