//! Fixed-capacity hash map with separate chaining: ten buckets, each a
//! list of key-value items whose keys hash to that bucket.

use vstd::prelude::*;

verus! {

/// Number of buckets.
pub const CAPACITY: usize = 10;

/// One key-value pair.
pub struct HashItem<T> {
    pub key: usize,
    pub value: T,
}

impl<T> HashItem<T> {
    /// Pairs `key` with `value`.
    pub fn new(key: usize, value: T) -> (h: HashItem<T>)
        ensures
            h.key == key,
            h.value == value,
    {
        HashItem { key, value }
    }
}

/// Whether the bucket holds `key` at some position.
pub open spec fn bucket_has_key<T>(b: Seq<HashItem<T>>, key: usize) -> bool {
    exists|i: int| 0 <= i < b.len() && (#[trigger] b[i]).key == key
}

/// The value stored under `key` in the bucket.
pub open spec fn bucket_value_of<T>(b: Seq<HashItem<T>>, key: usize) -> T {
    b[choose|i: int| 0 <= i < b.len() && (#[trigger] b[i]).key == key].value
}

/// The hash map.
pub struct HashMap<T> {
    buckets: Vec<Vec<HashItem<T>>>,
}

impl<T> HashMap<T> {
    /// The bucket sequences.
    pub closed spec fn view(&self) -> Seq<Seq<HashItem<T>>> {
        Seq::new(self.buckets@.len() as nat, |i: int| self.buckets@[i]@)
    }

    /// The bucket a key belongs to.
    pub open spec fn bucket_of(key: usize) -> int {
        key as int % CAPACITY as int
    }

    /// Map invariant: ten buckets; each item sits in the bucket its key
    /// hashes to, and no bucket holds a key twice.
    pub open spec fn wf(&self) -> bool {
        &&& self.view().len() == CAPACITY
        &&& forall|b: int, i: int|
            0 <= b < CAPACITY && 0 <= i < self.view()[b].len() ==> Self::bucket_of(
                (#[trigger] self.view()[b][i]).key,
            ) == b
        &&& forall|b: int, i: int, j: int|
            0 <= b < CAPACITY && 0 <= i < j < self.view()[b].len() ==> (#[trigger] self.view()[b][i]).key
                != (#[trigger] self.view()[b][j]).key
    }

    /// Whether `key` is stored.
    pub open spec fn has(&self, key: usize) -> bool {
        bucket_has_key(self.view()[Self::bucket_of(key)], key)
    }

    /// The value stored under `key`.
    pub open spec fn value_of(&self, key: usize) -> T {
        bucket_value_of(self.view()[Self::bucket_of(key)], key)
    }

    /// An empty map.
    pub fn new() -> (m: Self)
        ensures
            m.wf(),
            forall|k: usize| !m.has(k),
    {
        let mut buckets: Vec<Vec<HashItem<T>>> = Vec::new();
        let mut i: usize = 0;
        while i < CAPACITY
            invariant
                i <= CAPACITY,
                buckets@.len() == i as int,
                forall|b: int| 0 <= b < i as int ==> (#[trigger] buckets@[b])@.len() == 0,
            decreases CAPACITY - i,
        {
            buckets.push(Vec::new());
            i = i + 1;
        }
        let m = HashMap { buckets };
        proof {
            assert forall|k: usize| !m.has(k) by {
                assert(m.view()[Self::bucket_of(k)].len() == 0);
            }
        }
        m
    }

    /// The bucket index for `key`, executable form.
    fn hash(&self, key: usize) -> (b: usize)
        ensures
            b as int == Self::bucket_of(key),
            b < CAPACITY,
    {
        key % CAPACITY
    }

    /// Stores `value` under `key`, replacing any earlier value.
    pub fn set(&mut self, key: usize, value: T)
        requires
            old(self).wf(),
        ensures
            final(self).wf(),
            final(self).has(key),
            final(self).value_of(key) == value,
            forall|k: usize| k != key ==> ((#[trigger] final(self).has(k)) <==> old(self).has(k)),
            forall|k: usize|
                k != key && old(self).has(k) ==> (#[trigger] final(self).value_of(k)) == old(
                    self,
                ).value_of(k),
    {
        let b = self.hash(key);
        let ghost old_bucket = self.view()[b as int];
        // remove an existing item with this key first
        let mut i: usize = 0;
        let mut found: bool = false;
        let mut found_at: usize = 0;
        let n = self.buckets[b].len();
        while i < n
            invariant
                i <= n,
                b < CAPACITY,
                self.buckets@.len() == CAPACITY,
                n == self.buckets@[b as int]@.len(),
                !found ==> forall|j: int|
                    0 <= j < i as int ==> (#[trigger] self.buckets@[b as int]@[j]).key != key,
                found ==> found_at < n && self.buckets@[b as int]@[found_at as int].key == key,
            decreases n - i,
        {
            if !found && self.buckets[b][i].key == key {
                found = true;
                found_at = i;
            }
            i = i + 1;
        }
        proof {
            assert(self.view()[b as int] == self.buckets@[b as int]@);
        }
        let mut bucket = self.buckets.remove(b);
        if found {
            bucket.remove(found_at);
        }
        bucket.push(HashItem::new(key, value));
        self.buckets.insert(b, bucket);
        proof {
            lemma_set_shape(old(self).view(), self.view(), b as int, key, value, found, found_at as int);
        }
    }

    /// The value under `key`, when stored.
    pub fn get(&self, key: usize) -> (r: Option<&T>)
        requires
            self.wf(),
        ensures
            self.has(key) ==> (r matches Some(v) && *v == self.value_of(key)),
            !self.has(key) ==> r is None,
    {
        let b = self.hash(key);
        let n = self.buckets[b].len();
        let mut i: usize = 0;
        while i < n
            invariant
                i <= n,
                b < CAPACITY,
                self.buckets@.len() == CAPACITY,
                self.wf(),
                b as int == Self::bucket_of(key),
                n == self.buckets@[b as int]@.len(),
                forall|j: int|
                    0 <= j < i as int ==> (#[trigger] self.buckets@[b as int]@[j]).key != key,
            decreases n - i,
        {
            if self.buckets[b][i].key == key {
                proof {
                    assert(self.view()[b as int] == self.buckets@[b as int]@);
                    assert(bucket_has_key(self.view()[b as int], key));
                    lemma_bucket_value(self.view()[b as int], key, i as int);
                }
                return Some(&self.buckets[b][i].value);
            }
            i = i + 1;
        }
        proof {
            assert(self.view()[b as int] == self.buckets@[b as int]@);
            if self.has(key) {
                let w = choose|j: int|
                    0 <= j < self.view()[b as int].len() && (#[trigger] self.view()[b as int][j]).key
                        == key;
                assert(self.buckets@[b as int]@[w].key == key);
            }
        }
        None
    }

    /// Removes the value under `key`, if any.
    pub fn delete(&mut self, key: usize)
        requires
            old(self).wf(),
        ensures
            final(self).wf(),
            !final(self).has(key),
            forall|k: usize| k != key ==> ((#[trigger] final(self).has(k)) <==> old(self).has(k)),
            forall|k: usize|
                k != key && old(self).has(k) ==> (#[trigger] final(self).value_of(k)) == old(
                    self,
                ).value_of(k),
            !old(self).has(key) ==> *final(self) == *old(self),
    {
        let b = self.hash(key);
        let n = self.buckets[b].len();
        let mut i: usize = 0;
        let mut found: bool = false;
        let mut found_at: usize = 0;
        while i < n
            invariant
                i <= n,
                b < CAPACITY,
                self.buckets@.len() == CAPACITY,
                n == self.buckets@[b as int]@.len(),
                !found ==> forall|j: int|
                    0 <= j < i as int ==> (#[trigger] self.buckets@[b as int]@[j]).key != key,
                found ==> found_at < n && self.buckets@[b as int]@[found_at as int].key == key,
            decreases n - i,
        {
            if !found && self.buckets[b][i].key == key {
                found = true;
                found_at = i;
            }
            i = i + 1;
        }
        if found {
            let mut bucket = self.buckets.remove(b);
            bucket.remove(found_at);
            self.buckets.insert(b, bucket);
            proof {
                lemma_delete_shape(old(self).view(), self.view(), b as int, key, found_at as int);
            }
        } else {
            proof {
                assert(self.view() == old(self).view());
                assert(self.view()[b as int] == self.buckets@[b as int]@);
                if self.has(key) {
                    let w = choose|j: int|
                        0 <= j < self.view()[b as int].len() && (#[trigger] self.view()[b as int][j]).key == key;
                    assert(self.buckets@[b as int]@[w].key == key);
                }
            }
        }
    }
}

/// A matching index pins down the bucket's stored value.
proof fn lemma_bucket_value<T>(b: Seq<HashItem<T>>, key: usize, i: int)
    requires
        0 <= i < b.len(),
        b[i].key == key,
        forall|x: int, y: int| 0 <= x < y < b.len() ==> (#[trigger] b[x]).key != (#[trigger] b[y]).key,
    ensures
        bucket_value_of(b, key) == b[i].value,
{
    let w = choose|j: int| 0 <= j < b.len() && (#[trigger] b[j]).key == key;
    if w != i {
        if w < i {
            assert(b[w].key != b[i].key);
        } else {
            assert(b[i].key != b[w].key);
        }
        assert(false);
    }
}

/// What replacing a bucket by its updated form does to the whole map.
proof fn lemma_set_shape<T>(
    v0: Seq<Seq<HashItem<T>>>,
    v1: Seq<Seq<HashItem<T>>>,
    b: int,
    key: usize,
    value: T,
    found: bool,
    found_at: int,
)
    requires
        v0.len() == CAPACITY,
        0 <= b < CAPACITY,
        b == key as int % CAPACITY as int,
        forall|x: int, i: int|
            0 <= x < CAPACITY && 0 <= i < v0[x].len() ==> (#[trigger] v0[x][i]).key as int
                % CAPACITY as int == x,
        forall|x: int, i: int, j: int|
            0 <= x < CAPACITY && 0 <= i < j < v0[x].len() ==> (#[trigger] v0[x][i]).key != (
            #[trigger] v0[x][j]).key,
        found ==> 0 <= found_at < v0[b].len() && v0[b][found_at].key == key,
        !found ==> forall|j: int| 0 <= j < v0[b].len() ==> (#[trigger] v0[b][j]).key != key,
        v1.len() == CAPACITY,
        forall|x: int| 0 <= x < CAPACITY && x != b ==> #[trigger] v1[x] == v0[x],
        v1[b] == if found {
            v0[b].remove(found_at).push(HashItem { key, value })
        } else {
            v0[b].push(HashItem { key, value })
        },
    ensures
        forall|x: int, i: int|
            0 <= x < CAPACITY && 0 <= i < v1[x].len() ==> (#[trigger] v1[x][i]).key as int
                % CAPACITY as int == x,
        forall|x: int, i: int, j: int|
            0 <= x < CAPACITY && 0 <= i < j < v1[x].len() ==> (#[trigger] v1[x][i]).key != (
            #[trigger] v1[x][j]).key,
        bucket_has_key(v1[b], key),
        bucket_value_of(v1[b], key) == value,
        forall|k: usize|
            k != key ==> ((#[trigger] bucket_has_key(v1[k as int % CAPACITY as int], k))
                <==> bucket_has_key(v0[k as int % CAPACITY as int], k)),
        forall|k: usize|
            k != key && bucket_has_key(v0[k as int % CAPACITY as int], k) ==> (
            #[trigger] bucket_value_of(v1[k as int % CAPACITY as int], k)) == bucket_value_of(
                v0[k as int % CAPACITY as int],
                k,
            ),
{
    let base = if found {
        v0[b].remove(found_at)
    } else {
        v0[b]
    };
    if found {
        assert(forall|i: int|
            0 <= i < base.len() ==> #[trigger] base[i] == if i < found_at {
                v0[b][i]
            } else {
                v0[b][i + 1]
            });
    }
    assert(forall|i: int| 0 <= i < base.len() ==> v0[b].contains(#[trigger] base[i]));
    assert forall|i: int| 0 <= i < base.len() implies (#[trigger] base[i]).key != key by {
        if found {
            if i < found_at {
                assert(v0[b][i].key != v0[b][found_at].key);
            } else {
                assert(v0[b][found_at].key != v0[b][i + 1].key);
            }
        }
    }
    assert(v1[b] == base.push(HashItem { key, value }));
    assert forall|x: int, i: int|
        0 <= x < CAPACITY && 0 <= i < v1[x].len() implies (#[trigger] v1[x][i]).key as int
        % CAPACITY as int == x by {
        if x == b {
            if i < v1[b].len() - 1 {
                assert(v1[b][i] == base[i]);
                assert(v0[b].contains(base[i]));
                let w = choose|w: int| 0 <= w < v0[b].len() && v0[b][w] == base[i];
                assert(v0[b][w].key as int % CAPACITY as int == b);
            } else {
                assert(v1[b][i].key == key);
            }
        } else {
            assert(v1[x] == v0[x]);
        }
    }
    assert forall|x: int, i: int, j: int|
        0 <= x < CAPACITY && 0 <= i < j < v1[x].len() implies (#[trigger] v1[x][i]).key != (
    #[trigger] v1[x][j]).key by {
        if x == b {
            if j < v1[b].len() - 1 {
                if found {
                    let oi = if i < found_at { i } else { i + 1 };
                    let oj = if j < found_at { j } else { j + 1 };
                    assert(v1[b][i] == v0[b][oi] && v1[b][j] == v0[b][oj]);
                    assert(v0[b][oi].key != v0[b][oj].key);
                } else {
                    assert(v0[b][i].key != v0[b][j].key);
                }
            } else {
                assert(v1[b][j].key == key);
                assert(base[i].key != key);
            }
        } else {
            assert(v1[x] == v0[x]);
        }
    }
    assert(v1[b][v1[b].len() - 1].key == key);
    assert(bucket_has_key(v1[b], key));
    lemma_bucket_value(v1[b], key, v1[b].len() - 1);
    assert forall|k: usize|
        k != key implies ((#[trigger] bucket_has_key(v1[k as int % CAPACITY as int], k))
        <==> bucket_has_key(v0[k as int % CAPACITY as int], k)) by {
        let x = k as int % CAPACITY as int;
        assert(0 <= x < CAPACITY) by (nonlinear_arith)
            requires
                x == k as int % CAPACITY as int,
                CAPACITY == 10,
        ;
        if x == b {
            if bucket_has_key(v1[b], k) {
                let w = choose|j: int| 0 <= j < v1[b].len() && (#[trigger] v1[b][j]).key == k;
                assert(w < v1[b].len() - 1);
                assert(v1[b][w] == base[w]);
                assert(v0[b].contains(base[w]));
                let w0 = choose|j: int| 0 <= j < v0[b].len() && v0[b][j] == base[w];
                assert(bucket_has_key(v0[b], k));
            }
            if bucket_has_key(v0[b], k) {
                let w = choose|j: int| 0 <= j < v0[b].len() && (#[trigger] v0[b][j]).key == k;
                if found {
                    let nw = if w < found_at { w } else { w - 1 };
                    assert(w != found_at);
                    assert(base[nw] == v0[b][w]);
                    assert(v1[b][nw] == base[nw]);
                    assert(bucket_has_key(v1[b], k));
                } else {
                    assert(v1[b][w] == v0[b][w]);
                    assert(bucket_has_key(v1[b], k));
                }
            }
        } else {
            assert(v1[x] == v0[x]);
        }
    }
    assert forall|k: usize|
        k != key && bucket_has_key(v0[k as int % CAPACITY as int], k) implies (
    #[trigger] bucket_value_of(v1[k as int % CAPACITY as int], k)) == bucket_value_of(
        v0[k as int % CAPACITY as int],
        k,
    ) by {
        let x = k as int % CAPACITY as int;
        assert(0 <= x < CAPACITY) by (nonlinear_arith)
            requires
                x == k as int % CAPACITY as int,
                CAPACITY == 10,
        ;
        if x == b {
            let w = choose|j: int| 0 <= j < v0[b].len() && (#[trigger] v0[b][j]).key == k;
            lemma_bucket_value(v0[b], k, w);
            if found {
                let nw = if w < found_at {
                    w
                } else {
                    w - 1
                };
                assert(w != found_at);
                assert(v1[b][nw] == base[nw] && base[nw] == v0[b][w]);
                lemma_bucket_value(v1[b], k, nw);
            } else {
                assert(v1[b][w] == v0[b][w]);
                lemma_bucket_value(v1[b], k, w);
            }
        } else {
            assert(v1[x] == v0[x]);
        }
    }
}

/// What removing one item from a bucket does to the whole map.
proof fn lemma_delete_shape<T>(
    v0: Seq<Seq<HashItem<T>>>,
    v1: Seq<Seq<HashItem<T>>>,
    b: int,
    key: usize,
    found_at: int,
)
    requires
        v0.len() == CAPACITY,
        0 <= b < CAPACITY,
        b == key as int % CAPACITY as int,
        forall|x: int, i: int|
            0 <= x < CAPACITY && 0 <= i < v0[x].len() ==> (#[trigger] v0[x][i]).key as int
                % CAPACITY as int == x,
        forall|x: int, i: int, j: int|
            0 <= x < CAPACITY && 0 <= i < j < v0[x].len() ==> (#[trigger] v0[x][i]).key != (
            #[trigger] v0[x][j]).key,
        0 <= found_at < v0[b].len() && v0[b][found_at].key == key,
        v1.len() == CAPACITY,
        forall|x: int| 0 <= x < CAPACITY && x != b ==> #[trigger] v1[x] == v0[x],
        v1[b] == v0[b].remove(found_at),
    ensures
        forall|x: int, i: int|
            0 <= x < CAPACITY && 0 <= i < v1[x].len() ==> (#[trigger] v1[x][i]).key as int
                % CAPACITY as int == x,
        forall|x: int, i: int, j: int|
            0 <= x < CAPACITY && 0 <= i < j < v1[x].len() ==> (#[trigger] v1[x][i]).key != (
            #[trigger] v1[x][j]).key,
        !bucket_has_key(v1[b], key),
        forall|k: usize|
            k != key ==> ((#[trigger] bucket_has_key(v1[k as int % CAPACITY as int], k))
                <==> bucket_has_key(v0[k as int % CAPACITY as int], k)),
        forall|k: usize|
            k != key && bucket_has_key(v0[k as int % CAPACITY as int], k) ==> (
            #[trigger] bucket_value_of(v1[k as int % CAPACITY as int], k)) == bucket_value_of(
                v0[k as int % CAPACITY as int],
                k,
            ),
{
    assert(forall|i: int|
        0 <= i < v1[b].len() ==> #[trigger] v1[b][i] == if i < found_at {
            v0[b][i]
        } else {
            v0[b][i + 1]
        });
    assert forall|x: int, i: int|
        0 <= x < CAPACITY && 0 <= i < v1[x].len() implies (#[trigger] v1[x][i]).key as int
        % CAPACITY as int == x by {
        if x == b {
            let oi = if i < found_at { i } else { i + 1 };
            assert(v1[b][i] == v0[b][oi]);
        } else {
            assert(v1[x] == v0[x]);
        }
    }
    assert forall|x: int, i: int, j: int|
        0 <= x < CAPACITY && 0 <= i < j < v1[x].len() implies (#[trigger] v1[x][i]).key != (
    #[trigger] v1[x][j]).key by {
        if x == b {
            let oi = if i < found_at { i } else { i + 1 };
            let oj = if j < found_at { j } else { j + 1 };
            assert(v1[b][i] == v0[b][oi] && v1[b][j] == v0[b][oj]);
            assert(v0[b][oi].key != v0[b][oj].key);
        } else {
            assert(v1[x] == v0[x]);
        }
    }
    assert forall|i: int| 0 <= i < v1[b].len() implies (#[trigger] v1[b][i]).key != key by {
        if i < found_at {
            assert(v0[b][i].key != v0[b][found_at].key);
        } else {
            assert(v0[b][found_at].key != v0[b][i + 1].key);
        }
    }
    if bucket_has_key(v1[b], key) {
        let w = choose|j: int| 0 <= j < v1[b].len() && (#[trigger] v1[b][j]).key == key;
        assert(false);
    }
    assert forall|k: usize|
        k != key implies ((#[trigger] bucket_has_key(v1[k as int % CAPACITY as int], k))
        <==> bucket_has_key(v0[k as int % CAPACITY as int], k)) by {
        let x = k as int % CAPACITY as int;
        assert(0 <= x < CAPACITY) by (nonlinear_arith)
            requires
                x == k as int % CAPACITY as int,
                CAPACITY == 10,
        ;
        if x == b {
            if bucket_has_key(v1[b], k) {
                let w = choose|j: int| 0 <= j < v1[b].len() && (#[trigger] v1[b][j]).key == k;
                let ow = if w < found_at { w } else { w + 1 };
                assert(v0[b][ow].key == k);
                assert(bucket_has_key(v0[b], k));
            }
            if bucket_has_key(v0[b], k) {
                let w = choose|j: int| 0 <= j < v0[b].len() && (#[trigger] v0[b][j]).key == k;
                assert(w != found_at);
                let nw = if w < found_at { w } else { w - 1 };
                assert(v1[b][nw] == v0[b][w]);
                assert(bucket_has_key(v1[b], k));
            }
        } else {
            assert(v1[x] == v0[x]);
        }
    }
    assert forall|k: usize|
        k != key && bucket_has_key(v0[k as int % CAPACITY as int], k) implies (
    #[trigger] bucket_value_of(v1[k as int % CAPACITY as int], k)) == bucket_value_of(
        v0[k as int % CAPACITY as int],
        k,
    ) by {
        let x = k as int % CAPACITY as int;
        assert(0 <= x < CAPACITY) by (nonlinear_arith)
            requires
                x == k as int % CAPACITY as int,
                CAPACITY == 10,
        ;
        if x == b {
            let w = choose|j: int| 0 <= j < v0[b].len() && (#[trigger] v0[b][j]).key == k;
            lemma_bucket_value(v0[b], k, w);
            assert(w != found_at);
            let nw = if w < found_at {
                w
            } else {
                w - 1
            };
            assert(v1[b][nw] == v0[b][w]);
            lemma_bucket_value(v1[b], k, nw);
        } else {
            assert(v1[x] == v0[x]);
        }
    }
}

} // verus!
