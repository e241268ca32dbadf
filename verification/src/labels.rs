//! The assembler's table of labels: which instruction position each name
//! stands for.
use vstd::prelude::*;

verus! {

/// Index of the first entry of `ns` equal to `k`, or -1.
pub open spec fn key_first(ns: Seq<Seq<char>>, k: Seq<char>) -> int
    decreases ns.len(),
{
    if ns.len() == 0 {
        -1
    } else {
        let r = key_first(ns.drop_last(), k);
        if r >= 0 {
            r
        } else if ns.last() == k {
            ns.len() - 1
        } else {
            -1
        }
    }
}

proof fn lemma_key_first(ns: Seq<Seq<char>>, k: Seq<char>)
    ensures
        -1 <= key_first(ns, k) < ns.len(),
        key_first(ns, k) >= 0 ==> ns[key_first(ns, k)] == k,
        key_first(ns, k) >= 0 ==> forall|j: int| 0 <= j < key_first(ns, k) ==> ns[j] != k,
        key_first(ns, k) < 0 ==> forall|j: int| 0 <= j < ns.len() ==> ns[j] != k,
    decreases ns.len(),
{
    if ns.len() > 0 {
        lemma_key_first(ns.drop_last(), k);
        let p = ns.drop_last();
        assert forall|j: int| 0 <= j < p.len() implies ns[j] == p[j] by {}
    }
}

pub struct LabelTable {
    names: Vec<Vec<char>>,
    indices: Vec<u16>,
}

impl View for LabelTable {
    type V = Map<Seq<char>, u16>;

    closed spec fn view(&self) -> Map<Seq<char>, u16> {
        Map::new(
            |k: Seq<char>| key_first(self.names_view(), k) >= 0,
            |k: Seq<char>| self.indices@[key_first(self.names_view(), k)],
        )
    }
}

impl LabelTable {
    pub closed spec fn names_view(&self) -> Seq<Seq<char>> {
        self.names@.map_values(|v: Vec<char>| v@)
    }

    pub closed spec fn wf(&self) -> bool {
        self.names@.len() == self.indices@.len()
    }

    pub fn new() -> (t: LabelTable)
        ensures
            t.wf(),
            t@ == Map::<Seq<char>, u16>::empty(),
    {
        let t = LabelTable { names: Vec::new(), indices: Vec::new() };
        proof {
            assert(t@ =~= Map::<Seq<char>, u16>::empty());
        }
        t
    }

    /// A table with the same labels.
    pub fn copy(&self) -> (r: LabelTable)
        requires
            self.wf(),
        ensures
            r.wf(),
            r@ == self@,
    {
        let mut names: Vec<Vec<char>> = Vec::new();
        let mut indices: Vec<u16> = Vec::new();
        let mut i: usize = 0;
        while i < self.names.len()
            invariant
                self.wf(),
                0 <= i <= self.names@.len(),
                names@.len() == i,
                indices@.len() == i,
                forall|j: int| 0 <= j < i ==> #[trigger] names@[j]@ == self.names@[j]@,
                forall|j: int| 0 <= j < i ==> #[trigger] indices@[j] == self.indices@[j],
            decreases self.names@.len() - i,
        {
            let v = crate::text::copy_range(&self.names[i], 0, self.names[i].len());
            proof {
                assert(v@ =~= self.names@[i as int]@);
            }
            names.push(v);
            indices.push(self.indices[i]);
            i = i + 1;
        }
        let r = LabelTable { names, indices };
        proof {
            assert(r.names_view() =~= self.names_view());
            assert(r.indices@ =~= self.indices@);
            assert(r@ =~= self@);
        }
        r
    }

    /// Position of `k` in the table, if it is there.
    fn find(&self, k: &Vec<char>) -> (r: Option<usize>)
        requires
            self.wf(),
        ensures
            match r {
                Some(i) => i as int == key_first(self.names_view(), k@) && i < self.names@.len(),
                None => key_first(self.names_view(), k@) < 0,
            },
    {
        proof {
            lemma_key_first(self.names_view(), k@);
        }
        let mut i: usize = 0;
        while i < self.names.len()
            invariant
                self.wf(),
                0 <= i <= self.names@.len(),
                forall|j: int| 0 <= j < i ==> self.names_view()[j] != k@,
                -1 <= key_first(self.names_view(), k@) < self.names@.len(),
                key_first(self.names_view(), k@) >= 0 ==> self.names_view()[key_first(
                    self.names_view(),
                    k@,
                )] == k@,
                key_first(self.names_view(), k@) >= 0 ==> forall|j: int|
                    0 <= j < key_first(self.names_view(), k@) ==> self.names_view()[j] != k@,
                key_first(self.names_view(), k@) < 0 ==> forall|j: int|
                    0 <= j < self.names@.len() ==> self.names_view()[j] != k@,
            decreases self.names@.len() - i,
        {
            if chars_eq(&self.names[i], k) {
                proof {
                    assert(self.names_view()[i as int] == self.names@[i as int]@);
                }
                return Some(i);
            }
            proof {
                assert(self.names_view()[i as int] == self.names@[i as int]@);
            }
            i = i + 1;
        }
        None
    }

    /// The position that `k` stands for, if it is a label.
    pub fn get(&self, k: &String) -> (r: Option<u16>)
        requires
            self.wf(),
        ensures
            r == (if self@.contains_key(k@) {
                Some(self@[k@])
            } else {
                None::<u16>
            }),
    {
        let key = crate::text::chars_of(k.as_str());
        match self.find(&key) {
            Some(i) => Some(self.indices[i]),
            None => None,
        }
    }

    /// Sets `k` to stand for `v`; returns what it stood for before, if
    /// anything.
    pub fn insert(&mut self, k: Vec<char>, v: u16) -> (r: Option<u16>)
        requires
            old(self).wf(),
        ensures
            final(self).wf(),
            final(self)@ == old(self)@.insert(k@, v),
            r == (if old(self)@.contains_key(k@) {
                Some(old(self)@[k@])
            } else {
                None::<u16>
            }),
    {
        let ghost ns = self.names_view();
        proof {
            lemma_key_first(ns, k@);
        }
        match self.find(&k) {
            Some(i) => {
                let prev = self.indices[i];
                self.indices.set(i, v);
                proof {
                    assert(self.names_view() == ns);
                    assert forall|q: Seq<char>| #[trigger] self@.contains_key(q) == old(self)@.insert(
                        k@,
                        v,
                    ).contains_key(q) && (self@.contains_key(q) ==> self@[q] == old(self)@.insert(
                        k@,
                        v,
                    )[q]) by {
                        lemma_key_first(ns, q);
                    }
                    assert(self@ =~= old(self)@.insert(k@, v));
                }
                Some(prev)
            },
            None => {
                self.names.push(k);
                self.indices.push(v);
                proof {
                    let ns2 = self.names_view();
                    assert(ns2.drop_last() =~= ns);
                    assert forall|q: Seq<char>| #[trigger] self@.contains_key(q) == old(self)@.insert(
                        k@,
                        v,
                    ).contains_key(q) && (self@.contains_key(q) ==> self@[q] == old(self)@.insert(
                        k@,
                        v,
                    )[q]) by {
                        lemma_key_first(ns, q);
                        if q == k@ {
                            assert(key_first(ns2, q) == ns.len());
                        } else {
                            assert(key_first(ns2, q) == key_first(ns, q));
                        }
                    }
                    assert(self@ =~= old(self)@.insert(k@, v));
                }
                None
            },
        }
    }
}

/// Whether two character vectors hold the same characters.
pub fn chars_eq(a: &Vec<char>, b: &Vec<char>) -> (r: bool)
    ensures
        r == (a@ == b@),
{
    if a.len() != b.len() {
        return false;
    }
    let mut i: usize = 0;
    while i < a.len()
        invariant
            a@.len() == b@.len(),
            0 <= i <= a@.len(),
            forall|j: int| 0 <= j < i ==> a@[j] == b@[j],
        decreases a@.len() - i,
    {
        if a[i] != b[i] {
            return false;
        }
        i = i + 1;
    }
    proof {
        assert(a@ =~= b@);
    }
    true
}

} // verus!
