//! Memory contents that a program sets when it is loaded: a value for some of
//! the 65536 addresses, handed out in address order.
use vstd::prelude::*;
use std::collections::BTreeMap;

verus! {

/// The values set so far, by address.
pub struct DataTable {
    map: BTreeMap<u16, u16>,
}

impl View for DataTable {
    type V = Map<u16, u16>;

    closed spec fn view(&self) -> Map<u16, u16> {
        self.map@
    }
}

/// Addresses are ordered as integers, as the map's operations assume.
proof fn lemma_addresses_ordered()
    ensures
        vstd::laws_cmp::obeys_cmp::<u16>(),
{
    broadcast use vstd::laws_cmp::group_laws_cmp;
}

/// The data section from address `a` on: each address that holds a value,
/// in increasing order, followed by its value.
pub open spec fn section_from(m: Map<u16, u16>, a: int) -> Seq<u16>
    decreases 0x10000 - a,
{
    if a < 0 || a > 0xFFFF {
        seq![]
    } else {
        (if m.contains_key(a as u16) {
            seq![a as u16, m[a as u16]]
        } else {
            seq![]
        }) + section_from(m, a + 1)
    }
}

/// The words that hand a table to the console: the number of addresses that
/// hold a value, then each address and its value in address order.
pub open spec fn data_words(m: Map<u16, u16>) -> Seq<u16> {
    seq![(section_from(m, 0).len() / 2) as u16] + section_from(m, 0)
}

proof fn lemma_section_even(m: Map<u16, u16>, a: int)
    ensures
        section_from(m, a).len() % 2 == 0,
        section_from(m, a).len() <= 2 * 0x10000,
    decreases 0x10000 - a,
{
    if 0 <= a <= 0xFFFF {
        lemma_section_even(m, a + 1);
        if a < 0xFFFF {
        }
    }
    lemma_section_len(m, a);
}

proof fn lemma_section_len(m: Map<u16, u16>, a: int)
    ensures
        0 <= a <= 0x10000 ==> section_from(m, a).len() <= 2 * (0x10000 - a),
        a < 0 ==> section_from(m, a).len() == 0,
    decreases 0x10000 - a,
{
    if 0 <= a <= 0xFFFF {
        lemma_section_len(m, a + 1);
    }
}

impl DataTable {
    pub fn new() -> (t: DataTable)
        ensures
            t@ == Map::<u16, u16>::empty(),
    {
        DataTable { map: BTreeMap::new() }
    }

    pub fn set(&mut self, a: u16, v: u16)
        ensures
            final(self)@ == old(self)@.insert(a, v),
    {
        proof {
            lemma_addresses_ordered();
        }
        self.map.insert(a, v);
    }

    /// The value at address `a`, if one was set.
    pub fn get(&self, a: u16) -> (r: Option<u16>)
        ensures
            r == (if self@.contains_key(a) {
                Some(self@[a])
            } else {
                None::<u16>
            }),
    {
        proof {
            lemma_addresses_ordered();
            broadcast use vstd::std_specs::btree::group_btree_axioms;
        }
        match self.map.get(&a) {
            Some(v) => Some(*v),
            None => None,
        }
    }

    /// The data section; see `data_words`.
    pub fn words(&self) -> (w: Vec<u16>)
        ensures
            w@ == data_words(self@),
    {
        let mut body: Vec<u16> = Vec::new();
        let mut a: usize = 0;
        proof {
            lemma_section_even(self@, 0);
        }
        while a < 0x10000
            invariant
                0 <= a <= 0x10000,
                body@ + section_from(self@, a as int) == section_from(self@, 0),
                body@.len() % 2 == 0,
                body@.len() <= 2 * a,
            decreases 0x10000 - a,
        {
            if let Some(v) = self.get(a as u16) {
                proof {
                    assert(self@.contains_key(a as u16));
                    assert(self@[a as u16] == v);
                }
                body.push(a as u16);
                body.push(v);
            } else {
                proof {
                    assert(!self@.contains_key(a as u16));
                }
            }
            proof {
                assert(body@ + section_from(self@, a + 1) =~= section_from(self@, 0));
            }
            a = a + 1;
        }
        proof {
            assert(body@ + section_from(self@, 0x10000) =~= body@);
        }
        let n = body.len() / 2;
        let mut w: Vec<u16> = Vec::new();
        w.push(n as u16);
        let mut i: usize = 0;
        while i < body.len()
            invariant
                w@ == seq![n as u16] + body@.subrange(0, i as int),
                0 <= i <= body@.len(),
            decreases body@.len() - i,
        {
            w.push(body[i]);
            i = i + 1;
            proof {
                assert(body@.subrange(0, i as int) =~= body@.subrange(0, i - 1) + seq![body@[i - 1]]);
            }
        }
        proof {
            assert(body@.subrange(0, body@.len() as int) =~= body@);
        }
        w
    }
}

} // verus!
