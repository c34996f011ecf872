//! Exclusive variant of the list: a single owner holds the whole segment
//! chain and `cons` / `cdr` mutate it in place.

use vstd::prelude::*;

verus! {

/// One growth block of an owned chain; `older` links to the previous,
/// always fully-filled segment.
pub struct Segment<T> {
    older: Option<Box<Segment<T>>>,
    data: Vec<T>,
    cap: usize,
}

/// A single-owner list over a chain of geometrically-growing segments.
pub struct ExclusiveList<T> {
    head: Option<Box<Segment<T>>>,
}

impl<T> Segment<T> {
    /// Well-formedness of a whole chain: capacities halve toward the oldest
    /// (capacity 1) segment and every segment other than the head is full.
    pub closed spec fn chain_wf(self) -> bool
        decreases self,
    {
        &&& 1 <= self.cap
        &&& 1 <= self.data.len() <= self.cap
        &&& match self.older {
            None => self.cap == 1,
            Some(o) => {
                &&& (*o).data.len() == (*o).cap
                &&& self.cap == 2 * (*o).cap
                &&& (*o).chain_wf()
            },
        }
    }

    /// Every element of this segment and all older ones, newest first.
    pub closed spec fn chain_seq(self) -> Seq<T>
        decreases self,
    {
        self.data@.reverse() + match self.older {
            None => Seq::<T>::empty(),
            Some(o) => (*o).chain_seq(),
        }
    }

    /// Chain length is `cap + filled - 1`: the older capacities form the
    /// geometric series `cap/2 + cap/4 + ... + 1 = cap - 1`.
    proof fn lemma_chain_len(&self)
        requires
            self.chain_wf(),
        ensures
            self.chain_seq().len() == self.cap + self.data.len() - 1,
        decreases *self,
    {
        match &self.older {
            None => {},
            Some(o) => {
                o.lemma_chain_len();
            },
        }
    }
    /// How many top slots of this segment's capacity were never written:
    /// the skew between capacity-based and element-based indexing.
    pub closed spec fn spec_skew(self) -> int {
        self.cap - self.data.len()
    }
}

impl<T: Copy> Segment<T> {
    /// Chain lookup by a "skewed" index counted from the top of this
    /// segment's capacity: position `i` stands for position
    /// `i - spec_skew()` of `chain_seq`, so that a partially filled head can
    /// be addressed as if its unwritten top slots were present.
    pub fn index(&self, i: usize) -> (r: Option<T>)
        requires
            self.chain_wf(),
            i >= self.spec_skew(),
        ensures
            ({
                let j = i - self.spec_skew();
                &&& j < self.chain_seq().len() ==> r == Some(self.chain_seq()[j])
                &&& j >= self.chain_seq().len() ==> r is None
            }),
        decreases *self,
    {
        if i < self.cap {
            let store: usize = self.cap - 1 - i;
            proof {
                assert(self.chain_seq()[i - self.spec_skew()] == self.data@[store as int]);
            }
            Some(self.data[store])
        } else {
            match &self.older {
                Some(seg) => {
                    proof {
                        seg.lemma_chain_len();
                        assert(self.chain_seq() =~= self.data@.reverse() + seg.chain_seq());
                    }
                    seg.index(i - self.cap)
                },
                None => {
                    proof {
                        self.lemma_chain_len();
                    }
                    None
                },
            }
        }
    }

    /// Traversal helper: appends every element of this segment and all older
    /// ones to `out`, newest first.
    pub fn each(&self, out: &mut Vec<T>)
        requires
            self.chain_wf(),
        ensures
            final(out)@ == old(out)@ + self.chain_seq(),
        decreases *self,
    {
        let ghost out0: Seq<T> = out@;
        let mut k: usize = self.data.len();
        while k > 0
            invariant
                k <= self.data.len(),
                out@ == out0 + self.data@.subrange(k as int, self.data@.len() as int).reverse(),
            decreases k,
        {
            k = k - 1;
            out.push(self.data[k]);
            proof {
                assert(out@ =~= out0 + self.data@.subrange(k as int, self.data@.len() as int).reverse());
            }
        }
        match &self.older {
            Some(seg) => {
                proof {
                    assert(out@ =~= out0 + self.data@.reverse());
                }
                seg.each(out);
                proof {
                    assert(out@ =~= out0 + self.chain_seq());
                }
            },
            None => {
                proof {
                    assert(out@ =~= out0 + self.chain_seq());
                }
            },
        }
    }
}

impl<T> View for ExclusiveList<T> {
    type V = Seq<T>;

    /// The logical contents of the list, front (most recently added) first.
    closed spec fn view(&self) -> Seq<T> {
        match self.head {
            None => Seq::<T>::empty(),
            Some(s) => (*s).chain_seq(),
        }
    }
}

impl<T> ExclusiveList<T> {
    /// Owner invariant: the chain is well formed and the total length fits
    /// in a `usize`.
    pub closed spec fn wf(self) -> bool {
        match self.head {
            None => true,
            Some(s) => {
                &&& (*s).chain_wf()
                &&& (*s).cap + (*s).data.len() - 1 <= usize::MAX
            },
        }
    }

    /// The empty list.
    pub fn new() -> (r: ExclusiveList<T>)
        ensures
            r.wf(),
            r@ == Seq::<T>::empty(),
    {
        ExclusiveList { head: None }
    }

    /// Number of elements, computed in O(1) from the head segment alone.
    pub fn len(&self) -> (r: usize)
        requires
            self.wf(),
        ensures
            r == self@.len(),
    {
        match &self.head {
            None => 0,
            Some(seg) => {
                proof {
                    (**seg).lemma_chain_len();
                }
                (seg.cap - 1) + seg.data.len()
            },
        }
    }

    /// Prepends `e` in place: appends into a head with spare capacity, or
    /// allocates a segment of double capacity over a full head.
    pub fn cons(&mut self, e: T)
        requires
            old(self).wf(),
            old(self)@.len() < usize::MAX,
        ensures
            final(self).wf(),
            final(self)@ == seq![e] + old(self)@,
    {
        let h = self.head.take();
        match h {
            None => {
                self.head = Some(Box::new(Segment { older: None, data: vec![e], cap: 1 }));
                proof {
                    assert(self@ =~= seq![e] + old(self)@);
                }
            },
            Some(s) => {
                let mut seg: Segment<T> = *s;
                proof {
                    match &seg.older {
                        None => {},
                        Some(o) => {
                            o.lemma_chain_len();
                        },
                    }
                }
                if seg.data.len() < seg.cap {
                    seg.data.push(e);
                    self.head = Some(Box::new(seg));
                    proof {
                        assert(self@ =~= seq![e] + old(self)@);
                    }
                } else {
                    let cap2: usize = 2 * seg.cap;
                    self.head = Some(
                        Box::new(Segment { older: Some(Box::new(seg)), data: vec![e], cap: cap2 }),
                    );
                    proof {
                        assert(self@ =~= seq![e] + old(self)@);
                    }
                }
            },
        }
    }

    /// Removes the front element in place. An empty list is left untouched
    /// and reports failure — the empty-list signal; otherwise the head loses
    /// its newest slot, and a head down to its last element is dropped in
    /// favour of its older segment.
    pub fn cdr(&mut self) -> (r: bool)
        requires
            old(self).wf(),
        ensures
            final(self).wf(),
            old(self)@.len() == 0 ==> !r && final(self)@ == old(self)@,
            old(self)@.len() > 0 ==> r && final(self)@ == old(self)@.drop_first(),
    {
        let h = self.head.take();
        match h {
            None => false,
            Some(s) => {
                let mut seg: Segment<T> = *s;
                proof {
                    match &seg.older {
                        None => {},
                        Some(o) => {
                            o.lemma_chain_len();
                        },
                    }
                }
                if seg.data.len() > 1 {
                    let ghost before: Seq<T> = seg.data@;
                    let _dropped = seg.data.pop();
                    proof {
                        assert(seg.data@ =~= before.subrange(0, before.len() - 1));
                    }
                    self.head = Some(Box::new(seg));
                    proof {
                        assert(self@ =~= old(self)@.drop_first());
                    }
                } else {
                    self.head = seg.older;
                    proof {
                        assert(self@ =~= old(self)@.drop_first());
                    }
                }
                true
            },
        }
    }
}

impl<T: Copy> ExclusiveList<T> {
    /// Reads the element `i` places from the front, or nothing when
    /// `i >= len`: the index-out-of-range signal.
    pub fn index(&self, i: usize) -> (r: Option<T>)
        requires
            self.wf(),
        ensures
            i < self@.len() ==> r == Some(self@[i as int]),
            i >= self@.len() ==> r is None,
    {
        match &self.head {
            None => None,
            Some(seg) => {
                proof {
                    match &(*seg).older {
                        None => {},
                        Some(o) => {
                            o.lemma_chain_len();
                        },
                    }
                }
                if i < seg.data.len() {
                    let store: usize = seg.data.len() - 1 - i;
                    proof {
                        assert(self@[i as int] == (*seg).data@[store as int]);
                    }
                    Some(seg.data[store])
                } else {
                    match &seg.older {
                        Some(o) => o.index(i - seg.data.len()),
                        None => None,
                    }
                }
            },
        }
    }

    /// The whole logical sequence, front (most recently added) first.
    /// Never changes the list, and is valid for every well-formed owner.
    pub fn to_sequence(&self) -> (r: Vec<T>)
        requires
            self.wf(),
        ensures
            r@ == self@,
    {
        let mut r: Vec<T> = Vec::new();
        match &self.head {
            None => {},
            Some(seg) => {
                seg.each(&mut r);
                proof {
                    assert(r@ =~= self@);
                }
            },
        }
        r
    }
}

/// Each successful `cons` grows the list by exactly one element, so after
/// any run of `cons` calls starting from the empty list the length equals
/// the number of calls made.
pub proof fn law_cons_adds_one<T>(before: Seq<T>, after: ExclusiveList<T>, e: T)
    requires
        after@ == seq![e] + before,
    ensures
        after@.len() == before.len() + 1,
{
}

/// Index 0 always holds the element of the most recent `cons` not yet
/// removed by a matching `cdr`.
pub proof fn law_front_is_newest<T>(before: Seq<T>, after: ExclusiveList<T>, e: T)
    requires
        after@ == seq![e] + before,
    ensures
        after@.len() > 0,
        after@[0] == e,
{
}

/// Round trip: a `cons` of `e` followed by a `cdr` leaves the list
/// observationally equal (same `to_sequence`) to the original, for every `e`.
pub proof fn law_cons_cdr_round_trip<T>(list: Seq<T>, consed: ExclusiveList<T>, back: ExclusiveList<T>, e: T)
    requires
        consed@ == seq![e] + list,
        back@ == consed@.drop_first(),
    ensures
        back@ == list,
{
    assert(back@ =~= list);
}

} // verus!
