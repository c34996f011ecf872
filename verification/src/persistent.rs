//! Persistent variant of the list: handles are immutable values, `cons` and
//! `cdr` return fresh handles, and fully-filled tail segments are shared
//! between handles rather than copied.
//!
//! Shared storage is never written. `cons` extends a partially filled head
//! segment copy-on-write, so any number of handles may branch from the same
//! ancestor and each extend it independently; no handle can disturb what
//! another one sees.

use std::rc::Rc;
use vstd::prelude::*;

verus! {

/// One growth block of a persistent chain. `ele` is filled from store index
/// 0 upward; the logical order is the reverse of store order. `next` links
/// to the older, always fully-filled segment.
pub struct VSeg<T> {
    next: Option<Rc<VSeg<T>>>,
    ele: Vec<T>,
    cap: usize,
}

/// A persistent list handle: a shared segment plus an offset saying how many
/// of the head segment's slots (from store index 0 upward, `offset + 1` of
/// them) are visible to this particular handle.
pub struct VList<T> {
    base: Option<Rc<VSeg<T>>>,
    offset: usize,
}

impl<T> VSeg<T> {
    /// Well-formedness of a whole chain: capacities are powers of two that
    /// halve toward the oldest (capacity 1) segment, and every segment other
    /// than the head is completely full.
    pub closed spec fn chain_wf(self) -> bool
        decreases self,
    {
        &&& 1 <= self.cap
        &&& 1 <= self.ele.len() <= self.cap
        &&& match self.next {
            None => self.cap == 1,
            Some(n) => {
                &&& (*n).ele.len() == (*n).cap
                &&& self.cap == 2 * (*n).cap
                &&& (*n).chain_wf()
            },
        }
    }

    /// Every element stored in this segment and all older ones, in logical
    /// (front-to-back) order: newest first.
    pub closed spec fn chain_seq(self) -> Seq<T>
        decreases self,
    {
        self.ele@.reverse() + match self.next {
            None => Seq::<T>::empty(),
            Some(n) => (*n).chain_seq(),
        }
    }

    /// How many top slots of this segment's capacity were never written:
    /// the skew between capacity-based and element-based indexing.
    pub closed spec fn spec_skew(self) -> int {
        self.cap - self.ele.len()
    }

    /// A full chain headed by a segment of capacity `c` with `f` filled slots
    /// holds exactly `c + f - 1` elements, because the older capacities form
    /// the geometric series `c/2 + c/4 + ... + 1 = c - 1`.
    proof fn lemma_chain_len(&self)
        requires
            self.chain_wf(),
        ensures
            self.chain_seq().len() == self.cap + self.ele.len() - 1,
        decreases *self,
    {
        match &self.next {
            None => {},
            Some(n) => {
                n.lemma_chain_len();
            },
        }
    }
}

impl<T: Copy> VSeg<T> {
    /// Chain lookup by a "skewed" index counted from the top of this
    /// segment's capacity: position `i` stands for position
    /// `i + filled - capacity` of `chain_seq`, so that a partially filled
    /// head can be addressed as if its unwritten top slots were present.
    pub fn index(&self, i: usize) -> (r: Option<T>)
        requires
            self.chain_wf(),
            i >= self.spec_skew(),
        ensures
            ({
                let j = i - self.spec_skew();
                &&& j < self.chain_seq().len() ==> r == Some(self.chain_seq()[j])
                &&& j >= self.chain_seq().len() ==> r is None
            }),
        decreases *self,
    {
        if i < self.cap {
            let store: usize = self.cap - 1 - i;
            proof {
                assert(self.chain_seq()[i + self.ele@.len() - self.cap] == self.ele@[store as int]);
            }
            Some(self.ele[store])
        } else {
            match &self.next {
                Some(seg) => {
                    proof {
                        seg.lemma_chain_len();
                        assert(self.chain_seq() =~= self.ele@.reverse() + seg.chain_seq());
                    }
                    seg.index(i - self.cap)
                },
                None => {
                    proof {
                        self.lemma_chain_len();
                    }
                    None
                },
            }
        }
    }

    /// Traversal helper: appends every element of this segment and all older
    /// ones to `out`, newest first.
    pub fn each(&self, out: &mut Vec<T>)
        requires
            self.chain_wf(),
        ensures
            final(out)@ == old(out)@ + self.chain_seq(),
        decreases *self,
    {
        let ghost out0: Seq<T> = out@;
        let mut k: usize = self.ele.len();
        while k > 0
            invariant
                k <= self.ele.len(),
                out@ == out0 + self.ele@.subrange(k as int, self.ele@.len() as int).reverse(),
            decreases k,
        {
            k = k - 1;
            out.push(self.ele[k]);
            proof {
                assert(out@ =~= out0 + self.ele@.subrange(k as int, self.ele@.len() as int).reverse());
            }
        }
        match &self.next {
            Some(seg) => {
                proof {
                    assert(out@ =~= out0 + self.ele@.reverse());
                }
                seg.each(out);
                proof {
                    assert(out@ =~= out0 + self.chain_seq());
                }
            },
            None => {
                proof {
                    assert(out@ =~= out0 + self.chain_seq());
                }
            },
        }
    }
}

impl<T> View for VList<T> {
    type V = Seq<T>;

    /// The logical contents of the list, front (most recently added) first.
    closed spec fn view(&self) -> Seq<T> {
        match self.base {
            None => Seq::<T>::empty(),
            Some(s) => (*s).ele@.subrange(0, self.offset + 1).reverse() + match (*s).next {
                None => Seq::<T>::empty(),
                Some(n) => (*n).chain_seq(),
            },
        }
    }
}

impl<T> VList<T> {
    /// Handle invariant: the chain is well formed, the offset stays within
    /// the slots actually written, and the total length fits in a `usize`.
    pub closed spec fn wf(self) -> bool {
        match self.base {
            None => self.offset == 0,
            Some(s) => {
                &&& (*s).chain_wf()
                &&& self.offset + 1 <= (*s).ele.len()
                &&& (*s).cap + self.offset <= usize::MAX
            },
        }
    }

    /// The empty list.
    pub fn new() -> (r: VList<T>)
        ensures
            r.wf(),
            r@ == Seq::<T>::empty(),
    {
        VList { base: None, offset: 0 }
    }

    /// Number of elements visible through this handle, one per successful
    /// `cons` not yet undone by a `cdr`.
    pub fn len(&self) -> (r: usize)
        requires
            self.wf(),
        ensures
            r == self@.len(),
    {
        match &self.base {
            None => 0,
            Some(seg) => {
                proof {
                    match &(*seg).next {
                        None => {},
                        Some(n) => {
                            n.lemma_chain_len();
                        },
                    }
                }
                seg.cap + self.offset
            },
        }
    }
}

impl<T: Copy> VList<T> {
    /// Prepends `e` without disturbing any other handle: a partially filled
    /// head is extended copy-on-write (sharing the older segments), a full
    /// head becomes the `next` link of a fresh segment of double capacity.
    /// The caller's handle itself is left untouched, so every handle taken
    /// before the call still sees exactly the elements it saw before.
    pub fn cons(&self, e: T) -> (r: VList<T>)
        requires
            self.wf(),
            self@.len() < usize::MAX,
        ensures
            r.wf(),
            r@ == seq![e] + self@,
    {
        match &self.base {
            None => {
                let r = VList { base: Some(Rc::new(VSeg { next: None, ele: vec![e], cap: 1 })), offset: 0 };
                proof {
                    assert(r@ =~= seq![e] + self@);
                }
                r
            },
            Some(seg) => {
                proof {
                    match &(*seg).next {
                        None => {},
                        Some(n) => {
                            n.lemma_chain_len();
                        },
                    }
                }
                if self.offset + 1 < seg.cap {
                    // Copy-on-write: a fresh head of the same capacity holds the
                    // visible prefix plus `e`; the older segments stay shared.
                    let mut ele: Vec<T> = Vec::new();
                    let count: usize = self.offset + 1;
                    let mut k: usize = 0;
                    while k < count
                        invariant
                            k <= count,
                            count == self.offset + 1,
                            count <= seg.ele@.len(),
                            ele@ == seg.ele@.subrange(0, k as int),
                        decreases count - k,
                    {
                        ele.push(seg.ele[k]);
                        proof {
                            assert(ele@ =~= seg.ele@.subrange(0, k + 1));
                        }
                        k = k + 1;
                    }
                    ele.push(e);
                    let next: Option<Rc<VSeg<T>>> = match &seg.next {
                        None => None,
                        Some(n) => Some(n.clone()),
                    };
                    let r = VList {
                        base: Some(Rc::new(VSeg { next, ele, cap: seg.cap })),
                        offset: self.offset + 1,
                    };
                    proof {
                        assert(r@ =~= seq![e] + self@);
                    }
                    r
                } else {
                    // Head exhausted for this handle: start a segment of double
                    // capacity whose `next` link shares the whole old chain.
                    let r = VList {
                        base: Some(Rc::new(VSeg {
                            next: Some(seg.clone()),
                            ele: vec![e],
                            cap: 2 * seg.cap,
                        })),
                        offset: 0,
                    };
                    proof {
                        assert((*seg).ele@.subrange(0, (*seg).cap as int) =~= (*seg).ele@);
                        assert(r@ =~= seq![e] + self@);
                    }
                    r
                }
            },
        }
    }

    /// Reads the element `i` places from the front, or nothing when
    /// `i >= len`: the index-out-of-range signal.
    pub fn index(&self, i: usize) -> (r: Option<T>)
        requires
            self.wf(),
        ensures
            i < self@.len() ==> r == Some(self@[i as int]),
            i >= self@.len() ==> r is None,
    {
        match &self.base {
            None => None,
            Some(seg) => {
                proof {
                    match &(*seg).next {
                        None => {},
                        Some(n) => {
                            n.lemma_chain_len();
                        },
                    }
                }
                if i <= self.offset {
                    let store: usize = self.offset - i;
                    proof {
                        assert(self@[i as int] == (*seg).ele@.subrange(
                            0,
                            self.offset + 1,
                        ).reverse()[i as int]);
                    }
                    Some(seg.ele[store])
                } else {
                    match &seg.next {
                        Some(n) => n.index(i - self.offset - 1),
                        None => None,
                    }
                }
            },
        }
    }

    /// The whole logical sequence, front (most recently added) first.
    pub fn to_sequence(&self) -> (r: Vec<T>)
        requires
            self.wf(),
        ensures
            r@ == self@,
    {
        let mut r: Vec<T> = Vec::new();
        match &self.base {
            None => {},
            Some(seg) => {
                let mut k: usize = self.offset + 1;
                while k > 0
                    invariant
                        k <= self.offset + 1,
                        self.offset + 1 <= seg.ele@.len(),
                        r@ == seg.ele@.subrange(k as int, self.offset + 1).reverse(),
                    decreases k,
                {
                    k = k - 1;
                    r.push(seg.ele[k]);
                    proof {
                        assert(r@ =~= seg.ele@.subrange(k as int, self.offset + 1).reverse());
                    }
                }
                match &seg.next {
                    Some(n) => {
                        n.each(&mut r);
                    },
                    None => {},
                }
                proof {
                    assert(r@ =~= self@);
                }
            },
        }
        r
    }
}

impl<T> VList<T> {
    /// Narrows this handle by one element without touching shared storage:
    /// either the offset steps down within the head segment, or the handle
    /// moves to the (full) older segment. An empty list yields nothing — the
    /// empty-list signal — and, the handle being borrowed immutably, is left
    /// exactly as it was.
    pub fn cdr(&self) -> (r: Option<VList<T>>)
        requires
            self.wf(),
        ensures
            match r {
                None => self@.len() == 0,
                Some(l) => {
                    &&& self@.len() > 0
                    &&& l.wf()
                    &&& l@ == self@.drop_first()
                },
            },
    {
        match &self.base {
            None => None,
            Some(seg) => {
                if self.offset > 0 {
                    let r = VList { base: Some(seg.clone()), offset: self.offset - 1 };
                    proof {
                        assert(r@ =~= self@.drop_first());
                    }
                    Some(r)
                } else {
                    match &seg.next {
                        Some(n) => {
                            let r = VList { base: Some(n.clone()), offset: n.cap - 1 };
                            proof {
                                n.lemma_chain_len();
                                assert((*n).ele@.subrange(0, (*n).cap as int) =~= (*n).ele@);
                                assert(r@ =~= self@.drop_first());
                            }
                            Some(r)
                        },
                        None => {
                            let r = VList { base: None, offset: 0 };
                            proof {
                                assert(r@ =~= self@.drop_first());
                            }
                            Some(r)
                        },
                    }
                }
            },
        }
    }
}

/// Each successful `cons` grows the list by exactly one element, so after
/// any run of `cons` calls starting from the empty list the length equals
/// the number of calls made.
pub proof fn law_cons_adds_one<T>(before: VList<T>, after: VList<T>, e: T)
    requires
        after@ == seq![e] + before@,
    ensures
        after@.len() == before@.len() + 1,
{
}

/// Index 0 always holds the element of the most recent `cons` not yet
/// removed by a matching `cdr`.
pub proof fn law_front_is_newest<T>(before: VList<T>, after: VList<T>, e: T)
    requires
        after@ == seq![e] + before@,
    ensures
        after@.len() > 0,
        after@[0] == e,
{
}

/// Round trip: `cdr(cons(list, e))` is observationally equal to `list`
/// (same `to_sequence`), for every `e`.
pub proof fn law_cons_cdr_round_trip<T>(list: VList<T>, consed: VList<T>, back: VList<T>, e: T)
    requires
        consed@ == seq![e] + list@,
        back@ == consed@.drop_first(),
    ensures
        back@ == list@,
{
    assert(back@ =~= list@);
}

impl VList<i32> {
    /// Renders the list as `[]` or `[ e1 e2 ... en ]`, front element first,
    /// each element in decimal.
    pub fn to_string(&self) -> (r: String)
        requires
            self.wf(),
        ensures
            r@ == crate::decimal::list_str(self@),
    {
        let elems = self.to_sequence();
        if elems.len() == 0 {
            proof {
                reveal_strlit("[]");
            }
            let r = "[]".to_owned();
            proof {
                assert(r@ =~= crate::decimal::list_str(self@));
            }
            r
        } else {
            proof {
                reveal_strlit("[");
                reveal_strlit(" ");
                reveal_strlit(" ]");
            }
            let mut s = "[".to_owned();
            let mut i: usize = 0;
            while i < elems.len()
                invariant
                    i <= elems.len(),
                    elems@ == self@,
                    s@ == seq!['['] + crate::decimal::items_str(elems@.subrange(0, i as int)),
                decreases elems@.len() - i,
            {
                proof {
                    reveal_strlit("[");
                    reveal_strlit(" ");
                }
                s.append(" ");
                let t = crate::decimal::i32_string(elems[i]);
                s.append(t.as_str());
                proof {
                    crate::decimal::lemma_items_str_push(elems@.subrange(0, i as int), elems@[i as int]);
                    assert(elems@.subrange(0, i + 1) =~= elems@.subrange(0, i as int).push(
                        elems@[i as int],
                    ));
                    assert(s@ =~= seq!['['] + crate::decimal::items_str(
                        elems@.subrange(0, i + 1),
                    ));
                }
                i = i + 1;
            }
            s.append(" ]");
            proof {
                assert(elems@.subrange(0, elems@.len() as int) =~= elems@);
                assert(s@ =~= crate::decimal::list_str(self@));
            }
            s
        }
    }
}

} // verus!
