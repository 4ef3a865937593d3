//! A chunked arena: values are placed in chunks of `N` slots and are
//! addressed by their slot. A slot, once handed out, keeps its value for the
//! lifetime of the arena.
use vstd::prelude::*;

verus! {

/// Where a run of values was placed: its chunk, its first position there,
/// and how many values it holds.
#[derive(Debug, Clone, Copy, PartialEq, Eq, Structural)]
pub struct Slot {
    pub chunk: usize,
    pub start: usize,
    pub len: usize,
}

/// An arena of chunks of `N` slots.
pub struct Arena<T, const N: usize> {
    chunks: Vec<Vec<T>>,
}

impl<T, const N: usize> View for Arena<T, N> {
    type V = Seq<Seq<T>>;

    closed spec fn view(&self) -> Seq<Seq<T>> {
        Seq::new(self.chunks@.len(), |i: int| self.chunks@[i]@)
    }
}

/// Every chunk of `b` begins with what the same chunk of `a` holds: nothing
/// placed in `a` has moved or changed.
pub open spec fn keeps<T>(a: Seq<Seq<T>>, b: Seq<Seq<T>>) -> bool {
    &&& a.len() <= b.len()
    &&& forall|c: int| 0 <= c < a.len() ==> #[trigger] b[c].len() >= a[c].len() && b[c].subrange(0, a[c].len() as int) == a[c]
}

/// Slot `s` lies within the chunks `v`.
pub open spec fn in_chunks<T>(v: Seq<Seq<T>>, s: Slot) -> bool {
    s.chunk < v.len() && s.start + s.len <= v[s.chunk as int].len()
}

/// The values in slot `s` of the chunks `v`.
pub open spec fn slot_items<T>(v: Seq<Seq<T>>, s: Slot) -> Seq<T> {
    v[s.chunk as int].subrange(s.start as int, s.start + s.len)
}

/// Where a run of `k` values goes: at the end of the last chunk if it has
/// room, else at the start of a new chunk.
pub open spec fn placement<T>(v: Seq<Seq<T>>, k: nat, n: nat) -> Slot {
    if v.len() > 0 && v.last().len() + k <= n {
        Slot { chunk: (v.len() - 1) as usize, start: v.last().len() as usize, len: k as usize }
    } else {
        Slot { chunk: v.len() as usize, start: 0, len: k as usize }
    }
}

/// A slot of an arena still holds the same values after any number of
/// further placements.
pub proof fn lemma_slot_stable<T>(a: Seq<Seq<T>>, b: Seq<Seq<T>>, s: Slot)
    requires
        keeps(a, b),
        in_chunks(a, s),
    ensures
        in_chunks(b, s),
        slot_items(b, s) == slot_items(a, s),
{
    let c = s.chunk as int;
    assert(b[c].subrange(0, a[c].len() as int) == a[c]);
    assert(slot_items(b, s) =~= slot_items(a, s));
}

impl<T, const N: usize> Arena<T, N> {
    /// No chunk holds more than `N` values.
    pub closed spec fn wf(&self) -> bool {
        forall|c: int| 0 <= c < self.chunks@.len() ==> (#[trigger] self.chunks@[c])@.len() <= N
    }

    /// An empty arena.
    pub fn new() -> (r: Self)
        ensures
            r.wf(),
            r@ == Seq::<Seq<T>>::empty(),
    {
        let r = Self { chunks: Vec::new() };
        assert(r@ =~= Seq::<Seq<T>>::empty());
        r
    }

    /// Adds an empty chunk.
    fn push(&mut self)
        requires
            old(self).wf(),
        ensures
            final(self).wf(),
            final(self)@ == old(self)@.push(Seq::empty()),
    {
        self.chunks.push(Vec::with_capacity(N));
        assert(self@ =~= old(self)@.push(Seq::empty()));
    }

    /// Places a value and returns its slot (see `placement`).
    pub fn alloc_one(&mut self, x: T) -> (r: Slot)
        requires
            old(self).wf(),
            N > 0,
        ensures
            final(self).wf(),
            r == placement(old(self)@, 1, N as nat),
            in_chunks(final(self)@, r),
            slot_items(final(self)@, r) == seq![x],
            keeps(old(self)@, final(self)@),
    {
        let mut v: Vec<T> = Vec::new();
        v.push(x);
        self.alloc_ext(v)
    }

    /// Places a run of at most `N` values together and returns their slot
    /// (see `placement`).
    pub fn alloc_ext(&mut self, xs: Vec<T>) -> (r: Slot)
        requires
            old(self).wf(),
            xs@.len() <= N,
        ensures
            final(self).wf(),
            r == placement(old(self)@, xs@.len(), N as nat),
            in_chunks(final(self)@, r),
            slot_items(final(self)@, r) == xs@,
            keeps(old(self)@, final(self)@),
    {
        let ghost old_xs = xs@;
        let mut xs = xs;
        let k = xs.len();
        let n_chunks = self.chunks.len();
        let fits = n_chunks > 0 && self.chunks[n_chunks - 1].len() <= N - k;
        if !fits {
            self.push();
        }
        let ghost mid = self@;
        proof {
            assert(self@.len() == self.chunks@.len());
            assert(self.chunks@.len() > 0);
        }
        let last = self.chunks.len() - 1;
        let start = self.chunks[last].len();
        proof {
            assert(mid[last as int] == self.chunks@[last as int]@);
            if fits {
                assert(mid == old(self)@);
                assert(start + k <= N);
            } else {
                assert(mid[last as int] == Seq::<T>::empty());
                assert(start == 0);
            }
        }
        let ghost before = self.chunks@;
        self.chunks[last].append(&mut xs);
        proof {
            assert forall|c: int| 0 <= c < self.chunks@.len() implies (#[trigger] self.chunks@[c])@.len() <= N by {
                if c != last {
                    assert(self.chunks@[c] == before[c]);
                    assert(mid[c] == before[c]@);
                    assert(old(self).wf());
                    if c < old(self)@.len() {
                        assert(old(self)@[c] == old(self).chunks@[c]@);
                    }
                }
            }
            assert forall|c: int| 0 <= c < old(self)@.len() implies #[trigger] self@[c].len() >= old(self)@[c].len()
                && self@[c].subrange(0, old(self)@[c].len() as int) == old(self)@[c] by {
                assert(mid[c] == old(self)@[c]);
                assert(mid[c] == before[c]@);
                if c == last {
                    assert(self@[c] == before[c]@ + old_xs);
                    assert(self@[c].subrange(0, old(self)@[c].len() as int) =~= old(self)@[c]);
                } else {
                    assert(self.chunks@[c] == before[c]);
                    assert(self@[c].subrange(0, old(self)@[c].len() as int) =~= old(self)@[c]);
                }
            }
        }
        let r = Slot { chunk: last, start, len: k };
        proof {
            assert(self@[last as int] == before[last as int]@ + old_xs);
            assert(slot_items(self@, r) =~= old_xs);
        }
        r
    }

    /// The first value of a slot.
    pub fn get(&self, s: Slot) -> (r: &T)
        requires
            in_chunks(self@, s),
            s.len > 0,
        ensures
            *r == slot_items(self@, s)[0],
    {
        proof {
            assert(self@[s.chunk as int] == self.chunks@[s.chunk as int]@);
        }
        &self.chunks[s.chunk][s.start]
    }

    /// The values of a slot.
    pub fn get_ext(&self, s: Slot) -> (r: &[T])
        requires
            in_chunks(self@, s),
        ensures
            r@ == slot_items(self@, s),
    {
        proof {
            assert(self@[s.chunk as int] == self.chunks@[s.chunk as int]@);
        }
        let chunk = self.chunks[s.chunk].as_slice();
        let size = chunk.len();
        assert(s.start + s.len <= size);
        let end = s.start + s.len;
        &chunk[s.start..end]
    }
}

} // verus!
