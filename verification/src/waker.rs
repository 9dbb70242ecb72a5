//! The ready mask and the wake handles that set bits in it.

use vstd::prelude::*;

verus! {

/// Number of task slots that one ready mask can tell apart.
pub const MASK_WIDTH: usize = 32;

/// Whether bit `j` of `bits` is set.
pub open spec fn bit_at(bits: u32, j: u32) -> bool {
    (bits >> j) & 1 == 1
}

/// Setting bit `i` sets that bit and leaves the others.
proof fn lemma_bit_or(bits: u32, i: u32, j: u32)
    requires
        i < 32,
        j < 32,
    ensures
        bit_at(bits | (1u32 << i), j) == (j == i || bit_at(bits, j)),
{
    assert(((bits | (1u32 << i)) >> j) & 1 == 1 <==> (j == i || (bits >> j) & 1 == 1)) by (bit_vector)
        requires
            i < 32,
            j < 32,
    ;
}

/// Clearing bit `i` clears that bit and leaves the others.
proof fn lemma_bit_clear(bits: u32, i: u32, j: u32)
    requires
        i < 32,
        j < 32,
    ensures
        bit_at(bits & !(1u32 << i), j) == (j != i && bit_at(bits, j)),
{
    assert(((bits & !(1u32 << i)) >> j) & 1 == 1 <==> (j != i && (bits >> j) & 1 == 1)) by (bit_vector)
        requires
            i < 32,
            j < 32,
    ;
}

/// Masking with bit `i` tests that bit.
proof fn lemma_bit_test(bits: u32, i: u32)
    requires
        i < 32,
    ensures
        (bits & (1u32 << i) != 0) == bit_at(bits, i),
{
    assert((bits & (1u32 << i) != 0) <==> ((bits >> i) & 1 == 1)) by (bit_vector)
        requires
            i < 32,
    ;
}

/// The bits of `a | b` are those of `a` and those of `b`.
proof fn lemma_bit_union(a: u32, b: u32, j: u32)
    requires
        j < 32,
    ensures
        bit_at(a | b, j) == (bit_at(a, j) || bit_at(b, j)),
{
    assert(((a | b) >> j) & 1 == 1 <==> ((a >> j) & 1 == 1 || (b >> j) & 1 == 1)) by (bit_vector)
        requires
            j < 32,
    ;
}

/// The zero word has no bit set.
proof fn lemma_bit_zero(j: u32)
    requires
        j < 32,
    ensures
        !bit_at(0u32, j),
{
    assert(!((0u32 >> j) & 1 == 1)) by (bit_vector);
}

/// Error of the wake protocol and of the executor's slot bookkeeping.
#[derive(Debug, Clone, Copy, PartialEq, Eq, Structural)]
pub enum ExecutorError {
    /// Every task slot is in use.
    SlotCapacityExceeded,
    /// The slot index has no bit in the ready mask.
    TaskIndexOutOfRange,
}

/// One bit per task slot: set when the task in that slot should be polled.
#[derive(Debug, Clone, Copy, PartialEq, Eq, Structural)]
pub struct ReadyMask {
    bits: u32,
}

impl View for ReadyMask {
    type V = Set<int>;

    /// The indices of the slots whose bit is set.
    closed spec fn view(&self) -> Set<int> {
        Set::new(|j: int| 0 <= j < 32 && bit_at(self.bits, j as u32))
    }
}

impl ReadyMask {
    /// The mask as one word: bit `j` of the word is the bit of slot `j`.
    pub closed spec fn bits(self) -> u32 {
        self.bits
    }

    /// The set bits are those of the word, within the mask's width.
    pub proof fn lemma_view_is_bits(self)
        ensures
            forall|j: int| self@.contains(j) <==> (0 <= j < 32 && bit_at(self.bits(), j as u32)),
    {
    }

    /// Only slots within the mask's width have a bit.
    pub proof fn lemma_view_bounds(self)
        ensures
            forall|j: int| self@.contains(j) ==> 0 <= j < MASK_WIDTH,
            self@.finite(),
    {
        let full = Set::new(|j: int| 0 <= j < 32);
        assert(full =~= vstd::set_lib::set_int_range(0, 32));
        vstd::set_lib::lemma_int_range(0, 32);
        assert(self@.subset_of(full));
        vstd::set_lib::lemma_len_subset(self@, full);
    }

    /// Two masks with the same set bits are the same mask.
    pub proof fn lemma_view_injective(self, other: ReadyMask)
        requires
            self@ == other@,
        ensures
            self == other,
    {
        let a = self.bits;
        let b = other.bits;
        assert forall|j: u32| j < 32 implies bit_at(a, j) == bit_at(b, j) by {
            assert((j as int) as u32 == j);
            assert(self@.contains(j as int) == bit_at(a, j));
            assert(other@.contains(j as int) == bit_at(b, j));
        }
        assert(a == b) by {
            lemma_bits_ext(a, b);
        }
    }

    /// A mask with no bit set.
    pub fn new() -> (r: Self)
        ensures
            r@ == Set::<int>::empty(),
    {
        let r = ReadyMask { bits: 0 };
        proof {
            assert forall|j: int| !r@.contains(j) by {
                if 0 <= j < 32 {
                    lemma_bit_zero(j as u32);
                }
            }
            assert(r@ =~= Set::<int>::empty());
        }
        r
    }

    /// The mask made of the low 32 bits that are set in `bits`.
    pub fn from_bits(bits: u32) -> (r: Self)
        ensures
            r.bits() == bits,
    {
        ReadyMask { bits }
    }

    /// The mask as one word.
    pub fn to_bits(&self) -> (r: u32)
        ensures
            r == self.bits(),
    {
        self.bits
    }

    /// Whether no bit is set.
    pub fn is_empty(&self) -> (r: bool)
        ensures
            r == (self@ == Set::<int>::empty()),
    {
        proof {
            if self.bits == 0 {
                assert forall|j: int| !self@.contains(j) by {
                    if 0 <= j < 32 {
                        lemma_bit_zero(j as u32);
                    }
                }
                assert(self@ =~= Set::<int>::empty());
            } else {
                lemma_nonzero_has_bit(self.bits);
                let j = choose|j: u32| j < 32 && bit_at(self.bits, j);
                assert(self@.contains(j as int));
            }
        }
        self.bits == 0
    }

    /// Whether the bit of slot `index` is set.
    pub fn is_set(&self, index: usize) -> (r: bool)
        ensures
            r == self@.contains(index as int),
    {
        if index >= MASK_WIDTH {
            return false;
        }
        let bit: u32 = 1u32 << (index as u32);
        proof {
            lemma_bit_test(self.bits, index as u32);
        }
        self.bits & bit != 0
    }

    /// Sets every bit that is set in `other`.
    pub fn merge(&mut self, other: ReadyMask)
        ensures
            final(self)@ == old(self)@.union(other@),
    {
        let ghost before = *self;
        self.bits = self.bits | other.bits;
        proof {
            assert forall|j: int| self@.contains(j) == (before@.contains(j) || other@.contains(j)) by {
                if 0 <= j < 32 {
                    lemma_bit_union(before.bits, other.bits, j as u32);
                }
            }
            assert(self@ =~= before@.union(other@));
        }
    }
}

/// Wake handle of one task slot.
#[derive(Debug, Clone, Copy, PartialEq, Eq, Structural)]
pub struct WakerInfo {
    task_index: usize,
}

impl WakerInfo {
    /// A handle is only ever bound to a slot that has a bit in the mask.
    #[verifier::type_invariant]
    spec fn in_range(self) -> bool {
        self.task_index < MASK_WIDTH
    }

    /// The slot that this handle is bound to.
    pub closed spec fn index(self) -> int {
        self.task_index as int
    }

    /// A handle is its slot: two handles of one slot are equal.
    pub proof fn lemma_index_injective(self, other: Option<WakerInfo>)
        ensures
            other matches Some(w) ==> (w.index() == self.index() <==> w == self),
    {
    }

    /// Binds a handle to slot `task_index` and marks that slot runnable in `mask`.
    /// Fails, and leaves the mask alone, when the mask has no bit for the slot.
    pub fn new(task_index: usize, mask: &mut ReadyMask) -> (r: Result<Self, ExecutorError>)
        ensures
            task_index < MASK_WIDTH ==> (r matches Ok(w) && w.index() == task_index && final(mask)@
                == old(mask)@.insert(task_index as int)),
            task_index >= MASK_WIDTH ==> r == Err::<Self, ExecutorError>(
                ExecutorError::TaskIndexOutOfRange,
            ) && *final(mask) == *old(mask),
    {
        if task_index >= MASK_WIDTH {
            return Err(ExecutorError::TaskIndexOutOfRange);
        }
        let w = WakerInfo { task_index };
        w.mark_runnable(mask);
        Ok(w)
    }

    /// The slot that this handle is bound to.
    pub fn task_index(&self) -> (r: usize)
        ensures
            r == self.index(),
            r < MASK_WIDTH,
    {
        proof {
            use_type_invariant(self);
        }
        self.task_index
    }

    /// The handle as one opaque word, from which `from_waker` gives it back.
    pub fn to_raw_waker(&self) -> (r: usize)
        ensures
            r == self.index(),
            r < MASK_WIDTH,
    {
        self.task_index()
    }

    /// Sets the slot's bit; every other bit stays as it is.
    pub fn mark_runnable(&self, mask: &mut ReadyMask)
        ensures
            final(mask)@ == old(mask)@.insert(self.index()),
    {
        proof {
            use_type_invariant(self);
        }
        let ghost before = *mask;
        let i: u32 = self.task_index as u32;
        mask.bits = mask.bits | (1u32 << i);
        proof {
            assert forall|j: int| #[trigger] mask@.contains(j) == (j == self.index() || before@.contains(j)) by {
                if 0 <= j < 32 {
                    lemma_bit_or(before.bits, i, j as u32);
                }
            }
            assert forall|j: int| #[trigger] mask@.contains(j) == before@.insert(self.index()).contains(j) by {}
            assert(mask@ =~= before@.insert(self.index()));
        }
    }

    /// Clears the slot's bit and says whether it was set; every other bit stays as it is.
    pub fn take_runnable(&self, mask: &mut ReadyMask) -> (r: bool)
        ensures
            r == old(mask)@.contains(self.index()),
            final(mask)@ == old(mask)@.remove(self.index()),
    {
        proof {
            use_type_invariant(self);
        }
        let ghost before = *mask;
        let i: u32 = self.task_index as u32;
        let bit: u32 = 1u32 << i;
        let was_set = mask.bits & bit != 0;
        mask.bits = mask.bits & !bit;
        proof {
            lemma_bit_test(before.bits, i);
            assert forall|j: int| mask@.contains(j) == (j != self.index() && before@.contains(j)) by {
                if 0 <= j < 32 {
                    lemma_bit_clear(before.bits, i, j as u32);
                }
            }
            assert(mask@ =~= before@.remove(self.index()));
        }
        was_set
    }

    /// Whether the slot's bit is set; the mask stays as it is.
    pub fn is_runnable(&self, mask: &ReadyMask) -> (r: bool)
        ensures
            r == mask@.contains(self.index()),
    {
        mask.is_set(self.task_index())
    }

    /// Marks the slot runnable: what a wake of this handle does.
    pub fn wake_task(&self, mask: &mut ReadyMask)
        ensures
            final(mask)@ == old(mask)@.insert(self.index()),
    {
        self.mark_runnable(mask)
    }
}

/// One call on a wake handle.
pub enum WakeOp {
    /// `mark_runnable`.
    Mark,
    /// `take_runnable`.
    Take,
}

/// The set bits after the calls `ops` were made, in their order, on a handle of slot
/// `i`, from the set bits `ready`.
pub open spec fn after_ops(ready: Set<int>, i: int, ops: Seq<WakeOp>) -> Set<int>
    decreases ops.len(),
{
    if ops.len() == 0 {
        ready
    } else {
        let before = after_ops(ready, i, ops.drop_last());
        match ops.last() {
            WakeOp::Mark => before.insert(i),
            WakeOp::Take => before.remove(i),
        }
    }
}

/// Whether, among the first `n` calls of `ops`, a `Mark` was made with no `Take` after
/// it; where there was no `Take` among them at all, the bit that the calls found set
/// counts as such a `Mark`.
pub open spec fn marked_since_take(was_set: bool, ops: Seq<WakeOp>, n: int) -> bool {
    ||| exists|j: int|
        0 <= j < n && #[trigger] ops[j] is Mark && forall|k: int|
            j < k < n ==> !(#[trigger] ops[k] is Take)
    ||| was_set && forall|k: int| 0 <= k < n ==> !(#[trigger] ops[k] is Take)
}

/// Wake correctness. Over any sequence of calls on a handle of slot `i`, the bit of the
/// slot is set before call `n` exactly when a `Mark` was made since the last `Take`
/// before it: that is what a `Take` at `n` returns. No call touches another slot's bit.
pub proof fn lemma_wake_correctness(ready: Set<int>, i: int, ops: Seq<WakeOp>, n: int)
    requires
        0 <= n <= ops.len(),
    ensures
        after_ops(ready, i, ops.take(n)).contains(i) == marked_since_take(
            ready.contains(i),
            ops,
            n,
        ),
        forall|k: int| k != i ==> after_ops(ready, i, ops.take(n)).contains(k) == ready.contains(k),
    decreases n,
{
    let prefix = ops.take(n);
    if n > 0 {
        assert(prefix.drop_last() =~= ops.take(n - 1));
        assert(prefix.last() == ops[n - 1]);
        lemma_wake_correctness(ready, i, ops, n - 1);
        match ops[n - 1] {
            WakeOp::Mark => {
                assert(ops[n - 1] is Mark);
                assert(marked_since_take(ready.contains(i), ops, n));
            },
            WakeOp::Take => {
                assert(ops[n - 1] is Take);
                assert(!marked_since_take(ready.contains(i), ops, n));
            },
        }
    }
}

/// Two takes in a row: the second finds the bit clear.
pub proof fn lemma_take_twice(ready: Set<int>, i: int, ops: Seq<WakeOp>, n: int)
    requires
        0 < n <= ops.len(),
        ops[n - 1] is Take,
    ensures
        !after_ops(ready, i, ops.take(n)).contains(i),
{
    lemma_wake_correctness(ready, i, ops, n);
}

/// The handle that `to_raw_waker` encoded as `raw`, if `raw` is such a word.
pub fn from_waker(raw: usize) -> (r: Option<WakerInfo>)
    ensures
        raw < MASK_WIDTH ==> (r matches Some(w) && w.index() == raw),
        raw >= MASK_WIDTH ==> r.is_none(),
{
    if raw < MASK_WIDTH {
        Some(WakerInfo { task_index: raw })
    } else {
        None
    }
}

/// A word that is not zero has a bit set.
proof fn lemma_nonzero_has_bit(bits: u32)
    requires
        bits != 0,
    ensures
        exists|j: u32| j < 32 && #[trigger] bit_at(bits, j),
{
    lemma_bits_ext(bits, 0);
    if forall|j: u32| j < 32 ==> !#[trigger] bit_at(bits, j) {
        assert forall|j: u32| j < 32 implies bit_at(bits, j) == bit_at(0u32, j) by {
            lemma_bit_zero(j);
        }
    }
}

/// Two words that agree in every bit are equal.
proof fn lemma_bits_ext(a: u32, b: u32)
    ensures
        (forall|j: u32| j < 32 ==> bit_at(a, j) == bit_at(b, j)) ==> a == b,
{
    if forall|j: u32| j < 32 ==> bit_at(a, j) == bit_at(b, j) {
        lemma_bits_ext_step(a, b, 32);
    }
}

/// Two words that agree in their lowest `n` bits are equal below bit `n`.
proof fn lemma_bits_ext_step(a: u32, b: u32, n: u32)
    requires
        n <= 32,
        forall|j: u32| j < n ==> bit_at(a, j) == bit_at(b, j),
    ensures
        n == 32 ==> a == b,
        n < 32 ==> a & (((1u32 << n) - 1) as u32) == b & (((1u32 << n) - 1) as u32),
    decreases n,
{
    if n == 0 {
        assert(a & (((1u32 << 0u32) - 1) as u32) == b & (((1u32 << 0u32) - 1) as u32)) by (bit_vector);
    } else {
        let m = (n - 1) as u32;
        lemma_bits_ext_step(a, b, m);
        assert(bit_at(a, m) == bit_at(b, m));
        let am = (a >> m) & 1 == 1;
        let bm = (b >> m) & 1 == 1;
        if n == 32 {
            assert(a == b) by (bit_vector)
                requires
                    a & (((1u32 << 31u32) - 1) as u32) == b & (((1u32 << 31u32) - 1) as u32),
                    ((a >> 31u32) & 1 == 1) == ((b >> 31u32) & 1 == 1),
            ;
        } else {
            assert(a & (((1u32 << n) - 1) as u32) == b & (((1u32 << n) - 1) as u32)) by (bit_vector)
                requires
                    0 < n < 32,
                    m == n - 1,
                    a & (((1u32 << m) - 1) as u32) == b & (((1u32 << m) - 1) as u32),
                    ((a >> m) & 1 == 1) == ((b >> m) & 1 == 1),
            ;
        }
    }
}

} // verus!
