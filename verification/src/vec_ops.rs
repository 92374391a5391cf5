use vstd::prelude::*;

verus! {

/// Adds `rhs[i]` to `lhs[i]` for every `i` below both lengths.
pub fn vec_add_assign(lhs: &mut [u8], rhs: &[u8])
    requires
        forall|i: int|
            0 <= i < old(lhs)@.len() && i < rhs@.len() ==> old(lhs)@[i] + rhs@[i] <= u8::MAX,
    ensures
        final(lhs)@.len() == old(lhs)@.len(),
        forall|i: int|
            0 <= i < old(lhs)@.len() ==> #[trigger] final(lhs)@[i] == if i < rhs@.len() {
                old(lhs)@[i] + rhs@[i]
            } else {
                old(lhs)@[i] as int
            },
{
    let n = if lhs.len() < rhs.len() {
        lhs.len()
    } else {
        rhs.len()
    };
    let mut i: usize = 0;
    while i < n
        invariant
            i <= n,
            n <= lhs@.len(),
            n <= rhs@.len(),
            n == lhs@.len() || n == rhs@.len(),
            lhs@.len() == old(lhs)@.len(),
            forall|j: int|
                0 <= j < old(lhs)@.len() && j < rhs@.len() ==> old(lhs)@[j] + rhs@[j] <= u8::MAX,
            forall|j: int|
                0 <= j < lhs@.len() ==> #[trigger] lhs@[j] == if j < i {
                    old(lhs)@[j] + rhs@[j]
                } else {
                    old(lhs)@[j] as int
                },
        decreases n - i,
    {
        lhs[i] = lhs[i] + rhs[i];
        i += 1;
    }
}

/// Adds `rhs[i]` to `lhs[i]` for every `i` below both lengths; the scores
/// and point deltas use it.
pub fn vec_add_assign_i32(lhs: &mut [i32], rhs: &[i32])
    requires
        forall|i: int|
            0 <= i < old(lhs)@.len() && i < rhs@.len() ==> i32::MIN <= #[trigger] old(lhs)@[i] + rhs@[i]
                <= i32::MAX,
    ensures
        final(lhs)@.len() == old(lhs)@.len(),
        forall|i: int|
            0 <= i < old(lhs)@.len() ==> #[trigger] final(lhs)@[i] == if i < rhs@.len() {
                old(lhs)@[i] + rhs@[i]
            } else {
                old(lhs)@[i] as int
            },
{
    let n = if lhs.len() < rhs.len() {
        lhs.len()
    } else {
        rhs.len()
    };
    let mut i: usize = 0;
    while i < n
        invariant
            i <= n,
            n <= lhs@.len(),
            n <= rhs@.len(),
            n == lhs@.len() || n == rhs@.len(),
            lhs@.len() == old(lhs)@.len(),
            forall|j: int|
                0 <= j < old(lhs)@.len() && j < rhs@.len() ==> i32::MIN <= #[trigger] old(lhs)@[j] + rhs@[j]
                    <= i32::MAX,
            forall|j: int|
                0 <= j < lhs@.len() ==> #[trigger] lhs@[j] == if j < i {
                    old(lhs)@[j] + rhs@[j]
                } else {
                    old(lhs)@[j] as int
                },
        decreases n - i,
    {
        lhs[i] = lhs[i] + rhs[i];
        i += 1;
    }
}

} // verus!
