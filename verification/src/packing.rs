//! How values of a fixed bit width are packed into 32-bit words: the layout
//! as spec functions, and the arithmetic and bit-level facts about it.

use vstd::prelude::*;

verus! {

/// The widths that a packed value may have.
pub open spec fn valid_width(n: u32) -> bool {
    1 <= n <= 32
}

/// The word with the low `n` bits set: `(1 << n) - 1`.
pub open spec fn mask_of(n: u32) -> u32 {
    if n >= 32 {
        0xffff_ffffu32
    } else {
        ((1u32 << n) - 1) as u32
    }
}

/// How many values of `n` bits one word holds. The bits that are left over
/// at the top of the word are never used.
pub open spec fn slots_per_word(n: u32) -> int {
    32int / (n as int)
}

/// The `k`-th value of `n` bits in `word`, counted from the low end.
pub open spec fn slot_of(word: u32, n: u32, k: int) -> u32 {
    (word >> ((k * n) as u32)) & mask_of(n)
}

/// The word at index `i` of a store that is conceptually endless: zero where
/// nothing is allocated.
pub open spec fn word_at(words: Seq<u32>, i: int) -> u32 {
    if 0 <= i < words.len() {
        words[i]
    } else {
        0
    }
}

/// The value at index `x` of a store that is conceptually endless: zero where
/// nothing is allocated.
pub open spec fn value_at(slots: Seq<u32>, x: int) -> u32 {
    if 0 <= x < slots.len() {
        slots[x]
    } else {
        0
    }
}

/// The value of `n` bits at index `x` of the store packed into `words`.
pub open spec fn unpack(words: Seq<u32>, n: u32, x: int) -> u32 {
    slot_of(word_at(words, x / slots_per_word(n)), n, x % slots_per_word(n))
}

/// All values of `n` bits packed into `words`, in index order.
pub open spec fn unpack_all(words: Seq<u32>, n: u32) -> Seq<u32> {
    Seq::new((words.len() * slots_per_word(n)) as nat, |x: int| unpack(words, n, x))
}

/// `after` is `before` with the value at index `x` replaced by `value`, and
/// grown by zeros where `before` did not reach `x`. Where `before` already
/// held `x`, the length is the same.
pub open spec fn slot_written(before: Seq<u32>, x: int, value: u32, after: Seq<u32>) -> bool {
    &&& before.len() <= after.len()
    &&& 0 <= x < after.len()
    &&& x < before.len() ==> after.len() == before.len()
    &&& forall|y: int|
        0 <= y < after.len() ==> #[trigger] after[y] == if y == x {
            value
        } else {
            value_at(before, y)
        }
}

/// The bits of `word` above its last slot are zero.
pub open spec fn tidy(word: u32, n: u32) -> bool {
    word & !mask_of((slots_per_word(n) * n) as u32) == 0
}

/// `now` is `was` with slot `k` replaced by `value`: the other slots are as
/// they were, and no unused bit was set.
pub open spec fn slot_replaced(was: u32, now: u32, n: u32, k: int, value: u32) -> bool {
    &&& slot_of(now, n, k) == value
    &&& forall|j: int|
        0 <= j < slots_per_word(n) && j != k ==> slot_of(now, n, j) == slot_of(was, n, j)
    &&& tidy(was, n) ==> tidy(now, n)
}

/// Where index `x` lies: its word, its position in the word, and that the
/// bits of the position lie inside the word.
pub proof fn lemma_split(x: int, n: u32)
    by (nonlinear_arith)
    requires
        0 <= x,
        valid_width(n),
    ensures
        1 <= slots_per_word(n) <= 32,
        0 <= x / slots_per_word(n) <= x,
        0 <= x % slots_per_word(n) < slots_per_word(n),
        x == (x / slots_per_word(n)) * slots_per_word(n) + x % slots_per_word(n),
        (x % slots_per_word(n)) * n + n <= slots_per_word(n) * n <= 32,
{
}

/// Index `x` lies within the values of `len` words exactly when its word lies
/// within the words.
pub proof fn lemma_in_range(x: int, n: u32, len: int)
    by (nonlinear_arith)
    requires
        0 <= x,
        0 <= len,
        valid_width(n),
    ensures
        0 <= len * slots_per_word(n),
        x < len * slots_per_word(n) <==> x / slots_per_word(n) < len,
{
}

/// The bits of two different positions in a word do not overlap, and all of
/// them lie below the unused bits.
pub proof fn lemma_offsets(n: u32, k: int, k2: int)
    by (nonlinear_arith)
    requires
        valid_width(n),
        0 <= k < slots_per_word(n),
        0 <= k2 < slots_per_word(n),
    ensures
        0 <= k * n <= 32 - n,
        0 <= k2 * n <= 32 - n,
        k * n + n <= slots_per_word(n) * n <= 32,
        k != k2 ==> k * n + n <= k2 * n || k2 * n + n <= k * n,
{
}

/// The `k`-th value of word `i` has the index `i * slots_per_word(n) + k`.
pub proof fn lemma_join(i: int, k: int, n: u32)
    requires
        0 <= i,
        0 <= k < slots_per_word(n),
        valid_width(n),
    ensures
        (i * slots_per_word(n) + k) / slots_per_word(n) == i,
        (i * slots_per_word(n) + k) % slots_per_word(n) == k,
        0 <= k * n <= 32 - n,
        (i + 1) * slots_per_word(n) == i * slots_per_word(n) + slots_per_word(n),
{
    let c = slots_per_word(n);
    vstd::arithmetic::div_mod::lemma_fundamental_div_mod_converse(i * c + k, c, i, k);
    lemma_offsets(n, k, k);
    assert((i + 1) * c == i * c + c) by (nonlinear_arith);
}

/// The zero word holds zero at every position and has no unused bit set.
pub proof fn lemma_zero_word(n: u32, k: int)
    ensures
        slot_of(0, n, k) == 0,
        tidy(0, n),
{
    let off = (k * n) as u32;
    let m = mask_of(n);
    let used = (slots_per_word(n) * n) as u32;
    assert((0u32 >> off) & m == 0) by (bit_vector);
    assert(0u32 & !mask_of(used) == 0) by (bit_vector);
}

/// Reading the unpacked sequence at `x`, zero beyond its end, is unpacking
/// index `x` from the words, zero beyond their end.
pub proof fn lemma_unpack(words: Seq<u32>, n: u32, x: int)
    requires
        valid_width(n),
        0 <= x,
    ensures
        value_at(unpack_all(words, n), x) == unpack(words, n, x),
{
    lemma_split(x, n);
    lemma_in_range(x, n, words.len() as int);
    lemma_zero_word(n, x % slots_per_word(n));
}

/// `set` on one word: the window at `off` takes the low bits of `v`, a window
/// at `off2` that does not overlap it stays, and so do clear unused bits.
proof fn lemma_set_bits(w: u32, v: u32, n: u32, off: u32, off2: u32, used: u32)
    by (bit_vector)
    requires
        1 <= n <= 32,
        off <= 32 - n,
        off2 <= 32 - n,
        off + n <= used <= 32,
    ensures
        ({
            let m = mask_of(n);
            let now = (w | ((m & v) << off)) & !((m & !v) << off);
            &&& (now >> off) & m == v & m
            &&& (off2 + n <= off || off + n <= off2) ==> (now >> off2) & m == (w >> off2) & m
            &&& w & !mask_of(used) == 0 ==> now & !mask_of(used) == 0
        }),
{
}

/// `or_assign` on one word: the window at `off` takes up the low bits of `v`,
/// a window at `off2` that does not overlap it stays, and so do clear unused
/// bits.
proof fn lemma_or_bits(w: u32, v: u32, n: u32, off: u32, off2: u32, used: u32)
    by (bit_vector)
    requires
        1 <= n <= 32,
        off <= 32 - n,
        off2 <= 32 - n,
        off + n <= used <= 32,
    ensures
        ({
            let m = mask_of(n);
            let now = w | ((m & v) << off);
            &&& (now >> off) & m == ((w >> off) & m) | (v & m)
            &&& (off2 + n <= off || off + n <= off2) ==> (now >> off2) & m == (w >> off2) & m
            &&& w & !mask_of(used) == 0 ==> now & !mask_of(used) == 0
        }),
{
}

/// `and_assign` on one word: the window at `off` keeps the bits that `v` has,
/// a window at `off2` that does not overlap it stays, and so do clear unused
/// bits.
proof fn lemma_and_bits(w: u32, v: u32, n: u32, off: u32, off2: u32, used: u32)
    by (bit_vector)
    requires
        1 <= n <= 32,
        off <= 32 - n,
        off2 <= 32 - n,
        off + n <= used <= 32,
    ensures
        ({
            let m = mask_of(n);
            let now = w & !((m & !v) << off);
            &&& (now >> off) & m == ((w >> off) & m) & (v & m)
            &&& (off2 + n <= off || off + n <= off2) ==> (now >> off2) & m == (w >> off2) & m
            &&& w & !mask_of(used) == 0 ==> now & !mask_of(used) == 0
        }),
{
}

/// Setting the bits of `v & mask` in the window of slot `k` and clearing the
/// others there replaces the slot by `v & mask`.
pub proof fn lemma_set_word(was: u32, v: u32, n: u32, k: int)
    requires
        valid_width(n),
        0 <= k < slots_per_word(n),
    ensures
        ({
            let m = mask_of(n);
            let off = (k * n) as u32;
            let now = (was | ((m & v) << off)) & !((m & !v) << off);
            slot_replaced(was, now, n, k, v & m)
        }),
{
    let c = slots_per_word(n);
    let m = mask_of(n);
    let off = (k * n) as u32;
    let used = (c * n) as u32;
    let now = (was | ((m & v) << off)) & !((m & !v) << off);
    lemma_offsets(n, k, k);
    lemma_set_bits(was, v, n, off, off, used);
    assert forall|j: int| 0 <= j < c && j != k implies slot_of(now, n, j) == slot_of(
        was,
        n,
        j,
    ) by {
        lemma_offsets(n, k, j);
        lemma_set_bits(was, v, n, off, (j * n) as u32, used);
    }
}

/// Setting the bits of `v & mask` in the window of slot `k` replaces the
/// slot by its bitwise or with `v & mask`.
pub proof fn lemma_or_word(was: u32, v: u32, n: u32, k: int)
    requires
        valid_width(n),
        0 <= k < slots_per_word(n),
    ensures
        ({
            let m = mask_of(n);
            let off = (k * n) as u32;
            let now = was | ((m & v) << off);
            slot_replaced(was, now, n, k, slot_of(was, n, k) | (v & m))
        }),
{
    let c = slots_per_word(n);
    let m = mask_of(n);
    let off = (k * n) as u32;
    let used = (c * n) as u32;
    let now = was | ((m & v) << off);
    lemma_offsets(n, k, k);
    lemma_or_bits(was, v, n, off, off, used);
    assert forall|j: int| 0 <= j < c && j != k implies slot_of(now, n, j) == slot_of(
        was,
        n,
        j,
    ) by {
        lemma_offsets(n, k, j);
        lemma_or_bits(was, v, n, off, (j * n) as u32, used);
    }
}

/// Clearing, in the window of slot `k`, the bits that `v` does not have
/// replaces the slot by its bitwise and with `v & mask`.
pub proof fn lemma_and_word(was: u32, v: u32, n: u32, k: int)
    requires
        valid_width(n),
        0 <= k < slots_per_word(n),
    ensures
        ({
            let m = mask_of(n);
            let off = (k * n) as u32;
            let now = was & !((m & !v) << off);
            slot_replaced(was, now, n, k, slot_of(was, n, k) & (v & m))
        }),
{
    let c = slots_per_word(n);
    let m = mask_of(n);
    let off = (k * n) as u32;
    let used = (c * n) as u32;
    let now = was & !((m & !v) << off);
    lemma_offsets(n, k, k);
    lemma_and_bits(was, v, n, off, off, used);
    assert forall|j: int| 0 <= j < c && j != k implies slot_of(now, n, j) == slot_of(
        was,
        n,
        j,
    ) by {
        lemma_offsets(n, k, j);
        lemma_and_bits(was, v, n, off, (j * n) as u32, used);
    }
}

/// The low `off + n` bits of a word are its low `off` bits and the value in
/// the window at `off`.
proof fn lemma_low_bits_step(w: u32, n: u32, off: u32)
    by (bit_vector)
    requires
        1 <= n <= 32,
        off <= 32 - n,
    ensures
        w & mask_of((off + n) as u32) == (w & mask_of(off)) | (((w >> off) & mask_of(n)) << off),
{
}

/// A word with no bit above its low `used` bits is those bits.
proof fn lemma_low_bits_all(w: u32, used: u32)
    by (bit_vector)
    requires
        used <= 32,
        w & !mask_of(used) == 0,
    ensures
        w & mask_of(used) == w,
{
}

/// Two words that agree at every position agree in the bits of their first
/// `j` positions.
proof fn lemma_low_bits_agree(a: u32, b: u32, n: u32, j: int)
    requires
        valid_width(n),
        0 <= j <= slots_per_word(n),
        forall|k: int| 0 <= k < slots_per_word(n) ==> slot_of(a, n, k) == slot_of(b, n, k),
    ensures
        0 <= j * n <= 32,
        a & mask_of((j * n) as u32) == b & mask_of((j * n) as u32),
    decreases j,
{
    if j == 0 {
        assert(a & mask_of(0) == b & mask_of(0)) by (bit_vector);
    } else {
        lemma_low_bits_agree(a, b, n, j - 1);
        lemma_offsets(n, j - 1, j - 1);
        let off = ((j - 1) * n) as u32;
        assert(off + n == j * n) by (nonlinear_arith)
            requires
                off == (j - 1) * n,
        ;
        lemma_low_bits_step(a, n, off);
        lemma_low_bits_step(b, n, off);
        assert(slot_of(a, n, j - 1) == slot_of(b, n, j - 1));
    }
}

/// A word without unused bits is made of its values: two such words that
/// agree at every position are the same word.
pub proof fn lemma_word_of_slots(a: u32, b: u32, n: u32)
    requires
        valid_width(n),
        tidy(a, n),
        tidy(b, n),
        forall|k: int| 0 <= k < slots_per_word(n) ==> slot_of(a, n, k) == slot_of(b, n, k),
    ensures
        a == b,
{
    lemma_split(0, n);
    lemma_low_bits_agree(a, b, n, slots_per_word(n));
    let used = (slots_per_word(n) * n) as u32;
    lemma_low_bits_all(a, used);
    lemma_low_bits_all(b, used);
}

/// A value of `n` bits has no bit outside the low `n`, so merging into it
/// what `v` has in its low `n` bits is merging `v` and keeping the low `n`
/// bits.
pub proof fn lemma_merge_keeps_width(word: u32, n: u32, k: int, v: u32)
    ensures
        ({
            let held = slot_of(word, n, k);
            &&& held & mask_of(n) == held
            &&& held | (v & mask_of(n)) == (held | v) & mask_of(n)
            &&& held & (v & mask_of(n)) == (held & v) & mask_of(n)
        }),
{
    let s = word >> ((k * n) as u32);
    let m = mask_of(n);
    assert((s & m) & m == s & m) by (bit_vector);
    assert((s & m) | (v & m) == ((s & m) | v) & m) by (bit_vector);
    assert((s & m) & (v & m) == ((s & m) & v) & m) by (bit_vector);
}

/// Replacing one slot of one word, after the words were grown by zero words
/// to hold it, writes that one value of the unpacked sequence and keeps the
/// unused bits of all words zero.
pub proof fn lemma_word_written(
    before: Seq<u32>,
    after: Seq<u32>,
    n: u32,
    x: int,
    was: u32,
    value: u32,
)
    requires
        valid_width(n),
        0 <= x,
        x / slots_per_word(n) < after.len(),
        before.len() <= after.len(),
        x / slots_per_word(n) < before.len() ==> after.len() == before.len(),
        was == word_at(before, x / slots_per_word(n)),
        forall|i: int|
            0 <= i < after.len() && i != x / slots_per_word(n) ==> after[i] == word_at(before, i),
        slot_replaced(was, after[x / slots_per_word(n)], n, x % slots_per_word(n), value),
    ensures
        slot_written(unpack_all(before, n), x, value, unpack_all(after, n)),
        (forall|i: int| 0 <= i < before.len() ==> tidy(#[trigger] before[i], n)) ==> (forall|i: int|
            0 <= i < after.len() ==> tidy(#[trigger] after[i], n)),
{
    let c = slots_per_word(n);
    lemma_split(x, n);
    lemma_in_range(x, n, before.len() as int);
    lemma_in_range(x, n, after.len() as int);
    assert(before.len() * c <= after.len() * c) by (nonlinear_arith)
        requires
            before.len() <= after.len(),
            c > 0,
    ;
    assert forall|y: int| 0 <= y < unpack_all(after, n).len() implies #[trigger] unpack_all(
        after,
        n,
    )[y] == if y == x {
        value
    } else {
        value_at(unpack_all(before, n), y)
    } by {
        lemma_split(y, n);
        lemma_in_range(y, n, after.len() as int);
        lemma_unpack(before, n, y);
    }
    if forall|i: int| 0 <= i < before.len() ==> tidy(#[trigger] before[i], n) {
        assert forall|i: int| 0 <= i < after.len() implies tidy(#[trigger] after[i], n) by {
            lemma_zero_word(n, 0);
        }
    }
}

} // verus!
