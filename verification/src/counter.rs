//! The search counter: a byte string with its own successor function.
//!
//! The successor bumps the last byte that is not 255; when every byte is 255
//! (the empty counter included) it appends a 0 byte instead. No byte is ever
//! reset, so this is not a carrying increment.

use vstd::prelude::*;

verus! {

/// Index of the last byte of `c` that is below 255, or -1 if there is none.
pub open spec fn last_below_max(c: Seq<u8>) -> int
    decreases c.len(),
{
    if c.len() == 0 {
        -1
    } else if c.last() != 255 {
        c.len() - 1
    } else {
        last_below_max(c.drop_last())
    }
}

/// Every byte of `c` is 255.
pub open spec fn all_max(c: Seq<u8>) -> bool {
    forall|j: int| 0 <= j < c.len() ==> c[j] == 255
}

/// The successor of a counter value.
pub open spec fn successor(c: Seq<u8>) -> Seq<u8> {
    let i = last_below_max(c);
    if i < 0 {
        c.push(0)
    } else {
        c.update(i, (c[i] + 1) as u8)
    }
}

/// The counter reached from `c` by `n` successor steps.
pub open spec fn advance(c: Seq<u8>, n: nat) -> Seq<u8>
    decreases n,
{
    if n == 0 {
        c
    } else {
        successor(advance(c, (n - 1) as nat))
    }
}

/// Lexicographic order on byte strings of one length: they agree below some
/// index, at which `a` is smaller.
pub open spec fn lex_less(a: Seq<u8>, b: Seq<u8>) -> bool {
    exists|i: int|
        0 <= i < a.len() && i < b.len() && #[trigger] a[i] < b[i] && (forall|j: int|
            0 <= j < i ==> a[j] == b[j])
}

/// The order in which counters are visited: by length, then lexicographic.
pub open spec fn counter_less(a: Seq<u8>, b: Seq<u8>) -> bool {
    a.len() < b.len() || (a.len() == b.len() && lex_less(a, b))
}

/// How far the bytes of `c` are from all being 255.
pub open spec fn headroom(c: Seq<u8>) -> nat
    decreases c.len(),
{
    if c.len() == 0 {
        0
    } else {
        headroom(c.drop_last()) + (255 - c.last()) as nat
    }
}

/// What `last_below_max` finds: the byte there is below 255 and all bytes
/// after it are 255; it finds nothing exactly when every byte is 255.
pub proof fn lemma_last_below_max(c: Seq<u8>)
    ensures
        -1 <= last_below_max(c) < c.len(),
        last_below_max(c) >= 0 ==> c[last_below_max(c)] != 255,
        forall|j: int| last_below_max(c) < j < c.len() ==> c[j] == 255,
        last_below_max(c) < 0 <==> all_max(c),
    decreases c.len(),
{
    if c.len() == 0 {
    } else if c.last() != 255 {
    } else {
        let d = c.drop_last();
        lemma_last_below_max(d);
        assert forall|j: int| last_below_max(c) < j < c.len() implies c[j] == 255 by {
            if j < d.len() {
                assert(d[j] == c[j]);
            }
        }
        if last_below_max(c) < 0 {
            assert forall|j: int| 0 <= j < c.len() implies c[j] == 255 by {
                if j < d.len() {
                    assert(d[j] == c[j]);
                }
            }
        } else {
            assert(d[last_below_max(c)] == c[last_below_max(c)]);
        }
    }
}

/// A counter of `k` bytes that are all 255 is followed by one of `k + 1`
/// bytes: the same bytes and a single 0 after them.
pub proof fn lemma_successor_of_all_max(c: Seq<u8>)
    requires
        all_max(c),
    ensures
        successor(c) == c.push(0),
        successor(c).len() == c.len() + 1,
        successor(c).last() == 0,
        successor(c).drop_last() == c,
{
    lemma_last_below_max(c);
    assert(c.push(0).drop_last() =~= c);
}

/// The successor of a counter with a byte below 255 has the same length and
/// differs in one byte, which grew by one.
pub proof fn lemma_successor_bumps(c: Seq<u8>)
    requires
        !all_max(c),
    ensures
        successor(c).len() == c.len(),
        0 <= last_below_max(c) < c.len(),
        successor(c)[last_below_max(c)] == c[last_below_max(c)] + 1,
        forall|j: int|
            0 <= j < c.len() && j != last_below_max(c) ==> successor(c)[j] == c[j],
{
    lemma_last_below_max(c);
}

/// Each step moves strictly up in the visiting order.
pub proof fn lemma_successor_is_greater(c: Seq<u8>)
    ensures
        counter_less(c, successor(c)),
{
    lemma_last_below_max(c);
    let i = last_below_max(c);
    if i >= 0 {
        let s = successor(c);
        assert(c[i] < s[i]);
        assert forall|j: int| 0 <= j < i implies c[j] == s[j] by {}
    }
}

/// The lexicographic order is irreflexive.
pub proof fn lemma_counter_less_irreflexive(a: Seq<u8>)
    ensures
        !counter_less(a, a),
{
}

/// The visiting order is transitive.
pub proof fn lemma_counter_less_transitive(a: Seq<u8>, b: Seq<u8>, c: Seq<u8>)
    requires
        counter_less(a, b),
        counter_less(b, c),
    ensures
        counter_less(a, c),
{
    if a.len() == b.len() && b.len() == c.len() {
        let i = choose|i: int|
            0 <= i < a.len() && i < b.len() && #[trigger] a[i] < b[i] && (forall|j: int|
                0 <= j < i ==> a[j] == b[j]);
        let k = choose|k: int|
            0 <= k < b.len() && k < c.len() && #[trigger] b[k] < c[k] && (forall|j: int|
                0 <= j < k ==> b[j] == c[j]);
        let m = if i <= k { i } else { k };
        assert(a[m] < c[m]);
        assert forall|j: int| 0 <= j < m implies a[j] == c[j] by {
            assert(a[j] == b[j]);
            assert(b[j] == c[j]);
        }
    }
}

/// The sequence of counters is strictly increasing: a later one is greater
/// than an earlier one.
pub proof fn lemma_advance_increasing(c: Seq<u8>, m: nat, n: nat)
    requires
        m < n,
    ensures
        counter_less(advance(c, m), advance(c, n)),
    decreases n,
{
    let prev = advance(c, (n - 1) as nat);
    lemma_successor_is_greater(prev);
    if m < n - 1 {
        lemma_advance_increasing(c, m, (n - 1) as nat);
        lemma_counter_less_transitive(advance(c, m), prev, advance(c, n));
    }
}

/// The sequence of counters never repeats a value.
pub proof fn lemma_advance_never_repeats(c: Seq<u8>, m: nat, n: nat)
    requires
        m != n,
    ensures
        advance(c, m) != advance(c, n),
{
    if m < n {
        lemma_advance_increasing(c, m, n);
        lemma_counter_less_irreflexive(advance(c, n));
    } else {
        lemma_advance_increasing(c, n, m);
        lemma_counter_less_irreflexive(advance(c, m));
    }
}

/// Steps add up: `n` steps from where `m` steps led are `m + n` steps.
pub proof fn lemma_advance_adds(c: Seq<u8>, m: nat, n: nat)
    ensures
        advance(advance(c, m), n) == advance(c, m + n),
    decreases n,
{
    if n > 0 {
        lemma_advance_adds(c, m, (n - 1) as nat);
    }
}

/// Changing one byte changes the headroom by as much.
proof fn lemma_headroom_update(c: Seq<u8>, i: int, b: u8)
    requires
        0 <= i < c.len(),
    ensures
        headroom(c.update(i, b)) == headroom(c) + c[i] - b,
    decreases c.len(),
{
    let u = c.update(i, b);
    if i == c.len() - 1 {
        assert(u.drop_last() =~= c.drop_last());
    } else {
        lemma_headroom_update(c.drop_last(), i, b);
        assert(u.drop_last() =~= c.drop_last().update(i, b));
    }
}

/// A step either lengthens the counter by one byte or keeps its length and
/// uses up one unit of headroom.
pub proof fn lemma_successor_measure(c: Seq<u8>)
    ensures
        successor(c).len() == c.len() + 1 || (successor(c).len() == c.len() && headroom(
            successor(c),
        ) + 1 == headroom(c)),
{
    lemma_last_below_max(c);
    let i = last_below_max(c);
    if i >= 0 {
        lemma_headroom_update(c, i, (c[i] + 1) as u8);
    }
}

/// Replaces `counter` by its successor.
pub fn increment_counter(counter: &mut Vec<u8>)
    ensures
        final(counter)@ == successor(old(counter)@),
{
    let ghost start = counter@;
    let mut i: usize = counter.len();
    proof {
        assert(start.take(i as int) =~= start);
    }
    while i > 0
        invariant
            counter@ == start,
            start == old(counter)@,
            i <= start.len(),
            last_below_max(start) == last_below_max(start.take(i as int)),
        decreases i,
    {
        i = i - 1;
        let ghost head = start.take(i + 1);
        proof {
            assert(head.last() == start[i as int]);
            assert(head.drop_last() =~= start.take(i as int));
        }
        let b: u8 = counter[i];
        if b != 255 {
            assert(last_below_max(start) == i);
            counter[i] = b + 1;
            assert(counter@ =~= start.update(i as int, (b + 1) as u8));
            return ;
        }
    }
    proof {
        assert(start.take(0).len() == 0);
    }
    counter.push(0);
}

} // verus!
