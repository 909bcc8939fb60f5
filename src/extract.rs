use vstd::prelude::*;
use crate::pairs::{low_pair, lemma_low_pair_bound, packed, pair_at};
use crate::PADDING_LENGTH;

verus! {

/// Number of channels that carry one padding run: two bits each.
pub open spec fn run_channels() -> int {
    4 * PADDING_LENGTH
}

/// The channels `j - 31 ..= j`, all at or after `start`, carry only zero
/// pairs: a whole padding run ends at channel `j`.
pub open spec fn run_ends_at(ch: Seq<u8>, start: int, j: int) -> bool {
    &&& start + run_channels() - 1 <= j < ch.len()
    &&& forall|t: int| j - run_channels() < t <= j ==> #[trigger] low_pair(ch[t]) == 0
}

/// `j` is the first channel at which a padding run ends.
pub open spec fn is_first_end(ch: Seq<u8>, start: int, j: int) -> bool {
    &&& run_ends_at(ch, start, j)
    &&& forall|k: int| start <= k < j ==> !run_ends_at(ch, start, k)
}

pub open spec fn has_end(ch: Seq<u8>, start: int) -> bool {
    exists|j: int| run_ends_at(ch, start, j)
}

pub open spec fn first_end(ch: Seq<u8>, start: int) -> int {
    choose|j: int| is_first_end(ch, start, j)
}

/// Number of pairs read from `start` on that belong to the message: those
/// before the first padding run, or all of them when no run ends.
pub open spec fn kept_pairs(ch: Seq<u8>, start: int) -> int {
    if has_end(ch, start) {
        first_end(ch, start) - run_channels() + 1 - start
    } else {
        ch.len() - start
    }
}

/// The message read from the channels from `start` on: the kept pairs
/// regrouped four to a byte, a last partial byte filled with zero bits.
pub open spec fn decoded(ch: Seq<u8>, start: int) -> Seq<u8> {
    Seq::new(
        ((kept_pairs(ch, start) + 3) / 4) as nat,
        |i: int| packed(ch, start + 4 * i, 4),
    )
}

/// The channels that precede the message carry only zero pairs.
pub open spec fn header_clear(ch: Seq<u8>) -> bool {
    &&& ch.len() >= run_channels()
    &&& forall|t: int| 0 <= t < run_channels() ==> #[trigger] low_pair(ch[t]) == 0
}

/// A padding run that ends somewhere has a first end, no later than any end.
pub proof fn lemma_first_end(ch: Seq<u8>, start: int, j: int)
    requires
        run_ends_at(ch, start, j),
    ensures
        has_end(ch, start),
        is_first_end(ch, start, first_end(ch, start)),
        first_end(ch, start) <= j,
    decreases j - start,
{
    if exists|k: int| start <= k < j && run_ends_at(ch, start, k) {
        let k = choose|k: int| start <= k < j && run_ends_at(ch, start, k);
        lemma_first_end(ch, start, k);
    } else {
        assert(is_first_end(ch, start, j));
        lemma_first_end_unique(ch, start, j);
    }
}

/// The first end is the only channel that is a first end.
pub proof fn lemma_first_end_unique(ch: Seq<u8>, start: int, j: int)
    requires
        is_first_end(ch, start, j),
    ensures
        has_end(ch, start),
        first_end(ch, start) == j,
{
    let f = first_end(ch, start);
    assert(is_first_end(ch, start, f));
    if f < j {
        assert(!run_ends_at(ch, start, f));
    }
    if j < f {
        assert(!run_ends_at(ch, start, j));
    }
}

/// True when the first channels, which precede every message, carry only
/// zero pairs.
pub fn header_is_clear(channels: &Vec<u8>) -> (r: bool)
    ensures
        r == header_clear(channels@),
{
    let header: usize = PADDING_LENGTH * 4;
    if channels.len() < header {
        return false;
    }
    let mut t: usize = 0;
    while t < header
        invariant
            channels@.len() >= header == run_channels(),
            t <= header,
            forall|u: int| 0 <= u < t ==> #[trigger] low_pair(channels@[u]) == 0,
        decreases header - t,
    {
        if channels[t] & 3 != 0 {
            assert(low_pair(channels@[t as int]) != 0);
            return false;
        }
        t = t + 1;
    }
    true
}

/// Reads the message carried by the channels from `start` on. Pairs are
/// collected until a whole padding run of zero pairs has been read; that run
/// is dropped. When the channels end first, all pairs read are kept.
pub fn extract_payload(channels: &Vec<u8>, start: usize) -> (r: Vec<u8>)
    requires
        start <= channels@.len(),
    ensures
        r@ == decoded(channels@, start as int),
{
    let ghost ch = channels@;
    let n = channels.len();
    let run_bits: usize = PADDING_LENGTH * 8;
    let mut out: Vec<u8> = Vec::new();
    let mut acc: u8 = 0;
    let mut zeros: usize = 0;
    let mut found = false;
    let mut i: usize = start;
    while i < n && !found
        invariant
            ch == channels@,
            n == ch.len(),
            run_bits == 2 * run_channels(),
            start <= i <= n,
            found ==> is_first_end(ch, start as int, i - 1) && start + run_channels() <= i,
            out@.len() == (i - start) / 4,
            forall|k: int| 0 <= k < out@.len() ==> out@[k] == packed(ch, start + 4 * k, 4),
            acc == packed(ch, start + 4 * out@.len(), (i - start) % 4),
            zeros % 2 == 0,
            zeros <= run_bits,
            zeros == run_bits <==> found,
            start <= i - zeros / 2,
            forall|t: int| i - zeros / 2 <= t < i ==> #[trigger] low_pair(ch[t]) == 0,
            i - zeros / 2 == start || low_pair(ch[i - zeros / 2 - 1]) != 0,
            !found ==> forall|k: int| start <= k < i ==> !run_ends_at(ch, start as int, k),
        decreases n - i,
    {
        let p = channels[i] & 3;
        proof {
            lemma_low_pair_bound(ch[i as int]);
            assert(pair_at(ch, i as int) == p);
            let s = start + 4 * out@.len();
            let r = (i - start) % 4;
            assert(s + r == i);
            assert(packed(ch, s, r + 1) == (packed(ch, s, r) << 2) | pair_at(ch, i as int));
        }
        acc = (acc << 2) | p;
        if (i - start) % 4 == 3 {
            out.push(acc);
            acc = 0;
        }
        if p == 0 {
            zeros = zeros + 2;
        } else {
            zeros = 0;
        }
        proof {
            if p != 0 {
                assert(!run_ends_at(ch, start as int, i as int));
            } else if zeros < run_bits {
                if i - zeros / 2 + 1 != start {
                    let t = i - zeros / 2;
                    assert(low_pair(ch[t]) != 0);
                }
                assert(!run_ends_at(ch, start as int, i as int));
            }
        }
        i = i + 1;
        if zeros == run_bits {
            proof {
                assert(run_ends_at(ch, start as int, i - 1));
                assert(is_first_end(ch, start as int, i - 1));
                lemma_first_end_unique(ch, start as int, i - 1);
            }
            found = true;
        }
    }
    if !found {
        proof {
            if has_end(ch, start as int) {
                let j = choose|j: int| run_ends_at(ch, start as int, j);
                assert(!run_ends_at(ch, start as int, j));
            }
        }
        let mut r: usize = (n - start) % 4;
        assert(n - start == 4 * ((n - start) / 4) + (n - start) % 4);
        if r != 0 {
            let ghost s = start + 4 * out@.len();
            while r < 4
                invariant
                    s == start + 4 * out@.len(),
                    s + r >= n,
                    n == ch.len(),
                    1 <= r <= 4,
                    acc == packed(ch, s, r as int),
                decreases 4 - r,
            {
                proof {
                    assert(pair_at(ch, s + r) == 0);
                    assert(packed(ch, s, r + 1) == (packed(ch, s, r as int) << 2) | 0u8);
                    assert((acc << 2u8) | 0u8 == acc << 2u8) by (bit_vector);
                }
                acc = acc << 2;
                r = r + 1;
            }
            out.push(acc);
        }
        proof {
            assert(out@ =~= decoded(ch, start as int));
        }
        out
    } else {
        let keep: usize = (i - start - run_bits / 2 + 3) / 4;
        out.truncate(keep);
        proof {
            assert(out@ =~= decoded(ch, start as int));
        }
        out
    }
}

} // verus!
