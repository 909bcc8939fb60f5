use vstd::prelude::*;
use crate::pairs::{byte_pair, lemma_byte_pair_bound, lemma_stamped, msg_pair, stamped};

verus! {

/// Channel `c` after the bitstream of `m` has been written over `ch`:
/// the first `4 * m.len()` channels carry its pairs, the rest are untouched.
pub open spec fn written(ch: Seq<u8>, m: Seq<u8>, c: int) -> u8 {
    if c < 4 * m.len() {
        stamped(ch[c], msg_pair(m, c))
    } else {
        ch[c]
    }
}

/// All channels of `ch` after the bitstream of `m` has been written over them.
pub open spec fn embedded(ch: Seq<u8>, m: Seq<u8>) -> Seq<u8> {
    Seq::new(ch.len(), |c: int| written(ch, m, c))
}

/// Pair `k` (0 to 3) of `b`, most significant first.
fn pair_of_byte(b: u8, k: usize) -> (r: u8)
    requires
        k < 4,
    ensures
        r == byte_pair(b, k as int),
        r < 4,
{
    proof {
        lemma_byte_pair_bound(b, k as int);
    }
    if k == 0 {
        b >> 6
    } else if k == 1 {
        (b >> 4) & 3
    } else if k == 2 {
        (b >> 2) & 3
    } else {
        b & 3
    }
}

/// Writes the bitstream of `msg` into the two low bits of the channels, two
/// bits per channel in channel order, and stops when either runs out.
pub fn embed_bytes(channels: &mut Vec<u8>, msg: &[u8])
    ensures
        final(channels)@ == embedded(old(channels)@, msg@),
{
    let n = channels.len();
    let mut c: usize = 0;
    while c < n && c / 4 < msg.len()
        invariant
            n == channels@.len() == old(channels)@.len(),
            c <= n,
            c <= 4 * msg@.len(),
            forall|t: int| 0 <= t < c ==> channels@[t] == written(old(channels)@, msg@, t),
            forall|t: int| c <= t < n ==> channels@[t] == old(channels)@[t],
        decreases n - c,
    {
        let p = pair_of_byte(msg[c / 4], c % 4);
        let ch = channels[c];
        proof {
            lemma_stamped(ch, p);
        }
        channels.set(c, (ch & 0xfc) | p);
        c = c + 1;
    }
    assert(channels@ =~= embedded(old(channels)@, msg@));
}

} // verus!
