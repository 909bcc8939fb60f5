use vstd::prelude::*;
use vstd::utf8::{decode_utf8, encode_utf8, valid_utf8};
use crate::embed::embedded;
use crate::extract::{
    decoded, first_end, has_end, header_clear, is_first_end, kept_pairs, lemma_first_end,
    lemma_first_end_unique, run_channels, run_ends_at,
};
use crate::frame::{framed, zero_padding};
use crate::grid::{payload, ReadMode};
use crate::pairs::{
    byte_pair, lemma_byte_pair_bound, lemma_pack_byte, lemma_stamped, lemma_zero_byte_pairs,
    lemma_zero_pairs, low_pair, msg_pair, packed, pair_at, stamped,
};
use crate::PADDING_LENGTH;

verus! {

broadcast use {vstd::utf8::encode_utf8_valid_utf8, vstd::utf8::encode_utf8_decode_utf8};

/// Some pair among the `run_channels()` pairs of `m` from `j` on is nonzero.
pub open spec fn breaks_run(m: Seq<u8>, j: int) -> bool {
    exists|t: int| j <= t < j + run_channels() && msg_pair(m, t) != 0
}

/// The reader cannot take part of `m` for the trailing padding: no whole
/// run of zero pairs lies inside `m`, and `m` does not end in a zero byte.
pub open spec fn no_false_trailer(m: Seq<u8>) -> bool {
    &&& (m.len() == 0 || m.last() != 0)
    &&& forall|j: int|
        0 <= j && j + run_channels() <= 4 * m.len() ==> #[trigger] breaks_run(m, j)
}

proof fn lemma_written_pair(ch: Seq<u8>, p: Seq<u8>, c: int)
    requires
        0 <= c < 4 * p.len(),
        c < ch.len(),
    ensures
        low_pair(embedded(ch, p)[c]) == msg_pair(p, c),
{
    lemma_byte_pair_bound(p[c / 4], c % 4);
    lemma_stamped(ch[c], msg_pair(p, c));
}

proof fn lemma_framed_pair(m: Seq<u8>, c: int)
    requires
        0 <= c < 4 * (m.len() + 2 * PADDING_LENGTH),
    ensures
        c < run_channels() ==> msg_pair(framed(m), c) == 0,
        run_channels() <= c < run_channels() + 4 * m.len() ==> msg_pair(framed(m), c)
            == msg_pair(m, c - run_channels()),
        run_channels() + 4 * m.len() <= c ==> msg_pair(framed(m), c) == 0,
{
    let p = framed(m);
    let z = zero_padding();
    lemma_zero_byte_pairs(c % 4);
    if c < run_channels() {
        assert(p[c / 4] == z[c / 4]);
    } else if c < run_channels() + 4 * m.len() {
        assert(p[c / 4] == m[c / 4 - PADDING_LENGTH]);
        assert((c - run_channels()) / 4 == c / 4 - PADDING_LENGTH);
        assert((c - run_channels()) % 4 == c % 4);
    } else {
        assert(p[c / 4] == z[c / 4 - PADDING_LENGTH - m.len()]);
    }
}

/// Packing reads the channels from `s` to `s + r` only.
pub proof fn lemma_packed_agree(a: Seq<u8>, b: Seq<u8>, s: int, r: int)
    requires
        forall|t: int| s <= t < s + r ==> pair_at(a, t) == pair_at(b, t),
    ensures
        packed(a, s, r) == packed(b, s, r),
    decreases r,
{
    if r > 0 {
        lemma_packed_agree(a, b, s, r - 1);
    }
}

/// The bytes read back from an image written with the framed message `m`.
pub proof fn lemma_round_trip_bytes(ch: Seq<u8>, m: Seq<u8>)
    requires
        4 * (m.len() + 2 * PADDING_LENGTH) <= ch.len(),
        no_false_trailer(m),
    ensures
        header_clear(embedded(ch, framed(m))),
        decoded(embedded(ch, framed(m)), run_channels()) == m,
{
    let p = framed(m);
    let w = embedded(ch, p);
    let l = 4 * m.len();
    let h = run_channels();
    assert(p.len() == m.len() + 2 * PADDING_LENGTH);
    assert forall|c: int| 0 <= c < 4 * p.len() implies #[trigger] low_pair(w[c]) == (if c < h
        || c >= h + l {
        0
    } else {
        msg_pair(m, c - h)
    }) by {
        lemma_written_pair(ch, p, c);
        lemma_framed_pair(m, c);
    }
    assert(header_clear(w));
    let big_j = 2 * h - 1 + l;
    assert(run_ends_at(w, h, big_j));
    lemma_first_end(w, h, big_j);
    let f = first_end(w, h);
    assert(f >= big_j - 3) by {
        if f < big_j - 3 {
            assert(run_ends_at(w, h, f));
            if f <= h - 1 + l {
                let j0 = f - 2 * h + 1;
                assert(breaks_run(m, j0));
                let t = choose|t: int| j0 <= t < j0 + h && msg_pair(m, t) != 0;
                assert(low_pair(w[t + h]) != 0);
            } else {
                assert(m.len() > 0);
                let last = m.len() - 1;
                assert forall|k: int| 0 <= k < 4 implies byte_pair(m[last], k) == 0 by {
                    assert(low_pair(w[h + 4 * last + k]) == 0);
                    assert(msg_pair(m, 4 * last + k) == 0);
                    assert((4 * last + k) / 4 == last);
                    assert((4 * last + k) % 4 == k);
                }
                lemma_zero_pairs(m[last]);
            }
        }
    }
    assert(kept_pairs(w, h) == f - h + 1 - h);
    let d = decoded(w, h);
    assert(d.len() == m.len());
    assert forall|i: int| 0 <= i < m.len() implies d[i] == m[i] by {
        let s = h + 4 * i;
        assert forall|k: int| 0 <= k < 4 implies pair_at(w, s + k) == byte_pair(m[i], k) by {
            assert(low_pair(w[s + k]) == msg_pair(m, 4 * i + k));
            assert((4 * i + k) / 4 == i);
            assert((4 * i + k) % 4 == k);
        }
        assert(packed(w, s, 1) == (packed(w, s, 0) << 2) | pair_at(w, s));
        assert(packed(w, s, 2) == (packed(w, s, 1) << 2) | pair_at(w, s + 1));
        assert(packed(w, s, 3) == (packed(w, s, 2) << 2) | pair_at(w, s + 2));
        assert(packed(w, s, 4) == (packed(w, s, 3) << 2) | pair_at(w, s + 3));
        lemma_pack_byte(
            m[i],
            pair_at(w, s),
            pair_at(w, s + 1),
            pair_at(w, s + 2),
            pair_at(w, s + 3),
        );
    }
    assert(d =~= m);
}

/// Round trip: a text written with its padding into an image large enough
/// for it, then read back after the leading padding, is the same text.
pub proof fn lemma_round_trip(ch: Seq<u8>, msg: Seq<char>)
    requires
        4 * (encode_utf8(msg).len() + 2 * PADDING_LENGTH) <= ch.len(),
        no_false_trailer(encode_utf8(msg)),
    ensures
        payload(embedded(ch, framed(encode_utf8(msg))), ReadMode::Checked) == Some(
            encode_utf8(msg),
        ),
        valid_utf8(encode_utf8(msg)),
        decode_utf8(encode_utf8(msg)) == msg,
{
    lemma_round_trip_bytes(ch, encode_utf8(msg));
}

/// Header integrity: a nonzero pair written into any channel of the leading
/// padding makes a checked read fail with a header mismatch, while a forced
/// read still reads from the first channel.
pub proof fn lemma_header_mismatch(ch: Seq<u8>, t: int, p: u8)
    requires
        0 <= t < run_channels(),
        t < ch.len(),
        0 < p < 4,
    ensures
        payload(ch.update(t, stamped(ch[t], p)), ReadMode::Checked) is None,
        payload(ch.update(t, stamped(ch[t], p)), ReadMode::Forced) == Some(
            decoded(ch.update(t, stamped(ch[t], p)), 0),
        ),
{
    lemma_stamped(ch[t], p);
    let c = ch.update(t, stamped(ch[t], p));
    assert(low_pair(c[t]) != 0);
}

/// Trailer detection: channels after the end of the first padding run do not
/// change what is read.
pub proof fn lemma_trailer_ignored(a: Seq<u8>, b: Seq<u8>, start: int)
    requires
        0 <= start,
        has_end(a, start),
        first_end(a, start) < b.len(),
        forall|t: int| 0 <= t <= first_end(a, start) ==> a[t] == b[t],
    ensures
        decoded(a, start) == decoded(b, start),
{
    let j = choose|j: int| run_ends_at(a, start, j);
    lemma_first_end(a, start, j);
    let f = first_end(a, start);
    assert forall|k: int| start <= k <= f implies run_ends_at(a, start, k) == run_ends_at(
        b,
        start,
        k,
    ) by {
        if run_ends_at(a, start, k) {
            assert forall|t: int| k - run_channels() < t <= k implies #[trigger] low_pair(b[t])
                == 0 by {
                assert(low_pair(a[t]) == 0);
            }
        }
        if run_ends_at(b, start, k) {
            assert forall|t: int| k - run_channels() < t <= k implies #[trigger] low_pair(a[t])
                == 0 by {
                assert(low_pair(b[t]) == 0);
            }
        }
    }
    assert(is_first_end(b, start, f));
    lemma_first_end_unique(b, start, f);
    let da = decoded(a, start);
    let db = decoded(b, start);
    assert(da.len() == db.len());
    assert forall|i: int| 0 <= i < da.len() implies da[i] == db[i] by {
        let s = start + 4 * i;
        assert forall|t: int| s <= t < s + 4 implies pair_at(a, t) == pair_at(b, t) by {
            assert(t <= f);
        }
        lemma_packed_agree(a, b, s, 4);
    }
    assert(da =~= db);
}

} // verus!
