use vstd::prelude::*;
use vstd::string::{StrSliceExecFns, StringExecFns};

verus! {

/// The prefix that marks a file written by the encoder.
pub open spec fn encoded_prefix() -> Seq<char> {
    seq!['e', 'n', 'c', 'o', 'd', 'e', 'd', '-']
}

/// The extension given to every file written by the encoder.
pub open spec fn png_extension() -> Seq<char> {
    seq!['.', 'p', 'n', 'g']
}

pub open spec fn has_encoded_prefix(n: Seq<char>) -> bool {
    n.len() >= 8 && n.subrange(0, 8) == encoded_prefix()
}

/// The name with the encoder's prefix, added only when it is missing.
pub open spec fn with_prefix(n: Seq<char>) -> Seq<char> {
    if has_encoded_prefix(n) {
        n
    } else {
        encoded_prefix() + n
    }
}

/// Position `i` holds the last dot of `q`.
pub open spec fn is_last_dot(q: Seq<char>, i: int) -> bool {
    &&& 0 <= i < q.len()
    &&& q[i] == '.'
    &&& forall|k: int| i < k < q.len() ==> q[k] != '.'
}

/// The name without its extension: what precedes the last dot, or all of it.
pub open spec fn stem(q: Seq<char>) -> Seq<char> {
    if exists|i: int| is_last_dot(q, i) {
        q.subrange(0, choose|i: int| is_last_dot(q, i))
    } else {
        q
    }
}

/// The file name the encoder writes to for an image named `n`.
pub open spec fn output_name(n: Seq<char>) -> Seq<char> {
    stem(with_prefix(n)) + png_extension()
}

proof fn lemma_last_dot_unique(q: Seq<char>, i: int, j: int)
    requires
        is_last_dot(q, i),
        is_last_dot(q, j),
    ensures
        i == j,
{
    if i < j {
        assert(q[j] != '.');
    }
    if j < i {
        assert(q[i] != '.');
    }
}

/// Whether `name` starts with the encoder's prefix.
fn starts_with_prefix(name: &str) -> (r: bool)
    ensures
        r == has_encoded_prefix(name@),
{
    let pre = "encoded-";
    proof {
        reveal_strlit("encoded-");
    }
    assert(pre@ =~= encoded_prefix());
    if name.unicode_len() < 8 {
        return false;
    }
    let mut i: usize = 0;
    while i < 8
        invariant
            name@.len() >= 8,
            pre@ == encoded_prefix(),
            i <= 8,
            forall|k: int| 0 <= k < i ==> name@[k] == encoded_prefix()[k],
        decreases 8 - i,
    {
        if name.get_char(i) != pre.get_char(i) {
            assert(name@.subrange(0, 8)[i as int] != encoded_prefix()[i as int]);
            return false;
        }
        i = i + 1;
    }
    assert(name@.subrange(0, 8) =~= encoded_prefix());
    true
}

/// The file name the encoder writes to for an image file named `name`:
/// `encoded-` in front unless it is there already, and the extension
/// replaced by `.png`.
pub fn output_file_name(name: &str) -> (r: String)
    ensures
        r@ == output_name(name@),
{
    let png = ".png";
    proof {
        reveal_strlit(".png");
        reveal_strlit("encoded-");
    }
    assert(png@ =~= png_extension());
    let q: String = if starts_with_prefix(name) {
        String::from_str(name)
    } else {
        assert("encoded-"@ =~= encoded_prefix());
        String::from_str("encoded-").concat(name)
    };
    assert(q@ == with_prefix(name@));
    let qs = q.as_str();
    let len = qs.unicode_len();
    let mut i: usize = len;
    let mut dot: Option<usize> = None;
    while i > 0 && dot.is_none()
        invariant
            qs@ == with_prefix(name@),
            len == qs@.len(),
            i <= len,
            dot matches Some(d) ==> is_last_dot(qs@, d as int),
            dot is None ==> forall|k: int| i <= k < len ==> qs@[k] != '.',
        decreases i,
    {
        i = i - 1;
        if qs.get_char(i) == '.' {
            dot = Some(i);
        }
    }
    let base: String = match dot {
        Some(d) => {
            proof {
                let c = choose|j: int| is_last_dot(qs@, j);
                lemma_last_dot_unique(qs@, c, d as int);
            }
            String::from_str(qs.substring_char(0, d))
        },
        None => {
            assert(!exists|j: int| is_last_dot(qs@, j));
            String::from_str(qs)
        },
    };
    assert(base@ == stem(with_prefix(name@)));
    base.concat(png)
}

/// Encoding an image whose name came from the encoder keeps that name: the
/// prefix is not doubled and the extension stays `.png`.
pub proof fn lemma_output_name_idempotent(n: Seq<char>)
    ensures
        output_name(output_name(n)) == output_name(n),
{
    let q = with_prefix(n);
    let o = output_name(n);
    assert(has_encoded_prefix(q)) by {
        if !has_encoded_prefix(n) {
            assert((encoded_prefix() + n).subrange(0, 8) =~= encoded_prefix());
        }
    }
    let s = stem(q);
    assert(has_encoded_prefix(s)) by {
        if exists|i: int| is_last_dot(q, i) {
            let i = choose|i: int| is_last_dot(q, i);
            if i < 8 {
                assert(q.subrange(0, 8)[i] == '.');
            }
            assert(s.subrange(0, 8) =~= q.subrange(0, 8));
        }
    }
    assert(o =~= s + png_extension());
    assert(o.subrange(0, 8) =~= s.subrange(0, 8));
    assert(with_prefix(o) == o);
    assert(is_last_dot(o, s.len() as int));
    let c = choose|j: int| is_last_dot(o, j);
    lemma_last_dot_unique(o, c, s.len() as int);
    assert(o.subrange(0, s.len() as int) =~= s);
    assert(stem(o) == s);
}

} // verus!
