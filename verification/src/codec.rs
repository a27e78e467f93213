//! The network snapshot byte stream: a versioned little-endian encoding of
//! the topology and every parameter, and its strict decoder. A decoded
//! network always re-encodes to the very bytes it came from, so the stream
//! pins the parameters exactly.

use vstd::prelude::*;

verus! {

use crate::activation::ActivationFunction;
use crate::linalg::Matrix;
use crate::network::{Network, NnError};

/// The version byte every snapshot starts with.
pub const SNAPSHOT_VERSION: u8 = 1;

/// The four little-endian bytes of a scalar's bit pattern.
pub open spec fn le4(x: u32) -> Seq<u8> {
    seq![
        (x & 0xFF) as u8,
        ((x >> 8) & 0xFF) as u8,
        ((x >> 16) & 0xFF) as u8,
        ((x >> 24) & 0xFF) as u8,
    ]
}

/// The eight little-endian bytes of a size.
pub open spec fn le8(x: u64) -> Seq<u8> {
    seq![
        (x & 0xFF) as u8,
        ((x >> 8) & 0xFF) as u8,
        ((x >> 16) & 0xFF) as u8,
        ((x >> 24) & 0xFF) as u8,
        ((x >> 32) & 0xFF) as u8,
        ((x >> 40) & 0xFF) as u8,
        ((x >> 48) & 0xFF) as u8,
        ((x >> 56) & 0xFF) as u8,
    ]
}

/// The concatenated little-endian bytes of the first `n` scalars.
pub open spec fn words_bytes(s: Seq<u32>, n: int) -> Seq<u8>
    decreases n,
{
    if n <= 0 {
        Seq::empty()
    } else {
        words_bytes(s, n - 1) + le4(s[n - 1])
    }
}

/// The concatenated little-endian bytes of the first `n` sizes.
pub open spec fn sizes_bytes(s: Seq<usize>, n: int) -> Seq<u8>
    decreases n,
{
    if n <= 0 {
        Seq::empty()
    } else {
        sizes_bytes(s, n - 1) + le8(s[n - 1] as u64)
    }
}

/// The concatenated bytes of the first `n` rows of a stack of vectors.
pub open spec fn rows_bytes(rows: Seq<Vec<u32>>, n: int) -> Seq<u8>
    decreases n,
{
    if n <= 0 {
        Seq::empty()
    } else {
        rows_bytes(rows, n - 1) + words_bytes(rows[n - 1]@, rows[n - 1]@.len() as int)
    }
}

/// The bytes of the weight matrices with index below `n`, row-major each,
/// the degenerate placeholder at index 0 contributing nothing.
pub open spec fn weights_bytes(ws: Seq<Matrix>, n: int) -> Seq<u8>
    decreases n,
{
    if n <= 1 {
        Seq::empty()
    } else {
        weights_bytes(ws, n - 1) + rows_bytes(ws[n - 1].data@, ws[n - 1].data@.len() as int)
    }
}

/// The tag byte of an activation family.
pub open spec fn act_tag(f: ActivationFunction) -> u8 {
    match f {
        ActivationFunction::Sigmoid => 0,
        ActivationFunction::Tanh => 1,
        ActivationFunction::Identity => 2,
    }
}

/// The whole snapshot: version and activation tag, the layer count, the
/// layer sizes, the activation coefficients, every weight matrix above the
/// placeholder, and every bias vector.
pub open spec fn snapshot_bytes_spec(net: Network) -> Seq<u8> {
    seq![SNAPSHOT_VERSION, act_tag(net.activation_fn)] + le8(net.layer_sizes@.len() as u64)
        + sizes_bytes(net.layer_sizes@, net.layer_sizes@.len() as int)
        + words_bytes(net.activation_coeffs@, net.activation_coeffs@.len() as int)
        + weights_bytes(net.weights@, net.weights@.len() as int)
        + rows_bytes(net.biases@, net.biases@.len() as int)
}

/// The first `n` words' bytes depend only on the first `n` words.
proof fn lemma_words_bytes_prefix(s1: Seq<u32>, s2: Seq<u32>, n: int)
    requires
        forall|k: int| 0 <= k < n ==> s1[k] == s2[k],
    ensures
        words_bytes(s1, n) == words_bytes(s2, n),
    decreases n,
{
    if n > 0 {
        lemma_words_bytes_prefix(s1, s2, n - 1);
    }
}

/// The first `n` sizes' bytes depend only on the first `n` sizes.
proof fn lemma_sizes_bytes_prefix(s1: Seq<usize>, s2: Seq<usize>, n: int)
    requires
        forall|k: int| 0 <= k < n ==> s1[k] == s2[k],
    ensures
        sizes_bytes(s1, n) == sizes_bytes(s2, n),
    decreases n,
{
    if n > 0 {
        lemma_sizes_bytes_prefix(s1, s2, n - 1);
    }
}

/// The first `n` rows' bytes depend only on the first `n` rows.
proof fn lemma_rows_bytes_prefix(s1: Seq<Vec<u32>>, s2: Seq<Vec<u32>>, n: int)
    requires
        forall|k: int| 0 <= k < n ==> s1[k] == s2[k],
    ensures
        rows_bytes(s1, n) == rows_bytes(s2, n),
    decreases n,
{
    if n > 0 {
        lemma_rows_bytes_prefix(s1, s2, n - 1);
    }
}

/// The first `n` matrices' bytes depend only on the first `n` matrices.
proof fn lemma_weights_bytes_prefix(s1: Seq<Matrix>, s2: Seq<Matrix>, n: int)
    requires
        forall|k: int| 0 <= k < n ==> s1[k] == s2[k],
    ensures
        weights_bytes(s1, n) == weights_bytes(s2, n),
    decreases n,
{
    if n > 1 {
        lemma_weights_bytes_prefix(s1, s2, n - 1);
    }
}

/// The bytes of the scalars from index `k` on, peeling from the front.
#[verifier::opaque]
spec fn words_bytes_from(s: Seq<u32>, k: int, n: int) -> Seq<u8>
    decreases n - k,
{
    if k >= n {
        Seq::empty()
    } else {
        le4(s[k]) + words_bytes_from(s, k + 1, n)
    }
}

/// The bytes of the sizes from index `k` on, peeling from the front.
#[verifier::opaque]
spec fn sizes_bytes_from(s: Seq<usize>, k: int, n: int) -> Seq<u8>
    decreases n - k,
{
    if k >= n {
        Seq::empty()
    } else {
        le8(s[k] as u64) + sizes_bytes_from(s, k + 1, n)
    }
}

/// The bytes of the rows from index `k` on, peeling from the front.
#[verifier::opaque]
spec fn rows_bytes_from(rows: Seq<Vec<u32>>, k: int, n: int) -> Seq<u8>
    decreases n - k,
{
    if k >= n {
        Seq::empty()
    } else {
        words_bytes_from(rows[k]@, 0, rows[k]@.len() as int) + rows_bytes_from(rows, k + 1, n)
    }
}

/// The bytes of the weight matrices from index `k` on, peeling from the
/// front.
#[verifier::opaque]
spec fn weights_bytes_from(ws: Seq<Matrix>, k: int, n: int) -> Seq<u8>
    decreases n - k,
{
    if k >= n {
        Seq::empty()
    } else {
        rows_bytes_from(ws[k].data@, 0, ws[k].data@.len() as int) + weights_bytes_from(ws, k + 1, n)
    }
}

proof fn lemma_words_bytes_split(s: Seq<u32>, k: int, n: int)
    requires
        0 <= k <= n,
    ensures
        words_bytes(s, n) == words_bytes(s, k) + words_bytes_from(s, k, n),
    decreases n - k,
{
    reveal(words_bytes_from);
    if k == n {
        assert(words_bytes(s, k) + words_bytes_from(s, k, n) =~= words_bytes(s, n));
    } else {
        lemma_words_bytes_split(s, k + 1, n);
        assert(words_bytes(s, k + 1) == words_bytes(s, k) + le4(s[k]));
        assert((words_bytes(s, k) + le4(s[k])) + words_bytes_from(s, k + 1, n) =~= words_bytes(
            s,
            k,
        ) + (le4(s[k]) + words_bytes_from(s, k + 1, n)));
    }
}

proof fn lemma_sizes_bytes_split(s: Seq<usize>, k: int, n: int)
    requires
        0 <= k <= n,
    ensures
        sizes_bytes(s, n) == sizes_bytes(s, k) + sizes_bytes_from(s, k, n),
    decreases n - k,
{
    reveal(sizes_bytes_from);
    if k == n {
        assert(sizes_bytes(s, k) + sizes_bytes_from(s, k, n) =~= sizes_bytes(s, n));
    } else {
        lemma_sizes_bytes_split(s, k + 1, n);
        assert(sizes_bytes(s, k + 1) == sizes_bytes(s, k) + le8(s[k] as u64));
        assert((sizes_bytes(s, k) + le8(s[k] as u64)) + sizes_bytes_from(s, k + 1, n) =~= sizes_bytes(
            s,
            k,
        ) + (le8(s[k] as u64) + sizes_bytes_from(s, k + 1, n)));
    }
}

proof fn lemma_rows_bytes_split(rows: Seq<Vec<u32>>, k: int, n: int)
    requires
        0 <= k <= n,
    ensures
        rows_bytes(rows, n) == rows_bytes(rows, k) + rows_bytes_from(rows, k, n),
    decreases n - k,
{
    reveal(words_bytes_from);
    reveal(rows_bytes_from);
    if k == n {
        assert(rows_bytes(rows, k) + rows_bytes_from(rows, k, n) =~= rows_bytes(rows, n));
    } else {
        lemma_rows_bytes_split(rows, k + 1, n);
        lemma_words_bytes_split(rows[k]@, 0, rows[k]@.len() as int);
        assert(words_bytes(rows[k]@, rows[k]@.len() as int) =~= words_bytes_from(
            rows[k]@,
            0,
            rows[k]@.len() as int,
        ));
        assert(rows_bytes(rows, k + 1) == rows_bytes(rows, k) + words_bytes(
            rows[k]@,
            rows[k]@.len() as int,
        ));
        assert((rows_bytes(rows, k) + words_bytes_from(rows[k]@, 0, rows[k]@.len() as int))
            + rows_bytes_from(rows, k + 1, n) =~= rows_bytes(rows, k) + (words_bytes_from(
            rows[k]@,
            0,
            rows[k]@.len() as int,
        ) + rows_bytes_from(rows, k + 1, n)));
    }
}

proof fn lemma_weights_bytes_split(ws: Seq<Matrix>, k: int, n: int)
    requires
        1 <= k <= n,
    ensures
        weights_bytes(ws, n) == weights_bytes(ws, k) + weights_bytes_from(ws, k, n),
    decreases n - k,
{
    reveal(rows_bytes_from);
    reveal(weights_bytes_from);
    if k == n {
        assert(weights_bytes(ws, k) + weights_bytes_from(ws, k, n) =~= weights_bytes(ws, n));
    } else {
        lemma_weights_bytes_split(ws, k + 1, n);
        lemma_rows_bytes_split(ws[k].data@, 0, ws[k].data@.len() as int);
        assert(rows_bytes(ws[k].data@, ws[k].data@.len() as int) =~= rows_bytes_from(
            ws[k].data@,
            0,
            ws[k].data@.len() as int,
        ));
        assert(weights_bytes(ws, k + 1) == weights_bytes(ws, k) + rows_bytes(
            ws[k].data@,
            ws[k].data@.len() as int,
        ));
        assert((weights_bytes(ws, k) + rows_bytes_from(ws[k].data@, 0, ws[k].data@.len() as int))
            + weights_bytes_from(ws, k + 1, n) =~= weights_bytes(ws, k) + (rows_bytes_from(
            ws[k].data@,
            0,
            ws[k].data@.len() as int,
        ) + weights_bytes_from(ws, k + 1, n)));
    }
}

/// Splitting a byte stream at a known head: the head and tail sit at their
/// offsets, and the stream holds at least the head.
proof fn lemma_peel(bytes: Seq<u8>, pos: int, head: Seq<u8>, tail: Seq<u8>)
    requires
        0 <= pos <= bytes.len(),
        bytes.subrange(pos, bytes.len() as int) == head + tail,
    ensures
        head.len() + tail.len() == bytes.len() - pos,
        bytes.subrange(pos, pos + head.len() as int) == head,
        bytes.subrange(pos + head.len(), bytes.len() as int) == tail,
{
    assert(bytes.subrange(pos, bytes.len() as int).len() == bytes.len() - pos);
    assert((head + tail).len() == head.len() + tail.len());
    assert(bytes.subrange(pos, pos + head.len() as int) =~= head) by {
        assert forall|i: int|
            0 <= i < head.len() implies bytes.subrange(pos, pos + head.len() as int)[i]
            == head[i] by {
            assert((head + tail)[i] == head[i]);
            assert(bytes.subrange(pos, bytes.len() as int)[i] == (head + tail)[i]);
            assert(bytes.subrange(pos, bytes.len() as int)[i] == bytes[pos + i]);
            assert(bytes.subrange(pos, pos + head.len() as int)[i] == bytes[pos + i]);
        }
    }
    assert(bytes.subrange(pos + head.len(), bytes.len() as int) =~= tail) by {
        assert forall|i: int|
            0 <= i < tail.len() implies bytes.subrange(pos + head.len(), bytes.len() as int)[i]
            == tail[i] by {
            let j = head.len() + i;
            assert((head + tail)[j] == tail[i]);
            assert(bytes.subrange(pos, bytes.len() as int)[j] == (head + tail)[j]);
            assert(bytes.subrange(pos, bytes.len() as int)[j] == bytes[pos + j]);
            assert(bytes.subrange(pos + head.len(), bytes.len() as int)[i] == bytes[pos + head.len()
                + i]);
        }
    }
}

/// Concatenation of byte sequences associates (regrouping helper).
proof fn lemma_regroup(x: Seq<u8>, y: Seq<u8>, z: Seq<u8>)
    ensures
        (x + y) + z == x + (y + z),
{
    assert((x + y) + z =~= x + (y + z));
}

/// The snapshot regions, nested to the right for front-to-back peeling.
proof fn lemma_snapshot_right_assoc(net: Network)
    ensures
        snapshot_bytes_spec(net) == seq![SNAPSHOT_VERSION, act_tag(net.activation_fn)] + (le8(
            net.layer_sizes@.len() as u64,
        ) + (sizes_bytes(net.layer_sizes@, net.layer_sizes@.len() as int) + (words_bytes(
            net.activation_coeffs@,
            net.activation_coeffs@.len() as int,
        ) + (weights_bytes(net.weights@, net.weights@.len() as int) + rows_bytes(
            net.biases@,
            net.biases@.len() as int,
        ))))),
{
    let h2 = seq![SNAPSHOT_VERSION, act_tag(net.activation_fn)];
    let l8 = le8(net.layer_sizes@.len() as u64);
    let sz = sizes_bytes(net.layer_sizes@, net.layer_sizes@.len() as int);
    let co = words_bytes(net.activation_coeffs@, net.activation_coeffs@.len() as int);
    let wt = weights_bytes(net.weights@, net.weights@.len() as int);
    let bi = rows_bytes(net.biases@, net.biases@.len() as int);
    lemma_regroup(h2 + l8 + sz + co, wt, bi);
    lemma_regroup(h2 + l8 + sz, co, wt + bi);
    lemma_regroup(h2 + l8, sz, co + (wt + bi));
    lemma_regroup(h2, l8, sz + (co + (wt + bi)));
}

/// Appends a scalar's four little-endian bytes.
fn push_le4(out: &mut Vec<u8>, x: u32)
    ensures
        final(out)@ == old(out)@ + le4(x),
{
    out.push((x & 0xFF) as u8);
    out.push(((x >> 8) & 0xFF) as u8);
    out.push(((x >> 16) & 0xFF) as u8);
    out.push(((x >> 24) & 0xFF) as u8);
    assert(out@ =~= old(out)@ + le4(x));
}

/// Appends a size's eight little-endian bytes.
fn push_le8(out: &mut Vec<u8>, x: u64)
    ensures
        final(out)@ == old(out)@ + le8(x),
{
    out.push((x & 0xFF) as u8);
    out.push(((x >> 8) & 0xFF) as u8);
    out.push(((x >> 16) & 0xFF) as u8);
    out.push(((x >> 24) & 0xFF) as u8);
    out.push(((x >> 32) & 0xFF) as u8);
    out.push(((x >> 40) & 0xFF) as u8);
    out.push(((x >> 48) & 0xFF) as u8);
    out.push(((x >> 56) & 0xFF) as u8);
    assert(out@ =~= old(out)@ + le8(x));
}

/// Appends every scalar of a vector.
#[verifier::loop_isolation(false)]
fn push_words(out: &mut Vec<u8>, s: &Vec<u32>)
    ensures
        final(out)@ == old(out)@ + words_bytes(s@, s@.len() as int),
{
    let n = s.len();
    for i in 0..n
        invariant
            out@ == old(out)@ + words_bytes(s@, i as int),
    {
        push_le4(out, s[i]);
    }
}

/// Reads the scalar whose little-endian bytes sit at `pos`.
fn read_le4(bytes: &Vec<u8>, pos: usize) -> (x: u32)
    requires
        pos + 4 <= bytes@.len(),
    ensures
        le4(x) == bytes@.subrange(pos as int, pos as int + 4),
{
    let n = bytes.len();
    assert(pos + 4 <= n);
    let b0 = bytes[pos];
    let b1 = bytes[pos + 1];
    let b2 = bytes[pos + 2];
    let b3 = bytes[pos + 3];
    let x = (b0 as u32) | ((b1 as u32) << 8) | ((b2 as u32) << 16) | ((b3 as u32) << 24);
    proof {
        assert((x & 0xFF) as u8 == b0 && ((x >> 8) & 0xFF) as u8 == b1 && ((x >> 16) & 0xFF) as u8
            == b2 && ((x >> 24) & 0xFF) as u8 == b3) by (bit_vector)
            requires
                x == (b0 as u32) | ((b1 as u32) << 8) | ((b2 as u32) << 16) | ((b3 as u32) << 24),
        ;
        assert(le4(x) =~= bytes@.subrange(pos as int, pos as int + 4));
    }
    x
}

/// Reads the size whose little-endian bytes sit at `pos`.
fn read_le8(bytes: &Vec<u8>, pos: usize) -> (x: u64)
    requires
        pos + 8 <= bytes@.len(),
    ensures
        le8(x) == bytes@.subrange(pos as int, pos as int + 8),
{
    let n = bytes.len();
    assert(pos + 8 <= n);
    let b0 = bytes[pos];
    let b1 = bytes[pos + 1];
    let b2 = bytes[pos + 2];
    let b3 = bytes[pos + 3];
    let b4 = bytes[pos + 4];
    let b5 = bytes[pos + 5];
    let b6 = bytes[pos + 6];
    let b7 = bytes[pos + 7];
    let x = (b0 as u64) | ((b1 as u64) << 8) | ((b2 as u64) << 16) | ((b3 as u64) << 24) | (
    (b4 as u64) << 32) | ((b5 as u64) << 40) | ((b6 as u64) << 48) | ((b7 as u64) << 56);
    proof {
        assert((x & 0xFF) as u8 == b0 && ((x >> 8) & 0xFF) as u8 == b1 && ((x >> 16) & 0xFF) as u8
            == b2 && ((x >> 24) & 0xFF) as u8 == b3 && ((x >> 32) & 0xFF) as u8 == b4 && ((x >> 40)
            & 0xFF) as u8 == b5 && ((x >> 48) & 0xFF) as u8 == b6 && ((x >> 56) & 0xFF) as u8 == b7)
            by (bit_vector)
            requires
                x == (b0 as u64) | ((b1 as u64) << 8) | ((b2 as u64) << 16) | ((b3 as u64) << 24) | (
                (b4 as u64) << 32) | ((b5 as u64) << 40) | ((b6 as u64) << 48) | ((b7 as u64) << 56),
        ;
        assert(le8(x) =~= bytes@.subrange(pos as int, pos as int + 8));
    }
    x
}

/// Reads `count` consecutive little-endian scalars starting at `start`,
/// or reports a truncated stream. When the caller knows which encoded
/// scalars sit there (the ghost expectation), the read cannot fail and
/// returns exactly them, leaving exactly the expected rest.
#[verifier::loop_isolation(false)]
fn read_words(bytes: &Vec<u8>, start: usize, count: usize, expect: Ghost<Option<(Seq<u32>, Seq<u8>)>>) -> (r: Result<(Vec<u32>, usize), NnError>)
    requires
        start <= bytes@.len(),
        match expect@ {
            Some(e) => e.0.len() == count && bytes@.subrange(start as int, bytes@.len() as int)
                == words_bytes_from(e.0, 0, count as int) + e.1,
            None => true,
        },
    ensures
        match r {
            Ok(p) => {
                &&& p.0@.len() == count
                &&& p.1 == start + 4 * count
                &&& p.1 <= bytes@.len()
                &&& bytes@.subrange(start as int, p.1 as int) == words_bytes(p.0@, count as int)
                &&& match expect@ {
                    Some(e) => p.0@ == e.0 && bytes@.subrange(p.1 as int, bytes@.len() as int)
                        == e.1,
                    None => true,
                }
            },
            Err(e) => e == NnError::Persistence && expect@ is None,
        },
{
    let total = bytes.len();
    let mut pos = start;
    let mut out: Vec<u32> = Vec::new();
    for c in 0..count
        invariant
            out@.len() == c,
            pos == start + 4 * c,
            pos <= total,
            bytes@.subrange(start as int, pos as int) == words_bytes(out@, c as int),
            match expect@ {
                Some(e) => out@ == e.0.subrange(0, c as int) && bytes@.subrange(
                    pos as int,
                    total as int,
                ) == words_bytes_from(e.0, c as int, count as int) + e.1,
                None => true,
            },
    {
        proof {
            if let Some(e) = expect@ {
                reveal(words_bytes_from);
                lemma_regroup(le4(e.0[c as int]), words_bytes_from(e.0, c + 1, count as int), e.1);
                lemma_peel(
                    bytes@,
                    pos as int,
                    le4(e.0[c as int]),
                    words_bytes_from(e.0, c + 1, count as int) + e.1,
                );
            }
        }
        if total - pos < 4 {
            return Err(NnError::Persistence);
        }
        let word = read_le4(bytes, pos);
        let ghost prev = out@;
        out.push(word);
        pos = pos + 4;
        proof {
            lemma_words_bytes_prefix(out@, prev, c as int);
            assert(words_bytes(out@, c + 1) == words_bytes(out@, c as int) + le4(word));
            assert(bytes@.subrange(start as int, pos as int) =~= bytes@.subrange(
                start as int,
                pos as int - 4,
            ) + bytes@.subrange(pos as int - 4, pos as int));
            if let Some(e) = expect@ {
                lemma_le4_inj(word, e.0[c as int]);
                assert(out@ =~= e.0.subrange(0, c + 1));
            }
        }
    }
    proof {
        if let Some(e) = expect@ {
            reveal(words_bytes_from);
            assert(words_bytes_from(e.0, count as int, count as int) + e.1 =~= e.1);
            assert(out@ =~= e.0);
        }
    }
    Ok((out, pos))
}

/// Reads `count` consecutive little-endian sizes starting at `start`, or
/// reports a truncated stream or an impossible size. When the caller knows
/// which encoded sizes sit there, the read cannot fail and returns exactly
/// them.
#[verifier::loop_isolation(false)]
fn read_sizes(bytes: &Vec<u8>, start: usize, count: usize, expect: Ghost<Option<(Seq<usize>, Seq<u8>)>>) -> (r: Result<(Vec<usize>, usize), NnError>)
    requires
        start <= bytes@.len(),
        match expect@ {
            Some(e) => e.0.len() == count && bytes@.subrange(start as int, bytes@.len() as int)
                == sizes_bytes_from(e.0, 0, count as int) + e.1,
            None => true,
        },
    ensures
        match r {
            Ok(p) => {
                &&& p.0@.len() == count
                &&& p.1 == start + 8 * count
                &&& p.1 <= bytes@.len()
                &&& bytes@.subrange(start as int, p.1 as int) == sizes_bytes(p.0@, count as int)
                &&& match expect@ {
                    Some(e) => p.0@ == e.0 && bytes@.subrange(p.1 as int, bytes@.len() as int)
                        == e.1,
                    None => true,
                }
            },
            Err(e) => e == NnError::Persistence && expect@ is None,
        },
{
    let total = bytes.len();
    let mut pos = start;
    let mut out: Vec<usize> = Vec::new();
    for c in 0..count
        invariant
            out@.len() == c,
            pos == start + 8 * c,
            pos <= total,
            bytes@.subrange(start as int, pos as int) == sizes_bytes(out@, c as int),
            match expect@ {
                Some(e) => out@ == e.0.subrange(0, c as int) && bytes@.subrange(
                    pos as int,
                    total as int,
                ) == sizes_bytes_from(e.0, c as int, count as int) + e.1,
                None => true,
            },
    {
        proof {
            if let Some(e) = expect@ {
                reveal(sizes_bytes_from);
                lemma_regroup(
                    le8(e.0[c as int] as u64),
                    sizes_bytes_from(e.0, c + 1, count as int),
                    e.1,
                );
                lemma_peel(
                    bytes@,
                    pos as int,
                    le8(e.0[c as int] as u64),
                    sizes_bytes_from(e.0, c + 1, count as int) + e.1,
                );
            }
        }
        if total - pos < 8 {
            return Err(NnError::Persistence);
        }
        let sz64 = read_le8(bytes, pos);
        proof {
            if let Some(e) = expect@ {
                lemma_le8_inj(sz64, e.0[c as int] as u64);
            }
        }
        if sz64 > usize::MAX as u64 {
            return Err(NnError::Persistence);
        }
        let ghost prev = out@;
        out.push(sz64 as usize);
        pos = pos + 8;
        proof {
            lemma_sizes_bytes_prefix(out@, prev, c as int);
            assert(sizes_bytes(out@, c + 1) == sizes_bytes(out@, c as int) + le8(sz64));
            assert(bytes@.subrange(start as int, pos as int) =~= bytes@.subrange(
                start as int,
                pos as int - 8,
            ) + bytes@.subrange(pos as int - 8, pos as int));
            if let Some(e) = expect@ {
                assert(out@ =~= e.0.subrange(0, c + 1));
            }
        }
    }
    proof {
        if let Some(e) = expect@ {
            reveal(sizes_bytes_from);
            assert(sizes_bytes_from(e.0, count as int, count as int) + e.1 =~= e.1);
            assert(out@ =~= e.0);
        }
    }
    Ok((out, pos))
}

impl Network {
    /// Serializes the network into its snapshot byte stream, exactly as
    /// the byte spec states it.
    #[verifier::loop_isolation(false)]
    #[verifier::rlimit(50)]
    pub fn to_snapshot_bytes(&self) -> (r: Vec<u8>)
        requires
            self.wf(),
        ensures
            r@ == snapshot_bytes_spec(*self),
    {
        let mut out: Vec<u8> = Vec::new();
        out.push(SNAPSHOT_VERSION);
        let tag: u8 = match self.activation_fn {
            ActivationFunction::Sigmoid => 0,
            ActivationFunction::Tanh => 1,
            ActivationFunction::Identity => 2,
        };
        out.push(tag);
        let ghost header = out@;
        proof {
            assert(header =~= seq![SNAPSHOT_VERSION, act_tag(self.activation_fn)]);
        }
        let depth = self.layer_sizes.len();
        push_le8(&mut out, depth as u64);
        let ghost with_count = out@;
        for i in 0..depth
            invariant
                out@ == with_count + sizes_bytes(self.layer_sizes@, i as int),
        {
            push_le8(&mut out, self.layer_sizes[i] as u64);
        }
        push_words(&mut out, &self.activation_coeffs);
        let ghost with_coeffs = out@;
        proof {
            assert(weights_bytes(self.weights@, 1) =~= Seq::<u8>::empty());
            assert(with_coeffs + weights_bytes(self.weights@, 1) =~= with_coeffs);
        }
        for i in 1..depth
            invariant
                out@ == with_coeffs + weights_bytes(self.weights@, i as int),
        {
            let rows = self.weights[i].data.len();
            let ghost mat_start = out@;
            for r in 0..rows
                invariant
                    out@ == mat_start + rows_bytes(self.weights@[i as int].data@, r as int),
            {
                push_words(&mut out, &self.weights[i].data[r]);
            }
        }
        let ghost with_weights = out@;
        for i in 0..depth
            invariant
                out@ == with_weights + rows_bytes(self.biases@, i as int),
        {
            push_words(&mut out, &self.biases[i]);
        }
        proof {
            assert(out@ =~= snapshot_bytes_spec(*self));
        }
        out
    }

    /// Restores a network from a snapshot byte stream. Success yields a
    /// well-formed network whose own snapshot is the given stream, byte
    /// for byte, and is guaranteed whenever the stream is the snapshot of
    /// some well-formed network; a truncated stream, an unknown version or
    /// activation tag, an impossible size or layer count, or trailing
    /// garbage is a persistence error.
    #[verifier::loop_isolation(false)]
    #[verifier::rlimit(100)]
    pub fn from_snapshot_bytes(bytes: &Vec<u8>) -> (r: Result<Network, NnError>)
        ensures
            match r {
                Ok(net) => net.wf() && snapshot_bytes_spec(net) == bytes@,
                Err(e) => e == NnError::Persistence,
            },
            (exists|net: Network| net.wf() && snapshot_bytes_spec(net) == bytes@) ==> r.is_ok(),
    {
        let total = bytes.len();
        let ghost decodable = exists|net: Network| net.wf() && snapshot_bytes_spec(net) == bytes@;
        let ghost w = choose|net: Network| net.wf() && snapshot_bytes_spec(net) == bytes@;
        let ghost wl = w.layer_sizes@.len() as int;
        let ghost co_rest = words_bytes_from(w.activation_coeffs@, 0, wl);
        let ghost wt_rest = weights_bytes_from(w.weights@, 1, wl);
        let ghost bi_rest = rows_bytes_from(w.biases@, 0, wl);
        proof {
            if decodable {
                assert(w.wf() && snapshot_bytes_spec(w) == bytes@);
                assert(w.layer_sizes.len() == w.layer_sizes@.len());
                lemma_snapshot_right_assoc(w);
                let h2 = seq![SNAPSHOT_VERSION, act_tag(w.activation_fn)];
                let l8 = le8(wl as u64);
                let sz = sizes_bytes(w.layer_sizes@, wl);
                let co = words_bytes(w.activation_coeffs@, wl);
                let wt = weights_bytes(w.weights@, wl);
                let bi = rows_bytes(w.biases@, wl);
                assert(bytes@.subrange(0, total as int) =~= bytes@);
                lemma_peel(bytes@, 0, h2, l8 + (sz + (co + (wt + bi))));
                assert((l8 + (sz + (co + (wt + bi)))).len() >= 8);
                assert(total >= 10);
                lemma_peel(bytes@, 2, l8, sz + (co + (wt + bi)));
                assert(bytes@[0] == SNAPSHOT_VERSION && bytes@[1] == act_tag(w.activation_fn)) by {
                    assert(bytes@.subrange(0, 2)[0] == bytes@[0]);
                    assert(bytes@.subrange(0, 2)[1] == bytes@[1]);
                }
                lemma_sizes_bytes_split(w.layer_sizes@, 0, wl);
                assert(sizes_bytes(w.layer_sizes@, 0) + sizes_bytes_from(w.layer_sizes@, 0, wl)
                    =~= sizes_bytes_from(w.layer_sizes@, 0, wl));
                lemma_words_bytes_split(w.activation_coeffs@, 0, wl);
                assert(words_bytes(w.activation_coeffs@, 0) + words_bytes_from(
                    w.activation_coeffs@,
                    0,
                    wl,
                ) =~= co_rest);
                lemma_weights_bytes_split(w.weights@, 1, wl);
                assert(weights_bytes(w.weights@, 1) + weights_bytes_from(w.weights@, 1, wl)
                    =~= wt_rest);
                lemma_rows_bytes_split(w.biases@, 0, wl);
                assert(rows_bytes(w.biases@, 0) + rows_bytes_from(w.biases@, 0, wl) =~= bi_rest);
                assert(bytes@.subrange(10, total as int) == sizes_bytes_from(w.layer_sizes@, 0, wl)
                    + (co + (wt + bi)));
                assert(co + (wt + bi) == co_rest + (wt_rest + bi_rest));
            }
        }
        if total < 10 {
            return Err(NnError::Persistence);
        }
        if bytes[0] != SNAPSHOT_VERSION {
            return Err(NnError::Persistence);
        }
        let activation_fn = if bytes[1] == 0 {
            ActivationFunction::Sigmoid
        } else if bytes[1] == 1 {
            ActivationFunction::Tanh
        } else if bytes[1] == 2 {
            ActivationFunction::Identity
        } else {
            proof {
                if decodable {
                    assert(act_tag(w.activation_fn) == 0 || act_tag(w.activation_fn) == 1
                        || act_tag(w.activation_fn) == 2);
                }
            }
            return Err(NnError::Persistence);
        };
        let depth64 = read_le8(bytes, 2);
        proof {
            if decodable {
                lemma_le8_inj(depth64, wl as u64);
            }
        }
        if depth64 < 2 || depth64 > usize::MAX as u64 {
            return Err(NnError::Persistence);
        }
        let depth = depth64 as usize;
        let layer_sizes: Vec<usize>;
        let mut pos: usize;
        match read_sizes(
            bytes,
            10,
            depth,
            Ghost(
                if decodable {
                    Some((w.layer_sizes@, co_rest + (wt_rest + bi_rest)))
                } else {
                    None
                },
            ),
        ) {
            Ok(p) => {
                layer_sizes = p.0;
                pos = p.1;
            },
            Err(_) => {
                return Err(NnError::Persistence);
            },
        }
        let ghost sizes_end = pos as int;
        let activation_coeffs: Vec<u32>;
        match read_words(
            bytes,
            pos,
            depth,
            Ghost(
                if decodable {
                    Some((w.activation_coeffs@, wt_rest + bi_rest))
                } else {
                    None
                },
            ),
        ) {
            Ok(p) => {
                activation_coeffs = p.0;
                pos = p.1;
            },
            Err(_) => {
                return Err(NnError::Persistence);
            },
        }
        let ghost coeffs_end = pos as int;
        let mut weights: Vec<Matrix> = Vec::new();
        weights.push(Matrix::zero(0, 0));
        let ghost weights_start = pos as int;
        for i in 1..depth
            invariant
                weights@.len() == i,
                weights@[0].nrows() == 0,
                weights@[0].cols == 0,
                forall|k: int|
                    1 <= k < i ==> {
                        &&& (#[trigger] weights@[k]).wf()
                        &&& weights@[k].nrows() == layer_sizes@[k - 1]
                        &&& weights@[k].cols == layer_sizes@[k]
                    },
                pos <= bytes@.len(),
                weights_start <= pos,
                bytes@.subrange(weights_start, pos as int) == weights_bytes(weights@, i as int),
                decodable ==> bytes@.subrange(pos as int, total as int) == weights_bytes_from(
                    w.weights@,
                    i as int,
                    wl,
                ) + bi_rest,
        {
            let rows = layer_sizes[i - 1];
            let cols = layer_sizes[i];
            proof {
                if decodable {
                    reveal(weights_bytes_from);
                    assert(rows == w.weights@[i as int].data@.len());
                    assert(weights_bytes_from(w.weights@, i as int, wl) == rows_bytes_from(
                        w.weights@[i as int].data@,
                        0,
                        rows as int,
                    ) + weights_bytes_from(w.weights@, i + 1, wl));
                    lemma_regroup(
                        rows_bytes_from(w.weights@[i as int].data@, 0, rows as int),
                        weights_bytes_from(w.weights@, i + 1, wl),
                        bi_rest,
                    );
                }
            }
            let mut data: Vec<Vec<u32>> = Vec::new();
            let ghost mat_start = pos as int;
            for r in 0..rows
                invariant
                    data@.len() == r,
                    forall|k: int| 0 <= k < r ==> (#[trigger] data@[k])@.len() == cols,
                    pos <= bytes@.len(),
                    mat_start <= pos,
                    bytes@.subrange(mat_start, pos as int) == rows_bytes(data@, r as int),
                    decodable ==> bytes@.subrange(pos as int, total as int) == rows_bytes_from(
                        w.weights@[i as int].data@,
                        r as int,
                        rows as int,
                    ) + (weights_bytes_from(w.weights@, i + 1, wl) + bi_rest),
            {
                proof {
                    if decodable {
                        reveal(rows_bytes_from);
                        assert(w.weights@[i as int].data@[r as int]@.len() == cols);
                        assert(rows_bytes_from(w.weights@[i as int].data@, r as int, rows as int)
                            == words_bytes_from(w.weights@[i as int].data@[r as int]@, 0, cols as int)
                            + rows_bytes_from(w.weights@[i as int].data@, r + 1, rows as int));
                        lemma_regroup(
                            words_bytes_from(w.weights@[i as int].data@[r as int]@, 0, cols as int),
                            rows_bytes_from(w.weights@[i as int].data@, r + 1, rows as int),
                            weights_bytes_from(w.weights@, i + 1, wl) + bi_rest,
                        );
                    }
                }
                let row: Vec<u32>;
                match read_words(
                    bytes,
                    pos,
                    cols,
                    Ghost(
                        if decodable {
                            Some(
                                (
                                    w.weights@[i as int].data@[r as int]@,
                                    rows_bytes_from(w.weights@[i as int].data@, r + 1, rows as int)
                                        + (weights_bytes_from(w.weights@, i + 1, wl) + bi_rest),
                                ),
                            )
                        } else {
                            None
                        },
                    ),
                ) {
                    Ok(p) => {
                        row = p.0;
                        let ghost row_start = pos as int;
                        pos = p.1;
                        let ghost prev_data = data@;
                        data.push(row);
                        proof {
                            lemma_rows_bytes_prefix(data@, prev_data, r as int);
                            assert(rows_bytes(data@, r + 1) == rows_bytes(data@, r as int)
                                + words_bytes(data@[r as int]@, data@[r as int]@.len() as int));
                            assert(bytes@.subrange(mat_start, pos as int) =~= bytes@.subrange(
                                mat_start,
                                row_start,
                            ) + bytes@.subrange(row_start, pos as int));
                        }
                    },
                    Err(_) => {
                        return Err(NnError::Persistence);
                    },
                }
            }
            let ghost prev_weights = weights@;
            let m = Matrix { cols, data };
            weights.push(m);
            proof {
                lemma_weights_bytes_prefix(weights@, prev_weights, i as int);
                assert(weights_bytes(weights@, i + 1) == weights_bytes(weights@, i as int)
                    + rows_bytes(weights@[i as int].data@, weights@[i as int].data@.len() as int));
                assert(bytes@.subrange(weights_start, pos as int) =~= bytes@.subrange(
                    weights_start,
                    mat_start,
                ) + bytes@.subrange(mat_start, pos as int));
                if decodable {
                    reveal(rows_bytes_from);
                    assert(rows_bytes_from(w.weights@[i as int].data@, rows as int, rows as int)
                        + (weights_bytes_from(w.weights@, i + 1, wl) + bi_rest)
                        =~= weights_bytes_from(w.weights@, i + 1, wl) + bi_rest);
                }
            }
        }
        proof {
            if decodable {
                reveal(weights_bytes_from);
                assert(weights_bytes_from(w.weights@, wl, wl) + bi_rest =~= bi_rest);
            }
        }
        let mut biases: Vec<Vec<u32>> = Vec::new();
        let ghost biases_start = pos as int;
        for i in 0..depth
            invariant
                biases@.len() == i,
                forall|k: int| 0 <= k < i ==> (#[trigger] biases@[k])@.len() == layer_sizes@[k],
                pos <= bytes@.len(),
                biases_start <= pos,
                bytes@.subrange(biases_start, pos as int) == rows_bytes(biases@, i as int),
                decodable ==> bytes@.subrange(pos as int, total as int) == rows_bytes_from(
                    w.biases@,
                    i as int,
                    wl,
                ),
        {
            let len = layer_sizes[i];
            proof {
                if decodable {
                    reveal(rows_bytes_from);
                    assert(w.biases@[i as int]@.len() == len);
                    assert(rows_bytes_from(w.biases@, i as int, wl) == words_bytes_from(
                        w.biases@[i as int]@,
                        0,
                        len as int,
                    ) + rows_bytes_from(w.biases@, i + 1, wl));
                }
            }
            let row: Vec<u32>;
            match read_words(
                bytes,
                pos,
                len,
                Ghost(
                    if decodable {
                        Some((w.biases@[i as int]@, rows_bytes_from(w.biases@, i + 1, wl)))
                    } else {
                        None
                    },
                ),
            ) {
                Ok(p) => {
                    row = p.0;
                    let ghost row_start = pos as int;
                    pos = p.1;
                    let ghost prev_biases = biases@;
                    biases.push(row);
                    proof {
                        lemma_rows_bytes_prefix(biases@, prev_biases, i as int);
                        assert(rows_bytes(biases@, i + 1) == rows_bytes(biases@, i as int)
                            + words_bytes(biases@[i as int]@, biases@[i as int]@.len() as int));
                        assert(bytes@.subrange(biases_start, pos as int) =~= bytes@.subrange(
                            biases_start,
                            row_start,
                        ) + bytes@.subrange(row_start, pos as int));
                    }
                },
                Err(_) => {
                    return Err(NnError::Persistence);
                },
            }
        }
        if pos != total {
            proof {
                if decodable {
                    reveal(rows_bytes_from);
                    assert(bytes@.subrange(pos as int, total as int).len() == 0);
                }
            }
            return Err(NnError::Persistence);
        }
        let net = Network { layer_sizes, activation_coeffs, weights, biases, activation_fn };
        proof {
            assert(net.wf());
            assert(bytes@.subrange(0, 2) =~= seq![SNAPSHOT_VERSION, act_tag(net.activation_fn)]);
            assert(bytes@.subrange(2, 10) == le8(depth as u64));
            assert(depth as u64 == net.layer_sizes@.len() as u64);
            assert(bytes@ =~= bytes@.subrange(0, 2) + bytes@.subrange(2, 10) + bytes@.subrange(
                10,
                sizes_end,
            ) + bytes@.subrange(sizes_end, coeffs_end) + bytes@.subrange(
                weights_start,
                biases_start,
            ) + bytes@.subrange(biases_start, pos as int));
            assert(snapshot_bytes_spec(net) == bytes@);
        }
        Ok(net)
    }
}

proof fn lemma_concat_inj_head(a1: Seq<u8>, a2: Seq<u8>, b1: Seq<u8>, b2: Seq<u8>)
    requires
        a1 + a2 == b1 + b2,
        a1.len() == b1.len(),
    ensures
        a1 == b1,
        a2 == b2,
{
    broadcast use vstd::seq_lib::group_seq_properties;

    assert((a1 + a2).len() == (b1 + b2).len());
    assert((a1 + a2).skip(a1.len() as int) == a2);
    assert((b1 + b2).skip(b1.len() as int) == b2);
    assert((a1 + a2).take(a1.len() as int) == a1);
    assert((b1 + b2).take(b1.len() as int) == b1);
}

proof fn lemma_concat_inj_tail(a1: Seq<u8>, a2: Seq<u8>, b1: Seq<u8>, b2: Seq<u8>)
    requires
        a1 + a2 == b1 + b2,
        a2.len() == b2.len(),
    ensures
        a1 == b1,
        a2 == b2,
{
    broadcast use vstd::seq::group_seq_axioms;

    assert((a1 + a2).len() == a1.len() + a2.len());
    assert((b1 + b2).len() == b1.len() + b2.len());
    assert(a1.len() == b1.len());
    lemma_concat_inj_head(a1, a2, b1, b2);
}

proof fn lemma_le4_inj(x: u32, y: u32)
    requires
        le4(x) == le4(y),
    ensures
        x == y,
{
    assert(le4(x)[0] == le4(y)[0]);
    assert(le4(x)[1] == le4(y)[1]);
    assert(le4(x)[2] == le4(y)[2]);
    assert(le4(x)[3] == le4(y)[3]);
    assert(x == y) by (bit_vector)
        requires
            (x & 0xFF) as u8 == (y & 0xFF) as u8,
            ((x >> 8) & 0xFF) as u8 == ((y >> 8) & 0xFF) as u8,
            ((x >> 16) & 0xFF) as u8 == ((y >> 16) & 0xFF) as u8,
            ((x >> 24) & 0xFF) as u8 == ((y >> 24) & 0xFF) as u8,
    ;
}

proof fn lemma_le8_inj(x: u64, y: u64)
    requires
        le8(x) == le8(y),
    ensures
        x == y,
{
    assert(le8(x)[0] == le8(y)[0]);
    assert(le8(x)[1] == le8(y)[1]);
    assert(le8(x)[2] == le8(y)[2]);
    assert(le8(x)[3] == le8(y)[3]);
    assert(le8(x)[4] == le8(y)[4]);
    assert(le8(x)[5] == le8(y)[5]);
    assert(le8(x)[6] == le8(y)[6]);
    assert(le8(x)[7] == le8(y)[7]);
    assert(x == y) by (bit_vector)
        requires
            (x & 0xFF) as u8 == (y & 0xFF) as u8,
            ((x >> 8) & 0xFF) as u8 == ((y >> 8) & 0xFF) as u8,
            ((x >> 16) & 0xFF) as u8 == ((y >> 16) & 0xFF) as u8,
            ((x >> 24) & 0xFF) as u8 == ((y >> 24) & 0xFF) as u8,
            ((x >> 32) & 0xFF) as u8 == ((y >> 32) & 0xFF) as u8,
            ((x >> 40) & 0xFF) as u8 == ((y >> 40) & 0xFF) as u8,
            ((x >> 48) & 0xFF) as u8 == ((y >> 48) & 0xFF) as u8,
            ((x >> 56) & 0xFF) as u8 == ((y >> 56) & 0xFF) as u8,
    ;
}

proof fn lemma_words_bytes_len(s: Seq<u32>, n: int)
    requires
        0 <= n,
    ensures
        words_bytes(s, n).len() == 4 * n,
    decreases n,
{
    if n > 0 {
        lemma_words_bytes_len(s, n - 1);
    }
}

proof fn lemma_sizes_bytes_len(s: Seq<usize>, n: int)
    requires
        0 <= n,
    ensures
        sizes_bytes(s, n).len() == 8 * n,
    decreases n,
{
    if n > 0 {
        lemma_sizes_bytes_len(s, n - 1);
    }
}

proof fn lemma_words_bytes_inj(s1: Seq<u32>, s2: Seq<u32>, n: int)
    requires
        words_bytes(s1, n) == words_bytes(s2, n),
    ensures
        forall|k: int| 0 <= k < n ==> s1[k] == s2[k],
    decreases n,
{
    if n > 0 {
        lemma_concat_inj_tail(words_bytes(s1, n - 1), le4(s1[n - 1]), words_bytes(s2, n - 1), le4(s2[n - 1]));
        lemma_le4_inj(s1[n - 1], s2[n - 1]);
        lemma_words_bytes_inj(s1, s2, n - 1);
    }
}

proof fn lemma_sizes_bytes_inj(s1: Seq<usize>, s2: Seq<usize>, n: int)
    requires
        sizes_bytes(s1, n) == sizes_bytes(s2, n),
    ensures
        forall|k: int| 0 <= k < n ==> s1[k] == s2[k],
    decreases n,
{
    if n > 0 {
        lemma_concat_inj_tail(sizes_bytes(s1, n - 1), le8(s1[n - 1] as u64), sizes_bytes(s2, n - 1), le8(s2[n - 1] as u64));
        lemma_le8_inj(s1[n - 1] as u64, s2[n - 1] as u64);
        lemma_sizes_bytes_inj(s1, s2, n - 1);
    }
}

proof fn lemma_rows_bytes_len_eq(s1: Seq<Vec<u32>>, s2: Seq<Vec<u32>>, n: int)
    requires
        forall|k: int| 0 <= k < n ==> (#[trigger] s1[k])@.len() == s2[k]@.len(),
    ensures
        rows_bytes(s1, n).len() == rows_bytes(s2, n).len(),
    decreases n,
{
    if n > 0 {
        lemma_rows_bytes_len_eq(s1, s2, n - 1);
        lemma_words_bytes_len(s1[n - 1]@, s1[n - 1]@.len() as int);
        lemma_words_bytes_len(s2[n - 1]@, s2[n - 1]@.len() as int);
    }
}

proof fn lemma_rows_bytes_inj(s1: Seq<Vec<u32>>, s2: Seq<Vec<u32>>, n: int)
    requires
        rows_bytes(s1, n) == rows_bytes(s2, n),
        forall|k: int| 0 <= k < n ==> (#[trigger] s1[k])@.len() == s2[k]@.len(),
    ensures
        forall|k: int| 0 <= k < n ==> (#[trigger] s1[k])@ == s2[k]@,
    decreases n,
{
    if n > 0 {
        lemma_words_bytes_len(s1[n - 1]@, s1[n - 1]@.len() as int);
        lemma_words_bytes_len(s2[n - 1]@, s2[n - 1]@.len() as int);
        lemma_concat_inj_tail(
            rows_bytes(s1, n - 1),
            words_bytes(s1[n - 1]@, s1[n - 1]@.len() as int),
            rows_bytes(s2, n - 1),
            words_bytes(s2[n - 1]@, s2[n - 1]@.len() as int),
        );
        lemma_words_bytes_inj(s1[n - 1]@, s2[n - 1]@, s1[n - 1]@.len() as int);
        assert(s1[n - 1]@ =~= s2[n - 1]@);
        lemma_rows_bytes_inj(s1, s2, n - 1);
    }
}

proof fn lemma_weights_bytes_inj(ws1: Seq<Matrix>, ws2: Seq<Matrix>, n: int)
    requires
        weights_bytes(ws1, n) == weights_bytes(ws2, n),
        forall|k: int| 1 <= k < n ==> (#[trigger] ws1[k]).data@.len() == ws2[k].data@.len(),
        forall|k: int, r: int|
            1 <= k < n && 0 <= r < ws1[k].data@.len() ==> (#[trigger] ws1[k].data@[r])@.len()
                == ws2[k].data@[r]@.len(),
    ensures
        forall|k: int, r: int|
            1 <= k < n && 0 <= r < ws1[k].data@.len() ==> (#[trigger] ws1[k].data@[r])@
                == ws2[k].data@[r]@,
    decreases n,
{
    if n > 1 {
        lemma_rows_bytes_len_eq(ws1[n - 1].data@, ws2[n - 1].data@, ws1[n - 1].data@.len() as int);
        lemma_concat_inj_tail(
            weights_bytes(ws1, n - 1),
            rows_bytes(ws1[n - 1].data@, ws1[n - 1].data@.len() as int),
            weights_bytes(ws2, n - 1),
            rows_bytes(ws2[n - 1].data@, ws2[n - 1].data@.len() as int),
        );
        lemma_rows_bytes_inj(ws1[n - 1].data@, ws2[n - 1].data@, ws1[n - 1].data@.len() as int);
        lemma_weights_bytes_inj(ws1, ws2, n - 1);
    }
}

/// Concatenation of byte sequences associates.
proof fn lemma_add_assoc(x: Seq<u8>, y: Seq<u8>, z: Seq<u8>)
    ensures
        (x + y) + z == x + (y + z),
{
    assert((x + y) + z =~= x + (y + z));
}

/// Two well-formed networks with the same snapshot bytes hold the same
/// topology and the same parameters: the stream pins the network exactly.
pub proof fn lemma_snapshot_bytes_inj(a: Network, b: Network)
    requires
        a.wf(),
        b.wf(),
        snapshot_bytes_spec(a) == snapshot_bytes_spec(b),
    ensures
        crate::network::net_eq(a, b),
{
    assert(a.layer_sizes.len() == a.layer_sizes@.len());
    assert(b.layer_sizes.len() == b.layer_sizes@.len());
    let la = a.layer_sizes@.len() as int;
    let lb = b.layer_sizes@.len() as int;
    let h2a = seq![SNAPSHOT_VERSION, act_tag(a.activation_fn)];
    let h2b = seq![SNAPSHOT_VERSION, act_tag(b.activation_fn)];
    let l8a = le8(a.layer_sizes@.len() as u64);
    let l8b = le8(b.layer_sizes@.len() as u64);
    let sza = sizes_bytes(a.layer_sizes@, la);
    let szb = sizes_bytes(b.layer_sizes@, lb);
    let coa = words_bytes(a.activation_coeffs@, la);
    let cob = words_bytes(b.activation_coeffs@, lb);
    let wta = weights_bytes(a.weights@, la);
    let wtb = weights_bytes(b.weights@, lb);
    let bia = rows_bytes(a.biases@, la);
    let bib = rows_bytes(b.biases@, lb);
    lemma_add_assoc(h2a + l8a + sza + coa, wta, bia);
    lemma_add_assoc(h2a + l8a + sza, coa, wta + bia);
    lemma_add_assoc(h2a + l8a, sza, coa + (wta + bia));
    lemma_add_assoc(h2a, l8a, sza + (coa + (wta + bia)));
    assert(snapshot_bytes_spec(a) == h2a + (l8a + (sza + (coa + (wta + bia)))));
    lemma_add_assoc(h2b + l8b + szb + cob, wtb, bib);
    lemma_add_assoc(h2b + l8b + szb, cob, wtb + bib);
    lemma_add_assoc(h2b + l8b, szb, cob + (wtb + bib));
    lemma_add_assoc(h2b, l8b, szb + (cob + (wtb + bib)));
    assert(snapshot_bytes_spec(b) == h2b + (l8b + (szb + (cob + (wtb + bib)))));
    lemma_concat_inj_head(
        h2a,
        l8a + (sza + (coa + (wta + bia))),
        h2b,
        l8b + (szb + (cob + (wtb + bib))),
    );
    assert(h2a[1] == h2b[1]);
    assert(a.activation_fn == b.activation_fn);
    lemma_concat_inj_head(l8a, sza + (coa + (wta + bia)), l8b, szb + (cob + (wtb + bib)));
    lemma_le8_inj(a.layer_sizes@.len() as u64, b.layer_sizes@.len() as u64);
    assert(la == lb);
    lemma_sizes_bytes_len(a.layer_sizes@, la);
    lemma_sizes_bytes_len(b.layer_sizes@, lb);
    lemma_concat_inj_head(sza, coa + (wta + bia), szb, cob + (wtb + bib));
    lemma_sizes_bytes_inj(a.layer_sizes@, b.layer_sizes@, la);
    assert(a.layer_sizes@ =~= b.layer_sizes@);
    lemma_words_bytes_len(a.activation_coeffs@, la);
    lemma_words_bytes_len(b.activation_coeffs@, lb);
    lemma_concat_inj_head(coa, wta + bia, cob, wtb + bib);
    lemma_words_bytes_inj(a.activation_coeffs@, b.activation_coeffs@, la);
    assert(a.activation_coeffs@ =~= b.activation_coeffs@);
    assert forall|k: int| 1 <= k < la implies (#[trigger] a.weights@[k]).data@.len()
        == b.weights@[k].data@.len() by {}
    assert forall|k: int, r: int|
        1 <= k < la && 0 <= r < a.weights@[k].data@.len() implies (#[trigger] a.weights@[k].data@[r])@.len()
        == b.weights@[k].data@[r]@.len() by {
        assert(a.weights@[k].wf());
        assert(b.weights@[k].wf());
    }
    lemma_weights_bytes_len_eq(a.weights@, b.weights@, la);
    lemma_concat_inj_head(wta, bia, wtb, bib);
    lemma_weights_bytes_inj(a.weights@, b.weights@, la);
    assert forall|k: int|
        0 <= k < la implies (#[trigger] a.biases@[k])@.len() == b.biases@[k]@.len() by {}
    lemma_rows_bytes_inj(a.biases@, b.biases@, la);
    assert forall|i: int| 0 <= i < a.weights@.len() implies crate::linalg::mat_eq(
        #[trigger] a.weights@[i],
        b.weights@[i],
    ) by {}
}

proof fn lemma_weights_bytes_len_eq(ws1: Seq<Matrix>, ws2: Seq<Matrix>, n: int)
    requires
        forall|k: int| 1 <= k < n ==> (#[trigger] ws1[k]).data@.len() == ws2[k].data@.len(),
        forall|k: int, r: int|
            1 <= k < n && 0 <= r < ws1[k].data@.len() ==> (#[trigger] ws1[k].data@[r])@.len()
                == ws2[k].data@[r]@.len(),
    ensures
        weights_bytes(ws1, n).len() == weights_bytes(ws2, n).len(),
    decreases n,
{
    if n > 1 {
        lemma_weights_bytes_len_eq(ws1, ws2, n - 1);
        lemma_rows_bytes_len_eq(ws1[n - 1].data@, ws2[n - 1].data@, ws1[n - 1].data@.len() as int);
    }
}

} // verus!
