use vstd::prelude::*;

verus! {

// The wire encoding of a chunk's block array is run-length compression: a
// sequence of `(value, count)` pairs, each pair three bytes — the block
// value, then the run count as two little-endian bytes. A count of zero is
// malformed. Decoding must expand the pairs back to exactly the chunk
// volume; any other total is an error rather than silently truncated or
// padded.

/// How a received payload can be unusable: `Malformed` for bytes that are
/// not a well-formed message at all, `LengthMismatch` for a block payload
/// whose runs expand to something other than the chunk volume.
#[derive(Clone, Copy, PartialEq, Eq, Structural, Debug)]
pub enum DecodeError {
    Malformed,
    LengthMismatch,
}

/// Length of the run of equal values at the head of `s`.
pub open spec fn run_len_spec(s: Seq<u8>) -> int
    decreases s.len(),
{
    if s.len() == 0 {
        0
    } else if s.len() == 1 || s[1] != s[0] {
        1
    } else {
        1 + run_len_spec(s.skip(1))
    }
}

/// Head-run length capped at the largest count one pair can carry.
pub open spec fn capped_run_spec(s: Seq<u8>) -> int {
    if run_len_spec(s) > 65535 {
        65535
    } else {
        run_len_spec(s)
    }
}

pub proof fn lemma_run_len_bounds(s: Seq<u8>)
    requires
        s.len() > 0,
    ensures
        1 <= run_len_spec(s) <= s.len(),
    decreases s.len(),
{
    if s.len() > 1 && s[1] == s[0] {
        lemma_run_len_bounds(s.skip(1));
    }
}

/// Every value inside the head run equals the head.
pub proof fn lemma_run_is_constant(s: Seq<u8>, i: int)
    requires
        0 <= i < run_len_spec(s),
        run_len_spec(s) <= s.len(),
    ensures
        s[i] == s[0],
    decreases i,
{
    if i > 0 {
        lemma_run_len_bounds(s);
        lemma_run_is_constant(s.skip(1), i - 1);
    }
}

/// The run-length encoding of a block sequence: one three-byte pair per
/// maximal (capped) run.
pub open spec fn rle_encode_spec(s: Seq<u8>) -> Seq<u8>
    decreases s.len(),
    via rle_encode_spec_decreases
{
    if s.len() == 0 {
        Seq::empty()
    } else {
        let n = capped_run_spec(s);
        seq![s[0], (n % 256) as u8, (n / 256) as u8] + rle_encode_spec(s.skip(n))
    }
}

#[via_fn]
proof fn rle_encode_spec_decreases(s: Seq<u8>) {
    if s.len() > 0 {
        lemma_run_len_bounds(s);
    }
}

/// What a run-length payload expands to: `None` when a pair is truncated or
/// carries a zero count.
pub open spec fn rle_decode_spec(b: Seq<u8>) -> Option<Seq<u8>>
    decreases b.len(),
{
    if b.len() == 0 {
        Some(Seq::empty())
    } else if b.len() < 3 {
        None
    } else {
        let n = b[1] as int + 256 * (b[2] as int);
        if n == 0 {
            None
        } else {
            match rle_decode_spec(b.skip(3)) {
                Option::None => Option::None,
                Option::Some(rest) => Option::Some(Seq::new(n as nat, |i: int| b[0]) + rest),
            }
        }
    }
}

/// Expanding a run-length encoding gives back exactly the encoded sequence:
/// `decode(encode(s)) == s` for every block sequence `s`.
pub proof fn lemma_rle_round_trip(s: Seq<u8>)
    ensures
        rle_decode_spec(rle_encode_spec(s)) == Some(s),
    decreases s.len(),
{
    if s.len() == 0 {
        assert(rle_encode_spec(s) =~= Seq::<u8>::empty());
        assert(rle_decode_spec(rle_encode_spec(s)) == Some(Seq::<u8>::empty()));
        assert(s =~= Seq::<u8>::empty());
    } else {
        lemma_run_len_bounds(s);
        let n = capped_run_spec(s);
        assert(1 <= n <= s.len());
        let head = seq![s[0], (n % 256) as u8, (n / 256) as u8];
        let tail = rle_encode_spec(s.skip(n));
        let b = rle_encode_spec(s);
        assert(b == head + tail);
        assert(b.len() >= 3);
        assert(b[0] == s[0]);
        assert(b[1] == (n % 256) as u8);
        assert(b[2] == (n / 256) as u8);
        assert(b[1] as int + 256 * (b[2] as int) == n) by {
            assert(n % 256 + 256 * (n / 256) == n);
            assert(0 <= n % 256 < 256);
            assert(0 <= n / 256 < 256);
        };
        lemma_rle_round_trip(s.skip(n));
        assert(b.skip(3) =~= tail);
        assert(rle_decode_spec(b.skip(3)) == Some(s.skip(n)));
        assert(rle_decode_spec(b) == Some(Seq::new(n as nat, |i: int| b[0]) + s.skip(n)));
        assert(Seq::new(n as nat, |i: int| b[0]) + s.skip(n) =~= s) by {
            assert forall|i: int| 0 <= i < n implies #[trigger] s[i] == s[0] by {
                lemma_run_is_constant(s, i);
            };
        };
    }
}

/// The head run of `t` is exactly `n` when the first `n` values agree with
/// the head and the value after them (if any) differs.
proof fn lemma_run_len_exact(t: Seq<u8>, n: int)
    requires
        1 <= n <= t.len(),
        forall|i: int| 0 <= i < n ==> #[trigger] t[i] == t[0],
        n == t.len() || t[n] != t[0],
    ensures
        run_len_spec(t) == n,
    decreases n,
{
    if n == 1 {
        if t.len() > 1 {
            assert(t[1] != t[0]);
        }
    } else {
        assert(t[1] == t[0]);
        let u = t.skip(1);
        assert(u.len() == t.len() - 1);
        assert(forall|i: int| 0 <= i < n - 1 ==> #[trigger] u[i] == t[i + 1] && u[i] == u[0]);
        if n - 1 < u.len() {
            assert(u[n - 1] == t[n]);
        }
        lemma_run_len_exact(u, n - 1);
    }
}

/// A constant prefix of length `n` puts the head run at `n` or beyond.
proof fn lemma_run_len_at_least(t: Seq<u8>, n: int)
    requires
        1 <= n <= t.len(),
        forall|i: int| 0 <= i < n ==> #[trigger] t[i] == t[0],
    ensures
        run_len_spec(t) >= n,
    decreases n,
{
    lemma_run_len_bounds(t);
    if n > 1 {
        assert(t[1] == t[0]);
        let u = t.skip(1);
        assert(forall|i: int| 0 <= i < n - 1 ==> #[trigger] u[i] == t[i + 1] && u[i] == u[0]);
        lemma_run_len_at_least(u, n - 1);
        assert(run_len_spec(t) == 1 + run_len_spec(u));
    }
}

/// Run-length encodes a block sequence.
pub fn encode_blocks(blocks: &Vec<u8>) -> (r: Vec<u8>)
    ensures
        r@ == rle_encode_spec(blocks@),
{
    let s = blocks;
    let ghost total = rle_encode_spec(blocks@);
    let mut out: Vec<u8> = Vec::new();
    let mut p: usize = 0;
    proof {
        assert(blocks@.skip(0) =~= blocks@);
    }
    while p < s.len()
        invariant
            0 <= p <= s@.len(),
            total == rle_encode_spec(blocks@),
            s@ == blocks@,
            total == out@ + rle_encode_spec(s@.skip(p as int)),
        decreases s@.len() - p,
    {
        let v = s[p];
        let mut n: usize = 1;
        while p + n < s.len() && s[p + n] == v && n < 65535
            invariant
                0 <= p < s@.len(),
                s@.len() <= usize::MAX,
                1 <= n,
                p + n <= s@.len(),
                n <= 65535,
                v == s@[p as int],
                forall|k: int| p <= k < p + n ==> #[trigger] s@[k] == v,
            decreases s@.len() - p - n,
        {
            n = n + 1;
        }
        let ghost t = s@.skip(p as int);
        proof {
            assert(t.len() == s@.len() - p);
            assert(forall|i: int| 0 <= i < n ==> #[trigger] t[i] == s@[p + i]);
            assert(forall|i: int| 0 <= i < n ==> #[trigger] t[i] == t[0]);
            if p + n < s@.len() && s@[p + n as int] != v {
                assert(t[n as int] != t[0]);
                lemma_run_len_exact(t, n as int);
            } else if p + n == s@.len() {
                lemma_run_len_exact(t, n as int);
            } else {
                lemma_run_len_at_least(t, n as int);
                assert(n == 65535);
            }
            assert(capped_run_spec(t) == n);
            assert(rle_encode_spec(t) == seq![t[0], (n as int % 256) as u8, (n as int / 256) as u8]
                + rle_encode_spec(t.skip(n as int)));
            assert(t.skip(n as int) =~= s@.skip(p + n));
        }
        out.push(v);
        out.push((n % 256) as u8);
        out.push((n / 256) as u8);
        proof {
            assert(out@ + rle_encode_spec(s@.skip(p + n)) =~= total);
        }
        p = p + n;
    }
    proof {
        assert(s@.skip(p as int) =~= Seq::<u8>::empty());
        assert(rle_encode_spec(Seq::<u8>::empty()) =~= Seq::<u8>::empty());
        assert(out@ =~= total);
    }
    out
}

/// Expands a run-length payload, requiring it to fill exactly one chunk.
pub fn decode_blocks(bytes: &Vec<u8>) -> (r: Result<Vec<u8>, DecodeError>)
    ensures
        match r {
            Ok(v) => rle_decode_spec(bytes@) == Some(v@) && v@.len() == 32768,
            Err(e) => {
                &&& (e == DecodeError::Malformed <==> rle_decode_spec(bytes@) is None)
                &&& (rle_decode_spec(bytes@) matches Some(s) ==> s.len() != 32768)
            },
        },
{
    let b = bytes;
    let mut out: Vec<u8> = Vec::with_capacity(32768);
    let mut p: usize = 0;
    proof {
        assert(b@.skip(0) =~= b@);
    }
    while p < b.len()
        invariant
            0 <= p <= b@.len(),
            b@ == bytes@,
            rle_decode_spec(b@) is Some <==> rle_decode_spec(b@.skip(p as int)) is Some,
            rle_decode_spec(b@.skip(p as int)) matches Some(rest) ==> rle_decode_spec(b@)
                == Some(out@ + rest),
        decreases b@.len() - p,
    {
        if b.len() - p < 3 {
            return Err(DecodeError::Malformed);
        }
        let v = b[p];
        let n: usize = b[p + 1] as usize + 256 * (b[p + 2] as usize);
        let ghost t = b@.skip(p as int);
        proof {
            assert(t.len() >= 3);
            assert(t[0] == v);
            assert(t[1] == b@[p + 1]);
            assert(t[2] == b@[p + 2]);
            assert(t.skip(3) =~= b@.skip(p + 3));
        }
        if n == 0 {
            return Err(DecodeError::Malformed);
        }
        let ghost out0 = out@;
        let mut k: usize = 0;
        while k < n
            invariant
                k <= n,
                out@ == out0 + Seq::new(k as nat, |i: int| v),
            decreases n - k,
        {
            proof {
                assert(out0 + Seq::new((k + 1) as nat, |i: int| v) =~= (out0 + Seq::new(
                    k as nat,
                    |i: int| v,
                )).push(v));
            }
            out.push(v);
            k = k + 1;
        }
        proof {
            match rle_decode_spec(b@.skip(p + 3)) {
                Option::Some(rest) => {
                    assert(rle_decode_spec(t) == Some(Seq::new(n as nat, |i: int| v) + rest));
                    assert(out@ + rest =~= out0 + (Seq::new(n as nat, |i: int| v) + rest));
                },
                Option::None => {},
            }
        }
        p = p + 3;
    }
    proof {
        assert(b@.skip(p as int) =~= Seq::<u8>::empty());
        assert(rle_decode_spec(b@) == Some(out@));
    }
    if out.len() == 32768 {
        Ok(out)
    } else {
        Err(DecodeError::LengthMismatch)
    }
}

} // verus!
