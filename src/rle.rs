//! Run-length coding of a byte stream that is sent in fixed-size frames.
//!
//! A run of two or more equal bytes becomes the triple `(v, v, count)`; any
//! other byte is copied as it is. A triple may only start where all three of
//! its bytes fall in the first `FRAME_SIZE - 2` positions of a frame, so the
//! last two bytes of every frame are always literal and no triple is split
//! between two frames.
use vstd::arithmetic::div_mod::lemma_add_mod_noop;
use vstd::prelude::*;

verus! {

/// Number of bytes in one register frame.
pub const FRAME_SIZE: usize = 24;

/// Longest run that one triple can describe.
pub const MAX_RUN: usize = 255;

/// Largest position within a frame at which a triple may start.
pub const LAST_TRIPLE_START: usize = 19;

/// The index at which the run of `s[0]` that is known to reach `i` stops
/// (capped at `MAX_RUN`).
pub open spec fn run_end(s: Seq<u8>, i: nat) -> nat
    decreases MAX_RUN - i,
{
    if i < s.len() && i < MAX_RUN && s[i as int] == s[0] {
        run_end(s, i + 1)
    } else {
        i
    }
}

/// Length of the run of `s[0]` at the start of `s` (at most `MAX_RUN`).
pub open spec fn run_len(s: Seq<u8>) -> nat {
    run_end(s, 1)
}

/// Whether a triple may start at stream position `p`.
pub open spec fn triple_fits(p: nat) -> bool {
    p % (FRAME_SIZE as nat) <= LAST_TRIPLE_START as nat
}

/// Encoding of `s` when its first output byte lands at stream position `p`.
pub open spec fn encode_from(s: Seq<u8>, p: nat) -> Seq<u8>
    decreases s.len(),
{
    if s.len() == 0 {
        seq![]
    } else if !triple_fits(p) || run_len(s) < 2 || run_len(s) > s.len() {
        seq![s[0]] + encode_from(s.skip(1), p + 1)
    } else {
        seq![s[0], s[0], run_len(s) as u8] + encode_from(s.skip(run_len(s) as int), p + 3)
    }
}

/// Decoding of `e` when its first byte sits at stream position `p`.
pub open spec fn decode_from(e: Seq<u8>, p: nat) -> Seq<u8>
    decreases e.len(),
{
    if e.len() == 0 {
        seq![]
    } else if triple_fits(p) && e.len() >= 3 && e[0] == e[1] {
        Seq::new(e[2] as nat, |_k: int| e[0]) + decode_from(e.skip(3), p + 3)
    } else {
        seq![e[0]] + decode_from(e.skip(1), p + 1)
    }
}

/// The encoding of a whole stream.
pub open spec fn rle_encoding(s: Seq<u8>) -> Seq<u8> {
    encode_from(s, 0)
}

/// The decoding of a whole stream.
pub open spec fn rle_decoding(e: Seq<u8>) -> Seq<u8> {
    decode_from(e, 0)
}

proof fn lemma_run_end(s: Seq<u8>, i: nat)
    requires
        1 <= i <= s.len(),
        i <= MAX_RUN,
        forall|j: int| 0 <= j < i ==> #[trigger] s[j] == s[0],
    ensures
        i <= run_end(s, i) <= s.len(),
        run_end(s, i) <= MAX_RUN,
        forall|j: int| 0 <= j < run_end(s, i) ==> #[trigger] s[j] == s[0],
        run_end(s, i) < s.len() && run_end(s, i) < MAX_RUN ==> s[run_end(s, i) as int] != s[0],
    decreases MAX_RUN - i,
{
    if i < s.len() && i < MAX_RUN && s[i as int] == s[0] {
        lemma_run_end(s, i + 1);
    }
}

/// Facts about the run at the start of a non-empty stream.
proof fn lemma_run_len(s: Seq<u8>)
    requires
        s.len() >= 1,
    ensures
        1 <= run_len(s) <= s.len(),
        run_len(s) <= MAX_RUN,
        forall|j: int| 0 <= j < run_len(s) ==> #[trigger] s[j] == s[0],
        run_len(s) < 2 ==> s.len() == 1 || s[1] != s[0],
{
    lemma_run_end(s, 1);
}

/// The first byte of an encoding is the first byte of the input.
proof fn lemma_encode_first(s: Seq<u8>, p: nat)
    requires
        s.len() >= 1,
    ensures
        encode_from(s, p).len() >= 1,
        encode_from(s, p)[0] == s[0],
{
    lemma_run_len(s);
}

/// Decoding undoes encoding, from any starting position.
proof fn lemma_decode_encode_from(s: Seq<u8>, p: nat)
    ensures
        decode_from(encode_from(s, p), p) == s,
    decreases s.len(),
{
    if s.len() == 0 {
        assert(encode_from(s, p) =~= seq![]);
    } else {
        lemma_run_len(s);
        let e = encode_from(s, p);
        let r = run_len(s);
        if !triple_fits(p) || r < 2 {
            let rest = encode_from(s.skip(1), p + 1);
            assert(e == seq![s[0]] + rest);
            lemma_decode_encode_from(s.skip(1), p + 1);
            if triple_fits(p) && e.len() >= 3 {
                lemma_encode_first(s.skip(1), p + 1);
                assert(e[1] == rest[0]);
                assert(e[1] != e[0]);
            }
            assert(e.skip(1) =~= rest);
            assert(s =~= seq![s[0]] + s.skip(1));
        } else {
            let rest = encode_from(s.skip(r as int), p + 3);
            assert(e == seq![s[0], s[0], r as u8] + rest);
            lemma_decode_encode_from(s.skip(r as int), p + 3);
            assert(e.skip(3) =~= rest);
            assert((r as u8) as nat == r);
            assert(Seq::new(r, |_k: int| s[0]) =~= s.take(r as int));
            assert(s =~= s.take(r as int) + s.skip(r as int));
        }
    }
}

/// Decoding the encoding of any byte stream gives the stream back.
pub proof fn lemma_rle_round_trip(s: Seq<u8>)
    ensures
        rle_decoding(rle_encoding(s)) == s,
{
    lemma_decode_encode_from(s, 0);
}

/// Decoding each `FRAME_SIZE`-byte block of `e` on its own, from the start
/// of a frame, and joining the results.
pub open spec fn decode_by_frames(e: Seq<u8>) -> Seq<u8>
    decreases e.len(),
{
    if e.len() <= FRAME_SIZE {
        decode_from(e, 0)
    } else {
        decode_from(e.take(FRAME_SIZE as int), 0) + decode_by_frames(e.skip(FRAME_SIZE as int))
    }
}

proof fn lemma_frame_offset(p: nat, q: nat, k: nat)
    requires
        p % (FRAME_SIZE as nat) == q % (FRAME_SIZE as nat),
    ensures
        (p + k) % (FRAME_SIZE as nat) == (q + k) % (FRAME_SIZE as nat),
{
    lemma_add_mod_noop(p as int, k as int, FRAME_SIZE as int);
    lemma_add_mod_noop(q as int, k as int, FRAME_SIZE as int);
}

/// Decoding depends on the starting position only through its place in the
/// frame.
proof fn lemma_decode_frame_position(e: Seq<u8>, p: nat, q: nat)
    requires
        p % (FRAME_SIZE as nat) == q % (FRAME_SIZE as nat),
    ensures
        decode_from(e, p) == decode_from(e, q),
    decreases e.len(),
{
    if e.len() > 0 {
        assert(triple_fits(p) == triple_fits(q));
        lemma_frame_offset(p, q, 1);
        lemma_decode_frame_position(e.skip(1), p + 1, q + 1);
        if e.len() >= 3 {
            lemma_frame_offset(p, q, 3);
            lemma_decode_frame_position(e.skip(3), p + 3, q + 3);
        }
    }
}

proof fn lemma_run_end_prefix(s: Seq<u8>, k: nat, i: nat)
    requires
        1 <= i,
        run_end(s, i) <= k <= s.len(),
    ensures
        run_end(s.take(k as int), i) == run_end(s, i),
    decreases MAX_RUN - i,
{
    if i < s.len() && i < MAX_RUN && s[i as int] == s[0] {
        lemma_run_end_prefix(s, k, i + 1);
    }
}

/// A prefix that holds the whole first run has the same first run.
proof fn lemma_run_len_prefix(s: Seq<u8>, k: nat)
    requires
        1 <= k <= s.len(),
        run_len(s) <= k,
    ensures
        run_len(s.take(k as int)) == run_len(s),
{
    lemma_run_end_prefix(s, k, 1);
}

/// No output token straddles a frame boundary: the encoding splits at every
/// boundary into the encodings of a prefix and the rest of the input.
proof fn lemma_encode_split(s: Seq<u8>, p: nat, m: nat)
    requires
        m <= encode_from(s, p).len(),
        (p + m) % (FRAME_SIZE as nat) == 0,
    ensures
        exists|k: nat|
            #![trigger s.take(k as int)]
            k <= s.len() && encode_from(s, p).take(m as int) == encode_from(s.take(k as int), p)
                && encode_from(s, p).skip(m as int) == encode_from(s.skip(k as int), p + m),
    decreases s.len(),
{
    let e = encode_from(s, p);
    if m == 0 {
        assert(s.take(0) =~= seq![]);
        assert(e.take(0) =~= seq![]);
        assert(e.skip(0) =~= e);
        assert(s.skip(0) =~= s);
        assert(encode_from(s.take(0), p) =~= seq![]);
    } else {
        lemma_run_len(s);
        let r = run_len(s);
        if !triple_fits(p) || r < 2 {
            let rest = encode_from(s.skip(1), p + 1);
            assert(e == seq![s[0]] + rest);
            let m1 = (m - 1) as nat;
            lemma_encode_split(s.skip(1), p + 1, m1);
            let k1 = choose|k1: nat|
                #![trigger s.skip(1).take(k1 as int)]
                k1 <= s.skip(1).len() && rest.take(m1 as int) == encode_from(s.skip(1).take(k1 as int), p + 1)
                    && rest.skip(m1 as int) == encode_from(s.skip(1).skip(k1 as int), (p + 1) + m1);
            let k = k1 + 1;
            let t = s.take(k as int);
            if triple_fits(p) {
                lemma_run_len_prefix(s, k);
            }
            assert(t.skip(1) =~= s.skip(1).take(k1 as int));
            assert(t[0] == s[0]);
            assert(encode_from(t, p) == seq![t[0]] + encode_from(t.skip(1), p + 1));
            assert(e.take(m as int) =~= seq![s[0]] + rest.take(m1 as int));
            assert(e.skip(m as int) =~= rest.skip(m1 as int));
            assert(s.skip(1).skip(k1 as int) =~= s.skip(k as int));
        } else {
            assert(m >= 3);
            let rest = encode_from(s.skip(r as int), p + 3);
            assert(e == seq![s[0], s[0], r as u8] + rest);
            let m3 = (m - 3) as nat;
            lemma_encode_split(s.skip(r as int), p + 3, m3);
            let k1 = choose|k1: nat|
                #![trigger s.skip(r as int).take(k1 as int)]
                k1 <= s.skip(r as int).len() && rest.take(m3 as int) == encode_from(
                    s.skip(r as int).take(k1 as int),
                    p + 3,
                ) && rest.skip(m3 as int) == encode_from(s.skip(r as int).skip(k1 as int), (p + 3) + m3);
            let k = k1 + r;
            let t = s.take(k as int);
            lemma_run_len_prefix(s, k);
            assert(t.skip(r as int) =~= s.skip(r as int).take(k1 as int));
            assert(t[0] == s[0]);
            assert(encode_from(t, p) == seq![t[0], t[0], r as u8] + encode_from(t.skip(r as int), p + 3));
            assert(e.take(m as int) =~= seq![s[0], s[0], r as u8] + rest.take(m3 as int));
            assert(e.skip(m as int) =~= rest.skip(m3 as int));
            assert(s.skip(r as int).skip(k1 as int) =~= s.skip(k as int));
        }
    }
}

proof fn lemma_decode_by_frames_from(s: Seq<u8>, p: nat)
    requires
        p % (FRAME_SIZE as nat) == 0,
    ensures
        decode_by_frames(encode_from(s, p)) == s,
    decreases s.len(),
{
    let e = encode_from(s, p);
    lemma_decode_encode_from(s, p);
    if e.len() <= FRAME_SIZE {
        lemma_decode_frame_position(e, 0, p);
    } else {
        let m = FRAME_SIZE as nat;
        lemma_encode_split(s, p, m);
        let k = choose|k: nat|
            #![trigger s.take(k as int)]
            k <= s.len() && e.take(m as int) == encode_from(s.take(k as int), p)
                && e.skip(m as int) == encode_from(s.skip(k as int), p + m);
        lemma_decode_encode_from(s.take(k as int), p);
        lemma_decode_frame_position(e.take(m as int), 0, p);
        if k == 0 {
            assert(s.take(0) =~= seq![]);
            assert(e.take(m as int).len() == m);
        }
        lemma_decode_by_frames_from(s.skip(k as int), p + m);
        assert(s =~= s.take(k as int) + s.skip(k as int));
    }
}

/// Every output frame of the encoder decodes on its own: decoding the frames
/// one by one, each from the start of a frame, gives the input back. So no
/// triple is split between frames and the last two bytes of each frame are
/// read as the literal input bytes they are.
pub proof fn lemma_rle_frames_independent(s: Seq<u8>)
    ensures
        decode_by_frames(rle_encoding(s)) == s,
{
    lemma_decode_by_frames_from(s, 0);
}

/// The stream positions at which the encoding of `s`, placed at position
/// `p`, has a triple.
pub open spec fn triple_starts(s: Seq<u8>, p: nat) -> Set<nat>
    decreases s.len(),
{
    if s.len() == 0 {
        Set::empty()
    } else if !triple_fits(p) || run_len(s) < 2 || run_len(s) > s.len() {
        triple_starts(s.skip(1), p + 1)
    } else {
        triple_starts(s.skip(run_len(s) as int), p + 3).insert(p)
    }
}

proof fn lemma_triple_starts_from(s: Seq<u8>, p: nat)
    ensures
        forall|t: nat|
            #[trigger] triple_starts(s, p).contains(t) ==> {
                &&& triple_fits(t)
                &&& p <= t
                &&& t + 3 <= p + encode_from(s, p).len()
                &&& encode_from(s, p)[t - p] == encode_from(s, p)[t - p + 1]
                &&& encode_from(s, p)[t - p + 2] >= 2
            },
    decreases s.len(),
{
    if s.len() > 0 {
        lemma_run_len(s);
        let e = encode_from(s, p);
        let r = run_len(s);
        if !triple_fits(p) || r < 2 {
            let rest = encode_from(s.skip(1), p + 1);
            lemma_triple_starts_from(s.skip(1), p + 1);
            assert(e == seq![s[0]] + rest);
            assert(triple_starts(s, p) == triple_starts(s.skip(1), p + 1));
            assert forall|t: nat| #[trigger] triple_starts(s, p).contains(t) implies {
                &&& triple_fits(t)
                &&& p <= t
                &&& t + 3 <= p + e.len()
                &&& e[t - p] == e[t - p + 1]
                &&& e[t - p + 2] >= 2
            } by {
                assert(triple_starts(s.skip(1), p + 1).contains(t));
                assert(e[t - p] == rest[t - (p + 1)]);
                assert(e[t - p + 1] == rest[t - (p + 1) + 1]);
                assert(e[t - p + 2] == rest[t - (p + 1) + 2]);
            }
        } else {
            let rest = encode_from(s.skip(r as int), p + 3);
            lemma_triple_starts_from(s.skip(r as int), p + 3);
            assert(e == seq![s[0], s[0], r as u8] + rest);
            assert((r as u8) as nat == r);
            assert(triple_starts(s, p) == triple_starts(s.skip(r as int), p + 3).insert(p));
            assert forall|t: nat| #[trigger] triple_starts(s, p).contains(t) implies {
                &&& triple_fits(t)
                &&& p <= t
                &&& t + 3 <= p + e.len()
                &&& e[t - p] == e[t - p + 1]
                &&& e[t - p + 2] >= 2
            } by {
                if t != p {
                    assert(triple_starts(s.skip(r as int), p + 3).contains(t));
                    assert(e[t - p] == rest[t - (p + 3)]);
                    assert(e[t - p + 1] == rest[t - (p + 3) + 1]);
                    assert(e[t - p + 2] == rest[t - (p + 3) + 2]);
                }
            }
        }
    }
}

/// Every triple of an encoding starts at an offset of at most
/// `LAST_TRIPLE_START` within its frame, so all three of its bytes lie before
/// the last two positions of the frame; its bytes are `(v, v, count)` with
/// a count of at least two.
pub proof fn lemma_rle_triples_stay_in_frame(s: Seq<u8>)
    ensures
        forall|t: nat|
            #[trigger] triple_starts(s, 0).contains(t) ==> {
                &&& t % (FRAME_SIZE as nat) <= LAST_TRIPLE_START
                &&& (t + 2) % (FRAME_SIZE as nat) < FRAME_SIZE - 2
                &&& t + 3 <= rle_encoding(s).len()
                &&& rle_encoding(s)[t as int] == rle_encoding(s)[t + 1int]
                &&& rle_encoding(s)[t + 2int] >= 2
            },
{
    let e = rle_encoding(s);
    lemma_triple_starts_from(s, 0);
    assert forall|t: nat| #[trigger] triple_starts(s, 0).contains(t) implies {
        &&& t % (FRAME_SIZE as nat) <= LAST_TRIPLE_START
        &&& (t + 2) % (FRAME_SIZE as nat) < FRAME_SIZE - 2
        &&& t + 3 <= e.len()
        &&& e[t as int] == e[t + 1int]
        &&& e[t + 2int] >= 2
    } by {
        assert(triple_fits(t));
        lemma_add_mod_noop(t as int, 2, FRAME_SIZE as int);
        assert(t - 0 == t);
    }
}

/// Length of the run of equal bytes that starts at `data[start]`, capped at
/// `MAX_RUN`.
fn run_length(data: &[u8], start: usize) -> (r: usize)
    requires
        start < data@.len(),
    ensures
        r == run_len(data@.skip(start as int)),
{
    let ghost s = data@.skip(start as int);
    let v = data[start];
    let mut k: usize = 1;
    while k < data.len() - start && k < MAX_RUN && data[start + k] == v
        invariant
            start < data@.len(),
            1 <= k <= MAX_RUN,
            start + k <= data@.len(),
            s == data@.skip(start as int),
            v == s[0],
            run_end(s, k as nat) == run_len(s),
        decreases MAX_RUN - k,
    {
        k = k + 1;
    }
    k
}

/// Run-length encodes `data` so that every frame of `FRAME_SIZE` output bytes
/// can be decoded on its own.
pub fn rle_encode(data: &[u8]) -> (r: Vec<u8>)
    ensures
        r@ == rle_encoding(data@),
{
    let mut out: Vec<u8> = Vec::new();
    let mut i: usize = 0;
    let n = data.len();
    proof {
        assert(data@.skip(0) =~= data@);
        assert(out@ + encode_from(data@, 0) =~= encode_from(data@, 0));
    }
    while i < n
        invariant
            n == data@.len(),
            i <= n,
            out@ + encode_from(data@.skip(i as int), out@.len()) == rle_encoding(data@),
        decreases n - i,
    {
        let ghost s = data@.skip(i as int);
        let ghost p = out@.len();
        proof {
            lemma_run_len(s);
        }
        let pos = out.len() % FRAME_SIZE;
        let r = run_length(data, i);
        let v = data[i];
        if pos > LAST_TRIPLE_START || r < 2 {
            proof {
                assert(s.skip(1) =~= data@.skip(i + 1));
                assert(out@.push(v) + encode_from(s.skip(1), p + 1) =~= out@ + encode_from(s, p));
            }
            out.push(v);
            i = i + 1;
        } else {
            proof {
                assert(s.skip(r as int) =~= data@.skip(i + r));
                assert(out@.push(v).push(v).push(r as u8) + encode_from(s.skip(r as int), p + 3)
                    =~= out@ + encode_from(s, p));
            }
            out.push(v);
            out.push(v);
            out.push(r as u8);
            i = i + r;
        }
    }
    proof {
        assert(data@.skip(n as int) =~= seq![]);
        assert(out@ + seq![] =~= out@);
    }
    out
}

/// Reverses `rle_encode`: at a position where a triple may start, two equal
/// bytes followed by a count stand for `count` copies of the byte; every
/// other byte is literal.
pub fn rle_decode(data: &[u8]) -> (r: Vec<u8>)
    ensures
        r@ == rle_decoding(data@),
{
    let mut out: Vec<u8> = Vec::new();
    let mut j: usize = 0;
    let n = data.len();
    proof {
        assert(data@.skip(0) =~= data@);
        assert(out@ + decode_from(data@, 0) =~= decode_from(data@, 0));
    }
    while j < n
        invariant
            n == data@.len(),
            j <= n,
            out@ + decode_from(data@.skip(j as int), j as nat) == rle_decoding(data@),
        decreases n - j,
    {
        let ghost e = data@.skip(j as int);
        if j % FRAME_SIZE <= LAST_TRIPLE_START && n - j >= 3 && data[j] == data[j + 1] {
            let v = data[j];
            let count = data[j + 2];
            let ghost before = out@;
            let mut c: u8 = 0;
            while c < count
                invariant
                    c <= count,
                    out@ == before + Seq::new(c as nat, |_k: int| v),
                decreases count - c,
            {
                out.push(v);
                c = c + 1;
                proof {
                    assert(out@ =~= before + Seq::new(c as nat, |_k: int| v));
                }
            }
            proof {
                assert(e.skip(3) =~= data@.skip(j + 3));
                assert(Seq::new(e[2] as nat, |_k: int| e[0]) =~= Seq::new(count as nat, |_k: int| v));
                assert(out@ + decode_from(e.skip(3), (j + 3) as nat)
                    =~= before + decode_from(e, j as nat));
            }
            j = j + 3;
        } else {
            proof {
                assert(e.skip(1) =~= data@.skip(j + 1));
                assert(out@.push(data[j as int]) + decode_from(e.skip(1), (j + 1) as nat)
                    =~= out@ + decode_from(e, j as nat));
            }
            out.push(data[j]);
            j = j + 1;
        }
    }
    proof {
        assert(data@.skip(n as int) =~= seq![]);
        assert(out@ + seq![] =~= out@);
    }
    out
}

} // verus!
