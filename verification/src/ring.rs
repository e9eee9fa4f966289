use crate::coord::{is_float_token, float_token_ok, pairs_view, CoordPair};
use vstd::prelude::*;

verus! {

/// A ring encoding is malformed: some token does not parse as a float.
#[derive(Debug, Clone, Copy, PartialEq, Eq)]
pub struct ParseError;

/// The bytes treated as whitespace when a token is trimmed.
pub open spec fn is_space(b: u8) -> bool {
    b == 32 || b == 9 || b == 10 || b == 11 || b == 12 || b == 13
}

/// The grouping punctuation that is stripped wholesale before tokenizing.
pub open spec fn is_group(b: u8) -> bool {
    b == 40 || b == 41
}

/// The encoding with every grouping byte removed, order kept.
pub open spec fn strip_group(s: Seq<u8>) -> Seq<u8>
    decreases s.len(),
{
    if s.len() == 0 {
        Seq::empty()
    } else if is_group(s[0]) {
        strip_group(s.skip(1))
    } else {
        seq![s[0]] + strip_group(s.skip(1))
    }
}

/// A token sequence with its first token extended by `c` on the left.
pub open spec fn prefix_first(c: Seq<u8>, ss: Seq<Seq<u8>>) -> Seq<Seq<u8>> {
    seq![c + ss[0]] + ss.skip(1)
}

/// The pieces of `s` between commas, in order. The empty sequence has one
/// empty piece, as a comma-split of a string does.
pub open spec fn split_commas(s: Seq<u8>) -> Seq<Seq<u8>>
    decreases s.len(),
{
    if s.len() == 0 {
        seq![Seq::<u8>::empty()]
    } else if s[0] == 44 {
        seq![Seq::<u8>::empty()] + split_commas(s.skip(1))
    } else {
        prefix_first(seq![s[0]], split_commas(s.skip(1)))
    }
}

/// The token without its leading whitespace.
pub open spec fn trim_start(t: Seq<u8>) -> Seq<u8>
    decreases t.len(),
{
    if t.len() > 0 && is_space(t[0]) {
        trim_start(t.skip(1))
    } else {
        t
    }
}

/// The token without its trailing whitespace.
pub open spec fn trim_end(t: Seq<u8>) -> Seq<u8>
    decreases t.len(),
{
    if t.len() > 0 && is_space(t[t.len() - 1]) {
        trim_end(t.drop_last())
    } else {
        t
    }
}

/// The token without surrounding whitespace.
pub open spec fn trim(t: Seq<u8>) -> Seq<u8> {
    trim_end(trim_start(t))
}

/// How many comma-separated tokens the encoding has.
pub open spec fn n_tokens(s: Seq<u8>) -> int {
    split_commas(strip_group(s)).len() as int
}

/// Token `k` of the encoding: grouping bytes stripped, split on commas,
/// trimmed of surrounding whitespace.
pub open spec fn token_at(s: Seq<u8>, k: int) -> Seq<u8> {
    trim(split_commas(strip_group(s))[k])
}

/// Whether every token of the encoding is a valid float token.
pub open spec fn ring_ok(s: Seq<u8>) -> bool {
    forall|k: int| 0 <= k < n_tokens(s) ==> float_token_ok(#[trigger] token_at(s, k))
}

/// How many vertices the encoding yields: even tokens are x coordinates, each
/// odd token the y of the vertex before it.
pub open spec fn ring_len(s: Seq<u8>) -> int {
    n_tokens(s) / 2 + n_tokens(s) % 2
}

/// Vertex `j` of the encoding. A trailing x token with no y gets the zero
/// token as its y coordinate.
pub open spec fn ring_vertex(s: Seq<u8>, j: int) -> (Seq<u8>, Seq<u8>) {
    (
        token_at(s, 2 * j),
        if 2 * j + 1 < n_tokens(s) {
            token_at(s, 2 * j + 1)
        } else {
            seq![48u8]
        },
    )
}

/// The vertex sequence of the encoding.
pub open spec fn ring_value(s: Seq<u8>) -> Seq<(Seq<u8>, Seq<u8>)> {
    Seq::new(ring_len(s) as nat, |j: int| ring_vertex(s, j))
}

/// A comma-split always yields at least one piece.
proof fn lemma_split_nonempty(s: Seq<u8>)
    ensures
        split_commas(s).len() >= 1,
    decreases s.len(),
{
    if s.len() == 0 {
    } else if s[0] == 44 {
        lemma_split_nonempty(s.skip(1));
    } else {
        lemma_split_nonempty(s.skip(1));
    }
}

/// One unfolding step of `split_commas` at position `i`.
proof fn lemma_split_step(s: Seq<u8>, i: int)
    requires
        0 <= i < s.len(),
    ensures
        s[i] == 44 ==> split_commas(s.skip(i)) == seq![Seq::<u8>::empty()] + split_commas(
            s.skip(i + 1),
        ),
        s[i] != 44 ==> split_commas(s.skip(i)) == prefix_first(
            seq![s[i]],
            split_commas(s.skip(i + 1)),
        ),
{
    assert(s.skip(i).len() > 0);
    assert(s.skip(i)[0] == s[i]);
    assert(s.skip(i).skip(1) =~= s.skip(i + 1));
}

fn is_space_byte(b: u8) -> (r: bool)
    ensures
        r == is_space(b),
{
    b == 32 || b == 9 || b == 10 || b == 11 || b == 12 || b == 13
}

/// The token with surrounding whitespace removed.
fn trim_token(t: &Vec<u8>) -> (r: Vec<u8>)
    ensures
        r@ == trim(t@),
{
    proof {
        assert(t@.skip(0int) =~= t@);
    }
    let mut i: usize = 0;
    while i < t.len() && is_space_byte(t[i])
        invariant
            0 <= i <= t@.len(),
            trim_start(t@) == trim_start(t@.skip(i as int)),
        decreases t@.len() - i,
    {
        proof {
            assert(t@.skip(i as int)[0] == t@[i as int]);
            assert(t@.skip(i as int).skip(1) =~= t@.skip(i as int + 1));
        }
        i += 1;
    }
    let ghost ts = t@.skip(i as int);
    proof {
        if i < t@.len() {
            assert(ts[0] == t@[i as int]);
        }
        assert(trim_start(t@) == ts);
        assert(ts.take(t@.len() - i as int) =~= ts);
    }
    let mut j: usize = t.len();
    while j > i && is_space_byte(t[j - 1])
        invariant
            i <= j <= t@.len(),
            ts == t@.skip(i as int),
            trim_end(ts) == trim_end(ts.take(j - i as int)),
        decreases j,
    {
        proof {
            let piece = ts.take(j - i as int);
            assert(piece.len() == j - i as int);
            assert(piece[piece.len() - 1] == ts[j - i as int - 1]);
            assert(ts[j - i as int - 1] == t@[j - 1]);
            assert(piece.drop_last() =~= ts.take(j - 1 - i as int));
        }
        j -= 1;
    }
    proof {
        let piece = ts.take(j - i as int);
        assert(piece.len() == j - i as int);
        if j > i {
            assert(piece[piece.len() - 1] == ts[j - i as int - 1]);
            assert(ts[j - i as int - 1] == t@[j - 1]);
        }
        assert(trim_end(ts) == piece);
    }
    let mut r: Vec<u8> = Vec::new();
    let mut k: usize = i;
    while k < j
        invariant
            i <= k <= j <= t@.len(),
            r@ == t@.subrange(i as int, k as int),
        decreases j - k,
    {
        r.push(t[k]);
        k += 1;
    }
    proof {
        assert(r@ =~= ts.take(j - i as int));
    }
    r
}

/// Parses a ring encoding: strips grouping bytes, splits on commas, trims
/// each token, and pairs the tokens into vertices in input order. Fails, and
/// the whole parse with it, when any token is not a float encoding.
pub fn parse_ring(s: &[u8]) -> (r: Result<Vec<CoordPair>, ParseError>)
    ensures
        match r {
            Ok(v) => ring_ok(s@) && pairs_view(v@) == ring_value(s@),
            Err(_) => !ring_ok(s@),
        },
{
    // Strip the grouping punctuation.
    let mut stripped: Vec<u8> = Vec::new();
    proof {
        assert(s@.skip(0int) =~= s@);
        assert(Seq::<u8>::empty() + strip_group(s@) =~= strip_group(s@));
    }
    let mut i: usize = 0;
    while i < s.len()
        invariant
            0 <= i <= s@.len(),
            strip_group(s@) == stripped@ + strip_group(s@.skip(i as int)),
        decreases s@.len() - i,
    {
        let b = s[i];
        proof {
            assert(s@.skip(i as int)[0] == s@[i as int]);
            assert(s@.skip(i as int).skip(1) =~= s@.skip(i as int + 1));
            if !is_group(s@[i as int]) {
                assert((stripped@ + seq![s@[i as int]]) + strip_group(s@.skip(i as int + 1))
                    =~= stripped@ + (seq![s@[i as int]] + strip_group(s@.skip(i as int + 1))));
                assert(stripped@.push(s@[i as int]) =~= stripped@ + seq![s@[i as int]]);
            }
        }
        if !(b == 40 || b == 41) {
            stripped.push(b);
        }
        i += 1;
    }
    proof {
        assert(s@.skip(s@.len() as int) =~= Seq::<u8>::empty());
        assert(stripped@ + Seq::<u8>::empty() =~= stripped@);
        assert(stripped@ == strip_group(s@));
    }

    // Split on commas.
    let ghost full = split_commas(stripped@);
    let mut toks: Vec<Vec<u8>> = Vec::new();
    let mut cur: Vec<u8> = Vec::new();
    proof {
        lemma_split_nonempty(stripped@);
        assert(stripped@.skip(0int) =~= stripped@);
        assert(full.skip(0int) =~= full);
        assert(Seq::<u8>::empty() + full[0] =~= full[0]);
        assert(prefix_first(Seq::<u8>::empty(), full) =~= full);
    }
    let mut p: usize = 0;
    while p < stripped.len()
        invariant
            0 <= p <= stripped@.len(),
            full == split_commas(stripped@),
            toks@.len() < full.len(),
            forall|m: int| 0 <= m < toks@.len() ==> #[trigger] toks@[m]@ == full[m],
            full.skip(toks@.len() as int) == prefix_first(
                cur@,
                split_commas(stripped@.skip(p as int)),
            ),
        decreases stripped@.len() - p,
    {
        let b = stripped[p];
        proof {
            lemma_split_step(stripped@, p as int);
            lemma_split_nonempty(stripped@.skip(p as int + 1));
            let rest = split_commas(stripped@.skip(p as int + 1));
            let tlen = toks@.len() as int;
            if b == 44 {
                assert((seq![Seq::<u8>::empty()] + rest)[0] == Seq::<u8>::empty());
                assert(cur@ + Seq::<u8>::empty() =~= cur@);
                assert((seq![Seq::<u8>::empty()] + rest).skip(1) =~= rest);
                assert(full.skip(tlen) =~= seq![cur@] + rest);
                assert(full.skip(tlen).len() == full.len() - tlen);
                assert(full.skip(tlen).len() == rest.len() + 1);
                assert(tlen + 1 <= full.len());
                assert(full[tlen] == full.skip(tlen)[0]);
                assert(full[tlen] == cur@);
                assert(full.skip(tlen + 1).len() == rest.len());
                assert forall|m: int| 0 <= m < rest.len() implies #[trigger] full.skip(
                    tlen + 1,
                )[m] == rest[m] by {
                    assert(full.skip(tlen + 1)[m] == full[tlen + 1 + m]);
                    assert(full.skip(tlen)[m + 1] == full[tlen + 1 + m]);
                    assert((seq![cur@] + rest)[m + 1] == rest[m]);
                }
                assert(full.skip(tlen + 1) =~= rest);
                assert(Seq::<u8>::empty() + rest[0] =~= rest[0]);
                assert(prefix_first(Seq::<u8>::empty(), rest) =~= rest);
                assert(full.skip(tlen + 1) == prefix_first(Seq::<u8>::empty(), rest));
            } else {
                let inner = prefix_first(seq![b], rest);
                assert(inner[0] == seq![b] + rest[0]);
                assert(inner.skip(1) =~= rest.skip(1));
                assert(cur@ + (seq![b] + rest[0]) =~= (cur@ + seq![b]) + rest[0]);
                assert(cur@.push(b) =~= cur@ + seq![b]);
                assert(prefix_first(cur@, inner) =~= prefix_first(cur@.push(b), rest));
            }
        }
        if b == 44 {
            toks.push(cur);
            cur = Vec::new();
        } else {
            cur.push(b);
        }
        p += 1;
    }
    proof {
        assert(stripped@.skip(stripped@.len() as int) =~= Seq::<u8>::empty());
        let tlen = toks@.len() as int;
        assert(full.skip(tlen).len() == full.len() - tlen);
        assert(full.skip(tlen) == prefix_first(cur@, split_commas(Seq::<u8>::empty())));
        assert(split_commas(Seq::<u8>::empty()) == seq![Seq::<u8>::empty()]);
        assert(seq![Seq::<u8>::empty()][0] == Seq::<u8>::empty());
        assert(cur@ + Seq::<u8>::empty() =~= cur@);
        assert(seq![Seq::<u8>::empty()].skip(1) =~= Seq::<Seq<u8>>::empty());
        assert(full.skip(tlen) =~= seq![cur@]);
        assert(full.skip(tlen).len() == 1);
        assert(full.len() == tlen + 1);
        assert(full[tlen] == full.skip(tlen)[0]);
        assert(full[tlen] == cur@);
    }
    toks.push(cur);
    proof {
        assert(toks@.len() == full.len());
        assert(forall|m: int| 0 <= m < toks@.len() ==> #[trigger] toks@[m]@ == full[m]);
        assert(n_tokens(s@) == toks@.len());
        assert(forall|k: int| 0 <= k < n_tokens(s@) ==> #[trigger] token_at(s@, k) == trim(
            toks@[k]@,
        ));
    }

    // Trim and validate the tokens, pairing them into vertices.
    let n = toks.len();
    let n_pairs = n / 2 + n % 2;
    let mut out: Vec<CoordPair> = Vec::new();
    let mut j: usize = 0;
    while j < n_pairs
        invariant
            0 <= j <= n_pairs,
            n == toks@.len(),
            n_pairs == n / 2 + n % 2,
            n_tokens(s@) == n as int,
            forall|k: int| 0 <= k < n_tokens(s@) ==> #[trigger] token_at(s@, k) == trim(
                toks@[k]@,
            ),
            out@.len() == j,
            forall|m: int| 0 <= m < j ==> #[trigger] out@[m]@ == ring_vertex(s@, m),
            forall|k: int| 0 <= k < 2 * j && k < n as int ==> float_token_ok(
                #[trigger] token_at(s@, k),
            ),
        decreases n_pairs - j,
    {
        assert(2 * j < n);
        let xt = trim_token(&toks[2 * j]);
        if !is_float_token(xt.as_slice()) {
            proof {
                assert(!float_token_ok(token_at(s@, 2 * j as int)));
            }
            return Err(ParseError);
        }
        let yt: Vec<u8>;
        if 2 * j + 1 < n {
            let y = trim_token(&toks[2 * j + 1]);
            if !is_float_token(y.as_slice()) {
                proof {
                    assert(!float_token_ok(token_at(s@, 2 * j + 1 as int)));
                }
                return Err(ParseError);
            }
            yt = y;
        } else {
            let mut z: Vec<u8> = Vec::new();
            z.push(48);
            proof {
                assert(z@ =~= seq![48u8]);
            }
            yt = z;
        }
        let pair = CoordPair { x: xt, y: yt };
        proof {
            assert(pair@ == ring_vertex(s@, j as int));
        }
        out.push(pair);
        j += 1;
    }
    proof {
        assert(2 * j >= n as int);
        assert(ring_ok(s@));
        assert(ring_len(s@) == n_pairs as int);
        assert(pairs_view(out@) =~= ring_value(s@));
    }
    Ok(out)
}

} // verus!
