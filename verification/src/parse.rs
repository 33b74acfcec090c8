//! Parsing of the whitespace-separated dataset text.
//!
//! A dataset is a header line `"<n> <W>"` followed by item lines
//! `"<value> <weight>"`; the numbers are unsigned decimal numerals. A
//! malformed line — a token count other than two, or a token that is not a
//! numeral in range — is a fatal input error, as is a bad header. Reading
//! the file and splitting it into lines is the caller's side; this module
//! turns the lines themselves into numbers.

use vstd::prelude::*;
use vstd::slice::slice_subrange;

verus! {

/// Blank byte inside a line: space, tab, or carriage return.
pub open spec fn is_ws(b: u8) -> bool {
    b == 32 || b == 9 || b == 13
}

/// ASCII decimal digit.
pub open spec fn is_digit(b: u8) -> bool {
    48 <= b <= 57
}

/// The maximal runs of non-blank bytes of a line, in order.
pub open spec fn spec_tokens(s: Seq<u8>) -> Seq<Seq<u8>>
    decreases s.len(),
{
    if s.len() == 0 {
        Seq::empty()
    } else {
        let rest = spec_tokens(s.drop_first());
        if is_ws(s[0]) {
            rest
        } else if s.len() > 1 && !is_ws(s[1]) {
            seq![seq![s[0]] + rest[0]] + rest.drop_first()
        } else {
            seq![seq![s[0]]] + rest
        }
    }
}

/// A non-empty, all-digit token.
pub open spec fn is_numeral(t: Seq<u8>) -> bool {
    t.len() > 0 && forall|k: int| 0 <= k < t.len() ==> is_digit(t[k])
}

/// The number an all-digit token denotes.
pub open spec fn numeral_value(t: Seq<u8>) -> int
    decreases t.len(),
{
    if t.len() == 0 {
        0
    } else {
        10 * numeral_value(t.drop_last()) + (t.last() - 48)
    }
}

/// The header line carries at least two tokens, and its first two are
/// numerals that fit in `usize`.
pub open spec fn header_ok(line: Seq<u8>) -> bool {
    let toks = spec_tokens(line);
    &&& toks.len() >= 2
    &&& is_numeral(toks[0])
    &&& numeral_value(toks[0]) <= usize::MAX
    &&& is_numeral(toks[1])
    &&& numeral_value(toks[1]) <= usize::MAX
}

/// An item line carries exactly two tokens, both numerals that fit in
/// `i32`: one value and one weight. Anything else is malformed.
pub open spec fn item_line_ok(line: Seq<u8>) -> bool {
    let toks = spec_tokens(line);
    &&& toks.len() == 2
    &&& is_numeral(toks[0])
    &&& numeral_value(toks[0]) <= i32::MAX
    &&& is_numeral(toks[1])
    &&& numeral_value(toks[1]) <= i32::MAX
}

/// The whole text parses: a good header, and every further line a good
/// item line.
pub open spec fn dataset_ok(lines: Seq<Seq<u8>>) -> bool {
    &&& lines.len() >= 1
    &&& header_ok(lines[0])
    &&& forall|i: int| 1 <= i < lines.len() ==> item_line_ok(#[trigger] lines[i])
}

/// The values of the items on the first `k` lines, in order: one per line
/// after the header.
pub open spec fn spec_values(lines: Seq<Seq<u8>>, k: int) -> Seq<i32>
    decreases k,
{
    if k <= 1 {
        Seq::empty()
    } else {
        spec_values(lines, k - 1).push(numeral_value(spec_tokens(lines[k - 1])[0]) as i32)
    }
}

/// The weights of the items on the first `k` lines, in order: one per line
/// after the header.
pub open spec fn spec_weights(lines: Seq<Seq<u8>>, k: int) -> Seq<i32>
    decreases k,
{
    if k <= 1 {
        Seq::empty()
    } else {
        spec_weights(lines, k - 1).push(numeral_value(spec_tokens(lines[k - 1])[1]) as i32)
    }
}

/// One parsed dataset: the declared item count and capacity from the
/// header, and the value and weight columns of the item lines.
pub struct Dataset {
    pub item_count: usize,
    pub capacity: usize,
    pub values: Vec<i32>,
    pub weights: Vec<i32>,
}

/// A run of non-blank bytes closed on both sides is the line's front token.
proof fn lemma_token_prefix(s: Seq<u8>, j: int)
    requires
        0 < j <= s.len(),
        forall|k: int| 0 <= k < j ==> !is_ws(s[k]),
        j == s.len() || is_ws(s[j]),
    ensures
        spec_tokens(s) == seq![s.subrange(0, j)] + spec_tokens(s.skip(j)),
    decreases j,
{
    let rest = spec_tokens(s.drop_first());
    if j == 1 {
        assert(seq![s[0]] =~= s.subrange(0, 1));
        assert(s.drop_first() =~= s.skip(1));
        assert(spec_tokens(s) =~= seq![s.subrange(0, 1)] + spec_tokens(s.skip(1)));
    } else {
        lemma_token_prefix(s.drop_first(), j - 1);
        assert(s.drop_first().subrange(0, j - 1) =~= s.subrange(1, j));
        assert(s.drop_first().skip(j - 1) =~= s.skip(j));
        assert(rest.drop_first() =~= spec_tokens(s.skip(j)));
        assert(seq![s[0]] + s.subrange(1, j) =~= s.subrange(0, j));
        assert(spec_tokens(s) =~= seq![s.subrange(0, j)] + spec_tokens(s.skip(j)));
    }
}

/// A leading blank byte never carries a token.
proof fn lemma_skip_ws(s: Seq<u8>, i: int)
    requires
        0 <= i < s.len(),
        is_ws(s[i]),
    ensures
        spec_tokens(s.skip(i)) == spec_tokens(s.skip(i + 1)),
{
    assert(s.skip(i).drop_first() =~= s.skip(i + 1));
}

/// Splits a line into its whitespace-separated tokens.
#[verifier::loop_isolation(false)]
fn tokens<'a>(line: &'a [u8]) -> (toks: Vec<&'a [u8]>)
    ensures
        toks@.map_values(|t: &[u8]| t@) == spec_tokens(line@),
{
    let ghost s = line@;
    let mut toks: Vec<&[u8]> = Vec::new();
    let mut i: usize = 0;
    proof {
        assert(s.skip(0) =~= s);
        assert(toks@.map_values(|t: &[u8]| t@) + spec_tokens(s) =~= spec_tokens(s));
    }
    while i < line.len()
        invariant
            i <= line.len(),
            spec_tokens(s) == toks@.map_values(|t: &[u8]| t@) + spec_tokens(s.skip(i as int)),
        decreases line.len() - i,
    {
        let b = line[i];
        if b == 32 || b == 9 || b == 13 {
            proof {
                lemma_skip_ws(s, i as int);
            }
            i += 1;
        } else {
            let mut j: usize = i + 1;
            while j < line.len() && !(line[j] == 32 || line[j] == 9 || line[j] == 13)
                invariant
                    i < j <= line.len(),
                    forall|k: int| i <= k < j ==> !is_ws(s[k]),
                decreases line.len() - j,
            {
                j += 1;
            }
            let tok = slice_subrange(line, i, j);
            let ghost old_toks = toks@;
            toks.push(tok);
            proof {
                lemma_token_prefix(s.skip(i as int), j - i);
                assert(s.skip(i as int).subrange(0, j - i) =~= s.subrange(i as int, j as int));
                assert(s.skip(i as int).skip(j - i) =~= s.skip(j as int));
                assert(toks@.map_values(|t: &[u8]| t@) =~= old_toks.map_values(|t: &[u8]| t@)
                    + seq![tok@]);
                assert(old_toks.map_values(|t: &[u8]| t@) + (seq![s.subrange(i as int, j as int)]
                    + spec_tokens(s.skip(j as int))) =~= toks@.map_values(|t: &[u8]| t@)
                    + spec_tokens(s.skip(j as int)));
            }
            i = j;
        }
    }
    proof {
        assert(s.skip(s.len() as int) =~= Seq::<u8>::empty());
        assert(toks@.map_values(|t: &[u8]| t@) + spec_tokens(s.skip(s.len() as int))
            =~= toks@.map_values(|t: &[u8]| t@));
    }
    toks
}

/// A numeral's digits never denote a negative number.
proof fn lemma_numeral_value_nonneg(t: Seq<u8>)
    requires
        forall|k: int| 0 <= k < t.len() ==> is_digit(t[k]),
    ensures
        numeral_value(t) >= 0,
    decreases t.len(),
{
    if t.len() > 0 {
        lemma_numeral_value_nonneg(t.drop_last());
    }
}

/// Reading further digits never lowers a numeral's value.
proof fn lemma_numeral_value_monotonic(t: Seq<u8>, i: int, j: int)
    requires
        0 <= i <= j <= t.len(),
        forall|k: int| 0 <= k < t.len() ==> is_digit(t[k]),
    ensures
        numeral_value(t.subrange(0, i)) <= numeral_value(t.subrange(0, j)),
    decreases j - i,
{
    if i < j {
        lemma_numeral_value_monotonic(t, i, j - 1);
        assert(t.subrange(0, j).drop_last() =~= t.subrange(0, j - 1));
        lemma_numeral_value_nonneg(t.subrange(0, j - 1));
    }
}

/// Reads an unsigned decimal numeral, refusing any value above `limit`.
#[verifier::loop_isolation(false)]
fn parse_u64_max(tok: &[u8], limit: u64) -> (r: Option<u64>)
    ensures
        r.is_some() <==> is_numeral(tok@) && numeral_value(tok@) <= limit,
        r matches Some(v) ==> v == numeral_value(tok@),
{
    if tok.len() == 0 {
        return None;
    }
    let mut v: u64 = 0;
    let mut i: usize = 0;
    while i < tok.len()
        invariant
            i <= tok.len(),
            forall|k: int| 0 <= k < i ==> is_digit(tok@[k]),
            v == numeral_value(tok@.subrange(0, i as int)),
            v <= limit,
        decreases tok.len() - i,
    {
        let b = tok[i];
        if b < 48 || b > 57 {
            return None;
        }
        let d = (b - 48) as u64;
        if d > limit || v > (limit - d) / 10 {
            proof {
                if d <= limit {
                    assert(10 * v + d > limit) by (nonlinear_arith)
                        requires
                            d <= limit,
                            v > (limit - d) / 10,
                    ;
                }
                assert(tok@.subrange(0, i + 1).drop_last() =~= tok@.subrange(0, i as int));
                if is_numeral(tok@) {
                    lemma_numeral_value_monotonic(tok@, i + 1, tok@.len() as int);
                    assert(tok@.subrange(0, tok@.len() as int) =~= tok@);
                }
            }
            return None;
        }
        proof {
            assert(10 * v + d <= limit) by (nonlinear_arith)
                requires
                    d <= limit,
                    v <= (limit - d) / 10,
            ;
            assert(tok@.subrange(0, i + 1).drop_last() =~= tok@.subrange(0, i as int));
        }
        v = v * 10 + d;
        i += 1;
    }
    proof {
        assert(tok@.subrange(0, tok@.len() as int) =~= tok@);
    }
    Some(v)
}

/// Reads the header line: the declared item count and the capacity.
pub fn parse_header(line: &[u8]) -> (r: Option<(usize, usize)>)
    ensures
        r.is_some() <==> header_ok(line@),
        r matches Some(p) ==> p.0 == numeral_value(spec_tokens(line@)[0]) && p.1 == numeral_value(
            spec_tokens(line@)[1],
        ),
{
    let toks = tokens(line);
    if toks.len() < 2 {
        return None;
    }
    let first = parse_u64_max(toks[0], usize::MAX as u64);
    let second = parse_u64_max(toks[1], usize::MAX as u64);
    match (first, second) {
        (Some(a), Some(b)) => Some((a as usize, b as usize)),
        _ => None,
    }
}

/// Parses a whole dataset from its lines: the header first, then one item
/// per line. Returns `None` exactly when the text is malformed — a bad
/// header, a wrong token count, or a token that is not a numeral in range
/// is a fatal input error.
#[verifier::loop_isolation(false)]
pub fn parse_dataset(lines: &Vec<Vec<u8>>) -> (r: Option<Dataset>)
    ensures
        r.is_some() <==> dataset_ok(lines@.map_values(|l: Vec<u8>| l@)),
        r matches Some(d) ==> d.item_count == numeral_value(
            spec_tokens(lines@.map_values(|l: Vec<u8>| l@)[0])[0],
        ),
        r matches Some(d) ==> d.capacity == numeral_value(
            spec_tokens(lines@.map_values(|l: Vec<u8>| l@)[0])[1],
        ),
        r matches Some(d) ==> d.values@ == spec_values(
            lines@.map_values(|l: Vec<u8>| l@),
            lines@.len() as int,
        ),
        r matches Some(d) ==> d.weights@ == spec_weights(
            lines@.map_values(|l: Vec<u8>| l@),
            lines@.len() as int,
        ),
{
    let ghost ls = lines@.map_values(|l: Vec<u8>| l@);
    if lines.len() == 0 {
        return None;
    }
    let header = match parse_header(lines[0].as_slice()) {
        Some(p) => p,
        None => {
            return None;
        },
    };
    let mut values: Vec<i32> = Vec::new();
    let mut weights: Vec<i32> = Vec::new();
    let mut i: usize = 1;
    while i < lines.len()
        invariant
            1 <= i <= lines.len(),
            forall|k: int| 1 <= k < i ==> item_line_ok(#[trigger] ls[k]),
            values@ == spec_values(ls, i as int),
            weights@ == spec_weights(ls, i as int),
        decreases lines.len() - i,
    {
        let toks = tokens(lines[i].as_slice());
        if toks.len() != 2 {
            proof {
                assert(!item_line_ok(ls[i as int]));
            }
            return None;
        }
        let value = parse_u64_max(toks[0], i32::MAX as u64);
        let weight = parse_u64_max(toks[1], i32::MAX as u64);
        match (value, weight) {
            (Some(a), Some(b)) => {
                values.push(a as i32);
                weights.push(b as i32);
            },
            _ => {
                proof {
                    assert(!item_line_ok(ls[i as int]));
                }
                return None;
            },
        }
        i += 1;
    }
    Some(
        Dataset {
            item_count: header.0,
            capacity: header.1,
            values,
            weights,
        },
    )
}

} // verus!
