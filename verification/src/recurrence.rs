//! The recurrence parser: a comma-separated pattern text becomes a strictly
//! ascending list of day offsets, or falls back to the single-offset
//! pattern `[0]` on any malformed or out-of-order token.

use vstd::prelude::*;

verus! {

// ---------------------------------------------------------------------------
// Tokens and their numeric values
// ---------------------------------------------------------------------------

/// `c` is an ASCII decimal digit (code points 48 through 57).
pub open spec fn is_digit(c: char) -> bool {
    48 <= c as int && c as int <= 57
}

/// The value of an ASCII decimal digit.
pub open spec fn digit_val(c: char) -> int {
    c as int - 48
}

/// The base-10 value of a digit string.
pub open spec fn digits_val(s: Seq<char>) -> int
    decreases s.len(),
{
    if s.len() == 0 {
        0
    } else {
        digits_val(s.drop_last()) * 10 + digit_val(s.last())
    }
}

/// The digit part of a token: an optional leading `+` sign is skipped,
/// as integer parsing accepts one.
pub open spec fn token_digits(t: Seq<char>) -> Seq<char> {
    if t.len() > 0 && t[0] == '+' {
        t.skip(1)
    } else {
        t
    }
}

/// `t` reads as a non-negative integer that fits a `u32`.
pub open spec fn is_uint_token(t: Seq<char>) -> bool {
    let d = token_digits(t);
    &&& d.len() > 0
    &&& (forall|i: int| 0 <= i < d.len() ==> is_digit(#[trigger] d[i]))
    &&& digits_val(d) <= u32::MAX
}

/// The numeric value a token reads as.
pub open spec fn token_value(t: Seq<char>) -> int {
    digits_val(token_digits(t))
}

// ---------------------------------------------------------------------------
// Splitting on commas
// ---------------------------------------------------------------------------

/// Index of the first comma of `s`, or `s.len()` if there is none.
pub open spec fn first_comma(s: Seq<char>) -> nat
    decreases s.len(),
{
    if s.len() == 0 {
        0
    } else if s[0] == ',' {
        0
    } else {
        1 + first_comma(s.skip(1))
    }
}

pub proof fn lemma_first_comma(s: Seq<char>)
    ensures
        first_comma(s) <= s.len(),
        first_comma(s) < s.len() ==> s[first_comma(s) as int] == ',',
        forall|i: int| 0 <= i < first_comma(s) ==> s[i] != ',',
    decreases s.len(),
{
    if s.len() == 0 {
    } else if s[0] == ',' {
    } else {
        lemma_first_comma(s.skip(1));
        assert forall|i: int| 0 <= i < first_comma(s) implies s[i] != ',' by {
            if i >= 1 {
                assert(s.skip(1)[i - 1] == s[i]);
            }
        }
        if first_comma(s) < s.len() {
            assert(s.skip(1)[first_comma(s) - 1] == s[first_comma(s) as int]);
        }
    }
}

/// The comma-separated pieces of `s`, commas excluded.  The empty text has
/// one piece, the empty one, as splitting a string always yields at least
/// one piece.
pub open spec fn split_commas(s: Seq<char>) -> Seq<Seq<char>>
    decreases s.len(),
{
    let k = first_comma(s) as int;
    if k >= s.len() {
        seq![s]
    } else {
        seq![s.take(k)] + split_commas(s.skip(k + 1))
    }
}

pub proof fn lemma_split_commas_nonempty(s: Seq<char>)
    ensures
        split_commas(s).len() >= 1,
{
}

/// Every piece reads as an integer.
pub open spec fn all_tokens_valid(toks: Seq<Seq<char>>) -> bool {
    forall|i: int| 0 <= i < toks.len() ==> is_uint_token(#[trigger] toks[i])
}

/// The values the pieces read as.
pub open spec fn token_values(toks: Seq<Seq<char>>) -> Seq<u32> {
    toks.map(|i: int, t: Seq<char>| token_value(t) as u32)
}

/// Each value strictly exceeds every earlier one.
pub open spec fn strictly_ascending(vals: Seq<u32>) -> bool {
    forall|i: int, j: int| 0 <= i < j < vals.len() ==> vals[i] < vals[j]
}

/// A pattern text is well-formed when every comma-separated token reads as
/// a non-negative integer and the values are strictly ascending.
pub open spec fn valid_pattern_text(s: Seq<char>) -> bool {
    &&& all_tokens_valid(split_commas(s))
    &&& strictly_ascending(token_values(split_commas(s)))
}

/// What parsing returns: the token values of a well-formed text, and the
/// single-offset fallback pattern `[0]` for every other text.
pub open spec fn parse_spec(s: Seq<char>) -> Seq<u32> {
    if valid_pattern_text(s) {
        token_values(split_commas(s))
    } else {
        seq![0u32]
    }
}

// ---------------------------------------------------------------------------
// Laws of the parser
// ---------------------------------------------------------------------------

/// For a well-formed text — every comma-separated token a non-negative
/// integer, the values strictly ascending — parsing returns exactly those
/// values, in their order.
pub proof fn lemma_parse_well_formed(s: Seq<char>)
    requires
        valid_pattern_text(s),
    ensures
        parse_spec(s) == token_values(split_commas(s)),
{
}

/// For a text with a token that reads as no integer, or with a descending
/// or equal pair of values, parsing falls back to `[0]`.
pub proof fn lemma_parse_fallback(s: Seq<char>)
    requires
        !valid_pattern_text(s),
    ensures
        parse_spec(s) == seq![0u32],
{
}

/// The empty text parses to `[0]`: its one token is empty, and the empty
/// token reads as no integer.
pub proof fn lemma_parse_empty(s: Seq<char>)
    requires
        s.len() == 0,
    ensures
        parse_spec(s) == seq![0u32],
{
    let toks = split_commas(s);
    assert(toks == seq![s]);
    assert(!is_uint_token(toks[0]));
    if valid_pattern_text(s) {
        assert(is_uint_token(toks[0]));
    }
}

/// Whatever the text, the parsed pattern is non-empty and strictly
/// ascending.
pub proof fn lemma_pattern_invariant(s: Seq<char>)
    ensures
        parse_spec(s).len() >= 1,
        strictly_ascending(parse_spec(s)),
{
    if valid_pattern_text(s) {
        lemma_split_commas_nonempty(s);
    }
}

// ---------------------------------------------------------------------------
// Facts used by the parsing loops
// ---------------------------------------------------------------------------

proof fn lemma_digits_val_nonneg(s: Seq<char>)
    requires
        forall|i: int| 0 <= i < s.len() ==> is_digit(#[trigger] s[i]),
    ensures
        digits_val(s) >= 0,
    decreases s.len(),
{
    if s.len() > 0 {
        assert(forall|i: int|
            0 <= i < s.drop_last().len() ==> is_digit(#[trigger] s.drop_last()[i]));
        lemma_digits_val_nonneg(s.drop_last());
    }
}

/// A digit string's value is at least the value of any of its prefixes.
proof fn lemma_digits_val_prefix(s: Seq<char>, n: int)
    requires
        0 <= n <= s.len(),
        forall|i: int| 0 <= i < s.len() ==> is_digit(#[trigger] s[i]),
    ensures
        digits_val(s.take(n)) <= digits_val(s),
    decreases s.len() - n,
{
    if n == s.len() {
        assert(s.take(n) =~= s);
    } else {
        assert(s.take(n + 1).drop_last() =~= s.take(n));
        assert(s.take(n + 1).last() == s[n]);
        assert(forall|i: int|
            0 <= i < s.take(n).len() ==> is_digit(#[trigger] s.take(n)[i]));
        lemma_digits_val_nonneg(s.take(n));
        lemma_digits_val_prefix(s, n + 1);
    }
}

/// One invalid token makes the whole text fall back.
proof fn lemma_invalid_token(s: Seq<char>, t: int)
    requires
        0 <= t < split_commas(s).len(),
        !is_uint_token(split_commas(s)[t]),
    ensures
        parse_spec(s) == seq![0u32],
{
    if valid_pattern_text(s) {
        assert(is_uint_token(split_commas(s)[t]));
    }
}

/// One out-of-order pair of values makes the whole text fall back.
proof fn lemma_unordered_pair(s: Seq<char>, i: int, j: int)
    requires
        0 <= i < j < split_commas(s).len(),
        !(token_values(split_commas(s))[i] < token_values(split_commas(s))[j]),
    ensures
        parse_spec(s) == seq![0u32],
{
    if valid_pattern_text(s) {
        assert(token_values(split_commas(s))[i] < token_values(split_commas(s))[j]);
    }
}

// ---------------------------------------------------------------------------
// The parser
// ---------------------------------------------------------------------------

/// The single-offset fallback pattern `[0]`.
fn fallback_pattern() -> (r: Vec<u32>)
    ensures
        r@ =~= seq![0u32],
{
    let mut r: Vec<u32> = Vec::new();
    r.push(0);
    r
}

/// Parses a pattern text into its list of offsets, falling back to `[0]`
/// on any malformed token or out-of-order value.
pub(crate) fn parse_pattern(text: &str) -> (r: Vec<u32>)
    ensures
        r@ == parse_spec(text@),
{
    let n = text.unicode_len();
    let ghost toks = split_commas(text@);
    let mut vals: Vec<u32> = Vec::new();
    let mut pos: usize = 0;
    let mut more = true;
    proof {
        assert(text@.skip(0) =~= text@);
        assert(toks.skip(0) =~= toks);
    }
    while more
        invariant
            n == text@.len(),
            toks == split_commas(text@),
            vals@.len() <= toks.len(),
            more ==> pos <= n,
            more ==> split_commas(text@.skip(pos as int)) == toks.skip(vals@.len() as int),
            !more ==> vals@.len() == toks.len(),
            vals@ == token_values(toks.take(vals@.len() as int)),
            forall|i: int| 0 <= i < vals@.len() ==> is_uint_token(#[trigger] toks[i]),
            strictly_ascending(vals@),
        decreases (if more { 1int } else { 0int }), n - pos,
    {
        let ghost t = vals@.len() as int;
        let ghost rest = text@.skip(pos as int);

        // The current token runs from `pos` to the next comma or the end.
        let mut k = pos;
        while k < n && text.get_char(k) != ','
            invariant
                pos <= k <= n,
                n == text@.len(),
                forall|i: int| pos <= i < k ==> text@[i] != ',',
            decreases n - k,
        {
            k = k + 1;
        }

        let ghost tok = text@.subrange(pos as int, k as int);
        proof {
            lemma_first_comma(rest);
            lemma_split_commas_nonempty(rest);
            assert forall|i: int| 0 <= i < k - pos implies rest[i] != ',' by {
                assert(rest[i] == text@[pos + i]);
            }
            if k < n {
                assert(rest[k - pos] == text@[k as int]);
            }
            // the comma search found exactly the first comma of the rest
            if first_comma(rest) < k - pos {
                assert(rest[first_comma(rest) as int] == ',');
                assert(false);
            }
            if first_comma(rest) > k - pos {
                if k < n {
                    assert(rest[k - pos] != ',');
                }
                assert(false);
            }
            assert(first_comma(rest) == k - pos);
            // so the spec splitting puts `tok` next
            assert(rest.take(k - pos) =~= tok);
            if k == n {
                assert(rest =~= tok);
                assert(split_commas(rest) == seq![tok]);
            } else {
                assert(split_commas(rest) == seq![tok] + split_commas(rest.skip(k - pos + 1)));
                assert(rest.skip(k - pos + 1) =~= text@.skip(k + 1));
            }
            assert(toks.skip(t).len() >= 1);
            assert(t < toks.len());
            assert(toks[t] == toks.skip(t)[0]);
            assert(toks[t] == tok);
        }

        // An optional leading '+' sign, then the digits.
        let mut q = pos;
        if q < k && text.get_char(q) == '+' {
            q = q + 1;
        }
        let ghost dgs = token_digits(tok);
        proof {
            if pos < k && text@[pos as int] == '+' {
                assert(tok[0] == '+');
                assert(dgs =~= text@.subrange(q as int, k as int));
            } else {
                assert(dgs =~= text@.subrange(q as int, k as int));
            }
        }

        if q == k {
            // an empty digit string reads as no integer
            proof {
                assert(dgs.len() == 0);
                lemma_invalid_token(text@, t);
            }
            return fallback_pattern();
        }

        let mut v: u64 = 0;
        let mut idx = q;
        while idx < k
            invariant
                q <= idx <= k <= n,
                n == text@.len(),
                pos <= q <= k,
                dgs == text@.subrange(q as int, k as int),
                forall|i: int| q <= i < idx ==> is_digit(#[trigger] text@[i]),
                v == digits_val(text@.subrange(q as int, idx as int)),
                v <= u32::MAX,
                toks == split_commas(text@),
                tok == text@.subrange(pos as int, k as int),
                0 <= t < toks.len(),
                toks[t] == tok,
                dgs == token_digits(tok),
            decreases k - idx,
        {
            let c = text.get_char(idx);
            let cv = c as u32;
            if cv < 48 || cv > 57 {
                // a non-digit character: the token reads as no integer
                proof {
                    assert(dgs[idx - q] == text@[idx as int]);
                    assert(!is_digit(dgs[idx - q]));
                    lemma_invalid_token(text@, t);
                }
                return fallback_pattern();
            }
            let d = (cv - 48) as u64;
            let w = v * 10 + d;
            if w > u32::MAX as u64 {
                // too large for a u32 offset, whatever follows
                proof {
                    assert(text@.subrange(q as int, idx + 1).drop_last()
                        =~= text@.subrange(q as int, idx as int));
                    assert(text@.subrange(q as int, idx + 1).last() == text@[idx as int]);
                    assert(w == digits_val(text@.subrange(q as int, idx + 1)));
                    if forall|i: int| 0 <= i < dgs.len() ==> is_digit(#[trigger] dgs[i]) {
                        assert(dgs.take(idx + 1 - q) =~= text@.subrange(q as int, idx + 1));
                        lemma_digits_val_prefix(dgs, idx + 1 - q);
                        assert(digits_val(dgs) > u32::MAX);
                    }
                    assert(!is_uint_token(tok));
                    lemma_invalid_token(text@, t);
                }
                return fallback_pattern();
            }
            proof {
                assert(text@.subrange(q as int, idx + 1).drop_last()
                    =~= text@.subrange(q as int, idx as int));
                assert(text@.subrange(q as int, idx + 1).last() == text@[idx as int]);
            }
            v = w;
            idx = idx + 1;
        }

        proof {
            assert(text@.subrange(q as int, k as int) == dgs);
            assert forall|i: int| 0 <= i < dgs.len() implies is_digit(#[trigger] dgs[i]) by {
                assert(dgs[i] == text@[q + i]);
            }
            assert(is_uint_token(tok));
            assert(token_value(tok) == v);
        }

        let val = v as u32;
        if vals.len() > 0 {
            let last = vals[vals.len() - 1];
            if val <= last {
                // a descending or equal pair: the whole pattern falls back
                proof {
                    assert(vals@[t - 1] == token_values(toks.take(t))[t - 1]);
                    assert(token_values(toks)[t - 1] == vals@[t - 1]);
                    assert(token_values(toks)[t] == token_value(toks[t]) as u32);
                    lemma_unordered_pair(text@, t - 1, t);
                }
                return fallback_pattern();
            }
        }
        vals.push(val);
        proof {
            assert(vals@ =~= token_values(toks.take(t + 1)));
            assert forall|i: int, j: int| 0 <= i < j < vals@.len() implies
                vals@[i] < vals@[j] by {
                if j < t {
                    assert(vals@.drop_last()[i] < vals@.drop_last()[j]);
                }
            }
        }

        if k < n {
            proof {
                assert(toks.skip(t).skip(1) =~= toks.skip(t + 1));
                assert((seq![tok] + split_commas(rest.skip(k - pos + 1))).skip(1)
                    =~= split_commas(rest.skip(k - pos + 1)));
                assert(split_commas(text@.skip(k + 1)) == toks.skip(t + 1));
            }
            pos = k + 1;
        } else {
            more = false;
            proof {
                assert(toks.skip(t) == seq![tok]);
                assert(toks.skip(t).len() == 1);
                assert(vals@.len() == toks.len());
            }
        }
    }
    proof {
        assert(toks.take(toks.len() as int) =~= toks);
        assert(valid_pattern_text(text@));
    }
    vals
}

} // verus!
