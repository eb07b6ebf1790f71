//! The rule parser: turning an `exclude_suffix`-style directive into its
//! ordered list of lowercase suffix tokens.

use vstd::prelude::*;

verus! {

/// Which policy governs generation when no exclusion is configured.
///
/// Under `Basic`, an absent directive falls back to the single built-in
/// token `at`. Under `Skippable`, there is no fallback: generation demands
/// either a directive that supplies at least one token or at least one
/// field with an explicit skip marker.
#[derive(Debug, Clone, Copy, PartialEq, Eq, Structural)]
pub enum Policy {
    Basic,
    Skippable,
}

/// Why comparator generation failed. All failures are fatal: no comparator
/// is produced.
#[derive(Debug, Clone, Copy, PartialEq, Eq, Structural)]
pub enum GenError {
    /// The annotated type is not a named-field record.
    UnsupportedShape,
    /// Under the `Skippable` policy, nothing says what to skip.
    MissingExclusionConfiguration,
    /// The directive holds a byte that is neither part of a token nor a
    /// separator.
    MalformedDirective,
}

pub const TAB: u8 = 9;

pub const LINE_FEED: u8 = 10;

pub const CARRIAGE_RETURN: u8 = 13;

pub const SPACE: u8 = 32;

pub const COMMA: u8 = 44;

pub const DIGIT_ZERO: u8 = 48;

pub const DIGIT_NINE: u8 = 57;

pub const UPPER_A: u8 = 65;

pub const UPPER_Z: u8 = 90;

pub const UNDERSCORE: u8 = 95;

pub const LOWER_A: u8 = 97;

pub const LOWER_Z: u8 = 122;

/// The distance between an ASCII uppercase letter and its lowercase form.
pub const CASE_OFFSET: u8 = 32;

/// A byte that may appear inside a token: an ASCII letter, digit or
/// underscore.
pub open spec fn is_token_byte(b: u8) -> bool {
    ||| UPPER_A <= b && b <= UPPER_Z
    ||| LOWER_A <= b && b <= LOWER_Z
    ||| DIGIT_ZERO <= b && b <= DIGIT_NINE
    ||| b == UNDERSCORE
}

/// A byte that separates tokens: a comma or ASCII whitespace.
pub open spec fn is_separator_byte(b: u8) -> bool {
    b == COMMA || b == SPACE || b == TAB || b == LINE_FEED || b == CARRIAGE_RETURN
}

/// ASCII lowercasing of a single byte.
pub open spec fn lower_byte(b: u8) -> u8 {
    if UPPER_A <= b && b <= UPPER_Z {
        (b + CASE_OFFSET) as u8
    } else {
        b
    }
}

/// A directive is well formed iff every byte is either a token byte or a
/// separator.
pub open spec fn directive_well_formed(s: Seq<u8>) -> bool {
    forall|i: int| 0 <= i < s.len() ==> is_token_byte(#[trigger] s[i]) || is_separator_byte(s[i])
}

/// The length of the leading run of token bytes.
pub open spec fn token_run(s: Seq<u8>) -> nat
    decreases s.len(),
{
    if s.len() == 0 || !is_token_byte(s[0]) {
        0
    } else {
        (1 + token_run(s.skip(1))) as nat
    }
}

pub proof fn lemma_token_run_le_len(s: Seq<u8>)
    ensures
        token_run(s) <= s.len(),
    decreases s.len(),
{
    if s.len() != 0 && is_token_byte(s[0]) {
        lemma_token_run_le_len(s.skip(1));
    }
}

/// The lowercased tokens of a directive, in order: the maximal runs of
/// token bytes, with every other byte acting as a separator.
pub open spec fn tokens_of(s: Seq<u8>) -> Seq<Seq<u8>>
    decreases s.len(),
    via tokens_of_decreases
{
    if s.len() == 0 {
        Seq::empty()
    } else if !is_token_byte(s[0]) {
        tokens_of(s.skip(1))
    } else {
        seq![s.take(token_run(s) as int).map_values(|b: u8| lower_byte(b))] + tokens_of(
            s.skip(token_run(s) as int),
        )
    }
}

#[via_fn]
proof fn tokens_of_decreases(s: Seq<u8>) {
    lemma_token_run_le_len(s);
}

/// The views of a list of byte vectors, in order.
pub open spec fn views_of(ts: Seq<Vec<u8>>) -> Seq<Seq<u8>> {
    ts.map_values(|t: Vec<u8>| t@)
}

/// The leading token run is exactly `n` when the first `n` bytes are token
/// bytes and the run stops there.
proof fn lemma_token_run_exact(s: Seq<u8>, n: int)
    requires
        0 <= n <= s.len(),
        forall|j: int| 0 <= j < n ==> is_token_byte(#[trigger] s[j]),
        n == s.len() || !is_token_byte(s[n]),
    ensures
        token_run(s) == n,
    decreases n,
{
    if n == 0 {
    } else {
        assert(is_token_byte(s[0]));
        lemma_token_run_exact(s.skip(1), n - 1);
    }
}

fn byte_is_token(b: u8) -> (r: bool)
    ensures
        r == is_token_byte(b),
{
    (UPPER_A <= b && b <= UPPER_Z) || (LOWER_A <= b && b <= LOWER_Z) || (DIGIT_ZERO <= b && b
        <= DIGIT_NINE) || b == UNDERSCORE
}

fn byte_is_separator(b: u8) -> (r: bool)
    ensures
        r == is_separator_byte(b),
{
    b == COMMA || b == SPACE || b == TAB || b == LINE_FEED || b == CARRIAGE_RETURN
}

fn byte_to_lower(b: u8) -> (r: u8)
    ensures
        r == lower_byte(b),
{
    if UPPER_A <= b && b <= UPPER_Z {
        b + CASE_OFFSET
    } else {
        b
    }
}

/// Parses a directive's raw bytes into its lowercase tokens, in order.
/// Tokens are maximal runs of ASCII letters, digits and underscores;
/// commas and whitespace separate them; any other byte makes the whole
/// directive malformed and generation fails.
pub fn parse_directive(s: &Vec<u8>) -> (r: Result<Vec<Vec<u8>>, GenError>)
    ensures
        r is Ok <==> directive_well_formed(s@),
        r is Ok ==> views_of(r->Ok_0@) == tokens_of(s@),
        r is Err ==> r->Err_0 == GenError::MalformedDirective,
{
    let mut out: Vec<Vec<u8>> = Vec::new();
    let mut i: usize = 0;
    proof {
        assert(s@.skip(0) =~= s@);
        assert(views_of(out@) + tokens_of(s@) =~= tokens_of(s@));
    }
    while i < s.len()
        invariant
            i <= s@.len(),
            forall|j: int|
                0 <= j < i ==> is_token_byte(#[trigger] s@[j]) || is_separator_byte(s@[j]),
            tokens_of(s@) == views_of(out@) + tokens_of(s@.skip(i as int)),
        decreases s@.len() - i,
    {
        let b = s[i];
        if byte_is_separator(b) {
            proof {
                assert(s@.skip(i as int)[0] == s@[i as int]);
                assert(s@.skip(i as int).skip(1) =~= s@.skip(i as int + 1));
            }
            i = i + 1;
        } else if byte_is_token(b) {
            let ghost start = i as int;
            let mut tok: Vec<u8> = Vec::new();
            while i < s.len() && byte_is_token(s[i])
                invariant
                    0 <= start <= i as int <= s@.len(),
                    forall|j: int| start <= j < i as int ==> is_token_byte(#[trigger] s@[j]),
                    tok@ == s@.subrange(start, i as int).map_values(|b: u8| lower_byte(b)),
                decreases s@.len() - i,
            {
                let lowered = byte_to_lower(s[i]);
                tok.push(lowered);
                proof {
                    assert(s@.subrange(start, i as int + 1) =~= s@.subrange(
                        start,
                        i as int,
                    ).push(s@[i as int]));
                    assert(s@.subrange(start, i as int + 1).map_values(|b: u8| lower_byte(b))
                        =~= s@.subrange(start, i as int).map_values(|b: u8| lower_byte(b)).push(
                        lower_byte(s@[i as int]),
                    ));
                }
                i = i + 1;
            }
            proof {
                let ghost n = i as int - start;
                let ghost rest = s@.skip(start);
                assert(n >= 1);
                assert forall|j: int| 0 <= j < n implies is_token_byte(#[trigger] rest[j]) by {
                    assert(rest[j] == s@[start + j]);
                }
                if n < rest.len() {
                    assert(rest[n] == s@[i as int]);
                }
                lemma_token_run_exact(rest, n);
                assert(rest.take(n) =~= s@.subrange(start, i as int));
                assert(rest.skip(n) =~= s@.skip(i as int));
                assert(tokens_of(rest) == seq![tok@] + tokens_of(s@.skip(i as int)));
                assert(views_of(out@.push(tok)) =~= views_of(out@).push(tok@));
                assert(views_of(out@.push(tok)) + tokens_of(s@.skip(i as int)) =~= views_of(out@)
                    + tokens_of(rest));
            }
            out.push(tok);
        } else {
            proof {
                if directive_well_formed(s@) {
                    assert(is_token_byte(s@[i as int]) || is_separator_byte(s@[i as int]));
                }
            }
            return Err(GenError::MalformedDirective);
        }
    }
    proof {
        assert(s@.skip(s@.len() as int).len() == 0);
        assert(views_of(out@) + tokens_of(s@.skip(s@.len() as int)) =~= views_of(out@));
    }
    Ok(out)
}

} // verus!
