//! The theory of bracket nesting over a token sequence.
//!
//! Everything here is stated over the running nesting level: the number of
//! opening brackets minus the number of closing brackets in a prefix of the
//! tokens. A `[` and a `]` belong together when the level right behind the
//! `]` is back at the level in front of the `[` for the first time.

use vstd::prelude::*;

verus! {

/// What one token adds to the nesting level.
pub open spec fn weight(token: char) -> int {
    if token == '[' {
        1
    } else if token == ']' {
        -1
    } else {
        0
    }
}

/// Whether a token is one of the two brackets.
pub open spec fn is_bracket(token: char) -> bool {
    token == '[' || token == ']'
}

/// The nesting level in front of position `k`: the opening brackets minus
/// the closing brackets among the first `k` tokens.
pub open spec fn level(tokens: Seq<char>, k: int) -> int
    decreases k,
{
    if k <= 0 {
        0
    } else {
        level(tokens, k - 1) + weight(tokens[k - 1])
    }
}

/// The `[` at `open` and the `]` at `close` enclose one loop: behind `close`
/// the level is back at what it was in front of `open`, and strictly in
/// between it stays above that.
pub open spec fn is_pair(tokens: Seq<char>, open: int, close: int) -> bool {
    &&& 0 <= open < close < tokens.len()
    &&& tokens[open] == '['
    &&& tokens[close] == ']'
    &&& level(tokens, close + 1) == level(tokens, open)
    &&& forall|k: int| open < k <= close ==> #[trigger] level(tokens, k) > level(tokens, open)
}

/// The brackets at `position` and `partner` enclose one loop, whichever of
/// the two opens it.
pub open spec fn is_partner(tokens: Seq<char>, position: int, partner: int) -> bool {
    is_pair(tokens, position, partner) || is_pair(tokens, partner, position)
}

/// The bracket at `position` has a counterpart.
pub open spec fn has_partner(tokens: Seq<char>, position: int) -> bool {
    exists|partner: int| is_partner(tokens, position, partner)
}

/// The counterpart of the bracket at `position`, where it has one.
pub open spec fn partner_of(tokens: Seq<char>, position: int) -> int {
    choose|partner: int| is_partner(tokens, position, partner)
}

/// Every bracket has a counterpart.
pub open spec fn all_matched(tokens: Seq<char>) -> bool {
    forall|i: int|
        0 <= i < tokens.len() && is_bracket(#[trigger] tokens[i]) ==> has_partner(tokens, i)
}

/// The brackets are balanced: no prefix closes more loops than it opened, and
/// at the end every loop is closed.
pub open spec fn well_nested(tokens: Seq<char>) -> bool {
    &&& level(tokens, tokens.len() as int) == 0
    &&& forall|k: int| 0 <= k <= tokens.len() ==> #[trigger] level(tokens, k) >= 0
}

/// `position` holds the first bracket that has no counterpart.
pub open spec fn is_first_unmatched(tokens: Seq<char>, position: int) -> bool {
    &&& 0 <= position < tokens.len()
    &&& is_bracket(tokens[position])
    &&& !has_partner(tokens, position)
    &&& forall|i: int|
        0 <= i < position && is_bracket(#[trigger] tokens[i]) ==> has_partner(tokens, i)
}

/// The position of the first bracket without a counterpart, where there is
/// one.
pub open spec fn first_unmatched(tokens: Seq<char>) -> int {
    choose|position: int| is_first_unmatched(tokens, position)
}

/// A bracket has at most one counterpart.
pub proof fn lemma_partner_unique(tokens: Seq<char>, position: int, first: int, second: int)
    requires
        is_partner(tokens, position, first),
        is_partner(tokens, position, second),
    ensures
        first == second,
{
    if is_pair(tokens, position, first) {
        assert(is_pair(tokens, position, second));
        if first < second {
            assert(level(tokens, first + 1) > level(tokens, position));
        } else if second < first {
            assert(level(tokens, second + 1) > level(tokens, position));
        }
    } else {
        assert(is_pair(tokens, first, position));
        assert(is_pair(tokens, second, position));
        if first < second {
            assert(level(tokens, second) > level(tokens, first));
        } else if second < first {
            assert(level(tokens, first) > level(tokens, second));
        }
    }
}

/// The counterpart named by `partner_of` is the only one there is.
pub proof fn lemma_partner_of(tokens: Seq<char>, position: int, partner: int)
    requires
        is_partner(tokens, position, partner),
    ensures
        has_partner(tokens, position),
        partner_of(tokens, position) == partner,
        has_partner(tokens, partner),
        partner_of(tokens, partner) == position,
{
    lemma_partner_unique(tokens, position, partner, partner_of(tokens, position));
    assert(is_partner(tokens, partner, position));
    lemma_partner_unique(tokens, partner, position, partner_of(tokens, partner));
}

/// Two loops never overlap partly: one that opens inside another closes
/// inside it too.
pub proof fn lemma_pairs_do_not_cross(
    tokens: Seq<char>,
    outer_open: int,
    outer_close: int,
    inner_open: int,
    inner_close: int,
)
    requires
        is_pair(tokens, outer_open, outer_close),
        is_pair(tokens, inner_open, inner_close),
        outer_open < inner_open < outer_close,
    ensures
        inner_close < outer_close,
{
    if inner_close > outer_close {
        assert(level(tokens, inner_open) > level(tokens, outer_open));
        assert(level(tokens, outer_close + 1) > level(tokens, inner_open));
    }
}

/// At most one position holds the first bracket without a counterpart.
pub proof fn lemma_first_unmatched(tokens: Seq<char>, position: int)
    requires
        is_first_unmatched(tokens, position),
    ensures
        first_unmatched(tokens) == position,
        !all_matched(tokens),
{
    let other = first_unmatched(tokens);
    assert(is_first_unmatched(tokens, other));
}

/// Walking forward from a `[`: while the level has stayed above the level
/// in front of the bracket, and the end of the tokens lies at or below it,
/// the counterpart is still ahead.
proof fn lemma_search_close(tokens: Seq<char>, open: int, k: int)
    requires
        0 <= open < k <= tokens.len(),
        tokens[open] == '[',
        level(tokens, tokens.len() as int) <= level(tokens, open),
        forall|m: int| open < m <= k ==> #[trigger] level(tokens, m) > level(tokens, open),
    ensures
        has_partner(tokens, open),
    decreases tokens.len() - k,
{
    assert(level(tokens, k) > level(tokens, open));
    assert(k < tokens.len());
    if level(tokens, k + 1) == level(tokens, open) {
        assert(is_pair(tokens, open, k));
        assert(is_partner(tokens, open, k));
    } else {
        lemma_search_close(tokens, open, k + 1);
    }
}

/// Walking backward from a `]`: while the level has stayed above the level
/// behind the bracket, and that level is not negative, the counterpart is
/// still ahead.
proof fn lemma_search_open(tokens: Seq<char>, close: int, k: int)
    requires
        0 <= k <= close < tokens.len(),
        tokens[close] == ']',
        level(tokens, close + 1) >= 0,
        forall|m: int| k <= m <= close ==> #[trigger] level(tokens, m) > level(tokens, close + 1),
    ensures
        has_partner(tokens, close),
    decreases k,
{
    assert(level(tokens, k) > level(tokens, close + 1));
    assert(k > 0);
    if level(tokens, k - 1) == level(tokens, close + 1) {
        assert(is_pair(tokens, k - 1, close));
        assert(is_partner(tokens, close, k - 1));
    } else {
        lemma_search_open(tokens, close, k - 1);
    }
}

/// Where every bracket has a counterpart, no prefix closes more loops than
/// it opened.
proof fn lemma_prefix_level(tokens: Seq<char>, k: int)
    requires
        all_matched(tokens),
        0 <= k <= tokens.len(),
    ensures
        level(tokens, k) >= 0,
    decreases k,
{
    if k > 0 {
        if tokens[k - 1] == ']' {
            let open = partner_of(tokens, k - 1);
            assert(has_partner(tokens, k - 1));
            assert(is_pair(tokens, open, k - 1));
            lemma_prefix_level(tokens, open);
        } else {
            lemma_prefix_level(tokens, k - 1);
        }
    }
}

/// Where every bracket has a counterpart, no suffix opens more loops than it
/// closes.
proof fn lemma_suffix_level(tokens: Seq<char>, k: int)
    requires
        all_matched(tokens),
        0 <= k <= tokens.len(),
    ensures
        level(tokens, tokens.len() as int) <= level(tokens, k),
    decreases tokens.len() - k,
{
    if k < tokens.len() {
        if tokens[k] == '[' {
            let close = partner_of(tokens, k);
            assert(has_partner(tokens, k));
            assert(is_pair(tokens, k, close));
            lemma_suffix_level(tokens, close + 1);
        } else {
            lemma_suffix_level(tokens, k + 1);
        }
    }
}

/// The brackets are balanced exactly when each of them has a counterpart.
pub proof fn lemma_well_nested_iff_all_matched(tokens: Seq<char>)
    ensures
        well_nested(tokens) <==> all_matched(tokens),
{
    if well_nested(tokens) {
        assert forall|i: int|
            0 <= i < tokens.len() && is_bracket(#[trigger] tokens[i]) implies has_partner(
            tokens,
            i,
        ) by {
            if tokens[i] == '[' {
                assert(level(tokens, i) >= 0);
                assert(level(tokens, i + 1) == level(tokens, i) + 1);
                lemma_search_close(tokens, i, i + 1);
            } else {
                assert(level(tokens, i + 1) >= 0);
                assert(level(tokens, i + 1) == level(tokens, i) - 1);
                lemma_search_open(tokens, i, i);
            }
        }
    }
    if all_matched(tokens) {
        assert forall|k: int| 0 <= k <= tokens.len() implies #[trigger] level(tokens, k) >= 0 by {
            lemma_prefix_level(tokens, k);
        }
        lemma_suffix_level(tokens, 0);
    }
}

} // verus!
