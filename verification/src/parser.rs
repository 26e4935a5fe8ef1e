//! From source text to a resolved program: filtering, bracket matching and
//! the construction of the instructions.

use crate::error::ErrorKind;
use crate::instruction::{is_loop, well_formed, Instruction};
use crate::nesting::{
    all_matched, first_unmatched, has_partner, is_bracket, is_first_unmatched, is_pair,
    is_partner, lemma_first_unmatched, lemma_pairs_do_not_cross, lemma_partner_of,
    lemma_well_nested_iff_all_matched, level, partner_of, well_nested,
};
use vstd::pervasive::unreached;
use vstd::prelude::*;
use vstd::std_specs::iter::IteratorSpec;

verus! {

/// Whether a character of the source is an instruction. Every other
/// character is a comment.
pub open spec fn is_token(character: char) -> bool {
    character == '>' || character == '<' || character == '+' || character == '-' || character
        == ',' || character == '.' || character == '[' || character == ']'
}

/// The instruction characters of a source text, in their order.
pub open spec fn tokens_of(source: Seq<char>) -> Seq<char> {
    source.filter(|character: char| is_token(character))
}

/// The instruction that the token at position `i` stands for. A bracket
/// becomes a loop instruction that holds the position of its counterpart.
pub open spec fn instruction_at(tokens: Seq<char>, i: int) -> Instruction {
    let token = tokens[i];
    if token == '>' {
        Instruction::MoveTapeRight
    } else if token == '<' {
        Instruction::MoveTapeLeft
    } else if token == '+' {
        Instruction::Increment
    } else if token == '-' {
        Instruction::Decrement
    } else if token == ',' {
        Instruction::ReadInput
    } else if token == '[' {
        Instruction::LoopOpen(partner_of(tokens, i) as usize)
    } else if token == ']' {
        Instruction::LoopClose(partner_of(tokens, i) as usize)
    } else {
        Instruction::WriteOutput
    }
}

/// The program that a token sequence stands for: one instruction for each
/// token, at the token's position.
pub open spec fn resolve(tokens: Seq<char>) -> Seq<Instruction> {
    Seq::new(tokens.len(), |i: int| instruction_at(tokens, i))
}

/// What parsing a source text gives: the resolved program where the brackets
/// are balanced, and else the position of the first bracket without a
/// counterpart.
pub open spec fn spec_parse(source: Seq<char>) -> Result<Seq<Instruction>, ErrorKind> {
    let tokens = tokens_of(source);
    if well_nested(tokens) {
        Ok(resolve(tokens))
    } else {
        Err(ErrorKind::UnmatchedBracket(first_unmatched(tokens) as usize))
    }
}

/// `parsed` is what parsing `source` gives.
pub open spec fn parses_to(source: Seq<char>, parsed: Result<Vec<Instruction>, ErrorKind>) -> bool {
    match parsed {
        Ok(program) => spec_parse(source) == Ok::<Seq<Instruction>, ErrorKind>(program@),
        Err(error) => spec_parse(source) == Err::<Seq<Instruction>, ErrorKind>(error),
    }
}

/// Filtering a text that is one character longer.
proof fn lemma_tokens_of_push(source: Seq<char>, character: char)
    ensures
        tokens_of(source.push(character)) == if is_token(character) {
            tokens_of(source).push(character)
        } else {
            tokens_of(source)
        },
{
    reveal(Seq::filter);
    assert(source.push(character).drop_last() == source);
}

/// Every token is an instruction character.
pub proof fn lemma_tokens_are_instructions(source: Seq<char>)
    ensures
        forall|i: int| 0 <= i < tokens_of(source).len() ==> is_token(#[trigger] tokens_of(source)[i]),
        tokens_of(source).len() <= source.len(),
{
    broadcast use vstd::seq_lib::group_filter_ensures;

}

/// In a program resolved from matched brackets, each bracket and its
/// counterpart form a loop.
proof fn lemma_loop_at(tokens: Seq<char>, position: int)
    requires
        all_matched(tokens),
        tokens.len() <= usize::MAX,
        0 <= position < tokens.len(),
        is_bracket(tokens[position]),
    ensures
        0 <= partner_of(tokens, position) < tokens.len(),
        tokens[position] == '[' ==> is_pair(tokens, position, partner_of(tokens, position))
            && is_loop(resolve(tokens), position, partner_of(tokens, position)),
        tokens[position] == ']' ==> is_pair(tokens, partner_of(tokens, position), position)
            && is_loop(resolve(tokens), partner_of(tokens, position), position),
{
    let partner = partner_of(tokens, position);
    assert(has_partner(tokens, position));
    lemma_partner_of(tokens, position, partner);
    let program = resolve(tokens);
    assert(program[position] == instruction_at(tokens, position));
    assert(program[partner] == instruction_at(tokens, partner));
}

/// In a balanced token sequence that fits in memory, the resolved program is
/// well formed: the target of every loop instruction is its counterpart,
/// whose own target leads back.
pub proof fn lemma_resolve_well_formed(tokens: Seq<char>)
    requires
        well_nested(tokens),
        tokens.len() <= usize::MAX,
    ensures
        well_formed(resolve(tokens)),
{
    let program = resolve(tokens);
    lemma_well_nested_iff_all_matched(tokens);
    assert forall|p: int| 0 <= p < program.len() implies match #[trigger] program[p] {
        Instruction::LoopOpen(target) => is_loop(program, p, target as int),
        Instruction::LoopClose(target) => is_loop(program, target as int, p),
        _ => true,
    } by {
        if is_bracket(tokens[p]) {
            lemma_loop_at(tokens, p);
        }
    }
    assert forall|p: int, q: int| 0 <= p < q < program.len() implies match (
        #[trigger] program[p],
        #[trigger] program[q],
    ) {
        (Instruction::LoopOpen(outer), Instruction::LoopOpen(inner)) => q < outer ==> inner
            < outer,
        _ => true,
    } by {
        if tokens[p] == '[' && tokens[q] == '[' {
            lemma_loop_at(tokens, p);
            lemma_loop_at(tokens, q);
            let outer = partner_of(tokens, p);
            let inner = partner_of(tokens, q);
            if q < outer {
                lemma_pairs_do_not_cross(tokens, p, outer, q, inner);
            }
        }
    }
}

/// In front of a bracket without a counterpart there is a first one.
proof fn lemma_least_unmatched(tokens: Seq<char>, position: int)
    requires
        0 <= position < tokens.len(),
        is_bracket(tokens[position]),
        !has_partner(tokens, position),
    ensures
        is_first_unmatched(tokens, first_unmatched(tokens)),
    decreases position,
{
    if exists|i: int| 0 <= i < position && is_bracket(tokens[i]) && !has_partner(tokens, i) {
        let earlier = choose|i: int|
            0 <= i < position && is_bracket(tokens[i]) && !has_partner(tokens, i);
        lemma_least_unmatched(tokens, earlier);
    } else {
        assert(is_first_unmatched(tokens, position));
    }
}

/// Where the brackets are not balanced, some bracket has no counterpart, and
/// `first_unmatched` is the position of the first of them.
pub proof fn lemma_unbalanced_has_unmatched(tokens: Seq<char>)
    requires
        !well_nested(tokens),
    ensures
        is_first_unmatched(tokens, first_unmatched(tokens)),
{
    lemma_well_nested_iff_all_matched(tokens);
    let position = choose|i: int|
        0 <= i < tokens.len() && is_bracket(#[trigger] tokens[i]) && !has_partner(tokens, i);
    lemma_least_unmatched(tokens, position);
}

/// A text holds no bracket.
pub open spec fn has_no_bracket(text: Seq<char>) -> bool {
    forall|i: int| 0 <= i < text.len() ==> !is_bracket(#[trigger] text[i])
}

/// A text holds no instruction character: it is a comment as a whole.
pub open spec fn is_comment(text: Seq<char>) -> bool {
    forall|i: int| 0 <= i < text.len() ==> !is_token(#[trigger] text[i])
}

/// Filtering adds no bracket.
proof fn lemma_tokens_without_brackets(source: Seq<char>)
    requires
        has_no_bracket(source),
    ensures
        has_no_bracket(tokens_of(source)),
    decreases source.len(),
{
    reveal(Seq::filter);
    if source.len() > 0 {
        lemma_tokens_without_brackets(source.drop_last());
    }
}

/// Without brackets the nesting level stays at zero.
proof fn lemma_level_without_brackets(tokens: Seq<char>, k: int)
    requires
        has_no_bracket(tokens),
        0 <= k <= tokens.len(),
    ensures
        level(tokens, k) == 0,
    decreases k,
{
    if k > 0 {
        lemma_level_without_brackets(tokens, k - 1);
    }
}

/// A source text without brackets parses, and to a program without loop
/// instructions.
pub proof fn lemma_parse_without_brackets(source: Seq<char>)
    requires
        has_no_bracket(source),
    ensures
        spec_parse(source) == Ok::<Seq<Instruction>, ErrorKind>(resolve(tokens_of(source))),
        forall|i: int|
            0 <= i < tokens_of(source).len() ==> !(#[trigger] resolve(tokens_of(source))[i]
                is LoopOpen) && !(resolve(tokens_of(source))[i] is LoopClose),
{
    let tokens = tokens_of(source);
    lemma_tokens_without_brackets(source);
    assert forall|k: int| 0 <= k <= tokens.len() implies #[trigger] level(tokens, k) >= 0 by {
        lemma_level_without_brackets(tokens, k);
    }
    lemma_level_without_brackets(tokens, tokens.len() as int);
}

/// A source text that is a comment as a whole parses to the empty program.
pub proof fn lemma_parse_comment(source: Seq<char>)
    requires
        is_comment(source),
    ensures
        tokens_of(source) == Seq::<char>::empty(),
        spec_parse(source) == Ok::<Seq<Instruction>, ErrorKind>(Seq::empty()),
    decreases source.len(),
{
    reveal(Seq::filter);
    if source.len() > 0 {
        lemma_parse_comment(source.drop_last());
    }
    assert(resolve(Seq::<char>::empty()) == Seq::<Instruction>::empty());
}

/// Parsing depends on the source text alone: whatever two runs of the parser
/// give for one text is the same program or the same error.
pub proof fn lemma_parse_deterministic(
    source: Seq<char>,
    first: Result<Vec<Instruction>, ErrorKind>,
    second: Result<Vec<Instruction>, ErrorKind>,
)
    requires
        parses_to(source, first),
        parses_to(source, second),
    ensures
        match (first, second) {
            (Ok(program), Ok(other)) => program@ == other@,
            (Err(error), Err(other)) => error == other,
            _ => false,
        },
{
}

/// Whether a character of the source is an instruction.
fn is_instruction(character: char) -> (answer: bool)
    ensures
        answer == is_token(character),
{
    character == '>' || character == '<' || character == '+' || character == '-' || character
        == ',' || character == '.' || character == '[' || character == ']'
}

/// Keeps the instruction characters of a source text and drops every other
/// character.
pub fn tokenize(source: &str) -> (tokens: Vec<char>)
    ensures
        tokens@ == tokens_of(source@),
{
    broadcast use vstd::string::group_string_axioms;

    let mut tokens: Vec<char> = Vec::new();
    proof {
        reveal(Seq::filter);
        assert(source@.take(0) == Seq::<char>::empty());
    }
    for character in it: source.chars()
        invariant
            it.seq() == source@,
            tokens@ == tokens_of(source@.take(it.index())),
    {
        proof {
            let before = source@.take(it.index());
            assert(source@.take(it.index() + 1) == before.push(character));
            lemma_tokens_of_push(before, character);
        }
        if is_instruction(character) {
            tokens.push(character);
        }
    }
    proof {
        assert(source@.take(source@.len() as int) == source@);
    }
    tokens
}

/// Looks for the counterpart of the bracket at `position`: forward from a
/// `[`, backward from a `]`, counting the loops that are open on the way.
/// The first bracket that closes the last open loop is the counterpart. The
/// search fails where it reaches the end of the tokens before that.
pub fn find_matching_bracket(tokens: &Vec<char>, position: usize) -> (found: Option<usize>)
    requires
        position < tokens.len(),
        is_bracket(tokens@[position as int]),
    ensures
        match found {
            Some(partner) => is_partner(tokens@, position as int, partner as int),
            None => !has_partner(tokens@, position as int),
        },
{
    let length: usize = tokens.len();
    let open: char = tokens[position];
    let forward: bool = open == '[';
    let close: char = if forward {
        ']'
    } else {
        '['
    };
    if forward {
        if position + 1 == length {
            return None;
        }
    } else {
        if position == 0 {
            return None;
        }
    }
    let mut i: usize = if forward {
        position + 1
    } else {
        (position - 1) as usize
    };
    let mut open_loops: usize = 1;
    let ghost base = if forward {
        level(tokens@, position as int)
    } else {
        level(tokens@, position + 1)
    };
    loop
        invariant
            length == tokens.len(),
            position < length,
            i < length,
            open == tokens@[position as int],
            forward == (open == '['),
            !forward ==> open == ']',
            close == if forward {
                ']'
            } else {
                '['
            },
            base == if forward {
                level(tokens@, position as int)
            } else {
                level(tokens@, position + 1)
            },
            open_loops >= 1,
            forward ==> position < i && open_loops <= i - position && open_loops == level(
                tokens@,
                i as int,
            ) - base,
            forward ==> forall|k: int| position < k <= i ==> #[trigger] level(tokens@, k) > base,
            !forward ==> i < position && open_loops <= position - i && open_loops == level(
                tokens@,
                i + 1,
            ) - base,
            !forward ==> forall|k: int| i < k <= position ==> #[trigger] level(tokens@, k) > base,
        decreases
            (if forward {
                length - i
            } else {
                i as int
            }),
    {
        let token: char = tokens[i];
        if token == open {
            open_loops += 1;
        } else if token == close {
            open_loops -= 1;
        }
        if open_loops == 0 {
            return Some(i);
        }
        if forward {
            if i + 1 == length {
                proof {
                    assert forall|partner: int| !is_partner(
                        tokens@,
                        position as int,
                        partner,
                    ) by {
                        if is_pair(tokens@, position as int, partner) {
                            assert(level(tokens@, partner + 1) > base);
                        }
                    }
                }
                return None;
            }
            i += 1;
        } else {
            if i == 0 {
                proof {
                    assert forall|partner: int| !is_partner(
                        tokens@,
                        position as int,
                        partner,
                    ) by {
                        if is_pair(tokens@, partner, position as int) {
                            assert(level(tokens@, partner) > base);
                        }
                    }
                }
                return None;
            }
            i -= 1;
        }
    }
}

/// Parses a source text into a resolved program.
///
/// The characters that are no instructions are dropped. Each remaining
/// character becomes the instruction at its position, and each bracket gets
/// the position of its counterpart as its target. Parsing succeeds exactly
/// when the brackets are balanced. It fails at the first bracket that has no
/// counterpart, with the position of that bracket.
pub fn parse(source: &str) -> (parsed: Result<Vec<Instruction>, ErrorKind>)
    ensures
        parses_to(source@, parsed),
        parsed is Ok <==> well_nested(tokens_of(source@)),
        parsed is Ok <==> all_matched(tokens_of(source@)),
        parsed matches Ok(program) ==> well_formed(program@),
        parsed matches Err(error) ==> error matches ErrorKind::UnmatchedBracket(position)
            && is_first_unmatched(tokens_of(source@), position as int),
{
    let tokens = tokenize(source);
    let mut program: Vec<Instruction> = Vec::new();
    let mut i: usize = 0;
    proof {
        lemma_tokens_are_instructions(source@);
        lemma_well_nested_iff_all_matched(tokens@);
    }
    while i < tokens.len()
        invariant
            i <= tokens.len(),
            tokens@ == tokens_of(source@),
            forall|k: int| 0 <= k < tokens@.len() ==> is_token(#[trigger] tokens@[k]),
            program@ == resolve(tokens@).take(i as int),
            forall|k: int| 0 <= k < i && is_bracket(#[trigger] tokens@[k]) ==> has_partner(tokens@, k),
            well_nested(tokens@) <==> all_matched(tokens@),
        decreases tokens.len() - i,
    {
        let token: char = tokens[i];
        let instruction = match token {
            '>' => Instruction::MoveTapeRight,
            '<' => Instruction::MoveTapeLeft,
            '+' => Instruction::Increment,
            '-' => Instruction::Decrement,
            ',' => Instruction::ReadInput,
            '.' => Instruction::WriteOutput,
            '[' => match find_matching_bracket(&tokens, i) {
                Some(close) => {
                    proof {
                        lemma_partner_of(tokens@, i as int, close as int);
                    }
                    Instruction::LoopOpen(close)
                },
                None => {
                    proof {
                        lemma_first_unmatched(tokens@, i as int);
                    }
                    return Err(ErrorKind::UnmatchedBracket(i));
                },
            },
            ']' => match find_matching_bracket(&tokens, i) {
                Some(open) => {
                    proof {
                        lemma_partner_of(tokens@, i as int, open as int);
                    }
                    Instruction::LoopClose(open)
                },
                None => {
                    proof {
                        lemma_first_unmatched(tokens@, i as int);
                    }
                    return Err(ErrorKind::UnmatchedBracket(i));
                },
            },
            _ => unreached(),
        };
        program.push(instruction);
        proof {
            assert(resolve(tokens@).take(i + 1) == resolve(tokens@).take(i as int).push(
                instruction,
            ));
        }
        i += 1;
    }
    proof {
        assert(resolve(tokens@).take(tokens@.len() as int) == resolve(tokens@));
        lemma_resolve_well_formed(tokens@);
    }
    Ok(program)
}

} // verus!
