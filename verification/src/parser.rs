//! The recursive-descent parser and its error type.

use vstd::prelude::*;
use vstd::string::StrSliceExecFns;
use crate::ast::Instruction;
use crate::ast::inst_source;
use crate::ast::insts_source;
use crate::ast::lemma_insts_source_push;
use crate::grammar::balanced;
use crate::grammar::depth_at;
use crate::grammar::is_symbol;
use crate::grammar::run_clean;

verus! {

/// Why a parse attempt failed, with the index of the offending position.
#[derive(Debug, PartialEq, Eq, Clone, Copy)]
pub enum ParseError {
    /// A `[` was consumed but no matching `]` was found where the loop body
    /// ended: `pos` is where the `]` was required.
    UnterminatedLoop { pos: usize },
    /// The top-level instruction sequence ended before the input did: `pos`
    /// is where the unconsumed remainder begins.
    UnexpectedTrailingInput { pos: usize },
}

/// Attempts to recognize one instruction at position `pos`: a leaf for one of
/// the six single-symbol instructions, a whole loop for `[`. Returns the
/// instruction and the position after it; returns `None`, consuming nothing,
/// where no instruction starts (end of input, `]`, or an unrecognized
/// character); fails where a loop that starts here is not terminated.
pub fn parse_instruction(input: &str, pos: usize) -> (r: Result<
    Option<(Instruction, usize)>,
    ParseError,
>)
    requires
        pos <= input@.len(),
    ensures
        r matches Ok(Some(step)) ==> ({
            &&& pos < step.1 <= input@.len()
            &&& inst_source(step.0) == input@.subrange(pos as int, step.1 as int)
            &&& run_clean(input@, pos as int, step.1 as int)
            &&& depth_at(input@, step.1 as int) == depth_at(input@, pos as int)
        }),
        (r matches Ok(None)) <==> (pos == input@.len() || input@[pos as int] == ']'
            || !is_symbol(input@[pos as int])),
        r matches Err(e) ==> e is UnterminatedLoop,
        r matches Err(ParseError::UnterminatedLoop { pos: p }) ==> ({
            &&& pos <= p <= input@.len()
            &&& run_clean(input@, pos as int, p as int)
            &&& depth_at(input@, p as int) >= depth_at(input@, pos as int) + 1
            &&& p == input@.len() || !is_symbol(input@[p as int])
        }),
    decreases input@.len() - pos, 1int,
{
    let len = input.unicode_len();
    if pos == len {
        return Ok(None);
    }
    let c = input.get_char(pos);
    let leaf: Option<Instruction> = if c == '>' {
        Some(Instruction::RightShift)
    } else if c == '<' {
        Some(Instruction::LeftShift)
    } else if c == '+' {
        Some(Instruction::Increment)
    } else if c == '-' {
        Some(Instruction::Decrement)
    } else if c == '.' {
        Some(Instruction::Output)
    } else if c == ',' {
        Some(Instruction::Input)
    } else {
        None
    };
    match leaf {
        Some(inst) => {
            proof {
                assert(input@.subrange(pos as int, pos as int + 1) =~= seq![c]);
            }
            Ok(Some((inst, pos + 1)))
        },
        None => {
            if c == '[' {
                match parse_loop(input, pos) {
                    Ok((body, end)) => Ok(Some((Instruction::Loop(body), end))),
                    Err(e) => Err(e),
                }
            } else {
                Ok(None)
            }
        },
    }
}

/// Parses a whole loop starting at `pos`, which must hold a `[`: consumes the
/// `[`, a body of instructions, and the matching `]`. Returns the body and
/// the position after the `]`; fails with [`ParseError::UnterminatedLoop`]
/// where the body ends without a `]` following it.
pub fn parse_loop(input: &str, pos: usize) -> (r: Result<(Vec<Instruction>, usize), ParseError>)
    requires
        pos < input@.len(),
        input@[pos as int] == '[',
    ensures
        r matches Ok((body, end)) ==> ({
            &&& pos < end <= input@.len()
            &&& inst_source(Instruction::Loop(body)) == input@.subrange(pos as int, end as int)
            &&& run_clean(input@, pos as int, end as int)
            &&& depth_at(input@, end as int) == depth_at(input@, pos as int)
        }),
        r matches Err(e) ==> e is UnterminatedLoop,
        r matches Err(ParseError::UnterminatedLoop { pos: p }) ==> ({
            &&& pos <= p <= input@.len()
            &&& run_clean(input@, pos as int, p as int)
            &&& depth_at(input@, p as int) >= depth_at(input@, pos as int) + 1
            &&& p == input@.len() || !is_symbol(input@[p as int])
        }),
    decreases input@.len() - pos, 0int,
{
    let ghost s = input@;
    let len = input.unicode_len();
    proof {
        assert(depth_at(s, pos as int + 1) == depth_at(s, pos as int) + 1);
        assert(run_clean(s, pos as int, pos as int + 1));
    }
    match parse_seq(input, pos + 1) {
        Err(e) => {
            proof {
                match e {
                    ParseError::UnterminatedLoop { pos: p } => {
                        lemma_run_clean_join(s, pos as int, pos as int + 1, p as int);
                    },
                    ParseError::UnexpectedTrailingInput { .. } => {},
                }
            }
            Err(e)
        },
        Ok((body, body_end)) => {
            proof {
                lemma_run_clean_join(s, pos as int, pos as int + 1, body_end as int);
            }
            if body_end < len && input.get_char(body_end) == ']' {
                proof {
                    assert(s.subrange(pos as int, body_end as int + 1) =~= seq!['[']
                        + s.subrange(pos as int + 1, body_end as int) + seq![']']);
                    assert(inst_source(Instruction::Loop(body)) == seq!['['] + insts_source(body@)
                        + seq![']']);
                    assert(depth_at(s, body_end as int + 1) == depth_at(s, pos as int));
                    assert forall|j: int| pos <= j < body_end as int + 1 implies is_symbol(s[j]) && (
                    s[j] == ']' ==> depth_at(s, j) > depth_at(s, pos as int)) by {
                        if j < body_end as int {
                            assert(run_clean(s, pos as int, body_end as int));
                            assert(is_symbol(s[j]) && (s[j] == ']' ==> depth_at(s, j) > depth_at(
                                s,
                                pos as int,
                            )));
                        }
                    }
                    assert(run_clean(s, pos as int, body_end as int + 1));
                }
                Ok((body, body_end + 1))
            } else {
                Err(ParseError::UnterminatedLoop { pos: body_end })
            }
        },
    }
}

/// Parses the longest instruction sequence starting at `pos`: repeatedly
/// recognizes one instruction until none starts at the current position.
/// Returns the instructions in textual order and the position where
/// recognition stopped; fails only where a loop inside the run is not
/// terminated.
fn parse_seq(input: &str, pos: usize) -> (r: Result<(Vec<Instruction>, usize), ParseError>)
    requires
        pos <= input@.len(),
    ensures
        r matches Ok((insts, end)) ==> ({
            &&& pos <= end <= input@.len()
            &&& insts_source(insts@) == input@.subrange(pos as int, end as int)
            &&& run_clean(input@, pos as int, end as int)
            &&& depth_at(input@, end as int) == depth_at(input@, pos as int)
            &&& end == input@.len() || input@[end as int] == ']' || !is_symbol(
                input@[end as int],
            )
        }),
        r matches Err(e) ==> e is UnterminatedLoop,
        r matches Err(ParseError::UnterminatedLoop { pos: p }) ==> ({
            &&& pos <= p <= input@.len()
            &&& run_clean(input@, pos as int, p as int)
            &&& depth_at(input@, p as int) >= depth_at(input@, pos as int) + 1
            &&& p == input@.len() || !is_symbol(input@[p as int])
        }),
    decreases input@.len() - pos, 2int,
{
    let ghost s = input@;
    let mut instructions: Vec<Instruction> = Vec::new();
    let mut cur: usize = pos;
    proof {
        assert(insts_source(instructions@) =~= s.subrange(pos as int, pos as int));
    }
    loop
        invariant
            pos <= cur <= s.len(),
            s == input@,
            insts_source(instructions@) == s.subrange(pos as int, cur as int),
            run_clean(s, pos as int, cur as int),
            depth_at(s, cur as int) == depth_at(s, pos as int),
        decreases s.len() - cur,
    {
        match parse_instruction(input, cur) {
            Err(e) => {
                proof {
                    match e {
                        ParseError::UnterminatedLoop { pos: p } => {
                            lemma_run_clean_join(s, pos as int, cur as int, p as int);
                        },
                        ParseError::UnexpectedTrailingInput { .. } => {},
                    }
                }
                return Err(e);
            },
            Ok(None) => {
                return Ok((instructions, cur));
            },
            Ok(Some((inst, end))) => {
                proof {
                    lemma_insts_source_push(instructions@, inst);
                    assert(s.subrange(pos as int, cur as int) + s.subrange(cur as int, end as int)
                        =~= s.subrange(pos as int, end as int));
                    lemma_run_clean_join(s, pos as int, cur as int, end as int);
                }
                instructions.push(inst);
                cur = end;
            },
        }
    }
}

/// Parses an entire source text into its top-level instruction sequence.
///
/// Succeeds exactly on balanced input, and then the returned instructions
/// denote the whole input, in textual order. On failure the error names the
/// offending position: [`ParseError::UnterminatedLoop`] where a `[` is never
/// matched, [`ParseError::UnexpectedTrailingInput`] where the top-level
/// sequence stops before the input ends (a stray `]` or a character outside
/// the eight symbols). In particular, input that is clean except that some
/// `[` stays open fails as an unterminated loop, and input whose first flaw
/// is an unmatched `]` fails as trailing input at exactly that position.
pub fn parse(input: &str) -> (r: Result<Vec<Instruction>, ParseError>)
    ensures
        r is Ok <==> balanced(input@),
        r matches Ok(instructions) ==> insts_source(instructions@) == input@,
        r matches Err(ParseError::UnterminatedLoop { pos: p }) ==> ({
            &&& p <= input@.len()
            &&& run_clean(input@, 0, p as int)
            &&& depth_at(input@, p as int) >= 1
            &&& p == input@.len() || !is_symbol(input@[p as int])
        }),
        r matches Err(ParseError::UnexpectedTrailingInput { pos: p }) ==> ({
            &&& p < input@.len()
            &&& run_clean(input@, 0, p as int)
            &&& depth_at(input@, p as int) == 0
            &&& input@[p as int] == ']' || !is_symbol(input@[p as int])
        }),
        run_clean(input@, 0, input@.len() as int) && depth_at(input@, input@.len() as int) > 0
            ==> r matches Err(ParseError::UnterminatedLoop { .. }),
        forall|j: int|
            0 <= j < input@.len() && run_clean(input@, 0, j) && input@[j] == ']' && depth_at(
                input@,
                j,
            ) == 0 ==> (r matches Err(ParseError::UnexpectedTrailingInput { pos: p }) && p == j),
{
    let ghost s = input@;
    let len = input.unicode_len();
    match parse_seq(input, 0) {
        Err(e) => {
            proof {
                match e {
                    ParseError::UnterminatedLoop { pos: p } => {
                        if p < s.len() {
                            assert(!is_symbol(s[p as int]));
                            assert(!run_clean(s, 0, s.len() as int));
                        }
                        assert(!balanced(s));
                        assert forall|j: int|
                            0 <= j < s.len() && run_clean(s, 0, j) && s[j] == ']' && depth_at(s, j)
                                == 0 implies false by {
                            if j < p {
                                assert(run_clean(s, 0, p as int));
                                assert(s[j] == ']' ==> depth_at(s, j) > depth_at(s, 0));
                            } else {
                                assert(p < s.len() && !is_symbol(s[p as int]));
                                if p < j {
                                    assert(is_symbol(s[p as int]));
                                }
                            }
                        }
                    },
                    ParseError::UnexpectedTrailingInput { .. } => {},
                }
            }
            Err(e)
        },
        Ok((instructions, end)) => {
            if end == len {
                proof {
                    assert(insts_source(instructions@) == s.subrange(0, s.len() as int));
                    assert(s.subrange(0, s.len() as int) =~= s);
                    assert(balanced(s));
                    assert forall|j: int|
                        0 <= j < s.len() && run_clean(s, 0, j) && s[j] == ']' && depth_at(s, j)
                            == 0 implies false by {
                        assert(run_clean(s, 0, s.len() as int));
                        assert(s[j] == ']' ==> depth_at(s, j) > depth_at(s, 0));
                    }
                }
                Ok(instructions)
            } else {
                proof {
                    assert(s[end as int] == ']' || !is_symbol(s[end as int]));
                    assert(!balanced(s));
                    assert(!(run_clean(s, 0, s.len() as int) && depth_at(s, s.len() as int) > 0));
                    assert forall|j: int|
                        0 <= j < s.len() && run_clean(s, 0, j) && s[j] == ']' && depth_at(s, j)
                            == 0 implies j == end as int by {
                        if j < end as int {
                            assert(run_clean(s, 0, end as int));
                            assert(s[j] == ']' ==> depth_at(s, j) > depth_at(s, 0));
                        } else if (end as int) < j {
                            assert(is_symbol(s[end as int]) && (s[end as int] == ']' ==> depth_at(
                                s,
                                end as int,
                            ) > depth_at(s, 0)));
                        }
                    }
                }
                Err(ParseError::UnexpectedTrailingInput { pos: end })
            }
        },
    }
}

/// Two adjacent clean runs join into one clean run, provided the shared
/// boundary is at least as deep as the start of the first run.
proof fn lemma_run_clean_join(s: Seq<char>, a: int, m: int, b: int)
    requires
        a <= m <= b,
        run_clean(s, a, m),
        run_clean(s, m, b),
        depth_at(s, m) >= depth_at(s, a),
    ensures
        run_clean(s, a, b),
{
    assert forall|j: int| a <= j < b implies is_symbol(s[j]) && (s[j] == ']' ==> depth_at(s, j)
        > depth_at(s, a)) by {
        if j < m {
            assert(is_symbol(s[j]));
        } else {
            assert(is_symbol(s[j]));
        }
    }
}

} // verus!
