//! The grouping parser: partitions a flat token stream into a sequence of
//! groups, each spanning a contiguous run of tokens and tagged as a literal
//! run, a parenthesized group, or a tuple.

use vstd::prelude::*;
use vstd::pervasive::VecAdditionalExecFns;
use vstd::slice::slice_index_get;
use crate::lexer::Token;

verus! {

/// The structural kind of a group.
#[derive(PartialEq, Eq, Structural, Debug, Clone, Copy)]
pub enum Kind {
    Literals,
    Parenthesis,
    Tuple,
}

/// One maximal syntactic unit at the top nesting level: the tokens at
/// positions `start_index..end_index` of the input stream.
#[derive(PartialEq, Eq, Structural, Debug, Clone, Copy)]
pub struct Grouped {
    pub start_index: usize,
    pub end_index: usize,
    pub kind: Kind,
}

/// The structural fault the grouping parser can report.
#[derive(PartialEq, Eq, Structural, Debug, Clone, Copy)]
pub enum StructuralError {
    UnbalancedParenthesis,
}

/// How one token changes the parenthesis nesting depth.
pub open spec fn depth_change(t: Token) -> int {
    match t {
        Token::OpenParenthesis => 1,
        Token::CloseParenthesis => -1,
        _ => 0,
    }
}

/// The nesting depth after scanning a whole token sequence.
pub open spec fn paren_depth(s: Seq<Token>) -> int
    decreases s.len(),
{
    if s.len() == 0 {
        0
    } else {
        paren_depth(s.drop_last()) + depth_change(s.last())
    }
}

/// A token sequence is balanced when no prefix closes more parentheses than
/// it has opened, and every opened parenthesis is closed by the end.
pub open spec fn balanced(s: Seq<Token>) -> bool {
    &&& forall|i: int| 0 <= i <= s.len() ==> paren_depth(#[trigger] s.take(i)) >= 0
    &&& paren_depth(s) == 0
}

/// A new group anchored at token position `i`, spanning just that token.
pub open spec fn start_group(gs: Seq<Grouped>, i: int, kind: Kind) -> Seq<Grouped> {
    gs.push(Grouped { start_index: i as usize, end_index: (i + 1) as usize, kind: kind })
}

/// The most recently started group, its span grown to end at position `e`.
pub open spec fn extend_last(gs: Seq<Grouped>, e: int) -> Seq<Grouped> {
    gs.update(
        gs.len() - 1,
        Grouped { start_index: gs.last().start_index, end_index: e as usize, kind: gs.last().kind },
    )
}

/// The most recently started group, reclassified as a tuple.
pub open spec fn promote_last(gs: Seq<Grouped>) -> Seq<Grouped> {
    gs.update(
        gs.len() - 1,
        Grouped {
            start_index: gs.last().start_index,
            end_index: gs.last().end_index,
            kind: Kind::Tuple,
        },
    )
}

/// A depth-zero token with no structural meaning: it extends a running
/// literal group, or starts a new one.
pub open spec fn literal_step(gs: Seq<Grouped>, i: int) -> Seq<Grouped> {
    if gs.len() > 0 && gs.last().kind == Kind::Literals {
        extend_last(gs, i + 1)
    } else {
        start_group(gs, i, Kind::Literals)
    }
}

/// The groups formed from a token sequence by the single forward scan: at
/// depth zero an open parenthesis starts a parenthesis group and any other
/// non-closing token joins or starts a literal run; inside a parenthesis
/// every token grows the current group's span, and a separator met at depth
/// exactly one reclassifies the group as a tuple. (The value of this
/// function is only of interest on balanced sequences; on others the scan
/// reports an error instead.)
pub open spec fn spec_groups(s: Seq<Token>) -> Seq<Grouped>
    decreases s.len(),
{
    if s.len() == 0 {
        Seq::empty()
    } else {
        let prev = spec_groups(s.drop_last());
        let d = paren_depth(s.drop_last());
        let i = s.len() - 1;
        match s.last() {
            Token::OpenParenthesis => if d == 0 {
                start_group(prev, i, Kind::Parenthesis)
            } else {
                extend_last(prev, i + 1)
            },
            Token::CloseParenthesis => if d <= 0 {
                prev
            } else {
                extend_last(prev, i + 1)
            },
            Token::Separator => if d == 0 {
                literal_step(prev, i)
            } else if d == 1 {
                promote_last(extend_last(prev, i + 1))
            } else {
                extend_last(prev, i + 1)
            },
            Token::Whitespace(_) => if d > 0 {
                extend_last(prev, i + 1)
            } else {
                literal_step(prev, i)
            },
            Token::Literal(_) => if d > 0 {
                extend_last(prev, i + 1)
            } else {
                literal_step(prev, i)
            },
        }
    }
}

/// The two shapes of an unbalanced sequence: the scan fails exactly when
/// some prefix closes a parenthesis that was never opened, or when opened
/// parentheses are still unclosed once the tokens are exhausted.
pub proof fn lemma_unbalanced_forms(s: Seq<Token>)
    ensures
        !balanced(s) <==> ((exists|i: int|
            0 <= i <= s.len() && paren_depth(#[trigger] s.take(i)) < 0) || paren_depth(s) > 0),
{
    assert(s.take(s.len() as int) =~= s);
}

/// A sequence without openers or closers has depth zero.
proof fn lemma_no_paren_depth(s: Seq<Token>)
    requires
        forall|i: int| 0 <= i < s.len() ==> depth_change(#[trigger] s[i]) == 0,
    ensures
        paren_depth(s) == 0,
    decreases s.len(),
{
    if s.len() > 0 {
        assert(forall|i: int| 0 <= i < s.len() - 1 ==> s.drop_last()[i] == s[i]);
        lemma_no_paren_depth(s.drop_last());
    }
}

/// A non-empty token sequence without any parenthesis token is balanced
/// and forms exactly one literal-run group spanning the whole input.
pub proof fn lemma_literal_run_groups(s: Seq<Token>)
    requires
        s.len() > 0,
        s.len() <= usize::MAX,
        forall|i: int|
            0 <= i < s.len() ==> !((#[trigger] s[i]) is OpenParenthesis) && !(s[i]
                is CloseParenthesis),
    ensures
        balanced(s),
        spec_groups(s) =~= seq![
            (Grouped { start_index: 0, end_index: s.len() as usize, kind: Kind::Literals }),
        ],
    decreases s.len(),
{
    assert forall|i: int| 0 <= i <= s.len() implies paren_depth(#[trigger] s.take(i)) >= 0 by {
        assert(forall|j: int| 0 <= j < i ==> s.take(i)[j] == s[j]);
        lemma_no_paren_depth(s.take(i));
    }
    assert(s.take(s.len() as int) =~= s);
    if s.len() == 1 {
        assert(spec_groups(s.drop_last()) =~= Seq::<Grouped>::empty());
    } else {
        assert(forall|i: int| 0 <= i < s.len() - 1 ==> s.drop_last()[i] == s[i]);
        lemma_literal_run_groups(s.drop_last());
        lemma_no_paren_depth(s.drop_last());
    }
}

/// The scan state after a depth-zero opener and the first `j` tokens of
/// the region's content: one group so far, spanning everything read, a
/// tuple exactly when a separator has been met directly inside the
/// outermost parenthesis (at content depth zero), and still open.
proof fn lemma_open_prefix(inner: Seq<Token>, j: int)
    requires
        0 <= j <= inner.len(),
        inner.len() + 2 <= usize::MAX,
        forall|i: int| 0 <= i <= inner.len() ==> paren_depth(#[trigger] inner.take(i)) >= 0,
    ensures
        paren_depth(seq![Token::OpenParenthesis] + inner.take(j)) == 1 + paren_depth(
            inner.take(j),
        ),
        spec_groups(seq![Token::OpenParenthesis] + inner.take(j)) =~= seq![
            (Grouped {
                start_index: 0,
                end_index: (j + 1) as usize,
                kind: if (exists|i: int|
                    0 <= i < j && (#[trigger] inner[i]) is Separator && paren_depth(inner.take(i))
                        == 0) {
                    Kind::Tuple
                } else {
                    Kind::Parenthesis
                },
            }),
        ],
        forall|m: int|
            1 <= m <= j + 1 ==> paren_depth(
                #[trigger] (seq![Token::OpenParenthesis] + inner.take(j)).take(m),
            ) >= 1,
    decreases j,
{
    let t = seq![Token::OpenParenthesis] + inner.take(j);
    if j == 0 {
        assert(t =~= seq![Token::OpenParenthesis]);
        assert(t.drop_last() =~= Seq::<Token>::empty());
        assert(t.len() == 1);
        assert(t.last() == Token::OpenParenthesis);
        assert(paren_depth(Seq::<Token>::empty()) == 0);
        assert(spec_groups(Seq::<Token>::empty()) == Seq::<Grouped>::empty());
        assert(inner.take(0) =~= Seq::<Token>::empty());
        assert(paren_depth(t) == 1);
        assert(spec_groups(t) == start_group(Seq::<Grouped>::empty(), 0, Kind::Parenthesis));
        assert forall|m: int| 1 <= m <= 1 implies paren_depth(#[trigger] t.take(m)) >= 1 by {
            assert(t.take(m) =~= t);
        }
    } else {
        let prev = seq![Token::OpenParenthesis] + inner.take(j - 1);
        lemma_open_prefix(inner, j - 1);
        assert(t.drop_last() =~= prev);
        assert(t.last() == inner[j - 1]);
        assert(inner.take(j).drop_last() =~= inner.take(j - 1));
        assert(inner.take(j).last() == inner[j - 1]);
        let d = 1 + paren_depth(inner.take(j - 1));
        assert(d >= 1);
        if inner[j - 1] is CloseParenthesis {
            assert(paren_depth(inner.take(j)) == paren_depth(inner.take(j - 1)) - 1);
            assert(paren_depth(inner.take(j)) >= 0);
            assert(d > 1);
        }
        if inner[j - 1] is Separator && paren_depth(inner.take(j - 1)) == 0 {
            assert(exists|i: int|
                0 <= i < j && (#[trigger] inner[i]) is Separator && paren_depth(inner.take(i))
                    == 0);
        } else {
            assert((exists|i: int|
                0 <= i < j && (#[trigger] inner[i]) is Separator && paren_depth(inner.take(i))
                    == 0) <==> (exists|i: int|
                0 <= i < j - 1 && (#[trigger] inner[i]) is Separator && paren_depth(inner.take(i))
                    == 0));
        }
        assert forall|m: int| 1 <= m <= j + 1 implies paren_depth(#[trigger] t.take(m)) >= 1 by {
            if m <= j {
                assert(t.take(m) =~= prev.take(m));
            } else {
                assert(t.take(m) =~= t);
            }
        }
    }
}

/// A whole parenthesized region: an opener, any balanced content, and its
/// closer form exactly one group spanning the region, classified `Tuple`
/// exactly when the content holds a separator directly inside the
/// outermost parenthesis, and `Parenthesis` otherwise — a separator inside
/// a nested parenthesis never promotes the outer group.
pub proof fn lemma_tuple_promotion(inner: Seq<Token>)
    requires
        inner.len() + 2 <= usize::MAX,
        forall|i: int| 0 <= i <= inner.len() ==> paren_depth(#[trigger] inner.take(i)) >= 0,
        paren_depth(inner) == 0,
    ensures
        balanced(seq![Token::OpenParenthesis] + inner + seq![Token::CloseParenthesis]),
        spec_groups(seq![Token::OpenParenthesis] + inner + seq![Token::CloseParenthesis]) =~= seq![
            (Grouped {
                start_index: 0,
                end_index: (inner.len() + 2) as usize,
                kind: if (exists|i: int|
                    0 <= i < inner.len() && (#[trigger] inner[i]) is Separator && paren_depth(
                        inner.take(i),
                    ) == 0) {
                    Kind::Tuple
                } else {
                    Kind::Parenthesis
                },
            }),
        ],
{
    let opened = seq![Token::OpenParenthesis] + inner.take(inner.len() as int);
    let whole = seq![Token::OpenParenthesis] + inner + seq![Token::CloseParenthesis];
    lemma_open_prefix(inner, inner.len() as int);
    assert(inner.take(inner.len() as int) =~= inner);
    assert(whole.drop_last() =~= opened);
    assert(whole.last() == Token::CloseParenthesis);
    assert(paren_depth(opened) == 1);
    assert forall|m: int| 0 <= m <= whole.len() implies paren_depth(
        #[trigger] whole.take(m),
    ) >= 0 by {
        if m == 0 {
            assert(whole.take(m) =~= Seq::<Token>::empty());
        } else if m < whole.len() {
            assert(whole.take(m) =~= opened.take(m));
        } else {
            assert(whole.take(m) =~= whole);
        }
    }
}

/// Grows the span of the most recently started group to cover the token at
/// `index`.
fn append_to_existing_token(expressions: &mut Vec<Grouped>, index: usize)
    requires
        old(expressions)@.len() > 0,
        index < usize::MAX,
    ensures
        final(expressions)@ == extend_last(old(expressions)@, index as int + 1),
{
    let n = expressions.len();
    let g = expressions[n - 1];
    expressions.set(
        n - 1,
        Grouped { start_index: g.start_index, end_index: index + 1, kind: g.kind },
    );
}

/// Handles a depth-zero token with no structural meaning: extends a running
/// literal group or starts a new one at `index`.
fn push_or_extend_literals(expressions: &mut Vec<Grouped>, index: usize)
    requires
        index < usize::MAX,
    ensures
        final(expressions)@ == literal_step(old(expressions)@, index as int),
{
    let n = expressions.len();
    if n > 0 {
        let g = expressions[n - 1];
        if g.kind == Kind::Literals {
            expressions.set(
                n - 1,
                Grouped { start_index: g.start_index, end_index: index + 1, kind: g.kind },
            );
            return;
        }
    }
    expressions.push(Grouped { start_index: index, end_index: index + 1, kind: Kind::Literals });
}

/// Partitions a token stream into its top-level groups.
///
/// On a balanced stream the scan succeeds; the groups are exactly the ones
/// `spec_groups` describes, they come in strictly increasing start order,
/// and their spans tile the whole input with no gap, overlap or drop. On an
/// unbalanced stream (a closer with no open parenthesis, or an opener never
/// closed) the scan fails with `UnbalancedParenthesis` and returns no
/// partial result.
#[verifier::rlimit(60)]
pub fn grouped(tokens: &[Token]) -> (r: Result<Vec<Grouped>, StructuralError>)
    ensures
        match r {
            Ok(groups) => {
                &&& balanced(tokens@)
                &&& groups@ == spec_groups(tokens@)
                &&& (groups@.len() > 0 <==> tokens@.len() > 0)
                &&& groups@.len() > 0 ==> groups@[0].start_index == 0 && groups@.last().end_index
                    == tokens@.len()
                &&& forall|j: int| 0 <= j < groups@.len() - 1 ==> (#[trigger] groups@[j]).end_index
                    == groups@[j + 1].start_index
                &&& forall|j: int| 0 <= j < groups@.len() ==> (#[trigger] groups@[j]).start_index
                    < groups@[j].end_index
            },
            Err(e) => !balanced(tokens@) && e == StructuralError::UnbalancedParenthesis,
        },
{
    let mut expressions: Vec<Grouped> = Vec::new();
    let mut parenthesis_depth: usize = 0;
    let n = tokens.len();
    let mut index: usize = 0;
    while index < n
        invariant
            n == tokens@.len(),
            index <= n,
            parenthesis_depth <= index,
            forall|i: int| 0 <= i <= index ==> paren_depth(#[trigger] tokens@.take(i)) >= 0,
            parenthesis_depth == paren_depth(tokens@.take(index as int)),
            expressions@ == spec_groups(tokens@.take(index as int)),
            (expressions@.len() > 0 <==> index > 0),
            expressions@.len() > 0 ==> expressions@[0].start_index == 0
                && expressions@.last().end_index == index,
            forall|j: int| 0 <= j < expressions@.len() - 1 ==> (#[trigger] expressions@[j]).end_index
                == expressions@[j + 1].start_index,
            forall|j: int| 0 <= j < expressions@.len() ==> (#[trigger] expressions@[j]).start_index
                < expressions@[j].end_index,
            parenthesis_depth > 0 ==> expressions@.len() > 0 && expressions@.last().kind
                != Kind::Literals,
        decreases n - index,
    {
        let element = *slice_index_get(tokens, index);
        proof {
            assert(tokens@.take(index as int + 1).drop_last() =~= tokens@.take(index as int));
            assert(tokens@.take(index as int + 1).last() == tokens@[index as int]);
        }
        match element {
            Token::OpenParenthesis => {
                if parenthesis_depth == 0 {
                    expressions.push(
                        Grouped {
                            start_index: index,
                            end_index: index + 1,
                            kind: Kind::Parenthesis,
                        },
                    );
                } else {
                    append_to_existing_token(&mut expressions, index);
                }
                parenthesis_depth = parenthesis_depth + 1;
            },
            Token::Separator => {
                if parenthesis_depth == 0 {
                    push_or_extend_literals(&mut expressions, index);
                } else {
                    append_to_existing_token(&mut expressions, index);
                    if parenthesis_depth == 1 {
                        let m = expressions.len();
                        let g = expressions[m - 1];
                        expressions.set(
                            m - 1,
                            Grouped {
                                start_index: g.start_index,
                                end_index: g.end_index,
                                kind: Kind::Tuple,
                            },
                        );
                    }
                }
            },
            Token::CloseParenthesis => {
                if parenthesis_depth == 0 {
                    proof {
                        assert(paren_depth(tokens@.take(index as int + 1)) == -1);
                    }
                    return Err(StructuralError::UnbalancedParenthesis);
                } else {
                    parenthesis_depth = parenthesis_depth - 1;
                    append_to_existing_token(&mut expressions, index);
                }
            },
            Token::Whitespace(_) => {
                if parenthesis_depth > 0 {
                    append_to_existing_token(&mut expressions, index);
                } else {
                    push_or_extend_literals(&mut expressions, index);
                }
            },
            Token::Literal(_) => {
                if parenthesis_depth > 0 {
                    append_to_existing_token(&mut expressions, index);
                } else {
                    push_or_extend_literals(&mut expressions, index);
                }
            },
        }
        index = index + 1;
    }
    proof {
        assert(tokens@.take(n as int) =~= tokens@);
    }
    if parenthesis_depth > 0 {
        return Err(StructuralError::UnbalancedParenthesis);
    }
    Ok(expressions)
}

} // verus!
