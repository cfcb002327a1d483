//! Bracket-matching jump resolution: validates that the `[` and `]` commands
//! of a stream are balanced and produces a table that maps every bracket
//! position to its partner, so that the interpreter can enter and leave loops
//! in constant time.

use vstd::prelude::*;
use crate::errors::Error;

verus! {

/// The contribution of one command character to the bracket nesting depth.
pub open spec fn bracket_delta(c: char) -> int {
    if c == '[' {
        1
    } else if c == ']' {
        -1
    } else {
        0
    }
}

/// The bracket nesting depth in front of position `i`: the number of `[` in
/// `s[0..i]` minus the number of `]` there.
pub open spec fn depth(s: Seq<char>, i: int) -> int
    decreases i,
{
    if i <= 0 {
        0
    } else {
        depth(s, i - 1) + bracket_delta(s[i - 1])
    }
}

/// A stream is well-bracketed when the depth never drops below zero and
/// returns to zero at the end.
pub open spec fn balanced(s: Seq<char>) -> bool {
    &&& depth(s, s.len() as int) == 0
    &&& forall|i: int| 0 <= i <= s.len() ==> #[trigger] depth(s, i) >= 0
}

/// Positions `p` and `q` carry a `[` and the `]` that closes it: the depth
/// right after `q` is back to the depth in front of `p`, and everywhere in
/// between it stays strictly above it (standard matching-bracket semantics).
pub open spec fn is_match(s: Seq<char>, p: int, q: int) -> bool {
    &&& 0 <= p < q < s.len()
    &&& s[p] == '['
    &&& s[q] == ']'
    &&& depth(s, q + 1) == depth(s, p)
    &&& forall|m: int| p < m <= q ==> #[trigger] depth(s, m) > depth(s, p)
}

/// A complete jump table for `s`: every bracket position is mapped to its
/// partner, and every other position holds zero.
pub open spec fn table_matches(s: Seq<char>, table: Seq<usize>) -> bool {
    &&& table.len() == s.len()
    &&& forall|p: int|
        0 <= p < s.len() && s[p] == '[' ==> is_match(s, p, #[trigger] table[p] as int)
    &&& forall|p: int|
        0 <= p < s.len() && s[p] == ']' ==> is_match(s, #[trigger] table[p] as int, p)
    &&& forall|p: int|
        0 <= p < s.len() && s[p] != '[' && s[p] != ']' ==> #[trigger] table[p] == 0
}

/// A close position has at most one matching open position.
pub proof fn lemma_match_unique_open(s: Seq<char>, p1: int, p2: int, q: int)
    requires
        is_match(s, p1, q),
        is_match(s, p2, q),
    ensures
        p1 == p2,
{
    if p1 < p2 {
        assert(depth(s, p2) > depth(s, p1));
    } else if p2 < p1 {
        assert(depth(s, p1) > depth(s, p2));
    }
}

/// An open position has at most one matching close position.
pub proof fn lemma_match_unique_close(s: Seq<char>, p: int, q1: int, q2: int)
    requires
        is_match(s, p, q1),
        is_match(s, p, q2),
    ensures
        q1 == q2,
{
    if q1 < q2 {
        assert(depth(s, q1 + 1) > depth(s, p));
    } else if q2 < q1 {
        assert(depth(s, q2 + 1) > depth(s, p));
    }
}

/// The jump table of a well-bracketed stream is involutive: following it
/// twice from any bracket position leads back to that position.
pub proof fn lemma_table_involutive(s: Seq<char>, table: Seq<usize>)
    requires
        table_matches(s, table),
    ensures
        forall|p: int|
            0 <= p < s.len() && (s[p] == '[' || s[p] == ']') ==> table[#[trigger] table[p] as int]
                as int == p,
{
    assert forall|p: int|
        0 <= p < s.len() && (s[p] == '[' || s[p] == ']') implies table[#[trigger] table[p] as int]
        as int == p by {
        if s[p] == '[' {
            let q = table[p] as int;
            assert(is_match(s, p, q));
            assert(is_match(s, table[q] as int, q));
            lemma_match_unique_open(s, p, table[q] as int, q);
        } else {
            let o = table[p] as int;
            assert(is_match(s, o, p));
            assert(is_match(s, o, table[o] as int));
            lemma_match_unique_close(s, o, p, table[o] as int);
        }
    }
}

/// How many times `c` occurs in `s`.
pub open spec fn count_char(s: Seq<char>, c: char) -> nat
    decreases s.len(),
{
    if s.len() == 0 {
        0
    } else {
        count_char(s.drop_last(), c) + if s.last() == c {
            1nat
        } else {
            0nat
        }
    }
}

/// Streams that agree on their first `i` characters have the same depth there.
proof fn lemma_depth_agrees(s1: Seq<char>, s2: Seq<char>, i: int)
    requires
        0 <= i <= s1.len(),
        i <= s2.len(),
        forall|j: int| 0 <= j < i ==> s1[j] == s2[j],
    ensures
        depth(s1, i) == depth(s2, i),
    decreases i,
{
    if i > 0 {
        lemma_depth_agrees(s1, s2, i - 1);
    }
}

/// The final depth of a stream is the surplus of `[` over `]`.
pub proof fn lemma_depth_is_count_difference(s: Seq<char>)
    ensures
        depth(s, s.len() as int) == count_char(s, '[') - count_char(s, ']'),
    decreases s.len(),
{
    if s.len() > 0 {
        let prefix = s.drop_last();
        lemma_depth_is_count_difference(prefix);
        lemma_depth_agrees(s, prefix, s.len() - 1);
    }
}

/// A stream of brackets where one side outnumbers the other by one is never
/// balanced, so no jump table can be built for it.
pub proof fn lemma_one_extra_bracket_unbalanced(s: Seq<char>)
    requires
        forall|i: int| 0 <= i < s.len() ==> s[i] == '[' || s[i] == ']',
        count_char(s, '[') + 1 == count_char(s, ']') || count_char(s, ']') + 1 == count_char(
            s,
            '[',
        ),
    ensures
        !balanced(s),
{
    lemma_depth_is_count_difference(s);
}

/// Builds the jump table for `commands` in a single left-to-right scan over a
/// stack of open-bracket positions, or reports that the brackets do not
/// balance.
pub fn build_jump_table(commands: &Vec<char>) -> (r: Result<Vec<usize>, Error>)
    ensures
        match r {
            Ok(table) => balanced(commands@) && table_matches(commands@, table@),
            Err(e) => e == Error::UnbalancedBrackets && !balanced(commands@),
        },
{
    let ghost s = commands@;
    let n = commands.len();

    let mut table: Vec<usize> = Vec::new();
    let mut k: usize = 0;
    while k < n
        invariant
            k <= n,
            table@.len() == k,
            forall|j: int| 0 <= j < k ==> table@[j] == 0,
        decreases n - k,
    {
        table.push(0);
        k += 1;
    }

    let mut stack: Vec<usize> = Vec::new();
    let mut i: usize = 0;
    while i < n
        invariant
            n == s.len(),
            s == commands@,
            i <= n,
            table@.len() == n,
            depth(s, i as int) == stack@.len(),
            forall|j: int| 0 <= j <= i ==> #[trigger] depth(s, j) >= 0,
            forall|k2: int|
                0 <= k2 < stack@.len() ==> {
                    &&& #[trigger] stack@[k2] < i
                    &&& s[stack@[k2] as int] == '['
                    &&& depth(s, stack@[k2] as int) == k2
                },
            forall|k2: int, m: int|
                #![trigger depth(s, m), stack@[k2]]
                0 <= k2 < stack@.len() && stack@[k2] < m <= i ==> depth(s, m) > k2,
            forall|p: int|
                0 <= p < i && s[p] == '[' && !on_stack(stack@, p) ==> {
                    &&& is_match(s, p, #[trigger] table@[p] as int)
                    &&& table@[p] < i
                },
            forall|p: int|
                0 <= p < i && s[p] == ']' ==> {
                    &&& is_match(s, #[trigger] table@[p] as int, p)
                    &&& table@[p] < i
                },
            forall|p: int|
                0 <= p < n && (p >= i || (s[p] != '[' && s[p] != ']') || on_stack(stack@, p))
                    ==> #[trigger] table@[p] == 0,
        decreases n - i,
    {
        let c = commands[i];
        if c == '[' {
            let ghost old_stack = stack@;
            stack.push(i);
            proof {
                assert forall|p: int| 0 <= p < i + 1 && s[p] == '[' && !on_stack(
                    stack@,
                    p,
                ) implies is_match(s, p, table@[p] as int) && table@[p] < i + 1 by {
                    assert(stack@[stack@.len() - 1] == i);
                    if p < i {
                        assert forall|k2: int|
                            0 <= k2 < old_stack.len() && old_stack[k2] == p implies false by {
                            assert(stack@[k2] == p);
                            assert(on_stack(stack@, p));
                        }
                        assert(!on_stack(old_stack, p));
                    } else {
                        assert(on_stack(stack@, p));
                    }
                }
                assert forall|p: int|
                    0 <= p < n && (p >= i + 1 || (s[p] != '[' && s[p] != ']') || on_stack(
                        stack@,
                        p,
                    )) implies #[trigger] table@[p] == 0 by {
                    if p < i + 1 && (s[p] == '[' || s[p] == ']') && on_stack(stack@, p) {
                        let k2 = choose|k2: int|
                            0 <= k2 < stack@.len() && stack@[k2] == p;
                        if k2 < old_stack.len() {
                            assert(on_stack(old_stack, p));
                        } else {
                            assert(p == i);
                        }
                    }
                }
            }
        } else if c == ']' {
            let ghost old_stack = stack@;
            match stack.pop() {
                Some(p) => {
                    let ghost old_table = table@;
                    table[p] = i;
                    table[i] = p;
                    proof {
                        let d = depth(s, p as int);
                        assert(old_stack[old_stack.len() - 1] == p);
                        assert(d == old_stack.len() - 1);
                        assert(depth(s, i + 1) == d);
                        assert(is_match(s, p as int, i as int));
                        assert(table@ == old_table.update(p as int, i as usize).update(
                            i as int,
                            p,
                        ));
                        // remaining stack entries are still open and distinct from p
                        assert forall|k2: int|
                            0 <= k2 < stack@.len() implies stack@[k2] == old_stack[k2] by {}
                        assert forall|p2: int| 0 <= p2 < i + 1 && s[p2] == '[' && !on_stack(
                            stack@,
                            p2,
                        ) implies is_match(s, p2, table@[p2] as int) && table@[p2] < i + 1 by {
                            if p2 == p {
                            } else if p2 == i {
                            } else {
                                if on_stack(old_stack, p2) {
                                    let k2 = choose|k2: int|
                                        0 <= k2 < old_stack.len() && old_stack[k2] == p2;
                                    assert(k2 < old_stack.len() - 1);
                                    assert(stack@[k2] == p2);
                                    assert(on_stack(stack@, p2));
                                } else {
                                    assert(old_table[p2] == table@[p2]);
                                }
                            }
                        }
                        assert forall|p2: int| 0 <= p2 < i + 1 && s[p2] == ']' implies is_match(
                            s,
                            table@[p2] as int,
                            p2,
                        ) && table@[p2] < i + 1 by {
                            if p2 == i {
                            } else {
                                assert(p2 < i);
                                assert(old_table[p2] == table@[p2]);
                            }
                        }
                        assert forall|p2: int|
                            0 <= p2 < n && (p2 >= i + 1 || (s[p2] != '[' && s[p2] != ']')
                                || on_stack(stack@, p2)) implies #[trigger] table@[p2] == 0 by {
                            if p2 != p && p2 != i {
                                if on_stack(stack@, p2) {
                                    let k2 = choose|k2: int|
                                        0 <= k2 < stack@.len() && stack@[k2] == p2;
                                    assert(old_stack[k2] == p2);
                                    assert(on_stack(old_stack, p2));
                                }
                                assert(old_table[p2] == table@[p2]);
                            }
                        }
                    }
                },
                None => {
                    proof {
                        assert(depth(s, i + 1) == -1);
                        assert(!balanced(s));
                    }
                    return Err(Error::UnbalancedBrackets);
                },
            }
        }
        i += 1;
    }

    if stack.len() > 0 {
        proof {
            assert(depth(s, n as int) == stack@.len());
        }
        return Err(Error::UnbalancedBrackets);
    }

    proof {
        assert(balanced(s));
        assert forall|p: int| 0 <= p < s.len() && s[p] == '[' implies is_match(
            s,
            p,
            table@[p] as int,
        ) by {
            assert(!on_stack(stack@, p));
        }
    }
    Ok(table)
}

/// Whether position `p` is on the stack of currently open brackets.
pub open spec fn on_stack(stack: Seq<usize>, p: int) -> bool {
    exists|k: int| 0 <= k < stack.len() && stack[k] == p
}

} // verus!
