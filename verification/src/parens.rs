//! Redundant double-parenthesization removal.
//!
//! One stack-based scan computes the matching close of every open
//! parenthesis. An open is redundant when it is immediately followed by an
//! inner open whose matching close immediately precedes the outer close;
//! both characters of such an outer pair are deleted in a single copy pass.

use vstd::prelude::*;

use crate::chars::string_from_chars;

verus! {

/// The contribution of one character to the parenthesis depth.
pub open spec fn paren_delta(c: char) -> int {
    if c == '(' {
        1
    } else if c == ')' {
        -1
    } else {
        0
    }
}

/// The parenthesis depth of the prefix of `s` of length `k`: opens minus
/// closes.
pub open spec fn paren_depth(s: Seq<char>, k: int) -> int
    decreases k,
{
    if k <= 0 {
        0
    } else {
        paren_depth(s, k - 1) + paren_delta(s[k - 1])
    }
}

/// The parentheses of `s` are balanced: the depth never goes negative and
/// ends at zero.
pub open spec fn balanced(s: Seq<char>) -> bool {
    &&& paren_depth(s, s.len() as int) == 0
    &&& forall|k: int| 0 <= k <= s.len() ==> paren_depth(s, k) >= 0
}

/// The open parenthesis at `i` is matched by the close at `j`: the depth
/// returns to the open's level right after `j` and stays strictly above it in
/// between.
pub open spec fn is_match(s: Seq<char>, i: int, j: int) -> bool {
    &&& 0 <= i < j < s.len()
    &&& s[i] == '('
    &&& s[j] == ')'
    &&& paren_depth(s, j + 1) == paren_depth(s, i)
    &&& forall|k: int| i < k <= j ==> paren_depth(s, k) > paren_depth(s, i)
}

/// An open parenthesis has at most one matching close.
pub proof fn lemma_match_unique(s: Seq<char>, i: int, j1: int, j2: int)
    requires
        is_match(s, i, j1),
        is_match(s, i, j2),
    ensures
        j1 == j2,
{
    if j1 < j2 {
        assert(paren_depth(s, j1 + 1) > paren_depth(s, i));
    }
    if j2 < j1 {
        assert(paren_depth(s, j2 + 1) > paren_depth(s, i));
    }
}

/// A pair opened strictly inside another pair also closes strictly inside
/// it.
pub proof fn lemma_match_nested(s: Seq<char>, q: int, mq: int, p: int, mp: int)
    requires
        is_match(s, q, mq),
        is_match(s, p, mp),
        q < p < mq,
    ensures
        mp < mq,
{
    assert(paren_depth(s, p) > paren_depth(s, q));
    if mp == mq {
        assert(paren_depth(s, mp + 1) == paren_depth(s, p));
    }
    if mp > mq {
        assert(paren_depth(s, mq + 1) > paren_depth(s, p));
        assert(paren_depth(s, mq + 1) == paren_depth(s, q));
    }
}

/// The open at `i` is redundant: its inner neighbour's matching close
/// immediately precedes its own matching close.
pub open spec fn redundant_open(s: Seq<char>, i: int) -> bool {
    exists|j: int| is_match(s, i, j) && is_match(s, i + 1, j - 1)
}

/// Position `k` is deleted by the pass: it is a redundant open, or the
/// matching close of one.
pub open spec fn dropped_pos(s: Seq<char>, k: int) -> bool {
    redundant_open(s, k) || exists|i: int| redundant_open(s, i) && is_match(s, i, k)
}

/// The characters of `s` from position `k` on that the pass keeps.
pub open spec fn keep_from(s: Seq<char>, k: int) -> Seq<char>
    decreases s.len() - k,
{
    if k < 0 || k >= s.len() {
        Seq::empty()
    } else if dropped_pos(s, k) {
        keep_from(s, k + 1)
    } else {
        seq![s[k]] + keep_from(s, k + 1)
    }
}

/// The redundant-parenthesis pass over `s`: both characters of every
/// redundant outer pair are deleted.
pub open spec fn drop_redundant_parens(s: Seq<char>) -> Seq<char> {
    keep_from(s, 0)
}

/// Balance of `s` with `d` parentheses already open before it: the running
/// count never drops below zero and ends at zero.
pub open spec fn bal(s: Seq<char>, d: int) -> bool
    decreases s.len(),
{
    if s.len() == 0 {
        d == 0
    } else if s[0] == '(' {
        bal(s.drop_first(), d + 1)
    } else if s[0] == ')' {
        d > 0 && bal(s.drop_first(), d - 1)
    } else {
        bal(s.drop_first(), d)
    }
}

proof fn lemma_depth_drop_first(s: Seq<char>, k: int)
    requires
        1 <= k <= s.len(),
    ensures
        paren_depth(s, k) == paren_delta(s[0]) + paren_depth(s.drop_first(), k - 1),
    decreases k,
{
    assert(paren_depth(s, k) == paren_depth(s, k - 1) + paren_delta(s[k - 1]));
    if k == 1 {
        assert(paren_depth(s.drop_first(), 0) == 0);
    } else {
        lemma_depth_drop_first(s, k - 1);
        assert(s.drop_first()[k - 2] == s[k - 1]);
        assert(paren_depth(s.drop_first(), k - 1) == paren_depth(s.drop_first(), k - 2)
            + paren_delta(s.drop_first()[k - 2]));
    }
}

/// With no parentheses already open, `bal` says exactly that the depth never
/// goes negative and ends at zero.
pub proof fn lemma_bal_iff(s: Seq<char>, d: int)
    requires
        d >= 0,
    ensures
        bal(s, d) <==> (d + paren_depth(s, s.len() as int) == 0 && forall|k: int|
            1 <= k <= s.len() ==> d + paren_depth(s, k) >= 0),
    decreases s.len(),
{
    if s.len() == 0 {
    } else {
        let tail = s.drop_first();
        let d2 = d + paren_delta(s[0]);
        assert forall|k: int| 1 <= k <= s.len() implies paren_depth(s, k) == paren_delta(s[0])
            + paren_depth(tail, k - 1) by {
            lemma_depth_drop_first(s, k);
        }
        if s[0] == ')' && d == 0 {
            assert(!bal(s, d));
            assert(d + paren_depth(s, 1) < 0);
        } else {
            assert(d2 >= 0);
            lemma_bal_iff(tail, d2);
            if bal(s, d) {
                assert forall|k: int| 1 <= k <= s.len() implies d + paren_depth(s, k) >= 0 by {
                    if k == 1 {
                        assert(d + paren_depth(s, 1) == d2);
                    } else {
                        assert(d2 + paren_depth(tail, k - 1) >= 0);
                    }
                }
            }
            if d + paren_depth(s, s.len() as int) == 0 && forall|k: int|
                1 <= k <= s.len() ==> d + paren_depth(s, k) >= 0 {
                assert forall|k: int| 1 <= k <= tail.len() implies d2 + paren_depth(tail, k)
                    >= 0 by {
                    assert(d + paren_depth(s, k + 1) >= 0);
                }
                assert(d2 + paren_depth(tail, tail.len() as int) == 0);
            }
        }
    }
}

/// The redundant-parenthesis pass leaves text without a redundant pair
/// unchanged.
pub proof fn lemma_parens_fixed_when_no_redundancy(t: Seq<char>)
    requires
        forall|i: int| !redundant_open(t, i),
    ensures
        drop_redundant_parens(t) == t,
{
    lemma_keep_from_all(t, 0);
    assert(t.skip(0) =~= t);
}

proof fn lemma_keep_from_all(t: Seq<char>, k: int)
    requires
        forall|i: int| !redundant_open(t, i),
        0 <= k <= t.len(),
    ensures
        keep_from(t, k) == t.skip(k),
    decreases t.len() - k,
{
    if k < t.len() {
        assert(!dropped_pos(t, k));
        lemma_keep_from_all(t, k + 1);
        assert(seq![t[k]] + t.skip(k + 1) =~= t.skip(k));
    }
}

/// A correct table of matches: every open has its matching close recorded,
/// and nothing else is recorded.
pub open spec fn match_table_ok(s: Seq<char>, t: Seq<Option<usize>>) -> bool {
    &&& t.len() == s.len()
    &&& forall|k: int| 0 <= k < s.len() && s[k] == '(' ==> (#[trigger] t[k]) is Some
    &&& forall|k: int|
        0 <= k < s.len() && (#[trigger] t[k]) is Some ==> is_match(s, k, t[k]->0 as int)
}

pub(crate) fn build_matches(src: &Vec<char>) -> (table: Vec<Option<usize>>)
    requires
        balanced(src@),
    ensures
        match_table_ok(src@, table@),
{
    let n = src.len();
    let mut table: Vec<Option<usize>> = vec![None; n];
    let mut stack: Vec<usize> = Vec::new();
    let mut i: usize = 0;
    while i < n
        invariant
            n == src@.len(),
            i <= n,
            balanced(src@),
            table@.len() == n,
            stack@.len() == paren_depth(src@, i as int),
            forall|d: int|
                0 <= d < stack@.len() ==> {
                    let p = #[trigger] stack@[d] as int;
                    &&& 0 <= p < i
                    &&& src@[p] == '('
                    &&& paren_depth(src@, p) == d
                    &&& paren_depth(src@, p + 1) == d + 1
                    &&& forall|m: int| p < m <= i ==> paren_depth(src@, m) >= d + 1
                },
            forall|k: int|
                0 <= k < n && (#[trigger] table@[k]) is Some ==> is_match(
                    src@,
                    k,
                    table@[k]->0 as int,
                ),
            forall|k: int|
                0 <= k < i && src@[k] == '(' && !stack@.contains(k as usize)
                    ==> (#[trigger] table@[k]) is Some,
            forall|k: int| i <= k < n ==> (#[trigger] table@[k]) is None,
        decreases n - i,
    {
        let c = src[i];
        proof {
            assert(paren_depth(src@, i as int + 1) == paren_depth(src@, i as int) + paren_delta(
                src@[i as int],
            ));
        }
        if c == '(' {
            let ghost stack_before = stack@;
            stack.push(i);
            proof {
                assert forall|k: int|
                    0 <= k < i + 1 && src@[k] == '(' && !stack@.contains(k as usize) implies (
                #[trigger] table@[k]) is Some by {
                    if k == i {
                        assert(stack@[stack@.len() - 1] == i as usize);
                        assert(stack@.contains(i as usize));
                    } else if k < i {
                        if stack_before.contains(k as usize) {
                            let d = choose|d: int|
                                0 <= d < stack_before.len() && stack_before[d] == k as usize;
                            assert(stack@[d] == k as usize);
                            assert(stack@.contains(k as usize));
                        }
                    }
                }
            }
        } else if c == ')' {
            proof {
                assert(paren_depth(src@, i as int + 1) >= 0);
            }
            let ghost stack_before = stack@;
            let popped = stack.pop();
            let p = popped.unwrap();
            proof {
                assert(is_match(src@, p as int, i as int));
            }
            table[p] = Some(i);
            proof {
                assert forall|k: int|
                    0 <= k < i + 1 && src@[k] == '(' && !stack@.contains(k as usize) implies (
                #[trigger] table@[k]) is Some by {
                    if k != p as int && k < i {
                        if stack_before.contains(k as usize) {
                            let d = choose|d: int|
                                0 <= d < stack_before.len() && stack_before[d] == k as usize;
                            assert(stack_before[stack_before.len() - 1] == p);
                            assert(d < stack_before.len() - 1);
                            assert(stack@[d] == k as usize);
                            assert(stack@.contains(k as usize));
                        }
                    }
                }
            }
        }
        i += 1;
    }
    table
}

/// The exec test for a redundant open at `i`, phrased over the match table.
pub open spec fn drop_open_cond(s: Seq<char>, t: Seq<Option<usize>>, i: int) -> bool {
    &&& i + 1 < s.len()
    &&& t[i] is Some
    &&& t[i + 1] is Some
    &&& (t[i]->0 as int) == (t[i + 1]->0 as int) + 1
}

/// The invariant of the pending-close stack at scan position `i`:
/// `stack[d]` is the matching close, not yet reached, of the redundant open
/// `owners[d]` already passed; the closes strictly decrease from bottom to
/// top; and the close of every redundant open already passed and not yet
/// reached is on the stack.
pub open spec fn drop_stack_inv(s: Seq<char>, stack: Seq<usize>, owners: Seq<int>, i: int) -> bool {
    &&& owners.len() == stack.len()
    &&& forall|d: int|
        0 <= d < stack.len() ==> {
            &&& i <= #[trigger] stack[d] < s.len()
            &&& 0 <= owners[d] < i
            &&& redundant_open(s, owners[d])
            &&& is_match(s, owners[d], stack[d] as int)
        }
    &&& forall|d1: int, d2: int| 0 <= d1 < d2 < stack.len() ==> stack[d1] > stack[d2]
    &&& forall|p: int, e: int|
        0 <= p < i && redundant_open(s, p) && #[trigger] is_match(s, p, e) && e >= i
            ==> stack.contains(e as usize)
}

#[verifier::rlimit(80)]
proof fn lemma_stack_push(s: Seq<char>, stack: Seq<usize>, owners: Seq<int>, i: int, e: usize)
    requires
        drop_stack_inv(s, stack, owners, i),
        0 <= i,
        redundant_open(s, i),
        is_match(s, i, e as int),
    ensures
        drop_stack_inv(s, stack.push(e), owners.push(i), i + 1),
        dropped_pos(s, i),
{
    let st2 = stack.push(e);
    let ow2 = owners.push(i);
    if stack.len() > 0 {
        let t = stack[stack.len() - 1];
        assert(s[t as int] == ')');
        assert(s[i] == '(');
        lemma_match_nested(s, owners[stack.len() - 1], t as int, i, e as int);
        assert forall|d: int| 0 <= d < stack.len() implies stack[d] > e by {
            if d < stack.len() - 1 {
                assert(stack[d] > stack[stack.len() - 1]);
            }
        }
    }
    assert forall|d: int| 0 <= d < st2.len() implies {
        &&& i + 1 <= #[trigger] st2[d] < s.len()
        &&& 0 <= ow2[d] < i + 1
        &&& redundant_open(s, ow2[d])
        &&& is_match(s, ow2[d], st2[d] as int)
    } by {
        if d < stack.len() {
            assert(st2[d] == stack[d]);
            assert(ow2[d] == owners[d]);
            assert(s[stack[d] as int] == ')');
            assert(stack[d] as int != i);
        } else {
            assert(st2[d] == e);
            assert(ow2[d] == i);
        }
    }
    assert forall|p: int, ee: int|
        0 <= p < i + 1 && redundant_open(s, p) && #[trigger] is_match(s, p, ee) && ee >= i
            + 1 implies st2.contains(ee as usize) by {
        if p < i {
            assert(stack.contains(ee as usize));
            let d = choose|d: int| 0 <= d < stack.len() && stack[d] == ee as usize;
            assert(st2[d] == ee as usize);
        } else {
            lemma_match_unique(s, p, ee, e as int);
            assert(st2[st2.len() - 1] == e);
        }
    }
}

#[verifier::rlimit(100)]
proof fn lemma_stack_pop(s: Seq<char>, stack: Seq<usize>, owners: Seq<int>, i: int)
    requires
        s.len() <= usize::MAX,
        drop_stack_inv(s, stack, owners, i),
        0 <= i,
        stack.len() > 0,
        stack[stack.len() - 1] == i as usize,
        i < s.len(),
    ensures
        drop_stack_inv(s, stack.drop_last(), owners.drop_last(), i + 1),
        dropped_pos(s, i),
{
    let p0 = owners[stack.len() - 1];
    assert(redundant_open(s, p0) && is_match(s, p0, i));
    assert(dropped_pos(s, i));
    assert(s[i] == ')');
    let st2 = stack.drop_last();
    let ow2 = owners.drop_last();
    assert forall|d: int| 0 <= d < st2.len() implies {
        &&& i + 1 <= #[trigger] st2[d] < s.len()
        &&& 0 <= ow2[d] < i + 1
        &&& redundant_open(s, ow2[d])
        &&& is_match(s, ow2[d], st2[d] as int)
    } by {
        assert(st2[d] == stack[d]);
        assert(ow2[d] == owners[d]);
        assert(stack[d] > stack[stack.len() - 1]);
    }
    assert forall|p: int, ee: int|
        0 <= p < i + 1 && redundant_open(s, p) && #[trigger] is_match(s, p, ee) && ee >= i
            + 1 implies st2.contains(ee as usize) by {
        if p == i {
            assert(s[p] == '(');
        } else {
            assert(is_match(s, p, ee) && ee >= i);
            assert(stack.contains(ee as usize));
            let d = choose|d: int| 0 <= d < stack.len() && stack[d] == ee as usize;
            assert(0 <= ee < s.len());
            assert(ee as usize as int == ee);
            assert(stack[d] != i as usize);
            assert(d < stack.len() - 1);
            assert(st2[d] == ee as usize);
        }
    }
}

#[verifier::rlimit(80)]
proof fn lemma_stack_keep(s: Seq<char>, t: Seq<Option<usize>>, stack: Seq<usize>, owners: Seq<int>, i: int)
    requires
        drop_stack_inv(s, stack, owners, i),
        match_table_ok(s, t),
        0 <= i < s.len(),
        !drop_open_cond(s, t, i),
        stack.len() > 0 ==> stack[stack.len() - 1] != i as usize,
    ensures
        drop_stack_inv(s, stack, owners, i + 1),
        !dropped_pos(s, i),
{
    assert(!redundant_open(s, i)) by {
        if redundant_open(s, i) {
            let j = choose|j: int| is_match(s, i, j) && is_match(s, i + 1, j - 1);
            assert(s[i] == '(');
            assert(s[i + 1] == '(');
            assert(t[i] is Some);
            assert(t[i + 1] is Some);
            lemma_match_unique(s, i, t[i]->0 as int, j);
            lemma_match_unique(s, i + 1, t[i + 1]->0 as int, j - 1);
        }
    }
    assert(!(exists|p: int| redundant_open(s, p) && is_match(s, p, i))) by {
        if exists|p: int| redundant_open(s, p) && is_match(s, p, i) {
            let p = choose|p: int| redundant_open(s, p) && is_match(s, p, i);
            assert(is_match(s, p, i) && i >= i);
            assert(stack.contains(i as usize));
            let d = choose|d: int| 0 <= d < stack.len() && stack[d] == i as usize;
            if d < stack.len() - 1 {
                assert(stack[d] > stack[stack.len() - 1]);
                assert(stack[stack.len() - 1] >= i);
            }
        }
    }
    assert forall|d: int| 0 <= d < stack.len() implies i + 1 <= #[trigger] stack[d] by {
        if stack[d] == i as usize {
            assert(redundant_open(s, owners[d]) && is_match(s, owners[d], i));
        }
    }
    assert forall|p: int, ee: int|
        0 <= p < i + 1 && redundant_open(s, p) && #[trigger] is_match(s, p, ee) && ee >= i
            + 1 implies stack.contains(ee as usize) by {
        if p == i {
            assert(!redundant_open(s, i));
        }
    }
}

#[verifier::rlimit(80)]
pub(crate) fn drop_parens_exec(src: &Vec<char>, table: &Vec<Option<usize>>) -> (out: Vec<char>)
    requires
        balanced(src@),
        match_table_ok(src@, table@),
    ensures
        out@ == drop_redundant_parens(src@),
{
    let n = src.len();
    let mut out: Vec<char> = Vec::new();
    let mut drop_stack: Vec<usize> = Vec::new();
    let ghost mut owners: Seq<int> = Seq::empty();
    let mut i: usize = 0;
    proof {
        assert(out@ + keep_from(src@, 0) =~= keep_from(src@, 0));
    }
    while i < n
        invariant
            n == src@.len(),
            i <= n,
            balanced(src@),
            match_table_ok(src@, table@),
            keep_from(src@, 0) == out@ + keep_from(src@, i as int),
            drop_stack_inv(src@, drop_stack@, owners, i as int),
        decreases n - i,
    {
        let ghost stack0 = drop_stack@;
        let mut handled = false;
        if i + 1 < n {
            let mi = table[i];
            let mi1 = table[i + 1];
            if let Some(e) = mi {
                if let Some(e2) = mi1 {
                    proof {
                        assert(is_match(src@, i as int, e as int));
                        assert(is_match(src@, i as int + 1, e2 as int));
                    }
                    if e == e2 + 1 {
                        proof {
                            assert(redundant_open(src@, i as int));
                            lemma_stack_push(src@, stack0, owners, i as int, e);
                            owners = owners.push(i as int);
                        }
                        drop_stack.push(e);
                        handled = true;
                        proof {
                            assert(keep_from(src@, i as int) == keep_from(src@, i as int + 1));
                        }
                    }
                }
            }
        }
        if !handled {
            let mut skip = false;
            if drop_stack.len() > 0 && drop_stack[drop_stack.len() - 1] == i {
                proof {
                    lemma_stack_pop(src@, stack0, owners, i as int);
                    owners = owners.drop_last();
                }
                let _ = drop_stack.pop();
                skip = true;
                proof {
                    assert(keep_from(src@, i as int) == keep_from(src@, i as int + 1));
                }
            }
            if !skip {
                proof {
                    assert(!drop_open_cond(src@, table@, i as int));
                    lemma_stack_keep(src@, table@, stack0, owners, i as int);
                    assert(keep_from(src@, i as int) == seq![src@[i as int]] + keep_from(
                        src@,
                        i as int + 1,
                    ));
                }
                out.push(src[i]);
            }
        }
        proof {
            assert(out@ + keep_from(src@, i as int + 1) =~= keep_from(src@, 0));
        }
        i += 1;
    }
    proof {
        assert(out@ =~= out@ + keep_from(src@, n as int));
    }
    out
}

/// The redundant-parenthesis pass: delete every outer parenthesis pair that
/// immediately and exactly wraps an inner pair. The parentheses of the input
/// must be balanced.
pub fn remove_double_parens(src: &str) -> (out: String)
    requires
        balanced(src@),
    ensures
        out@ == drop_redundant_parens(src@),
{
    let v = crate::text::str_to_chars(src);
    let table = build_matches(&v);
    let r = drop_parens_exec(&v, &table);
    string_from_chars(&r)
}

} // verus!
