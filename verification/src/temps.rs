//! Trivial single-use temporary collapsing.
//!
//! The rewrite recognizes the pattern "declare a temporary bound to an
//! expression; later, exactly one reference to that temporary": it
//! substitutes the expression at the single use site and deletes the
//! declaration. A temporary used more than once is left alone, since
//! substitution would duplicate its computation. One call collapses the
//! first such declaration; repeated application reaches a fixed point.

use vstd::prelude::*;

use crate::chars::is_ident_char;
use crate::chars::string_from_chars;
use crate::text::str_to_chars;

verus! {

/// The characters of `w` occur in `s` starting at position `i`.
pub open spec fn seq_at(s: Seq<char>, i: int, w: Seq<char>) -> bool {
    0 <= i && i + w.len() <= s.len() && s.subrange(i, i + w.len()) == w
}

/// `w` stands at position `i` of `s` as a whole word: no identifier
/// character touches it on either side.
pub open spec fn word_at(s: Seq<char>, i: int, w: Seq<char>) -> bool {
    &&& seq_at(s, i, w)
    &&& (i == 0 || !is_ident_char(s[i - 1]))
    &&& (i + w.len() == s.len() || !is_ident_char(s[i + w.len()]))
}

/// How many positions at or after `i` carry `w` as a whole word.
pub open spec fn count_word_from(s: Seq<char>, w: Seq<char>, i: int) -> nat
    decreases s.len() - i,
{
    if i >= s.len() {
        0
    } else {
        (if word_at(s, i, w) {
            1nat
        } else {
            0
        }) + count_word_from(s, w, i + 1)
    }
}

/// The first position at or after `i` carrying `w` as a whole word, or the
/// length of `s` if there is none.
pub open spec fn find_word_from(s: Seq<char>, w: Seq<char>, i: int) -> int
    decreases s.len() - i,
{
    if i >= s.len() {
        s.len() as int
    } else if word_at(s, i, w) {
        i
    } else {
        find_word_from(s, w, i + 1)
    }
}

/// The end of the identifier-character run starting at `i`.
pub open spec fn ident_end(s: Seq<char>, i: int) -> int
    decreases s.len() - i,
{
    if 0 <= i < s.len() && is_ident_char(s[i]) {
        ident_end(s, i + 1)
    } else {
        i
    }
}

/// The first semicolon at or after `i`, or the length of `s`.
pub open spec fn find_semi(s: Seq<char>, i: int) -> int
    decreases s.len() - i,
{
    if i >= s.len() {
        s.len() as int
    } else if s[i] == ';' {
        i
    } else {
        find_semi(s, i + 1)
    }
}

/// The keyword that introduces a temporary declaration.
pub open spec fn let_kw() -> Seq<char> {
    seq!['l', 'e', 't']
}

/// Position `i` starts a declaration `let T=E;` with a non-empty name `T`
/// and a non-empty expression `E`.
pub open spec fn decl_at(s: Seq<char>, i: int) -> bool {
    let t_end = ident_end(s, i + 4);
    let semi = find_semi(s, t_end + 1);
    &&& word_at(s, i, let_kw())
    &&& i + 3 < s.len() && s[i + 3] == ' '
    &&& t_end > i + 4
    &&& t_end < s.len() && s[t_end] == '='
    &&& semi < s.len()
    &&& semi > t_end + 1
}

/// The name of the declaration at `i`.
pub open spec fn decl_name(s: Seq<char>, i: int) -> Seq<char> {
    s.subrange(i + 4, ident_end(s, i + 4))
}

/// The bound expression of the declaration at `i`.
pub open spec fn decl_expr(s: Seq<char>, i: int) -> Seq<char> {
    s.subrange(ident_end(s, i + 4) + 1, find_semi(s, ident_end(s, i + 4) + 1))
}

/// The position of the semicolon closing the declaration at `i`.
pub open spec fn decl_end(s: Seq<char>, i: int) -> int {
    find_semi(s, ident_end(s, i + 4) + 1)
}

/// The declaration at `i` binds a trivial single-use temporary: after it,
/// its name occurs exactly once.
pub open spec fn decl_eligible(s: Seq<char>, i: int) -> bool {
    decl_at(s, i) && count_word_from(s, decl_name(s, i), decl_end(s, i) + 1) == 1
}

/// The first position at or after `i` starting an eligible declaration, or
/// the length of `s`.
pub open spec fn first_eligible(s: Seq<char>, i: int) -> int
    decreases s.len() - i,
{
    if i >= s.len() {
        s.len() as int
    } else if decl_eligible(s, i) {
        i
    } else {
        first_eligible(s, i + 1)
    }
}

/// One step of temporary collapsing: if an eligible declaration exists, the
/// first one is deleted and its expression replaces the single later use of
/// its name; otherwise the text is unchanged.
pub open spec fn collapse_spec(s: Seq<char>) -> Seq<char> {
    let i = first_eligible(s, 0);
    if i >= s.len() {
        s
    } else {
        let name = decl_name(s, i);
        let e = decl_expr(s, i);
        let semi = decl_end(s, i);
        let u = find_word_from(s, name, semi + 1);
        s.subrange(0, i) + s.subrange(semi + 1, u) + e + s.subrange(
            u + name.len(),
            s.len() as int,
        )
    }
}

proof fn lemma_count_found(s: Seq<char>, w: Seq<char>, i: int)
    requires
        count_word_from(s, w, i) > 0,
    ensures
        find_word_from(s, w, i) < s.len(),
        word_at(s, find_word_from(s, w, i), w),
        i <= find_word_from(s, w, i),
    decreases s.len() - i,
{
    if i < s.len() && !word_at(s, i, w) {
        lemma_count_found(s, w, i + 1);
    }
}

proof fn lemma_count_bound(s: Seq<char>, w: Seq<char>, i: int)
    requires
        0 <= i <= s.len(),
    ensures
        count_word_from(s, w, i) <= s.len() - i,
    decreases s.len() - i,
{
    if i < s.len() {
        lemma_count_bound(s, w, i + 1);
    }
}

proof fn lemma_first_eligible(s: Seq<char>, i: int)
    requires
        0 <= i <= s.len(),
    ensures
        i <= first_eligible(s, i) <= s.len(),
        first_eligible(s, i) < s.len() ==> decl_eligible(s, first_eligible(s, i)),
    decreases s.len() - i,
{
    if i < s.len() && !decl_eligible(s, i) {
        lemma_first_eligible(s, i + 1);
    }
}

fn ident_char_exec(c: char) -> (r: bool)
    ensures
        r == is_ident_char(c),
{
    unicode_ident::is_xid_continue(c)
}

fn seq_at_exec(s: &Vec<char>, i: usize, w: &Vec<char>) -> (r: bool)
    ensures
        r == seq_at(s@, i as int, w@),
{
    let n = s.len();
    if i > n || w.len() > n - i {
        return false;
    }
    let m = w.len();
    let mut j: usize = 0;
    while j < m
        invariant
            n == s@.len(),
            m == w@.len(),
            i + m <= n,
            j <= m,
            forall|k: int| 0 <= k < j ==> s@[i + k] == w@[k],
        decreases m - j,
    {
        if s[i + j] != w[j] {
            proof {
                assert(s@.subrange(i as int, i + w@.len())[j as int] == s@[i + j]);
            }
            return false;
        }
        j += 1;
    }
    proof {
        assert(s@.subrange(i as int, i + w@.len()) =~= w@);
    }
    true
}

fn word_at_exec(s: &Vec<char>, i: usize, w: &Vec<char>) -> (r: bool)
    ensures
        r == word_at(s@, i as int, w@),
{
    if !seq_at_exec(s, i, w) {
        return false;
    }
    let n = s.len();
    proof {
        assert(i + w@.len() <= n);
    }
    if i > 0 && ident_char_exec(s[i - 1]) {
        return false;
    }
    let after = i + w.len();
    if after < n && ident_char_exec(s[after]) {
        return false;
    }
    true
}

fn count_word_from_exec(s: &Vec<char>, w: &Vec<char>, i: usize) -> (r: usize)
    requires
        i <= s@.len(),
    ensures
        r as nat == count_word_from(s@, w@, i as int),
    decreases s@.len() - i,
{
    if i >= s.len() {
        0
    } else {
        let rest = count_word_from_exec(s, w, i + 1);
        proof {
            lemma_count_bound(s@, w@, i as int + 1);
        }
        if word_at_exec(s, i, w) {
            rest + 1
        } else {
            rest
        }
    }
}

fn find_word_from_exec(s: &Vec<char>, w: &Vec<char>, i: usize) -> (r: usize)
    requires
        i <= s@.len(),
    ensures
        r as int == find_word_from(s@, w@, i as int),
        r <= s@.len(),
    decreases s@.len() - i,
{
    if i >= s.len() {
        s.len()
    } else if word_at_exec(s, i, w) {
        i
    } else {
        find_word_from_exec(s, w, i + 1)
    }
}

fn ident_end_exec(s: &Vec<char>, i: usize) -> (r: usize)
    requires
        i <= s@.len(),
    ensures
        r as int == ident_end(s@, i as int),
        i <= r <= s@.len(),
    decreases s@.len() - i,
{
    if i < s.len() && ident_char_exec(s[i]) {
        ident_end_exec(s, i + 1)
    } else {
        i
    }
}

fn find_semi_exec(s: &Vec<char>, i: usize) -> (r: usize)
    requires
        i <= s@.len(),
    ensures
        r as int == find_semi(s@, i as int),
        i <= r <= s@.len(),
    decreases s@.len() - i,
{
    if i >= s.len() {
        s.len()
    } else if s[i] == ';' {
        i
    } else {
        find_semi_exec(s, i + 1)
    }
}

fn decl_at_exec(s: &Vec<char>, i: usize) -> (r: bool)
    requires
        i <= s@.len(),
    ensures
        r == decl_at(s@, i as int),
{
    let n = s.len();
    let kw: Vec<char> = vec!['l', 'e', 't'];
    proof {
        assert(kw@ =~= let_kw());
    }
    if !word_at_exec(s, i, &kw) {
        return false;
    }
    proof {
        assert(seq_at(s@, i as int, let_kw()));
        assert(let_kw().len() == 3);
        assert(i + 3 <= n);
    }
    if !(i + 3 < n) {
        return false;
    }
    if s[i + 3] != ' ' {
        return false;
    }
    let t_end = ident_end_exec(s, i + 4);
    if !(t_end > i + 4) {
        return false;
    }
    if !(t_end < s.len()) {
        return false;
    }
    if s[t_end] != '=' {
        return false;
    }
    let semi = find_semi_exec(s, t_end + 1);
    if !(semi < s.len()) {
        return false;
    }
    if !(semi > t_end + 1) {
        return false;
    }
    true
}

fn copy_name(s: &Vec<char>, from: usize, to: usize) -> (name: Vec<char>)
    requires
        from <= to <= s@.len(),
    ensures
        name@ == s@.subrange(from as int, to as int),
{
    let mut name: Vec<char> = Vec::new();
    let mut j: usize = from;
    while j < to
        invariant
            from <= j <= to,
            to <= s@.len(),
            name@ == s@.subrange(from as int, j as int),
        decreases to - j,
    {
        name.push(s[j]);
        proof {
            assert(name@ =~= s@.subrange(from as int, j as int + 1));
        }
        j += 1;
    }
    name
}

fn decl_eligible_exec(s: &Vec<char>, i: usize) -> (r: bool)
    requires
        i <= s@.len(),
    ensures
        r == decl_eligible(s@, i as int),
{
    let n = s.len();
    if !decl_at_exec(s, i) {
        return false;
    }
    proof {
        assert(i + 4 <= n);
    }
    let t_end = ident_end_exec(s, i + 4);
    proof {
        assert(t_end < n);
    }
    let semi = find_semi_exec(s, t_end + 1);
    let name = copy_name(s, i + 4, t_end);
    let c = count_word_from_exec(s, &name, semi + 1);
    c == 1
}

fn first_eligible_exec(s: &Vec<char>, i: usize) -> (r: usize)
    requires
        i <= s@.len(),
    ensures
        r as int == first_eligible(s@, i as int),
        i <= r <= s@.len(),
    decreases s@.len() - i,
{
    if i >= s.len() {
        s.len()
    } else if decl_eligible_exec(s, i) {
        i
    } else {
        first_eligible_exec(s, i + 1)
    }
}

/// Collapse the first trivial single-use temporary of `src`: delete its
/// `let` declaration and substitute its bound expression at the single
/// later use of its name. Text without such a temporary comes back
/// unchanged; repeated application reaches a fixed point.
pub fn collapse_single_use_temporaries(src: &str) -> (out: String)
    ensures
        out@ == collapse_spec(src@),
{
    let s = str_to_chars(src);
    let n = s.len();
    let i = first_eligible_exec(&s, 0);
    proof {
        lemma_first_eligible(s@, 0);
    }
    if i >= n {
        return src.to_owned();
    }
    proof {
        assert(decl_eligible(s@, i as int));
        assert(i + 4 <= n);
    }
    let t_end = ident_end_exec(&s, i + 4);
    proof {
        assert(t_end < n);
    }
    let semi = find_semi_exec(&s, t_end + 1);
    let name = copy_name(&s, i + 4, t_end);
    let u = find_word_from_exec(&s, &name, semi + 1);
    proof {
        lemma_count_found(s@, name@, semi as int + 1);
    }
    let name_len = name.len();

    let mut out: Vec<char> = Vec::new();
    let mut j: usize = 0;
    while j < i
        invariant
            i <= s@.len(),
            j <= i,
            out@ == s@.subrange(0, j as int),
        decreases i - j,
    {
        out.push(s[j]);
        proof {
            assert(out@ =~= s@.subrange(0, j as int + 1));
        }
        j += 1;
    }
    let ghost part1 = s@.subrange(0, i as int);
    let mut j: usize = semi + 1;
    while j < u
        invariant
            semi + 1 <= j <= u,
            u <= s@.len(),
            out@ == part1 + s@.subrange(semi as int + 1, j as int),
        decreases u - j,
    {
        out.push(s[j]);
        proof {
            assert(out@ =~= part1 + s@.subrange(semi as int + 1, j as int + 1));
        }
        j += 1;
    }
    let ghost part2 = part1 + s@.subrange(semi as int + 1, u as int);
    let mut j: usize = t_end + 1;
    while j < semi
        invariant
            t_end + 1 <= j <= semi,
            semi <= s@.len(),
            out@ == part2 + s@.subrange(t_end as int + 1, j as int),
        decreases semi - j,
    {
        out.push(s[j]);
        proof {
            assert(out@ =~= part2 + s@.subrange(t_end as int + 1, j as int + 1));
        }
        j += 1;
    }
    let ghost part3 = part2 + s@.subrange(t_end as int + 1, semi as int);
    let mut j: usize = u + name_len;
    while j < n
        invariant
            u + name_len <= j <= n,
            n == s@.len(),
            out@ == part3 + s@.subrange(u as int + name_len as int, j as int),
        decreases n - j,
    {
        out.push(s[j]);
        proof {
            assert(out@ =~= part3 + s@.subrange(u as int + name_len as int, j as int + 1));
        }
        j += 1;
    }
    proof {
        assert(out@ =~= s@.subrange(0, i as int) + s@.subrange(semi as int + 1, u as int)
            + decl_expr(s@, i as int) + s@.subrange(u as int + decl_name(s@, i as int).len(), n as int));
    }
    string_from_chars(&out)
}

} // verus!
