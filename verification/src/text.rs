//! The text minifier: whitespace elision and the structural squeeze.
//!
//! The whitespace pass makes one forward scan with one character of
//! lookahead, keeping a single space only where dropping it would fuse two
//! tokens (or separate a hyphen from a numeric literal). The squeeze then
//! deletes any comma that immediately precedes a closing bracket, and
//! removes redundant double parentheses found by a balanced-parenthesis
//! scan.

use vstd::prelude::*;

use crate::chars::check_closer;
use crate::chars::check_space;
use crate::chars::is_closer;
use crate::chars::is_digit_char;
use crate::chars::is_ident_char;
use crate::chars::is_numeric;
use crate::chars::is_space_char;
use crate::chars::string_from_chars;
use crate::parens::bal;
use crate::parens::balanced;
use crate::parens::drop_redundant_parens;
use crate::parens::lemma_bal_iff;
use crate::parens::paren_depth;
use vstd::string::StrSliceExecFns;

verus! {

/// A space between these two characters must be kept: both sides are
/// identifier characters, which a removal would fuse, or a hyphen precedes a
/// numeric literal, which the grammar keeps apart.
pub open spec fn keep_space(prev: char, next: char) -> bool {
    (is_ident_char(prev) && is_ident_char(next)) || (prev == '-' && (is_digit_char(next) || next
        == '.'))
}

/// The whitespace pass over `s`, where `last` is the last character already
/// emitted (a space at the very start). A whitespace character becomes a
/// single space when dropping it would change tokenization, and vanishes
/// otherwise; everything else passes through.
pub open spec fn elide_spaces(s: Seq<char>, last: char) -> Seq<char>
    decreases s.len(),
{
    if s.len() == 0 {
        Seq::empty()
    } else {
        let c = s[0];
        let next = if s.len() > 1 {
            s[1]
        } else {
            ' '
        };
        if is_space_char(c) {
            if keep_space(last, next) {
                seq![' '] + elide_spaces(s.drop_first(), ' ')
            } else {
                elide_spaces(s.drop_first(), last)
            }
        } else {
            seq![c] + elide_spaces(s.drop_first(), c)
        }
    }
}

fn keep_space_exec(prev: char, next: char) -> (r: bool)
    ensures
        r == keep_space(prev, next),
{
    (unicode_ident::is_xid_continue(prev) && unicode_ident::is_xid_continue(next)) || (prev == '-'
        && (is_numeric(next) || next == '.'))
}

pub(crate) fn str_to_chars(s: &str) -> (v: Vec<char>)
    ensures
        v@ == s@,
{
    let n = s.unicode_len();
    let mut v: Vec<char> = Vec::new();
    let mut i: usize = 0;
    while i < n
        invariant
            n == s@.len(),
            i <= n,
            v@ == s@.subrange(0, i as int),
        decreases n - i,
    {
        v.push(s.get_char(i));
        proof {
            assert(v@ =~= s@.subrange(0, i as int + 1));
        }
        i += 1;
    }
    proof {
        assert(s@.subrange(0, n as int) =~= s@);
    }
    v
}

fn elide_spaces_exec(src: &Vec<char>) -> (out: Vec<char>)
    ensures
        out@ == elide_spaces(src@, ' '),
{
    let n = src.len();
    let mut out: Vec<char> = Vec::new();
    let mut last_char: char = ' ';
    let mut i: usize = 0;
    proof {
        assert(src@.skip(0) =~= src@);
        assert(out@ + elide_spaces(src@, ' ') =~= elide_spaces(src@, ' '));
    }
    while i < n
        invariant
            n == src@.len(),
            i <= n,
            elide_spaces(src@, ' ') == out@ + elide_spaces(src@.skip(i as int), last_char),
        decreases n - i,
    {
        let current = src[i];
        let next: char = if i + 1 < n {
            src[i + 1]
        } else {
            ' '
        };
        proof {
            assert(src@.skip(i as int).drop_first() =~= src@.skip(i as int + 1));
        }
        if check_space(current) {
            if keep_space_exec(last_char, next) {
                out.push(' ');
                last_char = ' ';
            }
        } else {
            out.push(current);
            last_char = current;
        }
        i += 1;
    }
    proof {
        assert(src@.skip(n as int) =~= Seq::<char>::empty());
        assert(out@ =~= out@ + elide_spaces(src@.skip(n as int), last_char));
    }
    out
}

/// The whitespace-elision pass: remove every whitespace character whose
/// removal keeps tokenization intact, and turn each run it keeps into a
/// single space.
pub fn minify_whitespace(src: &str) -> (out: String)
    ensures
        out@ == elide_spaces(src@, ' '),
{
    let v = str_to_chars(src);
    let r = elide_spaces_exec(&v);
    string_from_chars(&r)
}

/// A whitespace character never continues an identifier, is not a digit, and
/// is none of the punctuation the minifier treats specially.
pub proof fn lemma_space_char_classes(c: char)
    requires
        is_space_char(c),
    ensures
        !is_ident_char(c),
        !is_digit_char(c),
        c != '.' && c != '-' && c != ',' && c != '(' && c != ')',
        !is_closer(c),
{
}

/// Whitespace safety: two tokens separated only by whitespace keep exactly
/// one space between them when their concatenation would alter tokenization,
/// and lose the whitespace entirely otherwise. `prev` is the last character
/// emitted before the run, `next` the first character after it.
pub proof fn lemma_whitespace_separation(prev: char, ws: Seq<char>, next: char, rest: Seq<char>)
    requires
        ws.len() > 0,
        forall|k: int| 0 <= k < ws.len() ==> is_space_char(#[trigger] ws[k]),
        !is_space_char(next),
    ensures
        elide_spaces(ws + seq![next] + rest, prev) == (if keep_space(prev, next) {
            seq![' ']
        } else {
            Seq::<char>::empty()
        }) + seq![next] + elide_spaces(rest, next),
    decreases ws.len(),
{
    let s = ws + seq![next] + rest;
    assert(s[0] == ws[0]);
    assert(is_space_char(s[0]));
    assert(s.drop_first() =~= ws.drop_first() + seq![next] + rest);
    if ws.len() == 1 {
        assert(s[1] == next);
        if keep_space(prev, next) {
            assert(elide_spaces(s, prev) == seq![' '] + elide_spaces(s.drop_first(), ' '));
            assert(s.drop_first()[0] == next);
            assert(s.drop_first().drop_first() =~= rest);
        } else {
            assert(elide_spaces(s, prev) == elide_spaces(s.drop_first(), prev));
            assert(s.drop_first()[0] == next);
            assert(s.drop_first().drop_first() =~= rest);
            assert(elide_spaces(s.drop_first(), prev) == seq![next] + elide_spaces(rest, next));
        }
    } else {
        assert(s[1] == ws[1]);
        lemma_space_char_classes(ws[1]);
        assert(!keep_space(prev, s[1]));
        assert(elide_spaces(s, prev) == elide_spaces(s.drop_first(), prev));
        lemma_whitespace_separation(prev, ws.drop_first(), next, rest);
    }
}

/// Whitespace-minimal text as the elision pass leaves it, `last` being the
/// character emitted just before it: every whitespace character is a single
/// space standing between two non-whitespace characters that must stay
/// separated.
pub open spec fn ws_minimal_after(t: Seq<char>, last: char) -> bool {
    forall|k: int|
        0 <= k < t.len() && is_space_char(#[trigger] t[k]) ==> {
            &&& t[k] == ' '
            &&& k + 1 < t.len()
            &&& !is_space_char(t[k + 1])
            &&& if k == 0 {
                !is_space_char(last) && keep_space(last, t[1])
            } else {
                !is_space_char(t[k - 1]) && keep_space(t[k - 1], t[k + 1])
            }
        }
}

proof fn lemma_keep_space_classes(prev: char, next: char)
    requires
        keep_space(prev, next),
    ensures
        !is_space_char(prev),
        !is_space_char(next),
{
    if is_space_char(prev) {
        lemma_space_char_classes(prev);
    }
    if is_space_char(next) {
        lemma_space_char_classes(next);
    }
}

proof fn lemma_elide_minimal(s: Seq<char>, last: char)
    requires
        last == ' ' || !is_space_char(last),
    ensures
        ws_minimal_after(elide_spaces(s, last), last),
    decreases s.len(),
{
    if s.len() > 0 {
        let c = s[0];
        let nxt = if s.len() > 1 {
            s[1]
        } else {
            ' '
        };
        let tail = s.drop_first();
        if is_space_char(c) {
            if keep_space(last, nxt) {
                lemma_keep_space_classes(last, nxt);
                lemma_elide_minimal(tail, ' ');
                let t2 = elide_spaces(tail, ' ');
                let t = seq![' '] + t2;
                assert(s.len() > 1);
                assert(tail[0] == nxt);
                assert(t2 == seq![nxt] + elide_spaces(tail.drop_first(), nxt));
                assert(t2[0] == nxt);
                assert forall|k: int| 0 <= k < t.len() && is_space_char(#[trigger] t[k]) implies {
                    &&& t[k] == ' '
                    &&& k + 1 < t.len()
                    &&& !is_space_char(t[k + 1])
                    &&& if k == 0 {
                        !is_space_char(last) && keep_space(last, t[1])
                    } else {
                        !is_space_char(t[k - 1]) && keep_space(t[k - 1], t[k + 1])
                    }
                } by {
                    if k == 0 {
                        assert(t[1] == t2[0]);
                    } else {
                        assert(t[k] == t2[k - 1]);
                        assert(is_space_char(t2[k - 1]));
                        if k == 1 {
                            assert(!is_space_char(t2[0]));
                        } else {
                            assert(t[k - 1] == t2[k - 2]);
                            assert(t[k + 1] == t2[k]);
                        }
                    }
                }
            } else {
                lemma_elide_minimal(tail, last);
            }
        } else {
            lemma_elide_minimal(tail, c);
            let t2 = elide_spaces(tail, c);
            let t = seq![c] + t2;
            assert forall|k: int| 0 <= k < t.len() && is_space_char(#[trigger] t[k]) implies {
                &&& t[k] == ' '
                &&& k + 1 < t.len()
                &&& !is_space_char(t[k + 1])
                &&& if k == 0 {
                    !is_space_char(last) && keep_space(last, t[1])
                } else {
                    !is_space_char(t[k - 1]) && keep_space(t[k - 1], t[k + 1])
                }
            } by {
                assert(k > 0);
                assert(t[k] == t2[k - 1]);
                assert(is_space_char(t2[k - 1]));
                if k == 1 {
                    assert(t[0] == c);
                    assert(t[2] == t2[1]);
                } else {
                    assert(t[k - 1] == t2[k - 2]);
                    assert(t[k + 1] == t2[k]);
                }
            }
        }
    }
}

proof fn lemma_elide_of_minimal(t: Seq<char>, last: char)
    requires
        ws_minimal_after(t, last),
        last == ' ' || !is_space_char(last),
    ensures
        elide_spaces(t, last) == t,
    decreases t.len(),
{
    if t.len() > 0 {
        let c = t[0];
        let tail = t.drop_first();
        let nxt = if t.len() > 1 {
            t[1]
        } else {
            ' '
        };
        if is_space_char(c) {
            assert(t.len() > 1);
            assert(keep_space(last, nxt));
            assert(c == ' ');
            assert forall|j: int|
                0 <= j < tail.len() && is_space_char(#[trigger] tail[j]) implies {
                &&& tail[j] == ' '
                &&& j + 1 < tail.len()
                &&& !is_space_char(tail[j + 1])
                &&& if j == 0 {
                    !is_space_char(' ') && keep_space(' ', tail[1])
                } else {
                    !is_space_char(tail[j - 1]) && keep_space(tail[j - 1], tail[j + 1])
                }
            } by {
                assert(tail[j] == t[j + 1]);
                assert(is_space_char(t[j + 1]));
                if j == 0 {
                    assert(!is_space_char(t[1]));
                }
            }
            lemma_elide_of_minimal(tail, ' ');
            assert(seq![' '] + tail =~= t);
        } else {
            assert forall|j: int|
                0 <= j < tail.len() && is_space_char(#[trigger] tail[j]) implies {
                &&& tail[j] == ' '
                &&& j + 1 < tail.len()
                &&& !is_space_char(tail[j + 1])
                &&& if j == 0 {
                    !is_space_char(c) && keep_space(c, tail[1])
                } else {
                    !is_space_char(tail[j - 1]) && keep_space(tail[j - 1], tail[j + 1])
                }
            } by {
                assert(tail[j] == t[j + 1]);
                assert(is_space_char(t[j + 1]));
                if j == 0 {
                    assert(t[0] == c);
                    assert(tail[1] == t[2]);
                } else {
                    assert(tail[j - 1] == t[j]);
                    assert(tail[j + 1] == t[j + 2]);
                }
            }
            lemma_elide_of_minimal(tail, c);
            assert(seq![c] + tail =~= t);
        }
    }
}

/// Fixed point: applying the whitespace pass to its own output changes
/// nothing.
pub proof fn lemma_whitespace_fixed_point(s: Seq<char>)
    ensures
        elide_spaces(elide_spaces(s, ' '), ' ') == elide_spaces(s, ' '),
{
    lemma_elide_minimal(s, ' ');
    lemma_elide_of_minimal(elide_spaces(s, ' '), ' ');
}

/// The trailing-comma pass over `s`: every comma immediately followed by a
/// closing brace, parenthesis or bracket is deleted.
pub open spec fn drop_trailing_commas(s: Seq<char>) -> Seq<char>
    decreases s.len(),
{
    if s.len() == 0 {
        Seq::empty()
    } else if s[0] == ',' && s.len() > 1 && is_closer(s[1]) {
        drop_trailing_commas(s.drop_first())
    } else {
        seq![s[0]] + drop_trailing_commas(s.drop_first())
    }
}

fn drop_trailing_commas_exec(src: &Vec<char>) -> (out: Vec<char>)
    ensures
        out@ == drop_trailing_commas(src@),
{
    let n = src.len();
    let mut out: Vec<char> = Vec::new();
    let mut i: usize = 0;
    proof {
        assert(src@.skip(0) =~= src@);
        assert(out@ + drop_trailing_commas(src@) =~= drop_trailing_commas(src@));
    }
    while i < n
        invariant
            n == src@.len(),
            i <= n,
            drop_trailing_commas(src@) == out@ + drop_trailing_commas(src@.skip(i as int)),
        decreases n - i,
    {
        let current = src[i];
        proof {
            assert(src@.skip(i as int).drop_first() =~= src@.skip(i as int + 1));
        }
        if current == ',' && i + 1 < n && check_closer(src[i + 1]) {
        } else {
            out.push(current);
        }
        i += 1;
    }
    proof {
        assert(src@.skip(n as int) =~= Seq::<char>::empty());
        assert(out@ =~= out@ + drop_trailing_commas(src@.skip(n as int)));
    }
    out
}

/// The trailing-comma pass: delete any comma that immediately precedes a
/// closing brace, parenthesis or bracket.
pub fn remove_trailing_commas(src: &str) -> (out: String)
    ensures
        out@ == drop_trailing_commas(src@),
{
    let v = str_to_chars(src);
    let r = drop_trailing_commas_exec(&v);
    string_from_chars(&r)
}

/// Text with no comma left before a closing bracket.
pub open spec fn comma_minimal(t: Seq<char>) -> bool {
    forall|k: int| 0 <= k < t.len() - 1 ==> !(#[trigger] t[k] == ',' && is_closer(t[k + 1]))
}

proof fn lemma_commas_of_minimal(t: Seq<char>)
    requires
        comma_minimal(t),
    ensures
        drop_trailing_commas(t) == t,
    decreases t.len(),
{
    if t.len() > 0 {
        let tail = t.drop_first();
        assert forall|k: int| 0 <= k < tail.len() - 1 implies !(#[trigger] tail[k] == ','
            && is_closer(tail[k + 1])) by {
            assert(tail[k] == t[k + 1]);
            assert(tail[k + 1] == t[k + 2]);
        }
        lemma_commas_of_minimal(tail);
        assert(seq![t[0]] + tail =~= t);
    }
}

proof fn lemma_commas_minimal(s: Seq<char>)
    requires
        forall|k: int|
            0 <= k < s.len() - 2 ==> !(#[trigger] s[k] == ',' && s[k + 1] == ',' && is_closer(
                s[k + 2],
            )),
    ensures
        comma_minimal(drop_trailing_commas(s)),
        drop_trailing_commas(s).len() > 0 ==> drop_trailing_commas(s)[0] == s[0] || (s[0] == ','
            && s.len() > 1 && is_closer(s[1])),
    decreases s.len(),
{
    if s.len() > 0 {
        let tail = s.drop_first();
        assert forall|k: int| 0 <= k < tail.len() - 2 implies !(#[trigger] tail[k] == ','
            && tail[k + 1] == ',' && is_closer(tail[k + 2])) by {
            assert(tail[k] == s[k + 1]);
            assert(tail[k + 1] == s[k + 2]);
            assert(tail[k + 2] == s[k + 3]);
        }
        lemma_commas_minimal(tail);
        if s[0] == ',' && s.len() > 1 && is_closer(s[1]) {
        } else {
            let o2 = drop_trailing_commas(tail);
            let o = seq![s[0]] + o2;
            assert forall|k: int| 0 <= k < o.len() - 1 implies !(#[trigger] o[k] == ','
                && is_closer(o[k + 1])) by {
                if k == 0 {
                    if s[0] == ',' {
                        assert(o[1] == o2[0]);
                        if o2[0] == tail[0] {
                            assert(!(s[0] == ',' && is_closer(s[1])));
                        } else {
                            assert(tail[0] == ',' && tail.len() > 1 && is_closer(tail[1]));
                        }
                    }
                } else {
                    assert(o[k] == o2[k - 1]);
                    assert(o[k + 1] == o2[k]);
                }
            }
        }
    }
}

proof fn lemma_commas_preserve_ws_minimal(t: Seq<char>, last: char)
    requires
        ws_minimal_after(t, last),
    ensures
        ws_minimal_after(drop_trailing_commas(t), last),
    decreases t.len(),
{
    if t.len() > 0 {
        let tail = t.drop_first();
        if t[0] == ',' && t.len() > 1 && is_closer(t[1]) {
            assert forall|j: int|
                0 <= j < tail.len() && is_space_char(#[trigger] tail[j]) implies {
                &&& tail[j] == ' '
                &&& j + 1 < tail.len()
                &&& !is_space_char(tail[j + 1])
                &&& if j == 0 {
                    !is_space_char(last) && keep_space(last, tail[1])
                } else {
                    !is_space_char(tail[j - 1]) && keep_space(tail[j - 1], tail[j + 1])
                }
            } by {
                assert(tail[j] == t[j + 1]);
                assert(is_space_char(t[j + 1]));
                if j == 0 {
                    lemma_space_char_classes(t[1]);
                }
            }
            lemma_commas_preserve_ws_minimal(tail, last);
        } else {
            let c = t[0];
            assert forall|j: int|
                0 <= j < tail.len() && is_space_char(#[trigger] tail[j]) implies {
                &&& tail[j] == ' '
                &&& j + 1 < tail.len()
                &&& !is_space_char(tail[j + 1])
                &&& if j == 0 {
                    !is_space_char(c) && keep_space(c, tail[1])
                } else {
                    !is_space_char(tail[j - 1]) && keep_space(tail[j - 1], tail[j + 1])
                }
            } by {
                assert(tail[j] == t[j + 1]);
                assert(is_space_char(t[j + 1]));
                if j > 0 {
                    assert(tail[j - 1] == t[j]);
                    assert(tail[j + 1] == t[j + 2]);
                }
            }
            lemma_commas_preserve_ws_minimal(tail, c);
            let o2 = drop_trailing_commas(tail);
            let o = seq![c] + o2;
            assert forall|k: int| 0 <= k < o.len() && is_space_char(#[trigger] o[k]) implies {
                &&& o[k] == ' '
                &&& k + 1 < o.len()
                &&& !is_space_char(o[k + 1])
                &&& if k == 0 {
                    !is_space_char(last) && keep_space(last, o[1])
                } else {
                    !is_space_char(o[k - 1]) && keep_space(o[k - 1], o[k + 1])
                }
            } by {
                if k == 0 {
                    assert(is_space_char(c));
                    assert(keep_space(last, t[1]));
                    assert(t[1] != ',') by {
                        if t[1] == ',' {
                            assert(keep_space(last, ','));
                            assert(!crate::chars::is_ident_char(','));
                        }
                    }
                    assert(tail.len() > 0 && tail[0] == t[1]);
                    assert(o2[0] == tail[0]);
                    assert(o[1] == t[1]);
                } else {
                    assert(o[k] == o2[k - 1]);
                    assert(is_space_char(o2[k - 1]));
                    if k == 1 {
                        assert(o[0] == c);
                        assert(o[2] == o2[1]);
                    } else {
                        assert(o[k - 1] == o2[k - 2]);
                        assert(o[k + 1] == o2[k]);
                    }
                }
            }
        }
    }
}

/// Fixed point for the trailing-comma rewrite: applying it to its own output
/// changes nothing, away from inputs where deleting a comma uncovers a new
/// trailing comma (two commas directly before a closing bracket).
pub proof fn lemma_comma_fixed_point(s: Seq<char>)
    requires
        forall|k: int|
            0 <= k < s.len() - 2 ==> !(#[trigger] s[k] == ',' && s[k + 1] == ',' && is_closer(
                s[k + 2],
            )),
    ensures
        drop_trailing_commas(drop_trailing_commas(s)) == drop_trailing_commas(s),
{
    lemma_commas_minimal(s);
    lemma_commas_of_minimal(drop_trailing_commas(s));
}

proof fn lemma_elide_preserves_bal(s: Seq<char>, last: char, d: int)
    ensures
        bal(elide_spaces(s, last), d) == bal(s, d),
    decreases s.len(),
{
    if s.len() > 0 {
        let c = s[0];
        let tail = s.drop_first();
        let next = if s.len() > 1 {
            s[1]
        } else {
            ' '
        };
        if is_space_char(c) {
            lemma_space_char_classes(c);
            if keep_space(last, next) {
                let e = elide_spaces(tail, ' ');
                assert((seq![' '] + e).drop_first() =~= e);
                lemma_elide_preserves_bal(tail, ' ', d);
            } else {
                lemma_elide_preserves_bal(tail, last, d);
            }
        } else {
            let e = elide_spaces(tail, c);
            assert((seq![c] + e).drop_first() =~= e);
            assert((seq![c] + e)[0] == c);
            if c == '(' {
                lemma_elide_preserves_bal(tail, c, d + 1);
            } else if c == ')' {
                lemma_elide_preserves_bal(tail, c, d - 1);
            } else {
                lemma_elide_preserves_bal(tail, c, d);
            }
        }
    }
}

proof fn lemma_commas_preserve_bal(s: Seq<char>, d: int)
    ensures
        bal(drop_trailing_commas(s), d) == bal(s, d),
    decreases s.len(),
{
    if s.len() > 0 {
        let c = s[0];
        let tail = s.drop_first();
        if c == ',' && s.len() > 1 && is_closer(s[1]) {
            lemma_commas_preserve_bal(tail, d);
        } else {
            let e = drop_trailing_commas(tail);
            assert((seq![c] + e).drop_first() =~= e);
            assert((seq![c] + e)[0] == c);
            if c == '(' {
                lemma_commas_preserve_bal(tail, d + 1);
            } else if c == ')' {
                lemma_commas_preserve_bal(tail, d - 1);
            } else {
                lemma_commas_preserve_bal(tail, d);
            }
        }
    }
}

/// Neither the whitespace pass nor the trailing-comma pass touches a
/// parenthesis, so text with balanced parentheses still has them balanced
/// when the redundant-parenthesis pass runs.
pub proof fn lemma_passes_preserve_balance(s: Seq<char>)
    requires
        balanced(s),
    ensures
        balanced(drop_trailing_commas(elide_spaces(s, ' '))),
{
    let s1 = elide_spaces(s, ' ');
    let s2 = drop_trailing_commas(s1);
    lemma_bal_iff(s, 0);
    assert(bal(s, 0));
    lemma_elide_preserves_bal(s, ' ', 0);
    lemma_commas_preserve_bal(s1, 0);
    lemma_bal_iff(s2, 0);
    assert forall|k: int| 0 <= k <= s2.len() implies paren_depth(s2, k) >= 0 by {
        if k == 0 {
            assert(paren_depth(s2, 0) == 0);
        }
    }
}

/// The whole text minifier: whitespace elision, then trailing-comma removal,
/// then redundant-parenthesis removal.
pub open spec fn minified_text(s: Seq<char>) -> Seq<char> {
    drop_redundant_parens(drop_trailing_commas(elide_spaces(s, ' ')))
}

/// Fixed point of the whole text minifier, stated for inputs whose elided
/// form does not hold two commas directly before a closing bracket and whose
/// squeezed form holds no redundant double parenthesis: on such text a
/// second application changes nothing.
pub proof fn lemma_minified_text_fixed_point(s: Seq<char>)
    requires
        forall|k: int|
            0 <= k < elide_spaces(s, ' ').len() - 2 ==> !(#[trigger] elide_spaces(s, ' ')[k] == ','
                && elide_spaces(s, ' ')[k + 1] == ',' && is_closer(elide_spaces(s, ' ')[k + 2])),
        forall|i: int| !crate::parens::redundant_open(drop_trailing_commas(elide_spaces(s, ' ')), i),
    ensures
        minified_text(minified_text(s)) == minified_text(s),
{
    let t1 = elide_spaces(s, ' ');
    let t2 = drop_trailing_commas(t1);
    crate::parens::lemma_parens_fixed_when_no_redundancy(t2);
    lemma_elide_minimal(s, ' ');
    lemma_commas_preserve_ws_minimal(t1, ' ');
    lemma_elide_of_minimal(t2, ' ');
    lemma_commas_minimal(t1);
    lemma_commas_of_minimal(t2);
}

/// Remove every character the minifier can remove from shader source
/// without joining two tokens: elide whitespace, drop trailing commas, and
/// collapse redundant double parentheses. The parentheses of the source must
/// be balanced.
pub fn minify_wgsl_source(src: &str) -> (out: String)
    requires
        balanced(src@),
    ensures
        out@ == minified_text(src@),
{
    let v = str_to_chars(src);
    let v1 = elide_spaces_exec(&v);
    let v2 = drop_trailing_commas_exec(&v1);
    proof {
        lemma_passes_preserve_balance(src@);
    }
    let table = crate::parens::build_matches(&v2);
    let r = crate::parens::drop_parens_exec(&v2, &table);
    string_from_chars(&r)
}

} // verus!
