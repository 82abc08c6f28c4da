//! The name generator: a deterministic bijection from counter values to
//! minimal-length, lexically valid identifiers.
//!
//! The first character of a name is drawn from a letters-only alphabet, so no
//! name starts with a digit; every further character is drawn from a larger
//! alphabet of letters, digits and underscore, read as a little-endian
//! mixed-radix numeral. Distinct counter values give distinct names.

use vstd::prelude::*;

use crate::chars::is_ascii_letter;
use crate::chars::is_word_char;
use crate::chars::string_from_chars;
use vstd::string::StrSliceExecFns;

verus! {

/// The alphabet a name's first character is drawn from: letters only.
pub open spec fn first_letters() -> Seq<char> {
    "AaBbCcDdEeFfGgHhIiJjKkLlMmNnOoPpQqRrSsTtUuVvWwXxYyZz"@
}

/// The alphabet every later character is drawn from: letters, digits and
/// underscore.
pub open spec fn next_letters() -> Seq<char> {
    "AaBbCcDdEeFfGgHhIiJjKkLlMmNnOoPpQqRrSsTtUuVvWwXxYyZz1234567890_"@
}

/// The tail of a generated name: `id` read as a little-endian base-63 numeral,
/// with no digits at all for zero.
pub open spec fn tail_digits(id: nat) -> Seq<char>
    decreases id,
{
    if id == 0 {
        Seq::empty()
    } else {
        seq![next_letters()[id as int % 63]] + tail_digits(id / 63)
    }
}

/// The name generated for counter value `id`.
pub open spec fn name_spec(id: nat) -> Seq<char> {
    seq![first_letters()[id as int % 52]] + tail_digits(id / 52)
}

fn first_letter(i: usize) -> (c: char)
    requires
        i < 52,
    ensures
        c == first_letters()[i as int],
{
    let s = "AaBbCcDdEeFfGgHhIiJjKkLlMmNnOoPpQqRrSsTtUuVvWwXxYyZz";
    proof {
        reveal_strlit("AaBbCcDdEeFfGgHhIiJjKkLlMmNnOoPpQqRrSsTtUuVvWwXxYyZz");
    }
    s.get_char(i)
}

fn next_letter(i: usize) -> (c: char)
    requires
        i < 63,
    ensures
        c == next_letters()[i as int],
{
    let s = "AaBbCcDdEeFfGgHhIiJjKkLlMmNnOoPpQqRrSsTtUuVvWwXxYyZz1234567890_";
    proof {
        reveal_strlit("AaBbCcDdEeFfGgHhIiJjKkLlMmNnOoPpQqRrSsTtUuVvWwXxYyZz1234567890_");
    }
    s.get_char(i)
}

/// Generate the name for the current counter value and advance the counter.
///
/// One counter is shared across a whole minification run, so all names
/// generated within that run are mutually distinct.
pub fn name_from_count(count: &mut usize) -> (name: String)
    requires
        *old(count) < usize::MAX,
    ensures
        *final(count) == *old(count) + 1,
        name@ == name_spec(*old(count) as nat),
{
    let ghost id0: nat = *count as nat;
    let mut id: usize = *count;
    *count = *count + 1;

    let mut digits: Vec<char> = Vec::new();
    digits.push(first_letter(id % 52));
    id = id / 52;

    while id != 0
        invariant
            digits@ + tail_digits(id as nat) == name_spec(id0),
        decreases id,
    {
        digits.push(next_letter(id % 63));
        proof {
            assert(digits@ + tail_digits((id / 63) as nat) =~= (digits@.drop_last()
                + tail_digits(id as nat)));
        }
        id = id / 63;
    }
    assert(digits@ =~= name_spec(id0));
    string_from_chars(&digits)
}

/// A well-formed identifier: non-empty, starting with a letter, continuing
/// with letters, digits or underscore.
pub open spec fn is_valid_identifier(s: Seq<char>) -> bool {
    &&& s.len() > 0
    &&& is_ascii_letter(s[0])
    &&& forall|k: int| 1 <= k < s.len() ==> is_word_char(#[trigger] s[k])
}

proof fn lemma_first_letters_facts()
    ensures
        first_letters().len() == 52,
        forall|i: int| 0 <= i < 52 ==> is_ascii_letter(#[trigger] first_letters()[i]),
        forall|i: int, j: int|
            0 <= i < 52 && 0 <= j < 52 && i != j ==> first_letters()[i] != first_letters()[j],
{
    reveal_strlit("AaBbCcDdEeFfGgHhIiJjKkLlMmNnOoPpQqRrSsTtUuVvWwXxYyZz");
}

proof fn lemma_next_letters_facts()
    ensures
        next_letters().len() == 63,
        forall|i: int| 0 <= i < 63 ==> is_word_char(#[trigger] next_letters()[i]),
        forall|i: int, j: int|
            0 <= i < 63 && 0 <= j < 63 && i != j ==> next_letters()[i] != next_letters()[j],
{
    reveal_strlit("AaBbCcDdEeFfGgHhIiJjKkLlMmNnOoPpQqRrSsTtUuVvWwXxYyZz1234567890_");
}

proof fn lemma_tail_digits_injective(a: nat, b: nat)
    requires
        a != b,
    ensures
        tail_digits(a) != tail_digits(b),
    decreases a + b,
{
    lemma_next_letters_facts();
    if a == 0 || b == 0 {
        assert(tail_digits(a).len() != tail_digits(b).len());
    } else if a % 63 != b % 63 {
        assert(tail_digits(a)[0] != tail_digits(b)[0]);
    } else {
        vstd::arithmetic::div_mod::lemma_fundamental_div_mod(a as int, 63);
        vstd::arithmetic::div_mod::lemma_fundamental_div_mod(b as int, 63);
        assert(a / 63 != b / 63);
        lemma_tail_digits_injective(a / 63, b / 63);
        assert(tail_digits(a).drop_first() =~= tail_digits(a / 63));
        assert(tail_digits(b).drop_first() =~= tail_digits(b / 63));
    }
}

/// Distinct counter values generate distinct names.
pub proof fn lemma_name_spec_injective(a: nat, b: nat)
    requires
        a != b,
    ensures
        name_spec(a) != name_spec(b),
{
    lemma_first_letters_facts();
    if a % 52 != b % 52 {
        assert(name_spec(a)[0] != name_spec(b)[0]);
    } else {
        vstd::arithmetic::div_mod::lemma_fundamental_div_mod(a as int, 52);
        vstd::arithmetic::div_mod::lemma_fundamental_div_mod(b as int, 52);
        assert(a / 52 != b / 52);
        lemma_tail_digits_injective(a / 52, b / 52);
        assert(name_spec(a).drop_first() =~= tail_digits(a / 52));
        assert(name_spec(b).drop_first() =~= tail_digits(b / 52));
    }
}

proof fn lemma_tail_digits_word_chars(id: nat)
    ensures
        forall|k: int| 0 <= k < tail_digits(id).len() ==> is_word_char(#[trigger] tail_digits(id)[k]),
    decreases id,
{
    lemma_next_letters_facts();
    if id != 0 {
        lemma_tail_digits_word_chars(id / 63);
        assert forall|k: int| 0 <= k < tail_digits(id).len() implies is_word_char(
            #[trigger] tail_digits(id)[k],
        ) by {
            if k >= 1 {
                assert(tail_digits(id)[k] == tail_digits(id / 63)[k - 1]);
            }
        }
    }
}

/// Every generated name satisfies the identifier grammar: it starts with a
/// letter and continues with letters, digits or underscore.
pub proof fn lemma_name_spec_valid(id: nat)
    ensures
        is_valid_identifier(name_spec(id)),
{
    lemma_first_letters_facts();
    lemma_tail_digits_word_chars(id / 52);
    assert forall|k: int| 1 <= k < name_spec(id).len() implies is_word_char(
        #[trigger] name_spec(id)[k],
    ) by {
        assert(name_spec(id)[k] == tail_digits(id / 52)[k - 1]);
    }
}

} // verus!
