//! The order of benchmark results: by the number in their id, and then by the id itself.

use crate::text::{chars_of, decimal, digit_char, lex_less, text_less};
use vstd::prelude::*;

verus! {

pub open spec fn is_digit(c: char) -> bool {
    '0' <= c <= '9'
}

/// The decimal digits in `s`, in order.
pub open spec fn digits_of(s: Seq<char>) -> Seq<char> {
    s.filter(|c: char| is_digit(c))
}

/// The number that a sequence of decimal digits denotes.
pub open spec fn digits_value(digits: Seq<char>) -> nat
    decreases digits.len(),
{
    if digits.len() == 0 {
        0
    } else {
        digits_value(digits.drop_last()) * 10 + (digits.last() as u32 - '0' as u32) as nat
    }
}

/// The number that the digits in `s` make up, if there are any and a `u32` can hold it.
pub open spec fn number_in(s: Seq<char>) -> Option<u32> {
    let digits = digits_of(s);
    if digits.len() == 0 || digits_value(digits) > u32::MAX {
        None
    } else {
        Some(digits_value(digits) as u32)
    }
}

/// What an id is ordered by.
pub enum IdKey {
    Number(u32),
    Text(Seq<char>),
}

/// The key of an id: its number, or the id itself where it has none.
pub open spec fn id_key(id: Seq<char>) -> IdKey {
    match number_in(id) {
        Some(n) => IdKey::Number(n),
        None => IdKey::Text(id),
    }
}

/// Numbers come before text; numbers are ordered by value and text by code points.
pub open spec fn key_less(a: IdKey, b: IdKey) -> bool {
    match (a, b) {
        (IdKey::Number(x), IdKey::Number(y)) => x < y,
        (IdKey::Number(_), IdKey::Text(_)) => true,
        (IdKey::Text(_), IdKey::Number(_)) => false,
        (IdKey::Text(x), IdKey::Text(y)) => lex_less(x, y),
    }
}

/// The number in an id: its decimal digits put together, wherever they stand.
pub fn extract_number(id: &str) -> (r: Option<u32>)
    ensures
        r == number_in(id@),
{
    let v = chars_of(id);
    let mut value: u64 = 0;
    let mut found = false;
    let mut too_large = false;
    let mut i: usize = 0;
    assert(id@.take(0) =~= Seq::<char>::empty());
    assert(digits_of(id@.take(0)) =~= Seq::<char>::empty()) by {
        reveal(Seq::filter);
    }
    while i < v.len()
        invariant
            i <= v@.len(),
            v@ == id@,
            found == (digits_of(id@.take(i as int)).len() > 0),
            too_large == (digits_value(digits_of(id@.take(i as int))) > u32::MAX),
            !too_large ==> value == digits_value(digits_of(id@.take(i as int))),
        decreases v@.len() - i,
    {
        let c = v[i];
        let ghost before = digits_of(id@.take(i as int));
        let ghost after = digits_of(id@.take(i + 1));
        assert(id@.take(i + 1).drop_last() =~= id@.take(i as int));
        proof {
            reveal(Seq::filter);
        }
        assert(after == if is_digit(c) {
            before.push(c)
        } else {
            before
        });
        if '0' <= c && c <= '9' {
            assert(after.drop_last() =~= before);
            found = true;
            if !too_large {
                value = value * 10 + (c as u32 - '0' as u32) as u64;
                if value > u32::MAX as u64 {
                    too_large = true;
                }
            }
        }
        i = i + 1;
    }
    assert(id@.take(i as int) =~= id@);
    if found && !too_large {
        Some(value as u32)
    } else {
        None
    }
}

/// Whether the id `a` comes before the id `b`.
pub fn id_precedes(a: &str, b: &str) -> (yes: bool)
    ensures
        yes == key_less(id_key(a@), id_key(b@)),
{
    match (extract_number(a), extract_number(b)) {
        (Some(x), Some(y)) => x < y,
        (Some(_), None) => true,
        (None, Some(_)) => false,
        (None, None) => text_less(a, b),
    }
}

proof fn lemma_lex_irreflexive(a: Seq<char>)
    ensures
        !lex_less(a, a),
    decreases a.len(),
{
    if a.len() > 0 {
        lemma_lex_irreflexive(a.skip(1));
    }
}

proof fn lemma_lex_transitive(a: Seq<char>, b: Seq<char>, c: Seq<char>)
    requires
        lex_less(a, b),
        lex_less(b, c),
    ensures
        lex_less(a, c),
    decreases a.len(),
{
    if a.len() > 0 && b.len() > 0 && c.len() > 0 && a[0] == b[0] && b[0] == c[0] {
        lemma_lex_transitive(a.skip(1), b.skip(1), c.skip(1));
    }
}

proof fn lemma_lex_total(a: Seq<char>, b: Seq<char>)
    ensures
        a == b || lex_less(a, b) || lex_less(b, a),
    decreases a.len(),
{
    if a.len() == 0 {
        if b.len() == 0 {
            assert(a =~= b);
        }
    } else if b.len() > 0 && a[0] == b[0] {
        lemma_lex_total(a.skip(1), b.skip(1));
        if a.skip(1) == b.skip(1) {
            assert(a =~= seq![a[0]] + a.skip(1));
            assert(b =~= seq![b[0]] + b.skip(1));
        }
    }
}

/// The order of ids is a strict total order of their keys.
pub proof fn law_id_order_is_total(a: IdKey, b: IdKey, c: IdKey)
    ensures
        !key_less(a, a),
        key_less(a, b) && key_less(b, c) ==> key_less(a, c),
        a == b || key_less(a, b) || key_less(b, a),
{
    if let IdKey::Text(x) = a {
        lemma_lex_irreflexive(x);
        if let IdKey::Text(y) = b {
            lemma_lex_total(x, y);
            if let IdKey::Text(z) = c {
                if lex_less(x, y) && lex_less(y, z) {
                    lemma_lex_transitive(x, y, z);
                }
            }
        }
    }
}

/// The digits of a text are found wherever they stand: those of two texts, one after the other, are
/// those of the first and then those of the second.
pub proof fn law_digits_are_found_everywhere(a: Seq<char>, b: Seq<char>)
    ensures
        digits_of(a + b) == digits_of(a) + digits_of(b),
{
    Seq::filter_distributes_over_add(a, b, |c: char| is_digit(c));
}

/// The characters from 0 to 9 are digits, and no others.
pub proof fn law_digits_are_zero_to_nine(c: char)
    ensures
        digits_of(seq![c]) == if '0' <= c <= '9' {
            seq![c]
        } else {
            Seq::<char>::empty()
        },
{
    reveal_with_fuel(Seq::filter, 2);
    assert(seq![c].drop_last() =~= Seq::<char>::empty());
    assert(digits_of(seq![c]) =~= if is_digit(c) {
        seq![c]
    } else {
        Seq::<char>::empty()
    });
}

/// A digit behind others makes the number ten times as large and adds itself.
pub proof fn law_digits_are_decimal(digits: Seq<char>, d: nat)
    requires
        d < 10,
    ensures
        digits_value(Seq::empty()) == 0,
        digits_value(digits.push((0x30 + d) as char)) == 10 * digits_value(digits) + d,
{
    let c = (0x30 + d) as char;
    assert(digits.push(c).drop_last() =~= digits);
    assert(c as u32 == 0x30 + d);
}

/// A number in decimal reads back as that number. It consists of digits, and does not start with a
/// zero unless it is zero.
pub proof fn law_decimal_reads_back(n: nat)
    ensures
        digits_value(decimal(n)) == n,
        decimal(n).len() >= 1,
        forall|k: int| 0 <= k < decimal(n).len() ==> '0' <= #[trigger] decimal(n)[k] <= '9',
        decimal(n)[0] == '0' ==> n == 0,
        digits_of(decimal(n)) == decimal(n),
    decreases n,
{
    let d = n % 10;
    let c = digit_char(d);
    assert(c as u32 == 0x30 + d);
    assert('0' <= c <= '9');
    if n < 10 {
        law_digits_are_decimal(Seq::empty(), n);
        assert(Seq::<char>::empty().push(c) =~= seq![c]);
        law_digits_are_zero_to_nine(c);
    } else {
        law_decimal_reads_back(n / 10);
        law_digits_are_decimal(decimal(n / 10), d);
        law_digits_are_zero_to_nine(c);
        law_digits_are_found_everywhere(decimal(n / 10), seq![c]);
        assert(decimal(n / 10) + seq![c] =~= decimal(n));
        assert(decimal(n)[0] == decimal(n / 10)[0]);
    }
}

/// An id without digits has no number. One that holds a number in decimal, and no digit beside it,
/// has that number, unless it does not fit.
pub proof fn law_id_has_the_number_that_it_holds(before: Seq<char>, n: nat, after: Seq<char>)
    requires
        forall|k: int| 0 <= k < before.len() ==> !('0' <= #[trigger] before[k] <= '9'),
        forall|k: int| 0 <= k < after.len() ==> !('0' <= #[trigger] after[k] <= '9'),
    ensures
        number_in(before) is None,
        number_in(before + decimal(n) + after) == if n <= u32::MAX {
            Some(n as u32)
        } else {
            None
        },
{
    lemma_no_digits(before);
    lemma_no_digits(after);
    law_decimal_reads_back(n);
    law_digits_are_found_everywhere(before, decimal(n));
    law_digits_are_found_everywhere(before + decimal(n), after);
    assert(digits_of(before + decimal(n) + after) =~= decimal(n));
}

proof fn lemma_no_digits(s: Seq<char>)
    requires
        forall|k: int| 0 <= k < s.len() ==> !('0' <= #[trigger] s[k] <= '9'),
    ensures
        digits_of(s) == Seq::<char>::empty(),
    decreases s.len(),
{
    reveal(Seq::filter);
    if s.len() > 0 {
        let front = s.drop_last();
        assert forall|k: int| 0 <= k < front.len() implies !('0' <= #[trigger] front[k] <= '9') by {
            assert(front[k] == s[k]);
        }
        lemma_no_digits(front);
        assert(!('0' <= s[s.len() - 1] <= '9'));
    }
}

/// Ids with numbers come by their numbers and before ids without one, which come in lexicographic
/// order.
pub proof fn law_ids_come_by_number_and_then_by_text(a: Seq<char>, b: Seq<char>)
    ensures
        number_in(a) is Some && number_in(b) is Some ==> (key_less(id_key(a), id_key(b))
            <==> number_in(a)->0 < number_in(b)->0),
        number_in(a) is Some && number_in(b) is None ==> key_less(id_key(a), id_key(b)),
        number_in(a) is None && number_in(b) is Some ==> !key_less(id_key(a), id_key(b)),
        number_in(a) is None && number_in(b) is None ==> (key_less(id_key(a), id_key(b))
            <==> lex_less(a, b)),
        id_key(a) == id_key(b) <==> number_in(a) == number_in(b) && (number_in(a) is None ==> a
            == b),
{
}

} // verus!
