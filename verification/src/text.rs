//! Strings seen as sequences of characters: splitting, trimming, padding, decimal numbers.

use vstd::prelude::*;
use vstd::string::*;

verus! {

/// Characters with the Unicode `White_Space` property.
pub open spec fn is_white_space(c: char) -> bool {
    let u = c as u32;
    ||| 0x9 <= u <= 0xD
    ||| u == 0x20
    ||| u == 0x85
    ||| u == 0xA0
    ||| u == 0x1680
    ||| 0x2000 <= u <= 0x200A
    ||| u == 0x2028
    ||| u == 0x2029
    ||| u == 0x202F
    ||| u == 0x205F
    ||| u == 0x3000
}

/// `s` without the white space that it starts with.
pub open spec fn trimmed_start(s: Seq<char>) -> Seq<char>
    decreases s.len(),
{
    if s.len() > 0 && is_white_space(s[0]) {
        trimmed_start(s.skip(1))
    } else {
        s
    }
}

/// `s` without the white space that it ends with.
pub open spec fn trimmed_end(s: Seq<char>) -> Seq<char>
    decreases s.len(),
{
    if s.len() > 0 && is_white_space(s.last()) {
        trimmed_end(s.drop_last())
    } else {
        s
    }
}

/// `s` without the white space at either end.
pub open spec fn trimmed(s: Seq<char>) -> Seq<char> {
    trimmed_end(trimmed_start(s))
}

/// The pieces of `s` between the occurrences of `sep`: one more than there are separators.
pub open spec fn split(s: Seq<char>, sep: char) -> Seq<Seq<char>>
    decreases s.len(),
{
    if s.len() == 0 {
        seq![Seq::<char>::empty()]
    } else {
        let before = split(s.drop_last(), sep);
        if s.last() == sep {
            before.push(Seq::<char>::empty())
        } else {
            before.drop_last().push(before.last().push(s.last()))
        }
    }
}

/// What precedes the first `sep` in `s`, or all of `s` where there is none.
pub open spec fn before_first(s: Seq<char>, sep: char) -> Seq<char>
    decreases s.len(),
{
    if s.len() == 0 || s[0] == sep {
        Seq::<char>::empty()
    } else {
        seq![s[0]] + before_first(s.skip(1), sep)
    }
}

/// What follows the last `sep` in `s`, or all of `s` where there is none.
pub open spec fn after_last(s: Seq<char>, sep: char) -> Seq<char>
    decreases s.len(),
{
    if s.len() == 0 || s.last() == sep {
        Seq::<char>::empty()
    } else {
        after_last(s.drop_last(), sep).push(s.last())
    }
}

/// The character of the decimal digit `d`.
pub open spec fn digit_char(d: nat) -> char
    recommends
        d < 10,
{
    (0x30 + d) as char
}

/// `n` in decimal, without leading zeros.
pub open spec fn decimal(n: nat) -> Seq<char>
    decreases n,
{
    if n < 10 {
        seq![digit_char(n)]
    } else {
        decimal(n / 10).push(digit_char(n % 10))
    }
}

/// `n` times the character `c`.
pub open spec fn repeated(c: char, n: nat) -> Seq<char> {
    Seq::new(n, |i: int| c)
}

/// `s` right-aligned in a field of `width` characters; longer strings are not cut.
pub open spec fn padded(s: Seq<char>, width: nat) -> Seq<char> {
    if s.len() < width {
        repeated(' ', (width - s.len()) as nat) + s
    } else {
        s
    }
}

/// `a` comes before `b` in the lexicographic order by code points.
pub open spec fn lex_less(a: Seq<char>, b: Seq<char>) -> bool
    decreases a.len(),
{
    if b.len() == 0 {
        false
    } else if a.len() == 0 {
        true
    } else if a[0] != b[0] {
        a[0] < b[0]
    } else {
        lex_less(a.skip(1), b.skip(1))
    }
}

/// The views of a list of strings.
pub open spec fn strings_view(v: Seq<String>) -> Seq<Seq<char>> {
    v.map_values(|s: String| s@)
}

/// The characters of `s`.
pub fn chars_of(s: &str) -> (v: Vec<char>)
    ensures
        v@ == s@,
{
    let mut v: Vec<char> = Vec::new();
    for c in it: s.chars()
        invariant
            it.seq() == s@,
            v@ == s@.take(it.index()),
    {
        v.push(c);
    }
    v
}

/// Whether two strings hold the same characters.
pub fn same_text(a: &str, b: &str) -> (same: bool)
    ensures
        same == (a@ == b@),
{
    let left = a.to_owned();
    let right = b.to_owned();
    left == right
}

/// Whether `c` has the Unicode `White_Space` property.
pub fn white_space(c: char) -> (yes: bool)
    ensures
        yes == is_white_space(c),
{
    let u: u32 = c as u32;
    (0x9 <= u && u <= 0xD) || u == 0x20 || u == 0x85 || u == 0xA0 || u == 0x1680 || (0x2000 <= u
        && u <= 0x200A) || u == 0x2028 || u == 0x2029 || u == 0x202F || u == 0x205F || u == 0x3000
}

/// `s` without the white space at either end.
pub fn trim(s: &str) -> (r: String)
    ensures
        r@ == trimmed(s@),
{
    let v = chars_of(s);
    let mut start: usize = 0;
    assert(s@.skip(0) =~= s@);
    while start < v.len() && white_space(v[start])
        invariant
            start <= v@.len(),
            v@ == s@,
            trimmed_start(s@) == trimmed_start(s@.skip(start as int)),
        decreases v@.len() - start,
    {
        assert(s@.skip(start as int).skip(1) =~= s@.skip(start + 1));
        start = start + 1;
    }
    let mut end: usize = v.len();
    assert(s@.skip(start as int) =~= s@.subrange(start as int, end as int));
    while end > start && white_space(v[end - 1])
        invariant
            start <= end <= v@.len(),
            v@ == s@,
            trimmed(s@) == trimmed_end(s@.subrange(start as int, end as int)),
        decreases end,
    {
        assert(s@.subrange(start as int, end as int).drop_last() =~= s@.subrange(
            start as int,
            end - 1,
        ));
        end = end - 1;
    }
    s.substring_char(start, end).to_owned()
}

/// The pieces of `s` between the occurrences of `sep`.
pub fn split_on(s: &str, sep: char) -> (r: Vec<String>)
    ensures
        strings_view(r@) == split(s@, sep),
        r@.len() >= 1,
{
    let v = chars_of(s);
    let mut pieces: Vec<String> = Vec::new();
    let mut start: usize = 0;
    let mut i: usize = 0;
    assert(s@.subrange(0, 0) =~= Seq::<char>::empty());
    assert(split(s@.take(0), sep) =~= strings_view(pieces@).push(s@.subrange(0, 0)));
    while i < v.len()
        invariant
            start <= i <= v@.len(),
            v@ == s@,
            split(s@.take(i as int), sep) == strings_view(pieces@).push(
                s@.subrange(start as int, i as int),
            ),
        decreases v@.len() - i,
    {
        let ghost before = strings_view(pieces@);
        assert(s@.take(i + 1).drop_last() =~= s@.take(i as int));
        if v[i] == sep {
            pieces.push(s.substring_char(start, i).to_owned());
            assert(strings_view(pieces@) =~= before.push(s@.subrange(start as int, i as int)));
            start = i + 1;
            assert(s@.subrange(start as int, i + 1) =~= Seq::<char>::empty());
        } else {
            assert(before.push(s@.subrange(start as int, i as int)).drop_last() =~= before);
            assert(s@.subrange(start as int, i as int).push(s@[i as int]) =~= s@.subrange(
                start as int,
                i + 1,
            ));
        }
        i = i + 1;
    }
    let ghost before = strings_view(pieces@);
    pieces.push(s.substring_char(start, i).to_owned());
    assert(strings_view(pieces@) =~= before.push(s@.subrange(start as int, i as int)));
    assert(s@.take(i as int) =~= s@);
    pieces
}

/// What precedes the first `sep` in `s`, or all of `s`.
pub fn prefix_before(s: &str, sep: char) -> (r: String)
    ensures
        r@ == before_first(s@, sep),
{
    let v = chars_of(s);
    let mut i: usize = 0;
    assert(s@.skip(0) =~= s@);
    assert(s@.take(0) + before_first(s@, sep) =~= before_first(s@, sep));
    while i < v.len() && v[i] != sep
        invariant
            i <= v@.len(),
            v@ == s@,
            before_first(s@, sep) == s@.take(i as int) + before_first(s@.skip(i as int), sep),
        decreases v@.len() - i,
    {
        assert(s@.skip(i as int).skip(1) =~= s@.skip(i + 1));
        assert(s@.take(i as int) + seq![s@[i as int]] =~= s@.take(i + 1));
        i = i + 1;
    }
    assert(before_first(s@.skip(i as int), sep) =~= Seq::<char>::empty());
    s.substring_char(0, i).to_owned()
}

/// What follows the last `sep` in `s`, or all of `s`.
pub fn suffix_after(s: &str, sep: char) -> (r: String)
    ensures
        r@ == after_last(s@, sep),
{
    let v = chars_of(s);
    let mut i: usize = v.len();
    assert(s@.take(i as int) =~= s@);
    assert(after_last(s@, sep) + s@.skip(i as int) =~= after_last(s@, sep));
    while i > 0 && v[i - 1] != sep
        invariant
            i <= v@.len(),
            v@ == s@,
            after_last(s@, sep) == after_last(s@.take(i as int), sep) + s@.skip(i as int),
        decreases i,
    {
        assert(s@.take(i as int).drop_last() =~= s@.take(i - 1));
        assert(seq![s@[i - 1]] + s@.skip(i as int) =~= s@.skip(i - 1));
        i = i - 1;
    }
    assert(after_last(s@.take(i as int), sep) =~= Seq::<char>::empty());
    s.substring_char(i, v.len()).to_owned()
}

/// The decimal digit `d` as text.
fn digit_text(d: u128) -> (r: &'static str)
    requires
        d < 10,
    ensures
        r@ == seq![digit_char(d as nat)],
{
    proof {
        reveal_strlit("0");
        reveal_strlit("1");
        reveal_strlit("2");
        reveal_strlit("3");
        reveal_strlit("4");
        reveal_strlit("5");
        reveal_strlit("6");
        reveal_strlit("7");
        reveal_strlit("8");
        reveal_strlit("9");
    }
    if d == 0 {
        "0"
    } else if d == 1 {
        "1"
    } else if d == 2 {
        "2"
    } else if d == 3 {
        "3"
    } else if d == 4 {
        "4"
    } else if d == 5 {
        "5"
    } else if d == 6 {
        "6"
    } else if d == 7 {
        "7"
    } else if d == 8 {
        "8"
    } else {
        "9"
    }
}

/// `n` in decimal, without leading zeros.
pub fn decimal_text(n: u128) -> (r: String)
    ensures
        r@ == decimal(n as nat),
    decreases n,
{
    if n < 10 {
        digit_text(n).to_owned()
    } else {
        decimal_text(n / 10).concat(digit_text(n % 10))
    }
}

/// `n` times the character that `unit` consists of.
pub fn repeat_text(unit: &str, n: usize) -> (r: String)
    requires
        unit@.len() == 1,
    ensures
        r@ == repeated(unit@[0], n as nat),
{
    let mut r = String::new();
    let mut i: usize = 0;
    while i < n
        invariant
            i <= n,
            unit@.len() == 1,
            r@ == repeated(unit@[0], i as nat),
        decreases n - i,
    {
        r.append(unit);
        i = i + 1;
        assert(r@ =~= repeated(unit@[0], i as nat));
    }
    r
}

/// `s` right-aligned in a field of `width` characters.
pub fn pad_left(s: &str, width: usize) -> (r: String)
    ensures
        r@ == padded(s@, width as nat),
{
    let n: usize = s.unicode_len();
    if n < width {
        proof {
            reveal_strlit(" ");
        }
        repeat_text(" ", width - n).concat(s)
    } else {
        s.to_owned()
    }
}

/// Whether `s` starts with `prefix`.
pub fn has_prefix(s: &str, prefix: &str) -> (yes: bool)
    ensures
        yes == prefix@.is_prefix_of(s@),
{
    let n: usize = prefix.unicode_len();
    if n <= s.unicode_len() {
        same_text(s.substring_char(0, n), prefix)
    } else {
        false
    }
}

/// Whether `s` ends with `suffix`.
pub fn has_suffix(s: &str, suffix: &str) -> (yes: bool)
    ensures
        yes == suffix@.is_suffix_of(s@),
{
    let n: usize = suffix.unicode_len();
    let m: usize = s.unicode_len();
    if n <= m {
        same_text(s.substring_char(m - n, m), suffix)
    } else {
        false
    }
}

/// Whether `a` comes before `b` in the lexicographic order by code points.
pub fn text_less(a: &str, b: &str) -> (yes: bool)
    ensures
        yes == lex_less(a@, b@),
{
    let x = chars_of(a);
    let y = chars_of(b);
    let mut i: usize = 0;
    assert(a@.skip(0) =~= a@);
    assert(b@.skip(0) =~= b@);
    while i < x.len() && i < y.len() && x[i] == y[i]
        invariant
            i <= x@.len(),
            i <= y@.len(),
            x@ == a@,
            y@ == b@,
            lex_less(a@, b@) == lex_less(a@.skip(i as int), b@.skip(i as int)),
        decreases x@.len() - i,
    {
        assert(a@.skip(i as int).skip(1) =~= a@.skip(i + 1));
        assert(b@.skip(i as int).skip(1) =~= b@.skip(i + 1));
        i = i + 1;
    }
    if i == y.len() {
        false
    } else if i == x.len() {
        true
    } else {
        x[i] < y[i]
    }
}

/// A copy of a list of strings.
pub fn copy_strings(v: &Vec<String>) -> (r: Vec<String>)
    ensures
        strings_view(r@) == strings_view(v@),
{
    let mut r: Vec<String> = Vec::new();
    let mut i: usize = 0;
    while i < v.len()
        invariant
            i <= v@.len(),
            strings_view(r@) == strings_view(v@).take(i as int),
        decreases v@.len() - i,
    {
        let ghost before = strings_view(r@);
        r.push(v[i].clone());
        i = i + 1;
        assert(strings_view(r@) =~= before.push(v@[i - 1]@));
        assert(strings_view(v@).take(i as int) =~= before.push(v@[i - 1]@));
    }
    assert(strings_view(v@).take(i as int) =~= strings_view(v@));
    r
}

/// Whether `s` occurs in the list `v`.
pub fn contains_text(v: &Vec<String>, s: &str) -> (yes: bool)
    ensures
        yes == strings_view(v@).contains(s@),
{
    let mut i: usize = 0;
    while i < v.len()
        invariant
            i <= v@.len(),
            forall|j: int| 0 <= j < i ==> #[trigger] strings_view(v@)[j] != s@,
        decreases v@.len() - i,
    {
        if same_text(v[i].as_str(), s) {
            assert(strings_view(v@)[i as int] == s@);
            return true;
        }
        i = i + 1;
    }
    false
}

/// Trimming takes white space off both ends and nothing else: what is left stands between two
/// positions, all that is before and behind them is white space, and what is left neither starts
/// nor ends with any.
pub proof fn law_trimming_takes_only_white_space_off(s: Seq<char>) -> (r: (int, int))
    ensures
        0 <= r.0 <= r.1 <= s.len(),
        trimmed(s) == s.subrange(r.0, r.1),
        forall|k: int| 0 <= k < r.0 || r.1 <= k < s.len() ==> is_white_space(#[trigger] s[k]),
        trimmed(s).len() > 0 ==> !is_white_space(trimmed(s)[0]) && !is_white_space(
            trimmed(s).last(),
        ),
{
    let start = lemma_trimmed_start(s);
    let rest = s.skip(start);
    let end = lemma_trimmed_end(rest);
    assert(trimmed(s) =~= s.subrange(start, start + end));
    assert forall|k: int| 0 <= k < start || start + end <= k < s.len() implies is_white_space(
        #[trigger] s[k],
    ) by {
        if k >= start + end {
            assert(rest[k - start] == s[k]);
        }
    }
    (start, start + end)
}

proof fn lemma_trimmed_start(s: Seq<char>) -> (r: int)
    ensures
        0 <= r <= s.len(),
        trimmed_start(s) == s.skip(r),
        forall|k: int| 0 <= k < r ==> is_white_space(#[trigger] s[k]),
        r < s.len() ==> !is_white_space(s[r]),
    decreases s.len(),
{
    if s.len() > 0 && is_white_space(s[0]) {
        let rest = s.skip(1);
        let r = lemma_trimmed_start(rest);
        assert(rest.skip(r) =~= s.skip(r + 1));
        assert forall|k: int| 0 <= k < r + 1 implies is_white_space(#[trigger] s[k]) by {
            if k > 0 {
                assert(rest[k - 1] == s[k]);
            }
        }
        r + 1
    } else {
        assert(s.skip(0) =~= s);
        0
    }
}

proof fn lemma_trimmed_end(s: Seq<char>) -> (r: int)
    ensures
        0 <= r <= s.len(),
        trimmed_end(s) == s.take(r),
        forall|k: int| r <= k < s.len() ==> is_white_space(#[trigger] s[k]),
        r > 0 ==> !is_white_space(s[r - 1]),
    decreases s.len(),
{
    if s.len() > 0 && is_white_space(s.last()) {
        let rest = s.drop_last();
        let r = lemma_trimmed_end(rest);
        assert(rest.take(r) =~= s.take(r));
        assert forall|k: int| r <= k < s.len() implies is_white_space(#[trigger] s[k]) by {
            if k < rest.len() {
                assert(rest[k] == s[k]);
            }
        }
        r
    } else {
        assert(s.take(s.len() as int) =~= s);
        s.len() as int
    }
}

/// Splitting cuts a text at every separator, wherever it stands: the pieces of two texts with a
/// separator between them are those of the first and then those of the second.
pub proof fn law_splitting_cuts_at_every_separator(a: Seq<char>, b: Seq<char>, sep: char)
    ensures
        split(a.push(sep) + b, sep) == split(a, sep) + split(b, sep),
    decreases b.len(),
{
    lemma_split_has_pieces(a, sep);
    lemma_split_has_pieces(b, sep);
    let whole = a.push(sep) + b;
    if b.len() == 0 {
        assert(whole =~= a.push(sep));
        assert(whole.drop_last() =~= a);
        assert(split(whole, sep) =~= split(a, sep) + split(b, sep));
    } else {
        law_splitting_cuts_at_every_separator(a, b.drop_last(), sep);
        lemma_split_has_pieces(b.drop_last(), sep);
        assert(whole.drop_last() =~= a.push(sep) + b.drop_last());
        assert(whole.last() == b.last());
        assert(split(whole, sep) =~= split(a, sep) + split(b, sep));
    }
}

/// A text without a separator is its only piece.
pub proof fn law_text_without_separators_is_not_split(s: Seq<char>, sep: char)
    requires
        !s.contains(sep),
    ensures
        split(s, sep) == seq![s],
    decreases s.len(),
{
    if s.len() > 0 {
        assert(s[s.len() - 1] != sep);
        assert(!s.drop_last().contains(sep)) by {
            if s.drop_last().contains(sep) {
                let k = s.drop_last().index_of(sep);
                assert(s[k] == sep);
            }
        }
        law_text_without_separators_is_not_split(s.drop_last(), sep);
        assert(s.drop_last().push(s.last()) =~= s);
        assert(split(s, sep) =~= seq![s]);
    } else {
        assert(s =~= Seq::<char>::empty());
    }
}

proof fn lemma_split_has_pieces(s: Seq<char>, sep: char)
    ensures
        split(s, sep).len() >= 1,
    decreases s.len(),
{
    if s.len() > 0 {
        lemma_split_has_pieces(s.drop_last(), sep);
    }
}

/// What precedes the first separator does not hold one, and what follows it does not matter.
pub proof fn law_first_separator_ends_the_prefix(a: Seq<char>, b: Seq<char>, sep: char)
    requires
        !a.contains(sep),
    ensures
        before_first(a, sep) == a,
        before_first(a.push(sep) + b, sep) == a,
    decreases a.len(),
{
    let whole = a.push(sep) + b;
    if a.len() == 0 {
        assert(before_first(a, sep) =~= a);
        assert(whole[0] == sep);
        assert(before_first(whole, sep) =~= a);
    } else {
        let rest = a.skip(1);
        assert(a[0] != sep);
        assert(!rest.contains(sep)) by {
            if rest.contains(sep) {
                let k = rest.index_of(sep);
                assert(a[k + 1] == sep);
            }
        }
        law_first_separator_ends_the_prefix(rest, b, sep);
        assert(whole.skip(1) =~= rest.push(sep) + b);
        assert(seq![a[0]] + rest =~= a);
    }
}

/// What follows the last separator does not hold one, and what precedes it does not matter.
pub proof fn law_last_separator_starts_the_suffix(a: Seq<char>, b: Seq<char>, sep: char)
    requires
        !b.contains(sep),
    ensures
        after_last(b, sep) == b,
        after_last(a.push(sep) + b, sep) == b,
    decreases b.len(),
{
    let whole = a.push(sep) + b;
    if b.len() == 0 {
        assert(after_last(b, sep) =~= b);
        assert(whole.last() == sep);
        assert(after_last(whole, sep) =~= b);
    } else {
        let rest = b.drop_last();
        assert(b[b.len() - 1] != sep);
        assert(!rest.contains(sep)) by {
            if rest.contains(sep) {
                let k = rest.index_of(sep);
                assert(b[k] == sep);
            }
        }
        law_last_separator_starts_the_suffix(a, rest, sep);
        assert(whole.drop_last() =~= a.push(sep) + rest);
        assert(whole.last() == b.last());
        assert(rest.push(b.last()) =~= b);
    }
}

/// Padding puts spaces before a text until it is as wide as asked for, and never cuts it.
pub proof fn law_padding_only_puts_spaces_before(s: Seq<char>, width: nat)
    ensures
        padded(s, width).len() == if s.len() < width {
            width
        } else {
            s.len()
        },
        padded(s, width).skip(padded(s, width).len() - s.len()) == s,
        forall|k: int|
            0 <= k < padded(s, width).len() - s.len() ==> #[trigger] padded(s, width)[k] == ' ',
{
    assert(padded(s, width).skip(padded(s, width).len() - s.len()) =~= s);
}

/// A repeated character is there as often as asked for, with no other beside it.
pub proof fn law_repeated_character(c: char, n: nat)
    ensures
        repeated(c, n).len() == n,
        forall|k: int| 0 <= k < n ==> #[trigger] repeated(c, n)[k] == c,
{
}

/// The lexicographic order goes by the first difference: what two texts begin with in common does
/// not matter, a text comes before what goes on beyond it, and of two that differ at once the one
/// with the lesser character comes first.
pub proof fn law_first_difference_decides(
    common: Seq<char>,
    a: Seq<char>,
    b: Seq<char>,
    x: char,
    y: char,
)
    ensures
        !lex_less(common, common),
        lex_less(common, common.push(x) + a),
        !lex_less(common.push(x) + a, common),
        x != y ==> lex_less(common.push(x) + a, common.push(y) + b) == (x < y),
    decreases common.len(),
{
    let left = common.push(x) + a;
    let right = common.push(y) + b;
    if common.len() > 0 {
        law_first_difference_decides(common.skip(1), a, b, x, y);
        assert(left.skip(1) =~= common.skip(1).push(x) + a);
        assert(right.skip(1) =~= common.skip(1).push(y) + b);
        assert(left[0] == common[0] && right[0] == common[0]);
    } else {
        assert(left[0] == x && right[0] == y);
    }
}

/// The model of a list of strings holds each of them at its position.
pub proof fn law_strings_are_seen_as_they_are(v: Seq<String>, i: int)
    ensures
        strings_view(v).len() == v.len(),
        0 <= i < v.len() ==> strings_view(v)[i] == v[i]@,
{
}

} // verus!
