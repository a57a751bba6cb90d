use vstd::prelude::*;

verus! {

/// The character that writes the decimal digit `d`.
pub open spec fn digit_char(d: int) -> char {
    if d == 0 { '0' }
    else if d == 1 { '1' }
    else if d == 2 { '2' }
    else if d == 3 { '3' }
    else if d == 4 { '4' }
    else if d == 5 { '5' }
    else if d == 6 { '6' }
    else if d == 7 { '7' }
    else if d == 8 { '8' }
    else { '9' }
}

/// The decimal digits of `n`, most significant first, without leading zeros.
pub open spec fn decimal_digits(n: nat) -> Seq<char>
    decreases n,
{
    if n < 10 {
        seq![digit_char(n as int)]
    } else {
        decimal_digits(n / 10).push(digit_char((n % 10) as int))
    }
}

/// The decimal text of an integer: a minus sign before the digits of a negative one.
pub open spec fn decimal_text(x: int) -> Seq<char> {
    if x < 0 {
        seq!['-'] + decimal_digits((-x) as nat)
    } else {
        decimal_digits(x as nat)
    }
}

/// The value of a decimal digit character.
pub open spec fn digit_value(c: char) -> int {
    if c == '1' { 1 }
    else if c == '2' { 2 }
    else if c == '3' { 3 }
    else if c == '4' { 4 }
    else if c == '5' { 5 }
    else if c == '6' { 6 }
    else if c == '7' { 7 }
    else if c == '8' { 8 }
    else if c == '9' { 9 }
    else { 0 }
}

/// The number that a text of decimal digits reads as, most significant first.
pub open spec fn digits_value(s: Seq<char>) -> int
    decreases s.len(),
{
    if s.len() == 0 {
        0
    } else {
        digits_value(s.drop_last()) * 10 + digit_value(s.last())
    }
}

/// Reading back the decimal digits of `n` gives `n`.
pub proof fn lemma_decimal_digits_value(n: nat)
    ensures
        digits_value(decimal_digits(n)) == n,
    decreases n,
{
    if n < 10 {
        let d = decimal_digits(n);
        assert(d.drop_last() =~= Seq::<char>::empty());
        assert(digits_value(Seq::<char>::empty()) == 0);
        assert(d.last() == digit_char(n as int));
        assert(digit_value(digit_char(n as int)) == n);
    } else {
        lemma_decimal_digits_value(n / 10);
        let d = decimal_digits(n);
        assert(d.drop_last() =~= decimal_digits(n / 10));
        assert(d.last() == digit_char((n % 10) as int));
        assert(digit_value(digit_char((n % 10) as int)) == n % 10);
        vstd::arithmetic::div_mod::lemma_fundamental_div_mod(n as int, 10);
    }
}

/// Different numbers have different decimal digits.
pub proof fn lemma_decimal_digits_injective(n1: nat, n2: nat)
    ensures
        decimal_digits(n1) == decimal_digits(n2) ==> n1 == n2,
{
    lemma_decimal_digits_value(n1);
    lemma_decimal_digits_value(n2);
}

/// Different non-negative numbers have different decimal texts, and the
/// text of a non-negative number reads back as that number.
pub proof fn lemma_decimal_text_injective(x1: int, x2: int)
    requires
        x1 >= 0,
        x2 >= 0,
    ensures
        digits_value(decimal_text(x1)) == x1,
        decimal_text(x1) == decimal_text(x2) ==> x1 == x2,
{
    lemma_decimal_digits_value(x1 as nat);
    lemma_decimal_digits_injective(x1 as nat, x2 as nat);
}

/// Whether a character is a decimal digit.
pub open spec fn is_digit(c: char) -> bool {
    c == '0' || c == '1' || c == '2' || c == '3' || c == '4' || c == '5' || c == '6' || c == '7'
        || c == '8' || c == '9'
}

/// The decimal digits of a number are digits only, and there is at least one.
pub proof fn lemma_decimal_digits_are_digits(n: nat)
    ensures
        decimal_digits(n).len() >= 1,
        forall|i: int| 0 <= i < decimal_digits(n).len() ==> is_digit(#[trigger] decimal_digits(n)[i]),
    decreases n,
{
    if n >= 10 {
        lemma_decimal_digits_are_digits(n / 10);
        let d = decimal_digits(n);
        assert forall|i: int| 0 <= i < d.len() implies is_digit(#[trigger] d[i]) by {
            if i < d.len() - 1 {
                assert(d[i] == decimal_digits(n / 10)[i]);
            }
        }
    }
}

fn digit_str(d: u64) -> (s: &'static str)
    requires
        d < 10,
    ensures
        s@ == seq![digit_char(d as int)],
{
    proof {
        reveal_strlit("0");
        reveal_strlit("1");
        reveal_strlit("2");
        reveal_strlit("3");
        reveal_strlit("4");
        reveal_strlit("5");
        reveal_strlit("6");
        reveal_strlit("7");
        reveal_strlit("8");
        reveal_strlit("9");
    }
    if d == 0 { "0" }
    else if d == 1 { "1" }
    else if d == 2 { "2" }
    else if d == 3 { "3" }
    else if d == 4 { "4" }
    else if d == 5 { "5" }
    else if d == 6 { "6" }
    else if d == 7 { "7" }
    else if d == 8 { "8" }
    else { "9" }
}

/// Writes `n` in decimal.
pub fn u64_to_decimal(n: u64) -> (s: String)
    ensures
        s@ == decimal_digits(n as nat),
    decreases n,
{
    if n < 10 {
        String::from_str(digit_str(n))
    } else {
        let mut s = u64_to_decimal(n / 10);
        s.append(digit_str(n % 10));
        s
    }
}

/// Writes `x` in decimal, as `i64`'s `to_string` does.
pub fn i64_to_decimal(x: i64) -> (s: String)
    ensures
        s@ == decimal_text(x as int),
{
    if x < 0 {
        let magnitude: u64 = if x == i64::MIN {
            9223372036854775808u64
        } else {
            (-x) as u64
        };
        let digits = u64_to_decimal(magnitude);
        let mut s = String::from_str("-");
        proof {
            reveal_strlit("-");
        }
        s.append(digits.as_str());
        s
    } else {
        u64_to_decimal(x as u64)
    }
}

} // verus!

verus! {

/// The position of the first `c` in `s`, if `s` holds one.
pub open spec fn first_index_of(s: Seq<char>, c: char) -> Option<int>
    decreases s.len(),
{
    if s.len() == 0 {
        None
    } else if s[0] == c {
        Some(0)
    } else {
        match first_index_of(s.drop_first(), c) {
            Some(i) => Some(i + 1),
            None => None,
        }
    }
}

/// Whether `a` stands at `i` in `s` and `b` right after it.
pub open spec fn pair_at(s: Seq<char>, i: int, a: char, b: char) -> bool {
    s[i] == a && s[i + 1] == b
}

/// The position of the first `a` directly followed by `b` in `s`, if any.
pub open spec fn first_index_of_pair(s: Seq<char>, a: char, b: char) -> Option<int>
    decreases s.len(),
{
    if s.len() < 2 {
        None
    } else if pair_at(s, 0, a, b) {
        Some(0)
    } else {
        match first_index_of_pair(s.drop_first(), a, b) {
            Some(i) => Some(i + 1),
            None => None,
        }
    }
}

/// The pieces of `s` between occurrences of `sep`, as `str::split` with a
/// `char` pattern gives them: one more piece than `s` holds separators.
pub open spec fn split_char(s: Seq<char>, sep: char) -> Seq<Seq<char>>
    decreases s.len(),
{
    if s.len() == 0 {
        seq![Seq::<char>::empty()]
    } else {
        let pieces = split_char(s.drop_last(), sep);
        if s.last() == sep {
            pieces.push(Seq::<char>::empty())
        } else {
            pieces.update(pieces.len() - 1, pieces.last().push(s.last()))
        }
    }
}

pub proof fn lemma_split_char_nonempty(s: Seq<char>, sep: char)
    ensures
        split_char(s, sep).len() >= 1,
    decreases s.len(),
{
    if s.len() > 0 {
        lemma_split_char_nonempty(s.drop_last(), sep);
    }
}

/// Whether `s` holds no `c`.
pub open spec fn lacks_char(s: Seq<char>, c: char) -> bool {
    forall|i: int| 0 <= i < s.len() ==> s[i] != c
}

/// A text without the separator is a single piece.
pub proof fn lemma_split_char_whole(x: Seq<char>, sep: char)
    requires
        lacks_char(x, sep),
    ensures
        split_char(x, sep) == seq![x],
    decreases x.len(),
{
    if x.len() == 0 {
        assert(x =~= Seq::<char>::empty());
        assert(split_char(x, sep) =~= seq![x]);
    } else {
        let y = x.drop_last();
        assert(lacks_char(y, sep)) by {
            assert forall|i: int| 0 <= i < y.len() implies y[i] != sep by {
                assert(y[i] == x[i]);
            }
        }
        lemma_split_char_whole(y, sep);
        assert(x.last() != sep);
        assert(y.push(x.last()) =~= x);
        let pieces = split_char(y, sep);
        assert(pieces.len() == 1);
        assert(pieces.last() == y);
        assert(split_char(x, sep) == pieces.update(0, y.push(x.last())));
        assert(pieces.update(0, y.push(x.last())) =~= seq![x]);
    }
}

/// Splitting at a separator gives the pieces before it, then those after it.
pub proof fn lemma_split_char_at(x: Seq<char>, y: Seq<char>, sep: char)
    ensures
        split_char(x.push(sep) + y, sep) == split_char(x, sep) + split_char(y, sep),
    decreases y.len(),
{
    lemma_split_char_nonempty(x, sep);
    lemma_split_char_nonempty(y, sep);
    if y.len() == 0 {
        assert(x.push(sep) + y =~= x.push(sep));
        assert(x.push(sep).drop_last() =~= x);
        assert(split_char(x.push(sep), sep) =~= split_char(x, sep) + split_char(y, sep));
    } else {
        let z = y.drop_last();
        lemma_split_char_at(x, z, sep);
        lemma_split_char_nonempty(z, sep);
        let s = x.push(sep) + y;
        assert(s.drop_last() =~= x.push(sep) + z);
        assert(s.last() == y.last());
        let pz = split_char(z, sep);
        let px = split_char(x, sep);
        if y.last() == sep {
            assert(split_char(s, sep) =~= px + split_char(y, sep));
        } else {
            assert((px + pz).update((px + pz).len() - 1, (px + pz).last().push(y.last()))
                =~= px + pz.update(pz.len() - 1, pz.last().push(y.last())));
            assert(split_char(s, sep) =~= px + split_char(y, sep));
        }
    }
}

proof fn lemma_first_index_of(s: Seq<char>, c: char, i: int)
    requires
        0 <= i <= s.len(),
        forall|j: int| 0 <= j < i ==> s[j] != c,
    ensures
        i < s.len() && s[i] == c ==> first_index_of(s, c) == Some(i),
        i == s.len() ==> first_index_of(s, c) is None,
    decreases i,
{
    if i > 0 {
        assert(s[0] != c);
        let t = s.drop_first();
        assert forall|j: int| 0 <= j < i - 1 implies t[j] != c by {
            assert(t[j] == s[j + 1]);
        }
        lemma_first_index_of(t, c, i - 1);
    }
}

pub proof fn lemma_first_index_of_pair(s: Seq<char>, a: char, b: char, i: int)
    requires
        0 <= i,
        i + 1 <= s.len() || (i == 0 && s.len() == 0),
        forall|j: int| 0 <= j < i ==> !#[trigger] pair_at(s, j, a, b),
    ensures
        i + 1 < s.len() && s[i] == a && s[i + 1] == b ==> first_index_of_pair(s, a, b) == Some(i),
        i + 1 >= s.len() ==> first_index_of_pair(s, a, b) is None,
    decreases i,
{
    if i > 0 {
        let t = s.drop_first();
        assert forall|j: int| 0 <= j < i - 1 implies !#[trigger] pair_at(t, j, a, b) by {
            assert(pair_at(s, j + 1, a, b) == pair_at(t, j, a, b));
            assert(t[j] == s[j + 1]);
            assert(t[j + 1] == s[j + 2]);
        }
        lemma_first_index_of_pair(t, a, b, i - 1);
    }
}

/// Finds the first `c` in `s`, counting in characters.
pub fn find_char(s: &str, c: char) -> (r: Option<usize>)
    ensures
        match r {
            Some(i) => first_index_of(s@, c) == Some(i as int) && i < s@.len(),
            None => first_index_of(s@, c) is None,
        },
{
    let n = s.unicode_len();
    let mut i: usize = 0;
    while i < n
        invariant
            n == s@.len(),
            0 <= i <= n,
            forall|j: int| 0 <= j < i ==> s@[j] != c,
        decreases n - i,
    {
        if s.get_char(i) == c {
            proof {
                lemma_first_index_of(s@, c, i as int);
            }
            return Some(i);
        }
        i = i + 1;
    }
    proof {
        lemma_first_index_of(s@, c, i as int);
    }
    None
}

/// Finds the first `a` directly followed by `b` in `s`, counting in characters.
pub fn find_char_pair(s: &str, a: char, b: char) -> (r: Option<usize>)
    ensures
        match r {
            Some(i) => first_index_of_pair(s@, a, b) == Some(i as int) && i + 1 < s@.len(),
            None => first_index_of_pair(s@, a, b) is None,
        },
{
    let n = s.unicode_len();
    if n < 2 {
        return None;
    }
    let mut i: usize = 0;
    while i + 1 < n
        invariant
            n == s@.len(),
            n >= 2,
            0 <= i <= n - 1,
            forall|j: int| 0 <= j < i ==> !#[trigger] pair_at(s@, j, a, b),
        decreases n - i,
    {
        if s.get_char(i) == a && s.get_char(i + 1) == b {
            proof {
                lemma_first_index_of_pair(s@, a, b, i as int);
            }
            return Some(i);
        }
        i = i + 1;
    }
    proof {
        lemma_first_index_of_pair(s@, a, b, i as int);
    }
    None
}

/// Splits `s` at every `sep`, as `str::split` with a `char` pattern does.
pub fn split_str(s: &str, sep: char) -> (pieces: Vec<String>)
    ensures
        pieces.len() == split_char(s@, sep).len(),
        forall|k: int| 0 <= k < pieces.len() ==> #[trigger] pieces[k]@ == split_char(s@, sep)[k],
{
    let n = s.unicode_len();
    let mut pieces: Vec<String> = Vec::new();
    let mut start: usize = 0;
    let mut i: usize = 0;
    while i < n
        invariant
            n == s@.len(),
            0 <= start <= i <= n,
            pieces.len() + 1 == split_char(s@.take(i as int), sep).len(),
            forall|k: int| 0 <= k < pieces.len() ==> #[trigger] pieces[k]@ == split_char(s@.take(i as int), sep)[k],
            s@.subrange(start as int, i as int) == split_char(s@.take(i as int), sep).last(),
        decreases n - i,
    {
        let ghost prefix = s@.take(i as int);
        let ghost next = s@.take(i + 1);
        assert(next.drop_last() =~= prefix);
        assert(next.last() == s@[i as int]);
        proof {
            lemma_split_char_nonempty(prefix, sep);
        }
        if s.get_char(i) == sep {
            let piece = String::from_str(s.substring_char(start, i));
            pieces.push(piece);
            start = i + 1;
            assert(s@.subrange(start as int, i + 1) =~= Seq::<char>::empty());
        } else {
            assert(s@.subrange(start as int, i + 1) =~= s@.subrange(start as int, i as int).push(s@[i as int]));
        }
        i = i + 1;
    }
    assert(s@.take(n as int) =~= s@);
    let last = String::from_str(s.substring_char(start, n));
    pieces.push(last);
    pieces
}

} // verus!
