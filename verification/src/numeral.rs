//! Whole numbers as decimal text.

use vstd::prelude::*;
use vstd::string::*;

use crate::arith::fits;

verus! {

/// A decimal digit.
pub open spec fn is_digit(c: char) -> bool {
    '0' <= c && c <= '9'
}

/// One or more decimal digits.
pub open spec fn is_natural(s: Seq<char>) -> bool {
    s.len() > 0 && forall|i: int| 0 <= i < s.len() ==> is_digit(#[trigger] s[i])
}

/// The number that decimal digits stand for.
pub open spec fn natural_value(s: Seq<char>) -> int
    decreases s.len(),
{
    if s.len() == 0 {
        0
    } else {
        10 * natural_value(s.drop_last()) + (s.last() as int - '0' as int)
    }
}

/// The number that a text stands for: digits, after a sign or none.
pub open spec fn integer_value(s: Seq<char>) -> Option<int> {
    if is_natural(s) {
        Some(natural_value(s))
    } else if s.len() > 0 && s[0] == '-' && is_natural(s.drop_first()) {
        Some(-natural_value(s.drop_first()))
    } else if s.len() > 0 && s[0] == '+' && is_natural(s.drop_first()) {
        Some(natural_value(s.drop_first()))
    } else {
        None
    }
}

/// The number that a text stands for, where it fits in 64 bits.
pub open spec fn read(s: Seq<char>) -> Option<i64> {
    match integer_value(s) {
        Some(v) => if fits(v) {
            Some(v as i64)
        } else {
            None
        },
        None => None,
    }
}

/// More digits do not make a number smaller.
proof fn lemma_value_grows(s: Seq<char>, n: int)
    requires
        forall|i: int| 0 <= i < s.len() ==> is_digit(#[trigger] s[i]),
        0 <= n <= s.len(),
    ensures
        0 <= natural_value(s.take(n)) <= natural_value(s),
    decreases s.len(),
{
    if s.len() > 0 {
        let t = s.drop_last();
        assert forall|i: int| 0 <= i < t.len() implies is_digit(#[trigger] t[i]) by {
            assert(t[i] == s[i]);
        }
        assert(is_digit(s[s.len() - 1]));
        if n < s.len() {
            lemma_value_grows(t, n);
            assert(t.take(n) =~= s.take(n));
        } else {
            lemma_value_grows(t, 0);
            assert(t.take(0) =~= Seq::empty());
            assert(s.take(n) =~= s);
        }
    } else {
        assert(s.take(n) =~= s);
    }
}

/// Reads digits from an index on; `None` where there are none, a character is not one, or the
/// number is past 64 bits.
fn read_natural(s: &str, from: usize) -> (r: Option<i128>)
    requires
        from <= s@.len(),
    ensures
        match r {
            Some(v) => is_natural(s@.skip(from as int)) && v == natural_value(s@.skip(from as int))
                && 0 <= v <= 0x1_0000_0000_0000_0000,
            None => !is_natural(s@.skip(from as int)) || natural_value(s@.skip(from as int))
                > 0x1_0000_0000_0000_0000,
        },
{
    let n = s.unicode_len();
    if from == n {
        return None;
    }
    let ghost t = s@.skip(from as int);
    let mut v: i128 = 0;
    let mut i: usize = from;
    assert(t.take(0) =~= Seq::empty());
    while i < n
        invariant
            n == s@.len(),
            from <= i <= n,
            t == s@.skip(from as int),
            forall|j: int| 0 <= j < i - from ==> is_digit(#[trigger] t[j]),
            v == natural_value(t.take(i - from)),
            0 <= v <= 0x1_0000_0000_0000_0000,
        decreases n - i,
    {
        let c = s.get_char(i);
        assert(c == t[i - from]);
        if !('0' <= c && c <= '9') {
            assert(!is_digit(t[i - from]));
            return None;
        }
        v = v * 10 + (c as u32 - '0' as u32) as i128;
        assert(t.take(i + 1 - from).drop_last() =~= t.take(i - from));
        i = i + 1;
        if v > 0x1_0000_0000_0000_0000 {
            proof {
                if is_natural(t) {
                    lemma_value_grows(t, i - from);
                }
            }
            return None;
        }
    }
    assert(t.take(i - from) =~= t);
    Some(v)
}

/// Reads a whole number of 64 bits.
pub fn parse_i64(s: &str) -> (r: Option<i64>)
    ensures
        r == read(s@),
{
    let n = s.unicode_len();
    if n == 0 {
        return None;
    }
    let c = s.get_char(0);
    let signed = c == '-' || c == '+';
    assert(s@.skip(0) =~= s@);
    assert(s@.skip(1) =~= s@.drop_first());
    assert(signed ==> !is_digit(s@[0]));
    let v = match read_natural(
        s,
        if signed {
            1
        } else {
            0
        },
    ) {
        Some(v) => v,
        None => {
            return None;
        },
    };
    let v: i128 = if c == '-' {
        -v
    } else {
        v
    };
    if -0x8000_0000_0000_0000i128 <= v && v <= 0x7fff_ffff_ffff_ffffi128 {
        Some(v as i64)
    } else {
        None
    }
}

/// A natural number in decimal digits, without leading zeros.
pub open spec fn natural_text(n: nat) -> Seq<char>
    decreases n,
{
    if n < 10 {
        seq!["0123456789"@[n as int]]
    } else {
        natural_text(n / 10).push("0123456789"@[(n % 10) as int])
    }
}

/// A whole number in decimal digits, after a minus sign where it is negative.
pub open spec fn integer_text(n: int) -> Seq<char> {
    if n < 0 {
        seq!['-'] + natural_text((-n) as nat)
    } else {
        natural_text(n as nat)
    }
}

/// One digit as text.
fn digit(d: u64) -> (r: &'static str)
    requires
        d < 10,
    ensures
        r@ == seq!["0123456789"@[d as int]],
{
    let digits = "0123456789";
    proof {
        reveal_strlit("0123456789");
    }
    let r = digits.substring_ascii(d as usize, d as usize + 1);
    assert(r@ =~= seq!["0123456789"@[d as int]]);
    r
}

/// A natural number as text.
fn print_natural(n: u64) -> (r: String)
    ensures
        r@ == natural_text(n as nat),
    decreases n,
{
    if n < 10 {
        digit(n).to_owned()
    } else {
        let r = print_natural(n / 10).concat(digit(n % 10));
        assert(r@ =~= natural_text(n as nat));
        r
    }
}

/// A whole number as text.
pub fn print_i64(n: i64) -> (r: String)
    ensures
        r@ == integer_text(n as int),
{
    if n < 0 {
        proof {
            reveal_strlit("-");
        }
        let r = "-".to_owned().concat(print_natural((-(n as i128)) as u64).as_str());
        assert("-"@ =~= seq!['-']);
        r
    } else {
        print_natural(n as u64)
    }
}

/// The digits of a number, read again.
proof fn lemma_digits_are_read_back(n: nat)
    ensures
        is_natural(natural_text(n)),
        natural_value(natural_text(n)) == n,
    decreases n,
{
    reveal_strlit("0123456789");
    reveal_with_fuel(natural_value, 2);
    let t = natural_text(n);
    if n < 10 {
        assert(t.len() == 1);
        assert(t.drop_last() =~= Seq::<char>::empty());
    } else {
        lemma_digits_are_read_back(n / 10);
        assert(t.drop_last() =~= natural_text(n / 10));
        assert forall|i: int| 0 <= i < t.len() implies is_digit(#[trigger] t[i]) by {
            if i < t.len() - 1 {
                assert(t[i] == natural_text(n / 10)[i]);
            }
        }
    }
}

/// A number that is written down is read back as the same number.
pub proof fn law_numbers_are_read_back(n: i64)
    ensures
        read(integer_text(n as int)) == Some(n),
{
    let t = integer_text(n as int);
    if n < 0 {
        lemma_digits_are_read_back((-n) as nat);
        assert(t.drop_first() =~= natural_text((-n) as nat));
        assert(!is_digit(t[0]));
    } else {
        lemma_digits_are_read_back(n as nat);
    }
}

/// A number is written with digits, after a minus sign where it is negative.
pub proof fn law_numbers_are_written_in_digits(n: i64, i: int)
    requires
        0 <= i < integer_text(n as int).len(),
    ensures
        ({
            let c = integer_text(n as int)[i];
            &&& i == 0 && n < 0 ==> c == '-'
            &&& i > 0 || n >= 0 ==> '0' <= c && c <= '9'
        }),
{
    if n < 0 {
        lemma_digits_are_read_back((-n) as nat);
        if i > 0 {
            assert(integer_text(n as int)[i] == natural_text((-n) as nat)[i - 1]);
        }
    } else {
        lemma_digits_are_read_back(n as nat);
    }
}

/// What is read as a number is digits, after a sign or none.
pub proof fn law_only_digits_make_a_number(s: Seq<char>, i: int)
    requires
        read(s) is Some,
        0 <= i < s.len(),
    ensures
        ('0' <= s[i] && s[i] <= '9') || (i == 0 && s.len() > 1 && (s[0] == '-' || s[0] == '+')),
{
    if is_natural(s) {
        assert(is_digit(s[i]));
    } else {
        assert(is_natural(s.drop_first()));
        if i > 0 {
            assert(is_digit(s.drop_first()[i - 1]));
        }
    }
}

/// A digit more makes a number ten times as large and the digit more; a plus sign changes nothing,
/// and a minus sign turns it round.
pub proof fn law_digits_count_by_place(s: Seq<char>, c: char)
    requires
        s.len() > 0,
        forall|i: int| 0 <= i < s.len() ==> '0' <= #[trigger] s[i] && s[i] <= '9',
        '0' <= c && c <= '9',
        read(s.push(c)) is Some,
    ensures
        read(s) is Some,
        read(s.push(c))->0 == 10 * read(s)->0 + (c as int - 48),
        read(seq!['+'] + s) == read(s),
        read(seq!['-'] + s) is Some,
        read(seq!['-'] + s)->0 == -read(s)->0,
{
    let t = s.push(c);
    assert forall|i: int| 0 <= i < t.len() implies is_digit(#[trigger] t[i]) by {
        if i < s.len() {
            assert(t[i] == s[i]);
        }
    }
    assert forall|i: int| 0 <= i < s.len() implies is_digit(#[trigger] s[i]) by {}
    assert(is_natural(t));
    assert(is_natural(s));
    assert(t.drop_last() =~= s);
    lemma_value_is_natural(s);
    let plus = seq!['+'] + s;
    let minus = seq!['-'] + s;
    assert(plus.drop_first() =~= s);
    assert(minus.drop_first() =~= s);
    assert(!is_digit(plus[0]));
    assert(!is_digit(minus[0]));
}

proof fn lemma_value_is_natural(s: Seq<char>)
    requires
        forall|i: int| 0 <= i < s.len() ==> is_digit(#[trigger] s[i]),
    ensures
        natural_value(s) >= 0,
    decreases s.len(),
{
    if s.len() > 0 {
        assert forall|i: int| 0 <= i < s.drop_last().len() implies is_digit(
            #[trigger] s.drop_last()[i],
        ) by {
            assert(s.drop_last()[i] == s[i]);
        }
        lemma_value_is_natural(s.drop_last());
        assert(is_digit(s[s.len() - 1]));
    }
}

/// A single digit stands for its number.
pub proof fn law_a_digit_is_its_number(c: char)
    requires
        '0' <= c && c <= '9',
    ensures
        read(seq![c]) is Some,
        read(seq![c])->0 == c as int - 48,
{
    let s = seq![c];
    reveal_with_fuel(natural_value, 2);
    assert(s.drop_last() =~= Seq::<char>::empty());
    assert(is_natural(s));
}

} // verus!
