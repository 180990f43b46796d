//! Decimal notation for page numbers: a spec-level decimal representation and
//! value, a verified formatter used to name chunk artifacts and build tool
//! arguments, and a verified parser used to read the tool's page-count
//! output back in.

use vstd::prelude::*;

verus! {

/// The ten decimal digit characters.
pub open spec fn spec_is_digit(c: char) -> bool {
    '0' <= c && c <= '9'
}

/// The digit character for a value below ten.
pub open spec fn digit_char(d: int) -> char
    recommends
        0 <= d < 10,
{
    if d == 0 {
        '0'
    } else if d == 1 {
        '1'
    } else if d == 2 {
        '2'
    } else if d == 3 {
        '3'
    } else if d == 4 {
        '4'
    } else if d == 5 {
        '5'
    } else if d == 6 {
        '6'
    } else if d == 7 {
        '7'
    } else if d == 8 {
        '8'
    } else {
        '9'
    }
}

/// The value of a digit character.
pub open spec fn char_digit(c: char) -> int {
    c as int - '0' as int
}

/// The decimal representation of a non-negative number, most significant
/// digit first and without leading zeros (zero itself is written "0").
pub open spec fn dec_rep(n: int) -> Seq<char>
    decreases n when n >= 0
{
    if n < 10 {
        seq![digit_char(n)]
    } else {
        dec_rep(n / 10).push(digit_char(n % 10))
    }
}

/// Every character of the sequence is a decimal digit.
pub open spec fn all_digits(s: Seq<char>) -> bool {
    forall|i: int| 0 <= i < s.len() ==> spec_is_digit(#[trigger] s[i])
}

/// The number a sequence of digit characters denotes.
pub open spec fn dec_val(s: Seq<char>) -> int
    decreases s.len(),
{
    if s.len() == 0 {
        0
    } else {
        dec_val(s.drop_last()) * 10 + char_digit(s.last())
    }
}

/// The decimal representation consists of digits, is never empty, and
/// denotes the number it was made from.
pub proof fn lemma_dec_rep_ok(n: int)
    requires
        n >= 0,
    ensures
        all_digits(dec_rep(n)),
        dec_rep(n).len() >= 1,
        dec_val(dec_rep(n)) == n,
    decreases n,
{
    if n < 10 {
        let s = dec_rep(n);
        assert(s =~= seq![digit_char(n)]);
        assert(s.drop_last() =~= Seq::<char>::empty());
        assert(dec_val(Seq::<char>::empty()) == 0);
        assert(s.last() == digit_char(n));
        assert(dec_val(s) == dec_val(s.drop_last()) * 10 + char_digit(s.last()));
        assert(char_digit(digit_char(n)) == n);
    } else {
        vstd::arithmetic::div_mod::lemma_fundamental_div_mod(n, 10);
        vstd::arithmetic::div_mod::lemma_mod_division_less_than_divisor(n, 10);
        vstd::arithmetic::div_mod::lemma_div_pos_is_pos(n, 10);
        vstd::arithmetic::div_mod::lemma_div_is_strictly_smaller(n, 10);
        lemma_dec_rep_ok(n / 10);
        let s = dec_rep(n);
        assert(s == dec_rep(n / 10).push(digit_char(n % 10)));
        assert(s.drop_last() =~= dec_rep(n / 10));
        assert(s.last() == digit_char(n % 10));
        assert(char_digit(digit_char(n % 10)) == n % 10);
        assert(forall|i: int| 0 <= i < s.len() - 1 ==> s[i] == dec_rep(n / 10)[i]);
    }
}

/// A digit sequence denotes a non-negative number.
pub proof fn lemma_dec_val_nonneg(s: Seq<char>)
    requires
        all_digits(s),
    ensures
        dec_val(s) >= 0,
    decreases s.len(),
{
    if s.len() > 0 {
        assert(all_digits(s.drop_last())) by {
            assert(forall|i: int| 0 <= i < s.len() - 1 ==> s.drop_last()[i] == s[i]);
        }
        lemma_dec_val_nonneg(s.drop_last());
        assert(spec_is_digit(s.last()));
    }
}

/// Dropping trailing digits can only shrink the number a digit sequence
/// denotes.
pub proof fn lemma_dec_val_take_le(s: Seq<char>, k: int)
    requires
        all_digits(s),
        0 <= k <= s.len(),
    ensures
        dec_val(s.take(k)) <= dec_val(s),
    decreases s.len() - k,
{
    if k < s.len() {
        assert(all_digits(s.drop_last())) by {
            assert(forall|i: int| 0 <= i < s.len() - 1 ==> s.drop_last()[i] == s[i]);
        }
        assert(s.take(k) =~= s.drop_last().take(k));
        lemma_dec_val_take_le(s.drop_last(), k);
        lemma_dec_val_nonneg(s.drop_last());
        assert(spec_is_digit(s.last()));
        assert(char_digit(s.last()) >= 0);
        assert(dec_val(s) == dec_val(s.drop_last()) * 10 + char_digit(s.last()));
        assert(dec_val(s.drop_last()) * 10 >= dec_val(s.drop_last()));
    } else {
        assert(s.take(k) =~= s);
    }
}

/// The digit character for a value below ten, as a one-character string.
fn digit_str(d: usize) -> (r: &'static str)
    requires
        d < 10,
    ensures
        r@ =~= seq![digit_char(d as int)],
{
    proof {
        reveal_strlit("0");
        reveal_strlit("1");
        reveal_strlit("2");
        reveal_strlit("3");
        reveal_strlit("4");
        reveal_strlit("5");
        reveal_strlit("6");
        reveal_strlit("7");
        reveal_strlit("8");
        reveal_strlit("9");
    }
    if d == 0 {
        "0"
    } else if d == 1 {
        "1"
    } else if d == 2 {
        "2"
    } else if d == 3 {
        "3"
    } else if d == 4 {
        "4"
    } else if d == 5 {
        "5"
    } else if d == 6 {
        "6"
    } else if d == 7 {
        "7"
    } else if d == 8 {
        "8"
    } else {
        "9"
    }
}

/// Writes a number in decimal, most significant digit first.
pub fn format_usize(n: usize) -> (s: String)
    ensures
        s@ == dec_rep(n as int),
        all_digits(s@),
        s@.len() >= 1,
    decreases n,
{
    proof {
        lemma_dec_rep_ok(n as int);
    }
    if n < 10 {
        String::from_str(digit_str(n))
    } else {
        let mut s = format_usize(n / 10);
        s.append(digit_str(n % 10));
        proof {
            assert(s@ =~= dec_rep(n as int));
        }
        s
    }
}

/// Reads the number written in `s` between `from` (inclusive) and `to`
/// (exclusive). Yields the number exactly when that span is non-empty, is all
/// digits, and denotes a value a `usize` can hold; yields nothing otherwise.
pub fn parse_digits(s: &str, from: usize, to: usize) -> (r: Option<usize>)
    requires
        from <= to <= s@.len(),
    ensures
        ({
            let sub = s@.subrange(from as int, to as int);
            match r {
                Some(v) => sub.len() > 0 && all_digits(sub) && dec_val(sub) == v as int,
                None => !(sub.len() > 0 && all_digits(sub) && dec_val(sub) <= usize::MAX),
            }
        }),
{
    let ghost sub = s@.subrange(from as int, to as int);
    if from == to {
        return None;
    }
    let mut value: usize = 0;
    let mut i = from;
    while i < to
        invariant
            from <= i <= to <= s@.len(),
            sub == s@.subrange(from as int, to as int),
            all_digits(s@.subrange(from as int, i as int)),
            value as int == dec_val(s@.subrange(from as int, i as int)),
        decreases to - i,
    {
        let c = s.get_char(i);
        let cv = c as u32;
        if cv < '0' as u32 || cv > '9' as u32 {
            proof {
                assert(sub[i - from] == s@[i as int]);
                assert(!spec_is_digit(sub[i - from]));
            }
            return None;
        }
        let d = (cv - '0' as u32) as usize;
        proof {
            assert(spec_is_digit(s@[i as int]));
            assert(d as int == char_digit(s@[i as int]));
            assert(s@.subrange(from as int, i as int + 1).drop_last() =~= s@.subrange(
                from as int,
                i as int,
            ));
            assert(s@.subrange(from as int, i as int + 1).last() == s@[i as int]);
            assert(usize::MAX as int == 10 * (usize::MAX as int / 10) + usize::MAX as int % 10) by {
                vstd::arithmetic::div_mod::lemma_fundamental_div_mod(usize::MAX as int, 10);
            }
        }
        if value > usize::MAX / 10 || (value == usize::MAX / 10 && d > usize::MAX % 10) {
            proof {
                let k = i as int + 1 - from;
                assert(dec_val(sub.take(k)) == value as int * 10 + d) by {
                    assert(sub.take(k) =~= s@.subrange(from as int, i as int + 1));
                }
                if all_digits(sub) {
                    lemma_dec_val_take_le(sub, k);
                    assert(dec_val(sub) > usize::MAX);
                }
            }
            return None;
        }
        value = value * 10 + d;
        proof {
            assert(all_digits(s@.subrange(from as int, i as int + 1))) by {
                assert(forall|j: int|
                    0 <= j < i as int + 1 - from ==> #[trigger] s@.subrange(
                        from as int,
                        i as int + 1,
                    )[j] == s@[from + j]);
                assert(forall|j: int|
                    0 <= j < i as int - from ==> #[trigger] s@.subrange(from as int, i as int)[j]
                        == s@[from + j]);
            }
        }
        i = i + 1;
    }
    proof {
        assert(sub =~= s@.subrange(from as int, i as int));
    }
    Some(value)
}

} // verus!
