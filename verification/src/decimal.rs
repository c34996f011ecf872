//! Decimal rendering of integers, used by the list's string formatting.

use vstd::prelude::*;

verus! {

/// The decimal digit character for `d` in `0..10`.
pub open spec fn digit_char(d: int) -> char {
    if d == 0 {
        '0'
    } else if d == 1 {
        '1'
    } else if d == 2 {
        '2'
    } else if d == 3 {
        '3'
    } else if d == 4 {
        '4'
    } else if d == 5 {
        '5'
    } else if d == 6 {
        '6'
    } else if d == 7 {
        '7'
    } else if d == 8 {
        '8'
    } else {
        '9'
    }
}

/// Decimal digits of a non-negative integer, most significant first.
pub open spec fn dec_digits(n: int) -> Seq<char>
    decreases n,
{
    if n < 10 {
        seq![digit_char(n)]
    } else {
        dec_digits(n / 10) + seq![digit_char(n % 10)]
    }
}

/// Decimal rendering of an integer, with a leading minus sign when negative.
pub open spec fn dec_str(v: int) -> Seq<char> {
    if v < 0 {
        seq!['-'] + dec_digits(-v)
    } else {
        dec_digits(v)
    }
}

/// One ` <element>` chunk per element, in sequence order.
pub open spec fn items_str(s: Seq<i32>) -> Seq<char>
    decreases s.len(),
{
    if s.len() == 0 {
        Seq::<char>::empty()
    } else {
        seq![' '] + dec_str(s[0] as int) + items_str(s.drop_first())
    }
}

/// The bracketed rendering of a whole sequence: `[]` when empty, otherwise
/// `[` followed by one ` <element>` chunk per element and a closing ` ]`.
pub open spec fn list_str(s: Seq<i32>) -> Seq<char> {
    if s.len() == 0 {
        seq!['[', ']']
    } else {
        seq!['['] + items_str(s) + seq![' ', ']']
    }
}

/// Appending one element to a sequence appends one ` <element>` chunk to its
/// rendering.
pub proof fn lemma_items_str_push(s: Seq<i32>, x: i32)
    ensures
        items_str(s.push(x)) == items_str(s) + seq![' '] + dec_str(x as int),
    decreases s.len(),
{
    if s.len() == 0 {
        assert(s.push(x)[0] == x);
        assert(s.push(x).drop_first() =~= Seq::<i32>::empty());
        assert(items_str(s.push(x).drop_first()) == Seq::<char>::empty());
        assert(items_str(s) == Seq::<char>::empty());
        assert(items_str(s.push(x)) =~= items_str(s) + seq![' '] + dec_str(x as int));
    } else {
        assert(s.push(x)[0] == s[0]);
        assert(s.push(x).drop_first() =~= s.drop_first().push(x));
        lemma_items_str_push(s.drop_first(), x);
        assert(items_str(s.push(x)) =~= items_str(s) + seq![' '] + dec_str(x as int));
    }
}

/// The single-character string for a decimal digit.
fn digit_str(d: u64) -> (r: &'static str)
    requires
        d < 10,
    ensures
        r@ == seq![digit_char(d as int)],
{
    proof {
        reveal_strlit("0");
        reveal_strlit("1");
        reveal_strlit("2");
        reveal_strlit("3");
        reveal_strlit("4");
        reveal_strlit("5");
        reveal_strlit("6");
        reveal_strlit("7");
        reveal_strlit("8");
        reveal_strlit("9");
    }
    let r: &'static str = if d == 0 {
        "0"
    } else if d == 1 {
        "1"
    } else if d == 2 {
        "2"
    } else if d == 3 {
        "3"
    } else if d == 4 {
        "4"
    } else if d == 5 {
        "5"
    } else if d == 6 {
        "6"
    } else if d == 7 {
        "7"
    } else {
        "8"
    };
    let r: &'static str = if d == 9 {
        "9"
    } else {
        r
    };
    proof {
        assert(r@ =~= seq![digit_char(d as int)]);
    }
    r
}

/// The decimal digit string of a non-negative number.
fn digits_string(n: u64) -> (r: String)
    ensures
        r@ == dec_digits(n as int),
    decreases n,
{
    if n < 10 {
        let d = digit_str(n);
        d.to_owned()
    } else {
        let mut s = digits_string(n / 10);
        let d = digit_str(n % 10);
        s.append(d);
        proof {
            assert(s@ =~= dec_digits(n as int));
        }
        s
    }
}

/// The decimal string of a signed number, minus sign included.
pub fn i32_string(v: i32) -> (r: String)
    ensures
        r@ == dec_str(v as int),
{
    if v >= 0 {
        digits_string(v as u64)
    } else {
        let m: u64 = (-(v as i64)) as u64;
        proof {
            reveal_strlit("-");
        }
        let mut s = "-".to_owned();
        let t = digits_string(m);
        s.append(t.as_str());
        proof {
            assert(s@ =~= dec_str(v as int));
        }
        s
    }
}

} // verus!
