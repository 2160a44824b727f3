//! Decimal numerals: the spec-level picture of a number's decimal text,
//! executable rendering to it, and the proof that reading the text back
//! recovers the number.
use vstd::prelude::*;
use vstd::arithmetic::div_mod::{
    lemma_div_pos_is_pos, lemma_fundamental_div_mod, lemma_mod_bound,
};

verus! {

/// The character of one decimal digit value.
pub open spec fn digit_char(d: int) -> char {
    if d == 0 { '0' }
    else if d == 1 { '1' }
    else if d == 2 { '2' }
    else if d == 3 { '3' }
    else if d == 4 { '4' }
    else if d == 5 { '5' }
    else if d == 6 { '6' }
    else if d == 7 { '7' }
    else if d == 8 { '8' }
    else { '9' }
}

/// The value of one decimal digit character; anything else is -1.
pub open spec fn char_digit(c: char) -> int {
    if c == '0' { 0 }
    else if c == '1' { 1 }
    else if c == '2' { 2 }
    else if c == '3' { 3 }
    else if c == '4' { 4 }
    else if c == '5' { 5 }
    else if c == '6' { 6 }
    else if c == '7' { 7 }
    else if c == '8' { 8 }
    else if c == '9' { 9 }
    else { -1 }
}

/// The decimal text of a non-negative number, most significant digit first,
/// without leading zeros (`0` itself is "0").
pub open spec fn dec_str(n: int) -> Seq<char>
    recommends 0 <= n,
    decreases n,
{
    if n < 10 {
        seq![digit_char(n)]
    } else {
        dec_str(n / 10).push(digit_char(n % 10))
    }
}

/// The decimal text of a signed number: a minus sign before the magnitude.
pub open spec fn int_str(n: int) -> Seq<char> {
    if n < 0 {
        seq!['-'] + dec_str(-n)
    } else {
        dec_str(n)
    }
}

/// The number a text of decimal digits denotes, read left to right;
/// None where a character is no digit or the text is empty.
pub open spec fn parse_dec(s: Seq<char>) -> Option<int>
    decreases s.len(),
{
    if s.len() == 0 {
        None
    } else if s.len() == 1 {
        if char_digit(s[0]) >= 0 { Some(char_digit(s[0])) } else { None }
    } else {
        match parse_dec(s.drop_last()) {
            Some(h) => if char_digit(s.last()) >= 0 { Some(h * 10 + char_digit(s.last())) } else { None },
            None => None,
        }
    }
}

/// The number a signed decimal text denotes.
pub open spec fn parse_int(s: Seq<char>) -> Option<int> {
    if s.len() > 0 && s[0] == '-' {
        match parse_dec(s.skip(1)) {
            Some(m) => Some(-m),
            None => None,
        }
    } else {
        parse_dec(s)
    }
}

/// Reading a non-negative number's decimal text back yields the number.
pub proof fn lemma_parse_dec_str(n: int)
    requires
        0 <= n,
    ensures
        parse_dec(dec_str(n)) == Some(n),
    decreases n,
{
    if n < 10 {
        assert(parse_dec(dec_str(n)) == Some(n));
    } else {
        lemma_div_pos_is_pos(n, 10);
        lemma_parse_dec_str(n / 10);
        lemma_fundamental_div_mod(n, 10);
        lemma_mod_bound(n, 10);
        let s = dec_str(n);
        assert(s == dec_str(n / 10).push(digit_char(n % 10)));
        assert(s.drop_last() == dec_str(n / 10));
        assert(dec_str(n / 10).len() >= 1) by {
            lemma_dec_str_len(n / 10);
        }
        assert(char_digit(s.last()) == n % 10);
        assert(parse_dec(s) == Some((n / 10) * 10 + n % 10));
    }
}

/// A decimal text is never empty and holds digit characters alone.
pub proof fn lemma_dec_str_len(n: int)
    requires
        0 <= n,
    ensures
        dec_str(n).len() >= 1,
    decreases n,
{
    if n >= 10 {
        lemma_div_pos_is_pos(n, 10);
        lemma_dec_str_len(n / 10);
    }
}

/// Reading a signed number's decimal text back yields the number: the
/// rendered duration fields of a row determine the record's fields.
pub proof fn lemma_parse_int_str(n: int)
    ensures
        parse_int(int_str(n)) == Some(n),
{
    if n < 0 {
        lemma_parse_dec_str(-n);
        lemma_dec_str_len(-n);
        let s = int_str(n);
        assert(s.skip(1) == dec_str(-n));
        assert(s[0] == '-');
    } else {
        lemma_parse_dec_str(n);
        lemma_dec_str_len(n);
        let s = int_str(n);
        if s[0] == '-' {
            lemma_dec_str_no_minus(n);
        }
    }
}

/// A non-negative decimal text never starts with a minus sign.
proof fn lemma_dec_str_no_minus(n: int)
    requires
        0 <= n,
    ensures
        dec_str(n)[0] != '-',
    decreases n,
{
    if n >= 10 {
        lemma_div_pos_is_pos(n, 10);
        lemma_dec_str_no_minus(n / 10);
        lemma_dec_str_len(n / 10);
        assert(dec_str(n)[0] == dec_str(n / 10)[0]);
    }
}

/// Renders a non-negative number as its decimal text.
pub fn format_u64(n: u64) -> (r: String)
    ensures
        r@ == dec_str(n as int),
    decreases n,
{
    let d: u64 = n % 10;
    let ds: &str = if d == 0 { "0" }
        else if d == 1 { "1" }
        else if d == 2 { "2" }
        else if d == 3 { "3" }
        else if d == 4 { "4" }
        else if d == 5 { "5" }
        else if d == 6 { "6" }
        else if d == 7 { "7" }
        else if d == 8 { "8" }
        else { "9" };
    proof {
        reveal_strlit("0");
        reveal_strlit("1");
        reveal_strlit("2");
        reveal_strlit("3");
        reveal_strlit("4");
        reveal_strlit("5");
        reveal_strlit("6");
        reveal_strlit("7");
        reveal_strlit("8");
        reveal_strlit("9");
        assert(ds@ == seq![digit_char(n as int % 10)]);
    }
    if n < 10 {
        assert(n as int % 10 == n as int) by {
            lemma_fundamental_div_mod(n as int, 10);
        }
        ds.to_owned()
    } else {
        assert(n as int / 10 < n as int && n as int / 10 >= 0) by {
            lemma_fundamental_div_mod(n as int, 10);
            lemma_mod_bound(n as int, 10);
        }
        let mut s = format_u64(n / 10);
        s.append(ds);
        proof {
            assert(s@ == dec_str(n as int / 10) + seq![digit_char(n as int % 10)]);
            assert(dec_str(n as int) == dec_str(n as int / 10).push(digit_char(n as int % 10)));
            assert(dec_str(n as int / 10) + seq![digit_char(n as int % 10)]
                =~= dec_str(n as int / 10).push(digit_char(n as int % 10)));
        }
        s
    }
}

/// Renders a signed number as its decimal text, a minus sign first where
/// it is negative.
pub fn format_i32(n: i32) -> (r: String)
    ensures
        r@ == int_str(n as int),
{
    if n >= 0 {
        format_u64(n as u64)
    } else {
        let m: u64 = if n == i32::MIN { 2147483648u64 } else { (-n) as u64 };
        assert(m == -(n as int));
        let mut s = String::from_str("-");
        proof {
            reveal_strlit("-");
        }
        let tail = format_u64(m);
        s.append(tail.as_str());
        assert(s@ =~= int_str(n as int));
        s
    }
}

} // verus!
