//! Text helpers: decimal rendering and string concatenation with exact
//! contracts over character sequences.
use vstd::prelude::*;
use vstd::string::*;

verus! {

/// The ASCII digit for a value in `0..10`.
pub open spec fn digit_char(d: int) -> char {
    if d == 0 { '0' }
    else if d == 1 { '1' }
    else if d == 2 { '2' }
    else if d == 3 { '3' }
    else if d == 4 { '4' }
    else if d == 5 { '5' }
    else if d == 6 { '6' }
    else if d == 7 { '7' }
    else if d == 8 { '8' }
    else { '9' }
}

/// Decimal rendering of a natural number, without leading zeros.
pub open spec fn spec_decimal(n: nat) -> Seq<char>
    decreases n,
{
    if n < 10 {
        seq![digit_char(n as int)]
    } else {
        spec_decimal(n / 10) + seq![digit_char((n % 10) as int)]
    }
}

/// Decimal rendering padded with zeros on the left to at least `width` digits.
pub open spec fn spec_zero_pad(s: Seq<char>, width: nat) -> Seq<char>
    decreases width,
{
    if s.len() >= width {
        s
    } else {
        seq!['0'] + spec_zero_pad(s, (width - 1) as nat)
    }
}

/// The value of a decimal digit character.
pub open spec fn digit_value(c: char) -> int {
    (c as int) - ('0' as int)
}

/// The number that a sequence of decimal digits denotes.
pub open spec fn digits_value(s: Seq<char>) -> int
    decreases s.len(),
{
    if s.len() == 0 { 0 } else { 10 * digits_value(s.drop_last()) + digit_value(s.last()) }
}

/// The decimal rendering denotes the number it renders: it is made of
/// digits, its value is `n`, and it starts with `0` only for zero itself.
pub proof fn law_decimal_denotes(n: nat)
    ensures
        spec_decimal(n).len() >= 1,
        forall|i: int| 0 <= i < spec_decimal(n).len() ==> '0' <= #[trigger] spec_decimal(n)[i] <= '9',
        digits_value(spec_decimal(n)) == n,
        spec_decimal(n)[0] == '0' ==> n == 0,
    decreases n,
{
    let d = (n % 10) as int;
    assert(digit_value(digit_char(d)) == d && '0' <= digit_char(d) <= '9') by {
        if d == 0 {} else if d == 1 {} else if d == 2 {} else if d == 3 {} else if d == 4 {}
        else if d == 5 {} else if d == 6 {} else if d == 7 {} else if d == 8 {} else {}
    }
    if n >= 10 {
        law_decimal_denotes(n / 10);
        let head = spec_decimal(n / 10);
        let t = spec_decimal(n);
        assert(t.drop_last() =~= head);
        assert(t.last() == digit_char(d));
        assert(digits_value(t) == 10 * digits_value(head) + d);
        assert(n == 10 * (n / 10) + d);
        assert(t[0] == head[0]);
        assert forall|i: int| 0 <= i < t.len() implies '0' <= #[trigger] t[i] <= '9' by {
            if i < head.len() {
                assert(t[i] == head[i]);
            }
        }
    } else {
        let t = spec_decimal(n);
        assert(t.drop_last() =~= Seq::<char>::empty());
        assert(digits_value(t) == 10 * digits_value(t.drop_last()) + digit_value(t.last()));
    }
}

/// Zero padding puts just enough zeros before the text to reach the width,
/// and keeps the text as it was after them.
pub proof fn law_zero_pad_shape(s: Seq<char>, width: nat)
    ensures
        spec_zero_pad(s, width).len() == if s.len() < width { width } else { s.len() },
        spec_zero_pad(s, width).subrange(spec_zero_pad(s, width).len() - s.len(), spec_zero_pad(s, width).len() as int) == s,
        forall|i: int| 0 <= i < spec_zero_pad(s, width).len() - s.len() ==> #[trigger] spec_zero_pad(s, width)[i] == '0',
    decreases width,
{
    let z = spec_zero_pad(s, width);
    if s.len() < width {
        law_zero_pad_shape(s, (width - 1) as nat);
        let rest = spec_zero_pad(s, (width - 1) as nat);
        assert(z == seq!['0'] + rest);
        assert(z.subrange(z.len() - s.len(), z.len() as int) =~= rest.subrange(rest.len() - s.len(), rest.len() as int));
        assert forall|i: int| 0 <= i < z.len() - s.len() implies #[trigger] z[i] == '0' by {
            if i > 0 {
                assert(z[i] == rest[i - 1]);
            }
        }
    } else {
        assert(z.subrange(0, z.len() as int) =~= s);
    }
}

/// A one-character string holding the digit `d`.
pub fn digit_str(d: u64) -> (r: &'static str)
    requires
        d < 10,
    ensures
        r@ == seq![digit_char(d as int)],
{
    let digits = "0123456789";
    proof {
        reveal_strlit("0123456789");
    }
    let r = digits.substring_char(d as usize, (d + 1) as usize);
    assert(r@ =~= seq![digit_char(d as int)]);
    r
}

/// Renders `n` in decimal.
pub fn decimal(n: u64) -> (r: String)
    ensures
        r@ == spec_decimal(n as nat),
    decreases n,
{
    if n < 10 {
        String::from_str(digit_str(n))
    } else {
        let mut s = decimal(n / 10);
        s.append(digit_str(n % 10));
        s
    }
}

/// Renders `n` in decimal with at least `width` digits.
pub fn decimal_padded(n: u64, width: u64) -> (r: String)
    ensures
        r@ == spec_zero_pad(spec_decimal(n as nat), width as nat),
    decreases width,
{
    let s = decimal(n);
    let len = s.as_str().unicode_len();
    if len as u64 >= width {
        s
    } else {
        let mut r = String::from_str("0");
        proof {
            reveal_strlit("0");
        }
        let rest = decimal_padded(n, width - 1);
        r.append(rest.as_str());
        r
    }
}

/// Concatenation of two strings.
pub fn concat2(a: &str, b: &str) -> (r: String)
    ensures
        r@ == a@ + b@,
{
    let mut r = String::from_str(a);
    r.append(b);
    r
}

/// Concatenation of three strings.
pub fn concat3(a: &str, b: &str, c: &str) -> (r: String)
    ensures
        r@ == a@ + b@ + c@,
{
    let mut r = String::from_str(a);
    r.append(b);
    r.append(c);
    r
}

/// Equality of two string slices, character by character.
pub fn str_eq(a: &str, b: &str) -> (r: bool)
    ensures
        r == (a@ == b@),
{
    let x = String::from_str(a);
    let y = String::from_str(b);
    x == y
}

/// The contents of a sequence of string pairs.
pub open spec fn pair_views(s: Seq<(String, String)>) -> Seq<(Seq<char>, Seq<char>)> {
    s.map_values(|p: (String, String)| (p.0@, p.1@))
}

/// The contents of a sequence of strings.
pub open spec fn string_views(s: Seq<String>) -> Seq<Seq<char>> {
    s.map_values(|x: String| x@)
}

} // verus!
