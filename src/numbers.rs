use vstd::prelude::*;

verus! {

/// The character of a decimal digit.
pub open spec fn digit_char(d: nat) -> char {
    if d == 0 { '0' }
    else if d == 1 { '1' }
    else if d == 2 { '2' }
    else if d == 3 { '3' }
    else if d == 4 { '4' }
    else if d == 5 { '5' }
    else if d == 6 { '6' }
    else if d == 7 { '7' }
    else if d == 8 { '8' }
    else { '9' }
}

/// The decimal digits of `n`, most significant first, without leading zeros.
pub open spec fn decimal(n: nat) -> Seq<char>
    decreases n,
{
    if n < 10 {
        seq![digit_char(n)]
    } else {
        decimal(n / 10) + seq![digit_char(n % 10)]
    }
}

fn digit_str(d: u128) -> (r: &'static str)
    requires
        d < 10,
    ensures
        r@ == seq![digit_char(d as nat)],
{
    proof {
        reveal_strlit("0");
        reveal_strlit("1");
        reveal_strlit("2");
        reveal_strlit("3");
        reveal_strlit("4");
        reveal_strlit("5");
        reveal_strlit("6");
        reveal_strlit("7");
        reveal_strlit("8");
        reveal_strlit("9");
    }
    let r = if d == 0 { "0" }
    else if d == 1 { "1" }
    else if d == 2 { "2" }
    else if d == 3 { "3" }
    else if d == 4 { "4" }
    else if d == 5 { "5" }
    else if d == 6 { "6" }
    else if d == 7 { "7" }
    else if d == 8 { "8" }
    else { "9" };
    assert(r@ =~= seq![digit_char(d as nat)]);
    r
}

/// Appends the decimal digits of `n` to `out`.
pub fn push_decimal(out: &mut String, n: u128)
    ensures
        final(out)@ == old(out)@ + decimal(n as nat),
{
    let mut quotients: Vec<u128> = Vec::new();
    let mut q = n;
    quotients.push(q);
    while q >= 10
        invariant
            quotients@.len() >= 1,
            quotients@[0] == n,
            q == quotients@.last(),
            forall|j: int| 0 <= j < quotients@.len() - 1 ==> #[trigger] quotients@[j + 1] == quotients@[j] / 10 && quotients@[j] >= 10,
        decreases q,
    {
        q = q / 10;
        quotients.push(q);
    }
    let ghost start = out@;
    let mut j: usize = quotients.len() - 1;
    out.append(digit_str(q));
    while j > 0
        invariant
            j < quotients@.len(),
            quotients@[0] == n,
            forall|k: int| 0 <= k < quotients@.len() - 1 ==> #[trigger] quotients@[k + 1] == quotients@[k] / 10 && quotients@[k] >= 10,
            out@ == start + decimal(quotients@[j as int] as nat),
        decreases j,
    {
        j = j - 1;
        let m = quotients[j];
        proof {
            assert(quotients@[j + 1] == m / 10 && m >= 10);
            assert(decimal(m as nat) == decimal((m / 10) as nat) + seq![digit_char((m % 10) as nat)]);
        }
        out.append(digit_str(m % 10));
        proof {
            assert(out@ =~= start + decimal(m as nat));
        }
    }
}

/// A number written with a comma between each group of three characters,
/// counted from the right.
pub open spec fn with_commas(s: Seq<char>) -> Seq<char>
    decreases s.len(),
{
    if s.len() <= 3 {
        s
    } else {
        with_commas(s.subrange(0, s.len() - 3)) + seq![','] + s.subrange(s.len() - 3, s.len() as int)
    }
}

fn push_grouped(out: &mut String, s: &str, end: usize)
    requires
        end <= s@.len(),
    ensures
        final(out)@ == old(out)@ + with_commas(s@.subrange(0, end as int)),
    decreases end,
{
    let ghost prefix = s@.subrange(0, end as int);
    if end <= 3 {
        out.append(s.substring_char(0, end));
    } else {
        push_grouped(out, s, end - 3);
        proof {
            reveal_strlit(",");
        }
        out.append(",");
        out.append(s.substring_char(end - 3, end));
        proof {
            assert(prefix.subrange(0, prefix.len() - 3) =~= s@.subrange(0, end - 3));
            assert(prefix.subrange(prefix.len() - 3, prefix.len() as int) =~= s@.subrange(end - 3, end as int));
        }
    }
}

/// Inserts a comma between each group of three characters of `s`, counted
/// from the right.
pub fn insert_commas(s: &str) -> (r: String)
    ensures
        r@ == with_commas(s@),
{
    let mut out = String::new();
    push_grouped(&mut out, s, s.unicode_len());
    assert(s@.subrange(0, s@.len() as int) =~= s@);
    out
}

/// An integer that can be written in decimal.
pub trait NumericToString {
    /// Its decimal text: a minus sign for a negative value, then the digits.
    spec fn spec_decimal(&self) -> Seq<char>;

    /// Its decimal text.
    fn decimal_text(&self) -> (r: String)
        ensures
            r@ == self.spec_decimal();
}

/// The decimal text of a signed value.
pub open spec fn signed_decimal(n: int) -> Seq<char> {
    if n < 0 {
        seq!['-'] + decimal((-n) as nat)
    } else {
        decimal(n as nat)
    }
}

fn unsigned_text(n: u128) -> (r: String)
    ensures
        r@ == decimal(n as nat),
{
    let mut out = String::new();
    push_decimal(&mut out, n);
    out
}

fn signed_text(n: i128) -> (r: String)
    ensures
        r@ == signed_decimal(n as int),
{
    let mut out = String::new();
    if n < 0 {
        proof {
            reveal_strlit("-");
        }
        out.append("-");
        let m: u128 = if n == i128::MIN { 170141183460469231731687303715884105728u128 } else { (-n) as u128 };
        push_decimal(&mut out, m);
    } else {
        push_decimal(&mut out, n as u128);
    }
    out
}

impl NumericToString for u8 {
    open spec fn spec_decimal(&self) -> Seq<char> { decimal(*self as nat) }
    fn decimal_text(&self) -> (r: String) { unsigned_text(*self as u128) }
}

impl NumericToString for u16 {
    open spec fn spec_decimal(&self) -> Seq<char> { decimal(*self as nat) }
    fn decimal_text(&self) -> (r: String) { unsigned_text(*self as u128) }
}

impl NumericToString for u32 {
    open spec fn spec_decimal(&self) -> Seq<char> { decimal(*self as nat) }
    fn decimal_text(&self) -> (r: String) { unsigned_text(*self as u128) }
}

impl NumericToString for u64 {
    open spec fn spec_decimal(&self) -> Seq<char> { decimal(*self as nat) }
    fn decimal_text(&self) -> (r: String) { unsigned_text(*self as u128) }
}

impl NumericToString for u128 {
    open spec fn spec_decimal(&self) -> Seq<char> { decimal(*self as nat) }
    fn decimal_text(&self) -> (r: String) { unsigned_text(*self) }
}

impl NumericToString for i8 {
    open spec fn spec_decimal(&self) -> Seq<char> { signed_decimal(*self as int) }
    fn decimal_text(&self) -> (r: String) { signed_text(*self as i128) }
}

impl NumericToString for i16 {
    open spec fn spec_decimal(&self) -> Seq<char> { signed_decimal(*self as int) }
    fn decimal_text(&self) -> (r: String) { signed_text(*self as i128) }
}

impl NumericToString for i32 {
    open spec fn spec_decimal(&self) -> Seq<char> { signed_decimal(*self as int) }
    fn decimal_text(&self) -> (r: String) { signed_text(*self as i128) }
}

impl NumericToString for i64 {
    open spec fn spec_decimal(&self) -> Seq<char> { signed_decimal(*self as int) }
    fn decimal_text(&self) -> (r: String) { signed_text(*self as i128) }
}

impl NumericToString for i128 {
    open spec fn spec_decimal(&self) -> Seq<char> { signed_decimal(*self as int) }
    fn decimal_text(&self) -> (r: String) { signed_text(*self) }
}

/// Writes a number with commas between groups of three characters of its
/// decimal text, counted from the right.
pub fn format_number_with_commas<T: NumericToString>(num: T) -> (r: String)
    ensures
        r@ == with_commas(num.spec_decimal()),
{
    let text = num.decimal_text();
    insert_commas(text.as_str())
}

/// The unit a byte count is shown in: 0 for B, then KB, MB, GB, TB; the
/// largest whose size the count reaches, TB at most.
pub open spec fn size_unit(bytes: nat) -> nat {
    if bytes < 1024 {
        0
    } else if bytes < 1048576 {
        1
    } else if bytes < 1073741824 {
        2
    } else if bytes < 1099511627776 {
        3
    } else {
        4
    }
}

/// The number of bytes in one of a unit.
pub open spec fn unit_bytes(unit: nat) -> nat {
    if unit == 0 {
        1
    } else if unit == 1 {
        1024
    } else if unit == 2 {
        1048576
    } else if unit == 3 {
        1073741824
    } else {
        1099511627776
    }
}

/// The name of a unit.
pub open spec fn unit_name(unit: nat) -> Seq<char> {
    if unit == 0 {
        "B"@
    } else if unit == 1 {
        "KB"@
    } else if unit == 2 {
        "MB"@
    } else if unit == 3 {
        "GB"@
    } else {
        "TB"@
    }
}

/// `bytes / per` in tenths, rounded to the nearest tenth, a tie to the even
/// tenth.
pub open spec fn rounded_tenths(bytes: nat, per: nat) -> nat
    recommends
        per > 0,
{
    let q = bytes * 10 / per;
    let r = bytes * 10 % per;
    if 2 * r > per || (2 * r == per && q % 2 == 1) {
        q + 1
    } else {
        q
    }
}

/// A byte count for people: whole bytes below one KB, else the count in its
/// unit with one decimal.
pub open spec fn size_text(bytes: nat) -> Seq<char> {
    let unit = size_unit(bytes);
    if unit == 0 {
        decimal(bytes) + " B"@
    } else {
        let t = rounded_tenths(bytes, unit_bytes(unit));
        decimal(t / 10) + "."@ + decimal(t % 10) + " "@ + unit_name(unit)
    }
}

fn unit_str(unit: usize) -> (r: &'static str)
    requires
        1 <= unit <= 4,
    ensures
        r@ == unit_name(unit as nat),
{
    if unit == 1 {
        "KB"
    } else if unit == 2 {
        "MB"
    } else if unit == 3 {
        "GB"
    } else {
        "TB"
    }
}

/// Writes a byte count for people: `512 B`, `1.5 KB`, `3.0 MB`.
pub fn format_size(bytes: usize) -> (r: String)
    ensures
        r@ == size_text(bytes as nat),
{
    let b = bytes as u128;
    let mut out = String::new();
    if b < 1024 {
        push_decimal(&mut out, b);
        out.append(" B");
        return out;
    }
    let (unit, per): (usize, u128) = if b < 1048576 {
        (1, 1024)
    } else if b < 1073741824 {
        (2, 1048576)
    } else if b < 1099511627776 {
        (3, 1073741824)
    } else {
        (4, 1099511627776)
    };
    assert(b * 10 <= 184467440737095516150) by (nonlinear_arith)
        requires b <= 18446744073709551615u128;
    let q = b * 10 / per;
    let rem = b * 10 % per;
    let t = if 2 * rem > per || (2 * rem == per && q % 2 == 1) { q + 1 } else { q };
    push_decimal(&mut out, t / 10);
    out.append(".");
    push_decimal(&mut out, t % 10);
    out.append(" ");
    out.append(unit_str(unit));
    out
}

} // verus!
