use vstd::prelude::*;

verus! {

/// The character for digit `d`, upper case past 9.
pub open spec fn digit_char(d: int) -> char {
    "0123456789ABCDEF"@[d]
}

/// `n` written in `base`, most significant digit first, without leading zeros.
pub open spec fn digits(n: nat, base: nat) -> Seq<char>
    decreases n,
{
    if n < base || base < 2 {
        seq![digit_char(n as int)]
    } else {
        proof {
            lemma_div_smaller(n, base);
        }
        digits(n / base, base).push(digit_char((n % base) as int))
    }
}

/// Dividing by a base of at least 2 makes a number that is at least the base smaller.
pub proof fn lemma_div_smaller(n: nat, base: nat)
    requires
        2 <= base <= n,
    ensures
        n / base < n,
{
    assert(n / base < n) by (nonlinear_arith)
        requires
            2 <= base <= n,
    ;
}

/// `s` with zeros in front up to `width` characters.
pub open spec fn padded(s: Seq<char>, width: nat) -> Seq<char> {
    if s.len() >= width {
        s
    } else {
        Seq::new((width - s.len()) as nat, |i: int| '0') + s
    }
}

/// `v` in decimal, with a minus sign when negative.
pub open spec fn dec(v: int) -> Seq<char> {
    if v < 0 {
        "-"@ + digits((-v) as nat, 10)
    } else {
        digits(v as nat, 10)
    }
}

/// `v` in decimal, always with its sign.
pub open spec fn signed_offset(v: int) -> Seq<char> {
    if v >= 0 {
        "+"@ + dec(v)
    } else {
        dec(v)
    }
}

/// The one-character string for digit `d`.
fn digit_str(d: u32) -> (r: &'static str)
    requires
        d < 16,
    ensures
        r@ == seq![digit_char(d as int)],
{
    let table = "0123456789ABCDEF";
    proof {
        reveal_strlit("0123456789ABCDEF");
    }
    let r = table.substring_char(d as usize, d as usize + 1);
    assert(r@ =~= seq![digit_char(d as int)]);
    r
}

/// Appends `n` written in `base`.
pub fn push_digits(s: &mut String, n: u32, base: u32)
    requires
        2 <= base <= 16,
    ensures
        final(s)@ == old(s)@ + digits(n as nat, base as nat),
    decreases n,
{
    if n >= base {
        proof {
            lemma_div_smaller(n as nat, base as nat);
        }
        push_digits(s, n / base, base);
        s.append(digit_str(n % base));
        assert(s@ =~= old(s)@ + digits(n as nat, base as nat));
    } else {
        s.append(digit_str(n));
        assert(s@ =~= old(s)@ + digits(n as nat, base as nat));
    }
}

/// How many digits `n` has in `base`.
fn digit_count(n: u32, base: u32) -> (r: usize)
    requires
        2 <= base <= 16,
    ensures
        r == digits(n as nat, base as nat).len(),
        r <= n as nat + 1,
    decreases n,
{
    if n >= base {
        proof {
            lemma_div_smaller(n as nat, base as nat);
            assert(n / base + 1 <= n && n / base <= 0x7fff_ffff) by (nonlinear_arith)
                requires
                    2 <= base <= n,
                    n <= 0xffff_ffff,
            ;
        }
        digit_count(n / base, base) + 1
    } else {
        1
    }
}

/// Appends `n` written in `base`, padded with zeros to `width` digits.
pub fn push_padded(s: &mut String, n: u32, base: u32, width: usize)
    requires
        2 <= base <= 16,
    ensures
        final(s)@ == old(s)@ + padded(digits(n as nat, base as nat), width as nat),
{
    let count = digit_count(n, base);
    let ghost ds = digits(n as nat, base as nat);
    if count < width {
        proof {
            reveal_strlit("0");
        }
        let mut k: usize = count;
        while k < width
            invariant
                count <= k <= width,
                "0"@ == seq!['0'],
                s@ == old(s)@ + Seq::new((k - count) as nat, |i: int| '0'),
            decreases width - k,
        {
            s.append("0");
            k = k + 1;
            assert(s@ =~= old(s)@ + Seq::new((k - count) as nat, |i: int| '0'));
        }
        push_digits(s, n, base);
        assert(s@ =~= old(s)@ + padded(ds, width as nat));
    } else {
        push_digits(s, n, base);
    }
}

/// Appends `v` in decimal.
pub fn push_dec(s: &mut String, v: i32)
    ensures
        final(s)@ == old(s)@ + dec(v as int),
{
    if v < 0 {
        s.append("-");
        let m = (-(v as i64)) as u32;
        push_digits(s, m, 10);
        assert(s@ =~= old(s)@ + dec(v as int));
    } else {
        push_digits(s, v as u32, 10);
    }
}

/// A signed offset as it stands in an address operand: `+8`, `-4`, `+0`.
pub struct Off32(pub i32);

impl Off32 {
    /// Appends the offset with its sign.
    pub fn push_to(&self, s: &mut String)
        ensures
            final(s)@ == old(s)@ + signed_offset(self.0 as int),
    {
        if self.0 >= 0 {
            s.append("+");
        }
        push_dec(s, self.0);
        assert(s@ =~= old(s)@ + signed_offset(self.0 as int));
    }

    pub fn text(&self) -> (r: String)
        ensures
            r@ == signed_offset(self.0 as int),
    {
        let mut s = String::new();
        self.push_to(&mut s);
        assert(s@ =~= signed_offset(self.0 as int));
        s
    }
}

} // verus!
