use vstd::prelude::*;

use crate::strings::{all_digits, chars_of, digits_value, parse_usize_spec, push_char};

verus! {

/// The character of decimal digit `d`.
pub open spec fn digit_char(d: nat) -> char {
    ((48 + d) as u8) as char
}

/// The decimal representation of `n`, without leading zeros.
pub open spec fn decimal(n: nat) -> Seq<char>
    decreases n,
{
    if n < 10 {
        seq![digit_char(n)]
    } else {
        decimal(n / 10).push(digit_char(n % 10))
    }
}

/// The ANSI 24-bit color escape sequence `ESC [ <kind> ; 2 ; r ; g ; b m`,
/// with `kind` 38 for foreground and 48 for background.
pub open spec fn ansi_color_code(kind: Seq<char>, r: u8, g: u8, b: u8) -> Seq<char> {
    seq!['\x1b', '['] + kind + seq![';', '2', ';'] + decimal(r as nat) + seq![';'] + decimal(
        g as nat,
    ) + seq![';'] + decimal(b as nat) + seq!['m']
}

/// The ANSI sequence that resets all attributes.
pub open spec fn ansi_reset() -> Seq<char> {
    seq!['\x1b', '[', '0', 'm']
}

/// RGB color with ANSI escape code support
#[derive(Debug, Clone, Copy, PartialEq, Eq, Structural)]
pub struct Color {
    pub r: u8,
    pub g: u8,
    pub b: u8,
}

/// Appends the decimal representation of `n`.
fn push_decimal(s: &mut String, n: u8)
    ensures
        final(s)@ == old(s)@ + decimal(n as nat),
{
    if n >= 100 {
        push_char(s, ((n / 100) + 48) as char);
        push_char(s, (((n / 10) % 10) + 48) as char);
    } else if n >= 10 {
        push_char(s, ((n / 10) + 48) as char);
    }
    push_char(s, ((n % 10) + 48) as char);
    proof {
        let m = n as nat;
        if m >= 100 {
            assert(decimal(m / 100) == seq![digit_char(m / 100)]);
            assert(decimal(m / 10) == decimal(m / 100).push(digit_char((m / 10) % 10)));
        } else if m >= 10 {
            assert(decimal(m / 10) == seq![digit_char(m / 10)]);
        }
    }
}

/// Appends an ANSI 24-bit color sequence for (r, g, b).
pub fn push_color_code(s: &mut String, kind: char, r: u8, g: u8, b: u8)
    ensures
        final(s)@ == old(s)@ + ansi_color_code(seq![kind, '8'], r, g, b),
{
    let ghost start = s@;
    push_char(s, '\x1b');
    push_char(s, '[');
    push_char(s, kind);
    push_char(s, '8');
    push_char(s, ';');
    push_char(s, '2');
    push_char(s, ';');
    push_decimal(s, r);
    push_char(s, ';');
    push_decimal(s, g);
    push_char(s, ';');
    push_decimal(s, b);
    push_char(s, 'm');
    proof {
        assert(s@ =~= start + ansi_color_code(seq![kind, '8'], r, g, b));
    }
}

impl Color {
    /// The foreground escape sequence for this color.
    pub open spec fn fg_code(self) -> Seq<char> {
        ansi_color_code(seq!['3', '8'], self.r, self.g, self.b)
    }

    /// The background escape sequence for this color.
    pub open spec fn bg_code(self) -> Seq<char> {
        ansi_color_code(seq!['4', '8'], self.r, self.g, self.b)
    }

    /// Create a new color from RGB values
    pub fn rgb(r: u8, g: u8, b: u8) -> (c: Color)
        ensures
            c == (Color { r, g, b }),
    {
        Color { r, g, b }
    }

    /// Convert to ANSI 24-bit color escape code (foreground)
    pub fn to_ansi_fg(&self) -> (s: String)
        ensures
            s@ == self.fg_code(),
    {
        let mut s = String::new();
        push_color_code(&mut s, '3', self.r, self.g, self.b);
        proof {
            assert(s@ =~= self.fg_code());
        }
        s
    }

    /// Convert to ANSI 24-bit color escape code (background)
    pub fn to_ansi_bg(&self) -> (s: String)
        ensures
            s@ == self.bg_code(),
    {
        let mut s = String::new();
        push_color_code(&mut s, '4', self.r, self.g, self.b);
        proof {
            assert(s@ =~= self.bg_code());
        }
        s
    }

    /// ANSI reset code
    pub fn reset() -> (s: &'static str)
        ensures
            s@ == ansi_reset(),
    {
        proof {
            reveal_strlit("\x1b[0m");
        }
        "\x1b[0m"
    }

    /// Wrap text in ANSI foreground color
    pub fn colorize(&self, text: &str) -> (s: String)
        ensures
            s@ == self.fg_code() + text@ + ansi_reset(),
    {
        let mut s = self.to_ansi_fg();
        let chars = chars_of(text);
        let mut i: usize = 0;
        while i < chars.len()
            invariant
                i <= chars@.len(),
                s@ == self.fg_code() + chars@.take(i as int),
            decreases chars@.len() - i,
        {
            push_char(&mut s, chars[i]);
            proof {
                assert(chars@.take(i as int + 1) =~= chars@.take(i as int).push(chars@[i as int]));
            }
            i = i + 1;
        }
        let reset = Color::reset();
        let rs = chars_of(reset);
        let mut k: usize = 0;
        while k < rs.len()
            invariant
                k <= rs@.len(),
                rs@ == ansi_reset(),
                i == chars@.len(),
                s@ == self.fg_code() + chars@ + rs@.take(k as int),
            decreases rs@.len() - k,
        {
            push_char(&mut s, rs[k]);
            proof {
                assert(rs@.take(k as int + 1) =~= rs@.take(k as int).push(rs@[k as int]));
            }
            k = k + 1;
        }
        proof {
            assert(chars@.take(chars@.len() as int) =~= chars@);
            assert(rs@.take(rs@.len() as int) =~= rs@);
        }
        s
    }

    // Common colors
    /// The color (0, 0, 0).
    pub fn black() -> (c: Color)
        ensures
            c == (Color { r: 0, g: 0, b: 0 }),
    {
        Color { r: 0, g: 0, b: 0 }
    }

    /// The color (255, 255, 255).
    pub fn white() -> (c: Color)
        ensures
            c == (Color { r: 255, g: 255, b: 255 }),
    {
        Color { r: 255, g: 255, b: 255 }
    }

    /// The color (255, 0, 0).
    pub fn red() -> (c: Color)
        ensures
            c == (Color { r: 255, g: 0, b: 0 }),
    {
        Color { r: 255, g: 0, b: 0 }
    }

    /// The color (0, 255, 0).
    pub fn green() -> (c: Color)
        ensures
            c == (Color { r: 0, g: 255, b: 0 }),
    {
        Color { r: 0, g: 255, b: 0 }
    }

    /// The color (0, 0, 255).
    pub fn blue() -> (c: Color)
        ensures
            c == (Color { r: 0, g: 0, b: 255 }),
    {
        Color { r: 0, g: 0, b: 255 }
    }

    /// The color (0, 255, 255).
    pub fn cyan() -> (c: Color)
        ensures
            c == (Color { r: 0, g: 255, b: 255 }),
    {
        Color { r: 0, g: 255, b: 255 }
    }

    /// The color (255, 0, 255).
    pub fn magenta() -> (c: Color)
        ensures
            c == (Color { r: 255, g: 0, b: 255 }),
    {
        Color { r: 255, g: 0, b: 255 }
    }

    /// The color (255, 255, 0).
    pub fn yellow() -> (c: Color)
        ensures
            c == (Color { r: 255, g: 255, b: 0 }),
    {
        Color { r: 255, g: 255, b: 0 }
    }
}

/// Decimal writing is what decimal parsing undoes: the digits written for
/// `n` are all ASCII digits, start with a nonzero digit unless `n` is 0,
/// and read back as `n`.
pub proof fn lemma_decimal_reads_back(n: nat)
    requires
        n <= usize::MAX,
    ensures
        decimal(n).len() >= 1,
        all_digits(decimal(n)),
        digits_value(decimal(n)) == n,
        n > 0 ==> decimal(n)[0] != '0',
        parse_usize_spec(decimal(n)) == Some(n),
        parse_usize_spec(seq!['+'] + decimal(n)) == Some(n),
    decreases n,
{
    if n >= 10 {
        lemma_decimal_reads_back(n / 10);
        let d = decimal(n);
        assert(d.drop_last() =~= decimal(n / 10));
        assert(d[0] == decimal(n / 10)[0]);
    }
    let d = decimal(n);
    assert(d.last() as u32 - 48 == n % 10);
    if n >= 10 {
        assert((n / 10) * 10 + n % 10 == n) by (nonlinear_arith);
        assert(digits_value(d) == digits_value(decimal(n / 10)) * 10 + n % 10);
    } else {
        assert(d.drop_last() =~= Seq::<char>::empty());
        assert(digits_value(d) == digits_value(d.drop_last()) * 10 + n % 10);
    }
    assert(d[0] != '+');
    assert((seq!['+'] + d).drop_first() =~= d);
}

} // verus!
