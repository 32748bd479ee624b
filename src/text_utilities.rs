use vstd::arithmetic::div_mod::{lemma_div_is_ordered, lemma_fundamental_div_mod_converse};
use vstd::prelude::*;

verus! {

/// The byte value of `.`, the placeholder for bytes that have no printable form.
pub const ASCII_PERIOD: u8 = 46;

/// All needed formatting values for a CLI hex display
#[derive(Clone, Copy, Debug, PartialEq, Eq)]
pub struct Formatting {
    /// How many bytes to read at a time?
    pub bytes_to_read: usize,
    /// How often to draw a gutter?
    pub gutter_per_n_bytes: usize,
    /// width of ASCII section
    pub ascii_line_width: usize,
    /// width of Hexadecimal section
    pub hex_line_width: usize,
}

/// Why a layout cannot be built from the two user parameters.
#[derive(Clone, Copy, Debug, PartialEq, Eq)]
pub enum FormattingError {
    /// zero bytes per line
    ZeroWidth,
    /// a gutter every zero bytes
    ZeroGutterInterval,
    /// the derived widths do not fit in a `usize`
    TooWide,
}

/// Widest hex section a line of `width` bytes with a gutter every `interval`
/// bytes can take: two digits and a space per byte, one space per gutter.
pub open spec fn field_width(width: int, interval: int) -> int {
    width * 3 + width / interval
}

impl Formatting {
    /// The derived widths agree with the two parameters, and neither is zero.
    pub open spec fn wf(&self) -> bool {
        &&& self.bytes_to_read > 0
        &&& self.gutter_per_n_bytes > 0
        &&& self.ascii_line_width == field_width(
            self.bytes_to_read as int,
            self.gutter_per_n_bytes as int,
        )
        &&& self.hex_line_width == self.bytes_to_read
    }

    /// Build the layout for lines of `bytes_to_read` bytes with a gutter every
    /// `gutter_interval` bytes.
    pub fn new(bytes_to_read: usize, gutter_interval: usize) -> (r: Result<
        Formatting,
        FormattingError,
    >)
        ensures
            bytes_to_read == 0 <==> r == Err::<Formatting, FormattingError>(
                FormattingError::ZeroWidth,
            ),
            (bytes_to_read > 0 && gutter_interval == 0) <==> r == Err::<
                Formatting,
                FormattingError,
            >(FormattingError::ZeroGutterInterval),
            (bytes_to_read > 0 && gutter_interval > 0 && field_width(
                bytes_to_read as int,
                gutter_interval as int,
            ) > usize::MAX) <==> r == Err::<Formatting, FormattingError>(
                FormattingError::TooWide,
            ),
            r is Ok <==> (bytes_to_read > 0 && gutter_interval > 0 && field_width(
                bytes_to_read as int,
                gutter_interval as int,
            ) <= usize::MAX),
            r is Ok ==> r->Ok_0.wf() && r->Ok_0.bytes_to_read == bytes_to_read
                && r->Ok_0.gutter_per_n_bytes == gutter_interval,
    {
        if bytes_to_read == 0 {
            return Err(FormattingError::ZeroWidth);
        }
        if gutter_interval == 0 {
            return Err(FormattingError::ZeroGutterInterval);
        }
        let gutters = bytes_to_read / gutter_interval;
        if bytes_to_read > (usize::MAX - gutters) / 3 {
            return Err(FormattingError::TooWide);
        }
        Ok(
            Formatting {
                bytes_to_read,
                gutter_per_n_bytes: gutter_interval,
                ascii_line_width: bytes_to_read * 3 + gutters,
                hex_line_width: bytes_to_read,
            },
        )
    }
}

/// `n` spaces.
pub open spec fn spaces(n: nat) -> Seq<char> {
    Seq::new(n, |i: int| ' ')
}

/// Relies on String::push: the character is appended at the end.
#[verifier::external_body]
pub(crate) fn push_char(s: &mut String, c: char)
    ensures
        final(s)@ == old(s)@.push(c),
{
    s.push(c)
}

/// get a specific number of spaces as string
///
/// # Arguments
/// * n -  number of spaces to print
pub fn pad_spaces(n: usize) -> (r: String)
    ensures
        r@ == spaces(n as nat),
{
    let mut s = String::new();
    let mut i: usize = 0;
    while i < n
        invariant
            i <= n,
            s@ == spaces(i as nat),
        decreases n - i,
    {
        push_char(&mut s, ' ');
        i = i + 1;
        assert(s@ =~= spaces(i as nat));
    }
    s
}

/// The gutter rule: an extra space follows position `index` (0-based) when
/// `index + 1` is a multiple of `interval`, except after the last position of a
/// full-width line of `max` bytes.
pub open spec fn gutter_at(index: int, interval: int, max: int) -> bool {
    (index + 1) % interval == 0 && index + 1 != max
}

/// Is this index a gutter?
pub fn is_gutter(index: usize, interval: usize, max: usize) -> (r: bool)
    requires
        interval > 0,
        index < usize::MAX,
    ensures
        r == gutter_at(index as int, interval as int, max as int),
{
    (index + 1) % interval == 0 && (index + 1) != max
}

/// Is this character an ASCII \r or \n?
pub fn is_crlf(c: char) -> (r: bool)
    ensures
        r == (c == '\n' || c == '\r'),
{
    c == 0x0a as char || c == 0x0d as char
}

/// The lowercase hexadecimal digit for `d < 16`.
pub open spec fn hex_digit(d: nat) -> char {
    if d < 10 {
        ('0' as nat + d) as char
    } else {
        ('a' as nat + (d - 10)) as char
    }
}

/// A byte as two lowercase hexadecimal digits.
pub open spec fn byte_hex(b: u8) -> Seq<char> {
    seq![hex_digit(b as nat / 16), hex_digit(b as nat % 16)]
}

/// The lowercase hexadecimal digit for `d < 16`.
pub fn hex_digit_char(d: u8) -> (c: char)
    requires
        d < 16,
    ensures
        c == hex_digit(d as nat),
{
    if d < 10 {
        (0x30u8 + d) as char
    } else {
        (0x61u8 + (d - 10)) as char
    }
}

/// The hex field entry of byte `b` at position `index`: its two digits, a space,
/// and one more space where a gutter falls.
pub open spec fn hex_entry(b: u8, index: int, interval: int, max: int) -> Seq<char> {
    byte_hex(b) + seq![' '] + if gutter_at(index, interval, max) {
        seq![' ']
    } else {
        Seq::empty()
    }
}

/// The hex field of `bytes`, gutters placed against the nominal width `max`.
pub open spec fn hex_field(bytes: Seq<u8>, interval: int, max: int) -> Seq<char>
    decreases bytes.len(),
{
    if bytes.len() == 0 {
        Seq::empty()
    } else {
        hex_field(bytes.drop_last(), interval, max) + hex_entry(
            bytes.last(),
            bytes.len() - 1,
            interval,
            max,
        )
    }
}

/// How many of the first `n` positions carry a gutter.
pub open spec fn gutter_count(n: nat, interval: int, max: int) -> nat
    decreases n,
{
    if n == 0 {
        0
    } else {
        gutter_count((n - 1) as nat, interval, max) + if gutter_at(n - 1, interval, max) {
            1nat
        } else {
            0nat
        }
    }
}

/// How a byte shows in the ASCII field: CR and LF as `.`, other ASCII
/// whitespace as a space, printable ASCII as itself, everything else as `.`.
pub open spec fn ascii_char(b: u8) -> char {
    if b == 0x0a || b == 0x0d {
        '.'
    } else if b == 0x20 || b == 0x09 || b == 0x0c {
        ' '
    } else if 0x21 <= b <= 0x7e {
        b as char
    } else {
        '.'
    }
}

/// The ASCII field of `bytes`: one character per byte.
pub open spec fn ascii_field(bytes: Seq<u8>) -> Seq<char> {
    Seq::new(bytes.len(), |i: int| ascii_char(bytes[i]))
}

/// The hex field of `n` bytes takes three characters per byte and one per gutter.
pub proof fn lemma_hex_field_len(bytes: Seq<u8>, interval: int, max: int)
    ensures
        hex_field(bytes, interval, max).len() == 3 * bytes.len() + gutter_count(
            bytes.len(),
            interval,
            max,
        ),
    decreases bytes.len(),
{
    if bytes.len() > 0 {
        lemma_hex_field_len(bytes.drop_last(), interval, max);
    }
}

/// Among the first `n` positions at most `n / interval` carry a gutter.
pub proof fn lemma_gutter_count_bound(n: nat, interval: int, max: int)
    requires
        interval > 0,
    ensures
        gutter_count(n, interval, max) <= n as int / interval,
    decreases n,
{
    if n > 0 {
        let m = (n - 1) as int;
        lemma_gutter_count_bound((n - 1) as nat, interval, max);
        let q = m / interval;
        let r = m % interval;
        vstd::arithmetic::div_mod::lemma_mod_pos_bound(m, interval);
        assert(m == q * interval + r) by {
            vstd::arithmetic::div_mod::lemma_fundamental_div_mod(m, interval);
            vstd::arithmetic::mul::lemma_mul_is_commutative(q, interval);
        }
        if r + 1 == interval {
            assert(n == (q + 1) * interval + 0) by (nonlinear_arith)
                requires
                    m == q * interval + r,
                    r + 1 == interval,
                    n == m + 1,
            ;
            lemma_fundamental_div_mod_converse(n as int, interval, q + 1, 0);
        } else {
            assert(n == q * interval + (r + 1)) by (nonlinear_arith)
                requires
                    m == q * interval + r,
                    n == m + 1,
            ;
            lemma_fundamental_div_mod_converse(n as int, interval, q, r + 1);
        }
    }
}

/// A hex field of at most `width` bytes fits the configured hex section,
/// so right-padding it to `ascii_line_width` never has to cut.
pub proof fn lemma_hex_field_fits(bytes: Seq<u8>, interval: int, width: int)
    requires
        interval > 0,
        bytes.len() <= width,
    ensures
        hex_field(bytes, interval, width).len() <= field_width(width, interval),
{
    lemma_hex_field_len(bytes, interval, width);
    lemma_gutter_count_bound(bytes.len(), interval, width);
    lemma_div_is_ordered(bytes.len() as int, width, interval);
}

/// `n` in lowercase hexadecimal, without leading zeros (`0` is one digit).
pub open spec fn hex_digits(n: nat) -> Seq<char>
    decreases n,
{
    if n < 16 {
        seq![hex_digit(n)]
    } else {
        hex_digits(n / 16).push(hex_digit(n % 16))
    }
}

/// `digits` with `0`s in front, up to `width` characters; never cut.
pub open spec fn zero_padded(digits: Seq<char>, width: nat) -> Seq<char> {
    if digits.len() < width {
        Seq::new((width - digits.len()) as nat, |i: int| '0') + digits
    } else {
        digits
    }
}

/// How many hexadecimal digits `n` takes.
pub fn hex_len(n: usize) -> (r: usize)
    ensures
        r == hex_digits(n as nat).len(),
        1 <= r <= 16,
    decreases n,
{
    if n < 16 {
        1
    } else {
        proof {
            assert(n as nat <= 0xffff_ffff_ffff_ffffnat);
            lemma_div_is_ordered(n as int, 0xffff_ffff_ffff_ffff, 16);
            assert(0xffff_ffff_ffff_ffffint / 16 == 0xfff_ffff_ffff_ffffint);
            assert(((n / 16) as nat) < 1152921504606846976nat);
        }
        let k = hex_len(n / 16);
        proof {
            if n / 16 < 16 {
            } else {
                assert(k <= 15) by {
                    lemma_hex_len_bound((n / 16) as nat);
                }
            }
        }
        k + 1
    }
}

/// `16^k`.
pub open spec fn pow16(k: nat) -> nat
    decreases k,
{
    if k == 0 {
        1
    } else {
        16 * pow16((k - 1) as nat)
    }
}

/// A value that fits in a `usize` takes at most sixteen digits, and fifteen
/// when it is below `16^15`.
pub proof fn lemma_hex_len_bound(n: nat)
    requires
        n < 18446744073709551616nat,
    ensures
        n < 1152921504606846976nat ==> hex_digits(n).len() <= 15,
        hex_digits(n).len() <= 16,
{
    lemma_hex_digits_within(n, 16);
    lemma_hex_digits_within(n, 15);
    assert(pow16(0) == 1);
    assert(pow16(1) == 16);
    assert(pow16(2) == 256);
    assert(pow16(3) == 4096);
    assert(pow16(4) == 65536);
    assert(pow16(5) == 1048576);
    assert(pow16(6) == 16777216);
    assert(pow16(7) == 268435456);
    assert(pow16(8) == 4294967296);
    assert(pow16(9) == 68719476736);
    assert(pow16(10) == 1099511627776);
    assert(pow16(11) == 17592186044416);
    assert(pow16(12) == 281474976710656);
    assert(pow16(13) == 4503599627370496);
    assert(pow16(14) == 72057594037927936);
    assert(pow16(15) == 1152921504606846976);
    assert(pow16(16) == 18446744073709551616);
}

/// For `k >= 1`, `n < 16^k` exactly when `n` takes at most `k` digits.
pub proof fn lemma_hex_digits_within(n: nat, k: nat)
    requires
        k >= 1,
    ensures
        (n < pow16(k)) <==> hex_digits(n).len() <= k,
    decreases n,
{
    lemma_pow16_at_least(k);
    if n < 16 {
    } else if k == 1 {
        lemma_hex_digits_nonempty(n / 16);
    } else {
        lemma_hex_digits_within(n / 16, (k - 1) as nat);
        let p = pow16((k - 1) as nat);
        assert(pow16(k) == 16 * p);
        assert((n / 16 < p) <==> (n < 16 * p)) by (nonlinear_arith)
            requires
                p > 0,
                n >= 0,
        ;
    }
}

/// `16^k >= 16` for `k >= 1`.
pub proof fn lemma_pow16_at_least(k: nat)
    requires
        k >= 1,
    ensures
        pow16(k) >= 16,
    decreases k,
{
    if k > 1 {
        lemma_pow16_at_least((k - 1) as nat);
    } else {
        assert(pow16(0) == 1);
    }
}

/// Every value has at least one digit.
pub proof fn lemma_hex_digits_nonempty(n: nat)
    ensures
        hex_digits(n).len() >= 1,
    decreases n,
{
    if n >= 16 {
        lemma_hex_digits_nonempty(n / 16);
    }
}

/// Append `n` in lowercase hexadecimal, without leading zeros.
pub fn push_lower_hex(s: &mut String, n: usize)
    ensures
        final(s)@ == old(s)@ + hex_digits(n as nat),
    decreases n,
{
    if n >= 16 {
        push_lower_hex(s, n / 16);
    }
    push_char(s, hex_digit_char((n % 16) as u8));
    assert(final(s)@ =~= old(s)@ + hex_digits(n as nat));
}

/// The ASCII field has exactly one character per byte: no padding.
pub proof fn lemma_ascii_field_len(bytes: Seq<u8>)
    ensures
        ascii_field(bytes).len() == bytes.len(),
{
}

/// Line feed and carriage return show as `.`.
pub proof fn lemma_ascii_line_breaks(x: u8)
    requires
        x == 0x0a || x == 0x0d,
    ensures
        ascii_field(seq![x]) == seq!['.'],
{
    assert(ascii_field(seq![x]) =~= seq!['.']);
}

/// Printable ASCII (`0x21` to `0x7e`) shows as itself.
pub proof fn lemma_ascii_printable(x: u8)
    requires
        0x21 <= x <= 0x7e,
    ensures
        ascii_field(seq![x]) == seq![x as char],
{
    assert(ascii_field(seq![x]) =~= seq![x as char]);
}

/// The rest of the table: space, tab and form feed show as a space; every
/// other control byte, DEL and every byte from `0x80` up shows as `.`.
pub proof fn lemma_ascii_others(x: u8)
    requires
        !(x == 0x0a || x == 0x0d),
        !(0x21 <= x <= 0x7e),
    ensures
        (x == 0x20 || x == 0x09 || x == 0x0c) ==> ascii_field(seq![x]) == seq![' '],
        !(x == 0x20 || x == 0x09 || x == 0x0c) ==> ascii_field(seq![x]) == seq!['.'],
{
    if x == 0x20 || x == 0x09 || x == 0x0c {
        assert(ascii_field(seq![x]) =~= seq![' ']);
    } else {
        assert(ascii_field(seq![x]) =~= seq!['.']);
    }
}

/// Gutters fall after positions `interval - 1`, `2 * interval - 1`, ... and
/// never after position `max - 1`.
pub proof fn lemma_gutter_positions(index: nat, interval: nat, max: nat)
    requires
        interval > 0,
    ensures
        gutter_at(index as int, interval as int, max as int) <==> ((exists|j: int|
            j >= 1 && #[trigger] (j * interval) == index + 1) && index + 1 != max),
{
    let n = (index + 1) as int;
    let i = interval as int;
    if n % i == 0 {
        let j = n / i;
        vstd::arithmetic::div_mod::lemma_fundamental_div_mod(n, i);
        assert(j * i == n) by {
            vstd::arithmetic::mul::lemma_mul_is_commutative(j, i);
        }
        assert(j >= 1) by (nonlinear_arith)
            requires
                j * i == n,
                n >= 1,
                i >= 1,
        ;
    }
    if exists|j: int| j >= 1 && #[trigger] (j * interval) == index + 1 {
        let j = choose|j: int| j >= 1 && #[trigger] (j * interval) == index + 1;
        vstd::arithmetic::div_mod::lemma_mod_multiples_basic(j, i);
    }
}

} // verus!
