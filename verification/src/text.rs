//! Text helpers: building strings, writing and reading numbers, and the few
//! tests on text that the rest of the crate needs.
use vstd::prelude::*;
use vstd::utf8::is_ascii_chars;

verus! {

/// `String::push` appends one character.
pub assume_specification[ String::push ](s: &mut String, c: char)
    ensures
        final(s)@ == old(s)@.push(c),
;

/// The characters of `s`, in order.
pub fn chars_of(s: &str) -> (res: Vec<char>)
    ensures
        res@ == s@,
{
    let mut out: Vec<char> = Vec::new();
    for c in it: s.chars()
        invariant
            it.seq() == s@,
            out@ == s@.take(it.index() as int),
    {
        out.push(c);
    }
    out
}

/// The string made of `chars[from..to]`.
pub fn substring(chars: &Vec<char>, from: usize, to: usize) -> (res: String)
    requires
        from <= to <= chars@.len(),
    ensures
        res@ == chars@.subrange(from as int, to as int),
{
    let mut out: String = String::new();
    let mut i: usize = from;
    while i < to
        invariant
            from <= i <= to <= chars@.len(),
            out@ == chars@.subrange(from as int, i as int),
        decreases to - i,
    {
        out.push(chars[i]);
        i = i + 1;
    }
    out
}

/// The texts of some strings.
pub open spec fn texts(strings: Seq<String>) -> Seq<Seq<char>> {
    Seq::new(strings.len(), |i: int| strings[i]@)
}

/// The text of an optional string.
pub open spec fn optional_text(s: Option<String>) -> Option<Seq<char>> {
    match s {
        Some(t) => Some(t@),
        None => None,
    }
}

/// Whether two texts are the same.
pub fn same_text(a: &str, b: &str) -> (res: bool)
    ensures
        res == (a@ == b@),
{
    a.to_owned() == b.to_owned()
}

/// `a` followed by `b`.
pub fn joined(a: &str, b: &str) -> (res: String)
    ensures
        res@ == a@ + b@,
{
    let mut out: String = a.to_owned();
    out.append(b);
    out
}

/// What `str::to_uppercase` makes of a text.
pub uninterp spec fn uppercase(t: Seq<char>) -> Seq<char>;

/// What `str::to_lowercase` makes of a text.
pub uninterp spec fn lowercase(t: Seq<char>) -> Seq<char>;

/// The capital of an ASCII letter; any other character itself.
pub open spec fn ascii_upper(c: char) -> char {
    if 'a' <= c <= 'z' {
        (c as int - 32) as char
    } else {
        c
    }
}

/// The small letter of an ASCII capital; any other character itself.
pub open spec fn ascii_lower(c: char) -> char {
    if 'A' <= c <= 'Z' {
        (c as int + 32) as char
    } else {
        c
    }
}

/// `str::to_uppercase`. Of ASCII text it changes the small letters alone.
#[verifier::external_body]
pub(crate) fn to_uppercase(t: &str) -> (res: String)
    ensures
        res@ == uppercase(t@),
        is_ascii_chars(t@) ==> res@ == t@.map_values(|c: char| ascii_upper(c)),
{
    t.to_uppercase()
}

/// `str::to_lowercase`. Of ASCII text it changes the capitals alone.
#[verifier::external_body]
pub(crate) fn to_lowercase(t: &str) -> (res: String)
    ensures
        res@ == lowercase(t@),
        is_ascii_chars(t@) ==> res@ == t@.map_values(|c: char| ascii_lower(c)),
{
    t.to_lowercase()
}

/// The digit of value `d` in radix up to sixteen, in lower case.
pub open spec fn digit(d: int) -> char {
    if d < 10 {
        (48 + d) as char
    } else {
        (87 + d) as char
    }
}

/// `n` written in the given radix, without leading zeros.
pub open spec fn in_radix(n: nat, radix: nat) -> Seq<char>
    decreases n,
{
    if radix < 2 || n < radix {
        seq![digit(n as int)]
    } else {
        proof {
            vstd::arithmetic::div_mod::lemma_div_decreases(n as int, radix as int);
        }
        in_radix(n / radix, radix).push(digit((n % radix) as int))
    }
}

/// `n` in decimal.
pub open spec fn decimal(n: nat) -> Seq<char> {
    in_radix(n, 10)
}

/// `n` in decimal, with a minus sign where it is negative.
pub open spec fn signed_decimal(n: int) -> Seq<char> {
    if n < 0 {
        seq!['-'] + decimal((-n) as nat)
    } else {
        decimal(n as nat)
    }
}

/// `t` with zeros in front of it up to `width` characters.
pub open spec fn zero_padded(t: Seq<char>, width: nat) -> Seq<char> {
    if t.len() >= width {
        t
    } else {
        Seq::new((width - t.len()) as nat, |i: int| '0') + t
    }
}

fn digit_char(d: u64) -> (c: char)
    requires
        d < 16,
    ensures
        c == digit(d as int),
{
    if d < 10 {
        (48u8 + d as u8) as char
    } else {
        (87u8 + d as u8) as char
    }
}

/// Writes `n` in the given radix.
pub fn write_radix(n: u64, radix: u64) -> (res: String)
    requires
        2 <= radix <= 16,
    ensures
        res@ == in_radix(n as nat, radix as nat),
    decreases n,
{
    if n < radix {
        let mut out: String = String::new();
        out.push(digit_char(n));
        assert(out@ =~= seq![digit(n as int)]);
        out
    } else {
        proof {
            vstd::arithmetic::div_mod::lemma_div_decreases(n as int, radix as int);
            vstd::arithmetic::div_mod::lemma_mod_bound(n as int, radix as int);
        }
        let mut out: String = write_radix(n / radix, radix);
        out.push(digit_char(n % radix));
        out
    }
}

/// Writes `n` in decimal.
pub fn write_decimal(n: u64) -> (res: String)
    ensures
        res@ == decimal(n as nat),
{
    write_radix(n, 10)
}

/// Writes `t` with zeros in front of it up to `width` characters.
pub fn pad_zeros(t: &str, width: usize) -> (res: String)
    ensures
        res@ == zero_padded(t@, width as nat),
{
    let len: usize = t.unicode_len();
    let mut out: String = String::new();
    let mut i: usize = len;
    while i < width
        invariant
            len == t@.len(),
            i >= len,
            i <= width || i == len,
            out@ =~= Seq::new((i - len) as nat, |k: int| '0'),
        decreases width - i,
    {
        out.push('0');
        i = i + 1;
    }
    out.append(t);
    assert(out@ =~= zero_padded(t@, width as nat));
    out
}

/// Why a text is not an unsigned number.
#[derive(Clone, Copy, Debug, PartialEq, Eq, Structural)]
pub enum NumberError {
    /// There is no text at all.
    Empty,
    /// A character is not a digit of the radix.
    InvalidDigit,
    /// The number does not fit in 32 bits.
    TooLarge,
}

/// The value of `c` as a digit of the given radix.
pub open spec fn digit_value(c: char, radix: int) -> Option<int> {
    let v = if '0' <= c <= '9' {
        c as int - 48
    } else if 'a' <= c <= 'z' {
        c as int - 87
    } else if 'A' <= c <= 'Z' {
        c as int - 55
    } else {
        radix
    };
    if v < radix {
        Some(v)
    } else {
        None
    }
}

/// What the digits `s` say in the given radix. The first character that is
/// no digit, or that takes the value past 32 bits, decides the error.
pub open spec fn digits_number(s: Seq<char>, radix: int) -> Result<int, NumberError>
    decreases s.len(),
{
    if s.len() == 0 {
        Ok(0)
    } else {
        match digits_number(s.drop_last(), radix) {
            Err(e) => Err(e),
            Ok(acc) => match digit_value(s.last(), radix) {
                None => Err(NumberError::InvalidDigit),
                Some(d) => if acc * radix + d > u32::MAX {
                    Err(NumberError::TooLarge)
                } else {
                    Ok(acc * radix + d)
                },
            },
        }
    }
}

/// What `s` says as an unsigned number: digits, after at most one plus sign.
pub open spec fn unsigned_number(s: Seq<char>, radix: int) -> Result<int, NumberError> {
    if s.len() == 0 {
        Err(NumberError::Empty)
    } else if s[0] == '+' && s.len() > 1 {
        digits_number(s.drop_first(), radix)
    } else {
        digits_number(s, radix)
    }
}

fn digit_of(c: char, radix: u32) -> (res: Option<u32>)
    requires
        2 <= radix <= 36,
    ensures
        res is Some <==> digit_value(c, radix as int) is Some,
        res is Some ==> res->0 == digit_value(c, radix as int)->0 && res->0 < radix,
{
    let code: u32 = c as u32;
    let v: u32 = if '0' <= c && c <= '9' {
        code - 48
    } else if 'a' <= c && c <= 'z' {
        code - 87
    } else if 'A' <= c && c <= 'Z' {
        code - 55
    } else {
        radix
    };
    if v < radix {
        Some(v)
    } else {
        None
    }
}

proof fn lemma_digits_error_stays(s: Seq<char>, k: int, radix: int)
    requires
        0 <= k <= s.len(),
        digits_number(s.take(k), radix) is Err,
    ensures
        digits_number(s, radix) == digits_number(s.take(k), radix),
    decreases s.len() - k,
{
    if k < s.len() {
        assert(s.take(k + 1).drop_last() =~= s.take(k));
        lemma_digits_error_stays(s, k + 1, radix);
    } else {
        assert(s.take(k) =~= s);
    }
}

/// Reads an unsigned 32-bit number in the given radix.
pub fn read_unsigned(s: &str, radix: u32) -> (res: Result<u32, NumberError>)
    requires
        2 <= radix <= 36,
    ensures
        match unsigned_number(s@, radix as int) {
            Ok(n) => res is Ok && res->Ok_0 == n,
            Err(e) => res is Err && res->Err_0 == e,
        },
{
    let chars: Vec<char> = chars_of(s);
    let len: usize = chars.len();
    if len == 0 {
        return Err(NumberError::Empty);
    }
    let start: usize = if chars[0] == '+' && len > 1 {
        1
    } else {
        0
    };
    let ghost body = s@.skip(start as int);
    assert(unsigned_number(s@, radix as int) == digits_number(body, radix as int)) by {
        assert(s@.skip(0) =~= s@);
        assert(s@.skip(1) =~= s@.drop_first());
    }
    let mut acc: u32 = 0;
    let mut i: usize = start;
    assert(body.take(0) =~= Seq::<char>::empty());
    while i < len
        invariant
            2 <= radix <= 36,
            start <= i <= len,
            chars@ == s@,
            len == s@.len(),
            body == s@.skip(start as int),
            unsigned_number(s@, radix as int) == digits_number(body, radix as int),
            digits_number(body.take(i - start), radix as int) == Ok::<int, NumberError>(acc as int),
        decreases len - i,
    {
        proof {
            let next = body.take(i + 1 - start);
            assert(next.drop_last() =~= body.take(i - start));
            assert(next.last() == chars@[i as int]);
            if digits_number(next, radix as int) is Err {
                lemma_digits_error_stays(body, i + 1 - start, radix as int);
            }
            assert(0 <= acc * radix <= 0xffff_ffff * 36) by (nonlinear_arith)
                requires
                    0 <= acc <= 0xffff_ffff,
                    2 <= radix <= 36,
            ;
        }
        match digit_of(chars[i], radix) {
            None => {
                return Err(NumberError::InvalidDigit);
            },
            Some(d) => {
                let wide: u64 = acc as u64 * radix as u64 + d as u64;
                if wide > 0xffff_ffff {
                    return Err(NumberError::TooLarge);
                }
                acc = wide as u32;
            },
        }
        i = i + 1;
    }
    assert(body.take(len - start) =~= body);
    Ok(acc)
}

proof fn lemma_digit_reads_back(d: int, radix: int)
    requires
        0 <= d < radix,
        radix <= 16,
    ensures
        digit_value(digit(d), radix) == Some(d),
{
}

/// What a number is written as in decimal reads back as the number.
pub proof fn law_decimal_reads_back(n: nat)
    requires
        n <= u32::MAX,
    ensures
        unsigned_number(decimal(n), 10) == Ok::<int, NumberError>(n as int),
{
    lemma_digits_read_back(n);
    lemma_decimal_opens_with_digit(n);
}

proof fn lemma_decimal_opens_with_digit(n: nat)
    ensures
        decimal(n).len() > 0,
        '0' <= decimal(n)[0] <= '9',
    decreases n,
{
    if n >= 10 {
        lemma_decimal_opens_with_digit(n / 10);
    }
}

proof fn lemma_digits_read_back(n: nat)
    requires
        n <= u32::MAX,
    ensures
        digits_number(decimal(n), 10) == Ok::<int, NumberError>(n as int),
    decreases n,
{
    if n < 10 {
        lemma_digit_reads_back(n as int, 10);
        reveal_with_fuel(digits_number, 2);
        assert(decimal(n).drop_last() =~= Seq::empty());
    } else {
        lemma_digits_read_back(n / 10);
        lemma_digit_reads_back((n % 10) as int, 10);
        assert(decimal(n).drop_last() =~= decimal(n / 10));
    }
}

/// The digits of a number: a single one below ten, otherwise those of its tenth
/// and the one that is left over.
pub proof fn law_decimal_digits(n: nat, d: nat)
    requires
        d < 10,
    ensures
        decimal(d) == seq![('0' as int + d) as char],
        n > 0 ==> decimal(10 * n + d) == decimal(n).push(('0' as int + d) as char),
{
    if n > 0 {
        assert((10 * n + d) / 10 == n && (10 * n + d) % 10 == d);
    }
}

/// The hexadecimal digits of a number, in small letters.
pub proof fn law_hexadecimal_digits(n: nat, d: nat)
    requires
        d < 16,
    ensures
        ({
            let c = if d < 10 {
                ('0' as int + d) as char
            } else {
                ('a' as int + d - 10) as char
            };
            &&& in_radix(d, 16) == seq![c]
            &&& n > 0 ==> in_radix(16 * n + d, 16) == in_radix(n, 16).push(c)
        }),
{
    if n > 0 {
        assert((16 * n + d) / 16 == n && (16 * n + d) % 16 == d);
    }
}

/// A negative number is written like its opposite with a minus sign in front.
pub proof fn law_minus_sign(n: nat)
    ensures
        signed_decimal(n as int) == decimal(n),
        n > 0 ==> signed_decimal(-(n as int)) == seq!['-'] + decimal(n),
{
}

/// Padding puts zeros in front, as many as are missing, and changes nothing
/// else.
pub proof fn law_padding(t: Seq<char>, width: nat)
    ensures
        ({
            let padded = zero_padded(t, width);
            let front = padded.len() - t.len();
            &&& padded.len() == (if t.len() < width {
                width
            } else {
                t.len()
            })
            &&& padded.skip(front) == t
            &&& forall|i: int| 0 <= i < front ==> #[trigger] padded[i] == '0'
        }),
{
    let padded = zero_padded(t, width);
    assert(padded.skip(padded.len() - t.len()) =~= t);
}

/// A number is read digit by digit: one more digit multiplies what was read by
/// ten and adds its value, as long as the number fits in 32 bits.
pub proof fn law_one_more_digit(s: Seq<char>, v: int, d: nat)
    requires
        d < 10,
        s.len() > 0,
        s[0] != '+',
        unsigned_number(s, 10) == Ok::<int, NumberError>(v),
    ensures
        ({
            let longer = s.push(('0' as int + d) as char);
            unsigned_number(longer, 10) == (if 10 * v + d <= u32::MAX {
                Ok::<int, NumberError>(10 * v + d)
            } else {
                Err::<int, NumberError>(NumberError::TooLarge)
            })
        }),
{
    let longer = s.push(('0' as int + d) as char);
    assert(longer.drop_last() =~= s);
}

/// The same for sixteen: letters of either case stand for ten to fifteen.
pub proof fn law_one_more_hex_digit(s: Seq<char>, v: int, c: char, d: int)
    requires
        s.len() > 0,
        s[0] != '+',
        unsigned_number(s, 16) == Ok::<int, NumberError>(v),
        ('0' <= c <= '9' && d == c as int - '0' as int) || ('a' <= c <= 'f' && d == c as int
            - 'a' as int + 10) || ('A' <= c <= 'F' && d == c as int - 'A' as int + 10),
    ensures
        unsigned_number(s.push(c), 16) == (if 16 * v + d <= u32::MAX {
            Ok::<int, NumberError>(16 * v + d)
        } else {
            Err::<int, NumberError>(NumberError::TooLarge)
        }),
{
    assert(s.push(c).drop_last() =~= s);
}

/// A single digit reads as its value, in either radix and either case; the first
/// character that is no digit makes the text no number, and so does no text at
/// all.
pub proof fn law_first_digit(c: char)
    ensures
        unsigned_number(Seq::empty(), 10) == Err::<int, NumberError>(NumberError::Empty),
        unsigned_number(Seq::empty(), 16) == Err::<int, NumberError>(NumberError::Empty),
        '0' <= c <= '9' ==> unsigned_number(seq![c], 10) == Ok::<int, NumberError>(
            c as int - '0' as int,
        ) && unsigned_number(seq![c], 16) == Ok::<int, NumberError>(c as int - '0' as int),
        'a' <= c <= 'f' ==> unsigned_number(seq![c], 16) == Ok::<int, NumberError>(
            c as int - 'a' as int + 10,
        ),
        'A' <= c <= 'F' ==> unsigned_number(seq![c], 16) == Ok::<int, NumberError>(
            c as int - 'A' as int + 10,
        ),
        !('0' <= c <= '9') ==> unsigned_number(seq![c], 10) == Err::<int, NumberError>(
            NumberError::InvalidDigit,
        ),
        !('0' <= c <= '9' || 'a' <= c <= 'f' || 'A' <= c <= 'F') ==> unsigned_number(seq![c], 16)
            == Err::<int, NumberError>(NumberError::InvalidDigit),
{
    reveal_with_fuel(digits_number, 2);
    assert(seq![c].drop_last() =~= Seq::empty());
}

/// A character that is no digit spoils a number, and what is no number stays
/// none, for the same reason, whatever follows.
pub proof fn law_no_number(s: Seq<char>, c: char)
    requires
        s.len() > 0,
        s[0] != '+',
    ensures
        unsigned_number(s, 10) is Ok && !('0' <= c <= '9') ==> unsigned_number(s.push(c), 10)
            == Err::<int, NumberError>(NumberError::InvalidDigit),
        unsigned_number(s, 16) is Ok && !('0' <= c <= '9' || 'a' <= c <= 'f' || 'A' <= c <= 'F')
            ==> unsigned_number(s.push(c), 16) == Err::<int, NumberError>(
            NumberError::InvalidDigit,
        ),
        unsigned_number(s, 10) is Err ==> unsigned_number(s.push(c), 10) == unsigned_number(s, 10),
        unsigned_number(s, 16) is Err ==> unsigned_number(s.push(c), 16) == unsigned_number(s, 16),
{
    assert(s.push(c).drop_last() =~= s);
}

/// One plus sign in front of a number changes nothing; a second one, or one with
/// nothing behind it, is no digit.
pub proof fn law_plus_sign(s: Seq<char>, radix: int)
    requires
        radix == 10 || radix == 16,
    ensures
        s.len() > 0 && s[0] != '+' ==> unsigned_number(seq!['+'] + s, radix) == unsigned_number(
            s,
            radix,
        ),
        s.len() == 0 || s[0] == '+' ==> unsigned_number(seq!['+'] + s, radix) == Err::<
            int,
            NumberError,
        >(NumberError::InvalidDigit),
{
    let signed = seq!['+'] + s;
    assert(signed.drop_first() =~= s);
    if s.len() == 0 {
        law_first_digit('+');
        assert(signed =~= seq!['+']);
    } else if s[0] == '+' {
        reveal_with_fuel(digits_number, 2);
        assert(s.take(1) =~= seq!['+']);
        assert(seq!['+'].drop_last() =~= Seq::empty());
        lemma_digits_error_stays(s, 1, radix);
    }
}

} // verus!
