//! Text: decoding bytes, comparing strings, decimal numbers.
use vstd::arithmetic::power::pow;
use vstd::prelude::*;
use vstd::utf8::*;

verus! {

/// What `String::from_utf8_lossy` makes of bytes that are not valid UTF-8.
pub uninterp spec fn lossy_text(bytes: Seq<u8>) -> Seq<char>;

/// The text that `bytes` stand for: their UTF-8 decoding, or the lossy one
/// where they are not valid UTF-8.
pub open spec fn text_of(bytes: Seq<u8>) -> Seq<char> {
    if valid_utf8(bytes) {
        decode_utf8(bytes)
    } else {
        lossy_text(bytes)
    }
}

/// Calls `String::from_utf8_lossy`. Of valid UTF-8 it returns the decoded
/// text; of anything else the text in which replacement characters stand for
/// the invalid parts, a function of the bytes alone that only has a name here.
#[verifier::external_body]
pub(crate) fn utf8_lossy(bytes: &[u8]) -> (r: String)
    ensures
        valid_utf8(bytes@) ==> r@ == decode_utf8(bytes@),
        !valid_utf8(bytes@) ==> r@ == lossy_text(bytes@),
{
    String::from_utf8_lossy(bytes).into_owned()
}

/// Bytes that encode a text stand for that text.
pub proof fn law_encoded_text_reads_back(s: Seq<char>)
    ensures
        text_of(encode_utf8(s)) == s,
{
    encode_utf8_valid_utf8(s);
    encode_utf8_decode_utf8(s);
}

/// ASCII bytes stand for the characters of the same codes.
pub proof fn law_ascii_text(bytes: Seq<u8>)
    requires
        forall|i: int| 0 <= i < bytes.len() ==> #[trigger] bytes[i] < 0x80,
    ensures
        text_of(bytes) == bytes.map_values(|b: u8| b as char),
{
    let s = bytes.map_values(|b: u8| b as char);
    assert(is_ascii_chars(s)) by {
        assert forall|i: int| 0 <= i < s.len() implies '\0' <= #[trigger] s[i] <= '\u{7f}' by {
            assert(bytes[i] < 0x80);
        }
    }
    is_ascii_chars_encode_utf8(s);
    assert(encode_utf8(s) =~= bytes) by {
        assert forall|i: int| 0 <= i < bytes.len() implies encode_utf8(s)[i] == bytes[i] by {
            assert(s[i] as u8 == bytes[i]);
        }
    }
    law_encoded_text_reads_back(s);
}

/// `String::push` appends one character to the end of the string.
pub assume_specification[ String::push ](s: &mut String, c: char)
    ensures
        final(s)@ == old(s)@.push(c),
;

/// The text of an optional string.
pub open spec fn opt_text(s: Option<String>) -> Option<Seq<char>> {
    match s {
        Some(x) => Some(x@),
        None => None,
    }
}

/// The texts of the members of `v`.
pub open spec fn texts(v: Seq<String>) -> Seq<Seq<char>> {
    v.map_values(|s: String| s@)
}

/// The characters of `s`.
pub fn chars_of(s: &str) -> (r: Vec<char>)
    ensures
        r@ == s@,
{
    let mut out: Vec<char> = Vec::new();
    for c in it: s.chars()
        invariant
            it.seq() == s@,
            out@ == s@.take(it.index() as int),
    {
        out.push(c);
        assert(out@ =~= s@.take(it.index() as int + 1));
    }
    assert(s@.take(s@.len() as int) =~= s@);
    out
}

/// Whether two strings are equal.
pub fn str_eq(a: &str, b: &str) -> (r: bool)
    ensures
        r == (a@ == b@),
{
    let x = a.as_bytes();
    let y = b.as_bytes();
    proof {
        encode_utf8_decode_utf8(a@);
        encode_utf8_decode_utf8(b@);
    }
    if x.len() != y.len() {
        return false;
    }
    let mut i: usize = 0;
    while i < x.len()
        invariant
            i <= x@.len(),
            x@.len() == y@.len(),
            x@ == encode_utf8(a@),
            y@ == encode_utf8(b@),
            forall|k: int| 0 <= k < i ==> x@[k] == y@[k],
        decreases x@.len() - i,
    {
        if x[i] != y[i] {
            return false;
        }
        i += 1;
    }
    assert(x@ =~= y@);
    true
}

/// A string that holds exactly the given characters.
pub fn string_of(chars: &[char]) -> (r: String)
    ensures
        r@ == chars@,
{
    let mut out = String::new();
    let mut i: usize = 0;
    while i < chars.len()
        invariant
            i <= chars@.len(),
            out@ == chars@.take(i as int),
        decreases chars@.len() - i,
    {
        out.push(chars[i]);
        i += 1;
        assert(out@ =~= chars@.take(i as int));
    }
    assert(chars@.take(i as int) =~= chars@);
    out
}

/// The decimal digit `d` as a character.
pub open spec fn digit(d: int) -> char {
    (0x30 + d) as char
}

/// `n` in decimal notation, without leading zeros.
pub open spec fn dec(n: nat) -> Seq<char>
    decreases n,
{
    if n < 10 {
        seq![digit(n as int)]
    } else {
        dec(n / 10).push(digit((n % 10) as int))
    }
}

/// An integer in decimal notation.
pub open spec fn dec_int(n: int) -> Seq<char> {
    if n < 0 {
        seq!['-'] + dec((-n) as nat)
    } else {
        dec(n as nat)
    }
}

/// Appends `n` in decimal notation to `out`.
pub fn push_dec(out: &mut String, n: u64)
    ensures
        final(out)@ == old(out)@ + dec(n as nat),
    decreases n,
{
    if n >= 10 {
        push_dec(out, n / 10);
    }
    let c: char = (0x30u8 + (n % 10) as u8) as char;
    out.push(c);
    assert(out@ =~= old(out)@ + dec(n as nat));
}

/// Whether `c` is a decimal digit.
pub open spec fn is_digit(c: char) -> bool {
    '0' <= c <= '9'
}

/// Whether `s` consists of decimal digits alone.
pub open spec fn all_digits(s: Seq<char>) -> bool {
    forall|i: int| 0 <= i < s.len() ==> is_digit(#[trigger] s[i])
}

/// The number that the digits of `s` denote.
pub open spec fn digits_value(s: Seq<char>) -> int
    decreases s.len(),
{
    if s.len() == 0 {
        0
    } else {
        10 * digits_value(s.drop_last()) + (s.last() as int - 0x30)
    }
}

/// `s` without one leading `+`.
pub open spec fn strip_plus(s: Seq<char>) -> Seq<char> {
    if s.len() > 0 && s[0] == '+' {
        s.skip(1)
    } else {
        s
    }
}

/// The port number that `s` denotes: an optional `+`, then decimal digits (at
/// least one), with a value that fits 16 bits.
pub open spec fn u16_text(s: Seq<char>) -> Option<u16> {
    let d = strip_plus(s);
    if d.len() > 0 && all_digits(d) && digits_value(d) <= 0xffff {
        Some(digits_value(d) as u16)
    } else {
        None
    }
}

/// Digits further right never make the value smaller.
proof fn lemma_digits_value_grows(s: Seq<char>, k: int)
    requires
        all_digits(s),
        0 <= k <= s.len(),
    ensures
        0 <= digits_value(s.take(k)) <= digits_value(s),
    decreases s.len(),
{
    if k == s.len() {
        assert(s.take(k) =~= s);
        if s.len() > 0 {
            assert(is_digit(s.last()));
            lemma_digits_value_grows(s.drop_last(), k - 1);
        }
    } else {
        assert(is_digit(s.last()));
        lemma_digits_value_grows(s.drop_last(), k);
        assert(s.drop_last().take(k) =~= s.take(k));
    }
}

/// Parses a port number.
pub fn parse_u16(s: &str) -> (r: Option<u16>)
    ensures
        r == u16_text(s@),
{
    let cs = chars_of(s);
    let from: usize = if cs.len() > 0 && cs[0] == '+' { 1 } else { 0 };
    let ghost d = strip_plus(s@);
    assert(d =~= s@.skip(from as int));
    if from == cs.len() {
        return None;
    }
    let mut v: u32 = 0;
    let mut i: usize = from;
    while i < cs.len()
        invariant
            from <= i <= cs@.len(),
            cs@ == s@,
            d == s@.skip(from as int),
            d == strip_plus(s@),
            d.len() == s@.len() - from,
            all_digits(d.take(i - from)),
            v == digits_value(d.take(i - from)),
            v <= 0xffff,
        decreases cs@.len() - i,
    {
        let c: char = cs[i];
        assert(c == d[i - from]);
        if !('0' <= c && c <= '9') {
            return None;
        }
        let ghost k = i - from;
        assert(d.take(k + 1).drop_last() =~= d.take(k));
        assert(d.take(k + 1).last() == c);
        assert forall|j: int| 0 <= j < k + 1 implies is_digit(#[trigger] d.take(k + 1)[j]) by {
            if j < k {
                assert(d.take(k)[j] == d.take(k + 1)[j]);
            }
        }
        v = 10 * v + (c as u32 - 0x30);
        if v > 0xffff {
            proof {
                if all_digits(d) {
                    lemma_digits_value_grows(d, k + 1);
                }
            }
            return None;
        }
        i += 1;
    }
    assert(d.take(d.len() as int) =~= d);
    Some(v as u16)
}

/// Decimal notation is read back as the number it was made from.
pub proof fn lemma_dec_read_back(n: nat)
    ensures
        all_digits(dec(n)),
        digits_value(dec(n)) == n,
        dec(n).len() > 0,
    decreases n,
{
    reveal_with_fuel(digits_value, 2);
    if n >= 10 {
        lemma_dec_read_back(n / 10);
        assert(dec(n).drop_last() =~= dec(n / 10));
    } else {
        assert(dec(n).drop_last() =~= Seq::<char>::empty());
    }
}

/// Digits without a leading zero are the decimal notation of their value.
pub proof fn law_decimal_notation_is_unique(d: Seq<char>)
    requires
        all_digits(d),
        d.len() == 1 || (d.len() > 1 && d[0] != '0'),
    ensures
        d == dec(digits_value(d) as nat),
        digits_value(d) >= 0,
        d[0] != '0' ==> digits_value(d) > 0,
    decreases d.len(),
{
    reveal_with_fuel(digits_value, 2);
    assert(is_digit(d[0]));
    assert(is_digit(d.last()));
    if d.len() == 1 {
        assert(d =~= seq![d[0]]);
        assert(d.drop_last() =~= Seq::<char>::empty());
    } else {
        law_decimal_notation_is_unique(d.drop_last());
        assert(d =~= d.drop_last().push(d.last()));
    }
}

/// Decimal notation has a leading zero only where it is `0`, and at most
/// three digits where the number is an octet.
pub proof fn lemma_dec_shape(n: nat)
    ensures
        dec(n).len() == 1 || dec(n)[0] != '0',
        n > 0 ==> dec(n)[0] != '0',
        n < 0x100 ==> dec(n).len() <= 3,
    decreases n,
{
    reveal_with_fuel(dec, 4);
    if n >= 10 {
        lemma_dec_shape(n / 10);
    }
}

/// A digit counts by its place: digits further left count ten times as much
/// for every digit to their right.
pub proof fn law_digits_by_place(a: Seq<char>, b: Seq<char>, c: char)
    ensures
        digits_value(Seq::empty()) == 0,
        digits_value(seq![c]) == c as int - '0' as int,
        digits_value(a + b) == digits_value(a) * pow(10, b.len()) + digits_value(b),
    decreases b.len(),
{
    reveal_with_fuel(digits_value, 2);
    reveal(pow);
    assert(seq![c].drop_last() =~= Seq::<char>::empty());
    if b.len() == 0 {
        assert(a + b =~= a);
        assert(pow(10, 0) == 1);
    } else {
        let init = b.drop_last();
        law_digits_by_place(a, init, c);
        assert((a + b).drop_last() =~= a + init);
        assert((a + b).last() == b.last());
        assert(pow(10, b.len()) == 10 * pow(10, init.len()));
        let x = digits_value(a);
        let p = pow(10, init.len());
        assert(10 * (x * p) == x * (10 * p)) by (nonlinear_arith);
    }
}

/// A number is shown by digits alone, whose value it is, and without a
/// leading zero unless it is zero.
pub proof fn law_decimal_notation(n: nat)
    ensures
        forall|i: int| 0 <= i < dec(n).len() ==> '0' <= #[trigger] dec(n)[i] <= '9',
        digits_value(dec(n)) == n,
        dec(n).len() > 0,
        n > 0 ==> dec(n)[0] != '0',
        n == 0 ==> dec(n) == seq!['0'],
{
    lemma_dec_read_back(n);
    lemma_dec_shape(n);
    assert forall|i: int| 0 <= i < dec(n).len() implies '0' <= #[trigger] dec(n)[i] <= '9' by {
        assert(is_digit(dec(n)[i]));
    }
}

/// A negative number is shown by a minus sign before what its opposite is
/// shown by; others are shown without a sign.
pub proof fn law_sign(n: int)
    ensures
        n < 0 ==> dec_int(n) == seq!['-'] + dec_int(-n),
        n >= 0 ==> dec_int(n) == dec(n as nat),
        dec_int(n)[0] == '-' <==> n < 0,
{
    law_decimal_notation((if n < 0 {
        -n
    } else {
        n
    }) as nat);
}

/// A number in decimal is a port exactly if it fits 16 bits; it is then that
/// port.
pub proof fn law_ports_are_the_small_numbers(n: nat)
    ensures
        n <= 0xffff ==> u16_text(dec(n)) == Some(n as u16),
        n > 0xffff ==> u16_text(dec(n)) is None,
{
    lemma_dec_read_back(n);
    assert(is_digit(dec(n)[0]));
}

/// Zeros in front of a digit, and a plus sign in front of anything that has
/// none, do not change which port a text denotes.
pub proof fn law_port_prefixes(s: Seq<char>)
    ensures
        s.len() > 0 && '0' <= s[0] <= '9' ==> u16_text(seq!['0'] + s) == u16_text(s),
        s.len() > 0 && s[0] != '+' ==> u16_text(seq!['+'] + s) == u16_text(s),
        u16_text(seq!['+', '+'] + s) is None,
        u16_text(Seq::empty()) is None,
        u16_text(seq!['+']) is None,
{
    let zero = seq!['0'] + s;
    if s.len() > 0 && '0' <= s[0] <= '9' {
        law_digits_by_place(seq!['0'], s, '0');
        assert(digits_value(zero) == digits_value(s));
        if all_digits(s) {
            assert forall|i: int| 0 <= i < zero.len() implies is_digit(#[trigger] zero[i]) by {
                if i > 0 {
                    assert(is_digit(s[i - 1]));
                }
            }
        }
        if all_digits(zero) {
            assert forall|i: int| 0 <= i < s.len() implies is_digit(#[trigger] s[i]) by {
                assert(is_digit(zero[i + 1]));
            }
        }
    }
    assert((seq!['+'] + s).skip(1) =~= s);
    let two = seq!['+', '+'] + s;
    assert(two.skip(1)[0] == '+');
    assert(!is_digit(two.skip(1)[0]));
    assert(seq!['+'].skip(1) =~= Seq::<char>::empty());
}

/// Whatever denotes a port consists of digits, but for one plus sign in
/// front.
pub proof fn law_ports_are_digits(s: Seq<char>, i: int)
    requires
        u16_text(s) is Some,
        0 <= i < s.len(),
    ensures
        '0' <= s[i] <= '9' || (i == 0 && s[0] == '+' && s.len() > 1),
{
    let d = strip_plus(s);
    if s[0] == '+' {
        if i > 0 {
            assert(d[i - 1] == s[i]);
            assert(is_digit(d[i - 1]));
        }
    } else {
        assert(is_digit(d[i]));
    }
}

/// A further digit turns a port into ten times the port plus that digit,
/// where that fits 16 bits, and else into no port.
pub proof fn law_port_and_a_digit(s: Seq<char>, p: u16, c: char)
    requires
        u16_text(s) == Some(p),
        '0' <= c <= '9',
    ensures
        10 * p + (c as int - '0' as int) <= 0xffff ==> u16_text(s.push(c)) == Some(
            (10 * p + (c as int - '0' as int)) as u16,
        ),
        10 * p + (c as int - '0' as int) > 0xffff ==> u16_text(s.push(c)) is None,
{
    let d = strip_plus(s);
    let e = strip_plus(s.push(c));
    lemma_digits_value_grows(d, 0);
    assert(e =~= d.push(c));
    assert(e.drop_last() =~= d);
    assert forall|i: int| 0 <= i < e.len() implies is_digit(#[trigger] e[i]) by {
        if i < d.len() {
            assert(is_digit(d[i]));
        }
    }
}

/// Valid bytes stand for what they decode to, others for what the lossy
/// decoding makes of them. An optional text is there exactly if the string is.
pub proof fn law_text_of_bytes(bytes: Seq<u8>, s: Option<String>)
    ensures
        valid_utf8(bytes) ==> text_of(bytes) == decode_utf8(bytes),
        !valid_utf8(bytes) ==> text_of(bytes) == lossy_text(bytes),
        s is None <==> opt_text(s) is None,
        s matches Some(x) ==> opt_text(s) == Some(x@),
{
}

/// The texts of a list are those of its members, one by one.
pub proof fn law_texts_one_by_one(v: Seq<String>, w: Seq<Vec<char>>)
    ensures
        texts(v).len() == v.len(),
        forall|i: int| 0 <= i < v.len() ==> #[trigger] texts(v)[i] == v[i]@,
        views(w).len() == w.len(),
        forall|i: int| 0 <= i < w.len() ==> #[trigger] views(w)[i] == w[i]@,
{
}

/// A port written in decimal is parsed back as that port.
pub proof fn law_port_text_read_back(n: u16)
    ensures
        u16_text(dec(n as nat)) == Some(n),
{
    lemma_dec_read_back(n as nat);
    assert(is_digit(dec(n as nat)[0]));
}

/// The parts of `s` between the occurrences of `sep`: always one more than
/// there are occurrences.
pub open spec fn split(s: Seq<char>, sep: char) -> Seq<Seq<char>>
    decreases s.len(),
{
    if s.len() == 0 {
        seq![Seq::empty()]
    } else {
        let init = split(s.drop_last(), sep);
        if s.last() == sep {
            init.push(Seq::empty())
        } else {
            init.drop_last().push(init.last().push(s.last()))
        }
    }
}

/// The views of the members of `v`.
pub open spec fn views(v: Seq<Vec<char>>) -> Seq<Seq<char>> {
    v.map_values(|x: Vec<char>| x@)
}

/// Splits `s` at every `sep`.
pub fn split_at_char(s: &str, sep: char) -> (r: Vec<Vec<char>>)
    ensures
        views(r@) == split(s@, sep),
{
    let cs = chars_of(s);
    let mut out: Vec<Vec<char>> = Vec::new();
    let mut cur: Vec<char> = Vec::new();
    let mut i: usize = 0;
    assert(views(out@).push(cur@) =~= split(s@.take(0), sep));
    while i < cs.len()
        invariant
            i <= cs@.len(),
            cs@ == s@,
            views(out@).push(cur@) == split(s@.take(i as int), sep),
        decreases cs@.len() - i,
    {
        let c: char = cs[i];
        let ghost before = split(s@.take(i as int), sep);
        assert(before.drop_last() =~= views(out@));
        assert(s@.take(i + 1).drop_last() =~= s@.take(i as int));
        if c == sep {
            let ghost done = views(out@).push(cur@);
            out.push(cur);
            cur = Vec::new();
            assert(views(out@) =~= done);
        } else {
            cur.push(c);
        }
        i += 1;
        assert(views(out@).push(cur@) =~= split(s@.take(i as int), sep));
    }
    assert(s@.take(i as int) =~= s@);
    let ghost done = views(out@).push(cur@);
    out.push(cur);
    assert(views(out@) =~= done);
    out
}

/// A separator between two texts splits them apart.
pub proof fn lemma_split_concat(a: Seq<char>, b: Seq<char>, sep: char)
    ensures
        split(a.push(sep) + b, sep) == split(a, sep) + split(b, sep),
        split(b, sep).len() > 0,
    decreases b.len(),
{
    let whole = a.push(sep) + b;
    if b.len() == 0 {
        assert(whole.drop_last() =~= a);
        assert(split(whole, sep) =~= split(a, sep) + split(b, sep));
    } else {
        lemma_split_concat(a, b.drop_last(), sep);
        assert(whole.drop_last() =~= a.push(sep) + b.drop_last());
        assert(split(whole, sep) =~= split(a, sep) + split(b, sep));
    }
}

/// A text without separator is its own only part.
pub proof fn lemma_split_whole(s: Seq<char>, sep: char)
    requires
        !s.contains(sep),
    ensures
        split(s, sep) == seq![s],
    decreases s.len(),
{
    if s.len() > 0 {
        assert(s.contains(s.last()));
        assert forall|i: int| 0 <= i < s.drop_last().len() implies s.drop_last()[i] != sep by {
            assert(s.contains(s[i]));
        }
        lemma_split_whole(s.drop_last(), sep);
        assert(s =~= s.drop_last().push(s.last()));
        assert(split(s, sep) =~= seq![s]);
    } else {
        assert(s =~= Seq::empty());
    }
}

/// The parts joined by `sep`.
pub open spec fn joined(parts: Seq<Seq<char>>, sep: char) -> Seq<char>
    decreases parts.len(),
{
    if parts.len() == 0 {
        Seq::empty()
    } else if parts.len() == 1 {
        parts[0]
    } else {
        joined(parts.drop_last(), sep).push(sep) + parts.last()
    }
}

/// The parts of a split hold no separator, and joined by it they are the
/// text that was split.
pub proof fn law_split_join(s: Seq<char>, sep: char)
    ensures
        split(s, sep).len() > 0,
        joined(split(s, sep), sep) == s,
        forall|i: int|
            0 <= i < split(s, sep).len() ==> !(#[trigger] split(s, sep)[i]).contains(sep),
    decreases s.len(),
{
    reveal_with_fuel(joined, 2);
    let parts = split(s, sep);
    if s.len() > 0 {
        let init = split(s.drop_last(), sep);
        law_split_join(s.drop_last(), sep);
        assert(s =~= s.drop_last().push(s.last()));
        if s.last() == sep {
            assert(parts.drop_last() =~= init);
            assert(joined(parts, sep) =~= s);
        } else {
            assert(parts.drop_last() =~= init.drop_last());
            assert(joined(parts, sep) =~= s);
            assert forall|i: int| 0 <= i < parts.len() implies !(#[trigger] parts[i]).contains(
                sep,
            ) by {
                if i < parts.len() - 1 {
                    assert(parts[i] == init[i]);
                } else {
                    let last = init.last();
                    assert(!init[init.len() - 1].contains(sep));
                    assert forall|k: int| 0 <= k < parts[i].len() implies parts[i][k] != sep by {
                        if k < last.len() {
                            assert(last[k] == parts[i][k]);
                            assert(last.contains(last[k]));
                        }
                    }
                }
            }
        }
    }
}

} // verus!
