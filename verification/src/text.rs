//! Text as sequences of characters.

use vstd::prelude::*;

verus! {

/// `String::push` appends one character at the end.
pub assume_specification[ String::push ](s: &mut String, c: char)
    ensures
        final(s)@ == old(s)@.push(c),
;

/// `c` with `A` to `Z` made small.
pub open spec fn lower_char(c: char) -> char {
    if 'A' <= c <= 'Z' {
        (c as u32 + 32) as char
    } else {
        c
    }
}

/// `s` with the ASCII letters made small.
pub open spec fn ascii_lower(s: Seq<char>) -> Seq<char> {
    s.map_values(|c: char| lower_char(c))
}

/// The ASCII digit for `d`, in base sixteen with small letters.
pub open spec fn digit_char(d: int) -> char {
    if d < 10 {
        ('0' as u32 + d) as char
    } else {
        ('a' as u32 + d - 10) as char
    }
}

/// `n` in decimal, without leading zeros.
pub open spec fn decimal(n: nat) -> Seq<char>
    decreases n,
{
    if n < 10 {
        seq![digit_char(n as int)]
    } else {
        decimal(n / 10).push(digit_char((n % 10) as int))
    }
}

/// `n` in decimal, with a minus sign where it is below zero.
pub open spec fn signed_decimal(n: int) -> Seq<char> {
    if n < 0 {
        seq!['-'] + decimal((-n) as nat)
    } else {
        decimal(n as nat)
    }
}

/// The characters of `s`.
pub fn chars_of(s: &str) -> (v: Vec<char>)
    ensures
        v@ == s@,
{
    let mut v: Vec<char> = Vec::new();
    for c in it: s.chars()
        invariant
            it.seq() == s@,
            v@ == s@.take(it.index()),
    {
        v.push(c);
    }
    assert(s@.take(s@.len() as int) == s@);
    v
}

/// The string made of `chars`.
pub fn string_of(chars: &[char]) -> (s: String)
    ensures
        s@ == chars@,
{
    let mut s = String::new();
    let mut i: usize = 0;
    while i < chars.len()
        invariant
            i <= chars@.len(),
            s@ == chars@.take(i as int),
        decreases chars@.len() - i,
    {
        s.push(chars[i]);
        i += 1;
    }
    assert(chars@.take(i as int) == chars@);
    s
}

/// Whether both hold the same text.
pub fn same_text(a: &str, b: &str) -> (r: bool)
    ensures
        r == (a@ == b@),
{
    let x = a.as_bytes();
    let y = b.as_bytes();
    proof {
        vstd::utf8::encode_utf8_decode_utf8(a@);
        vstd::utf8::encode_utf8_decode_utf8(b@);
    }
    if x.len() != y.len() {
        return false;
    }
    let mut i: usize = 0;
    while i < x.len()
        invariant
            i <= x@.len(),
            x@.len() == y@.len(),
            x@ == vstd::utf8::encode_utf8(a@),
            y@ == vstd::utf8::encode_utf8(b@),
            forall|j: int| 0 <= j < i ==> x@[j] == y@[j],
        decreases x@.len() - i,
    {
        if x[i] != y[i] {
            return false;
        }
        i += 1;
    }
    assert(x@ =~= y@);
    true
}

/// `c` with `A` to `Z` made small.
pub fn lower(c: char) -> (r: char)
    ensures
        r == lower_char(c),
{
    if 'A' <= c && c <= 'Z' {
        ((c as u32 + 32) as u8) as char
    } else {
        c
    }
}

/// The digit for `d`.
pub fn digit(d: u8) -> (c: char)
    requires
        d < 16,
    ensures
        c == digit_char(d as int),
{
    if d < 10 {
        (48u8 + d) as char
    } else {
        (97u8 + (d - 10)) as char
    }
}

/// Appends `n` in decimal to `out`.
pub fn push_decimal(out: &mut String, n: usize)
    ensures
        final(out)@ == old(out)@ + decimal(n as nat),
    decreases n,
{
    if n < 10 {
        out.push(digit(n as u8));
    } else {
        push_decimal(out, n / 10);
        out.push(digit((n % 10) as u8));
    }
}

/// Appends `n` in decimal to `out`.
pub fn push_signed(out: &mut String, n: i32)
    ensures
        final(out)@ == old(out)@ + signed_decimal(n as int),
{
    let wide = n as i64;
    if wide < 0 {
        out.push('-');
        push_decimal(out, (-wide) as usize);
        assert(out@ =~= old(out)@ + signed_decimal(n as int));
    } else {
        push_decimal(out, wide as usize);
    }
}

/// What `str::to_lowercase` gives for a text that is not all ASCII.
pub uninterp spec fn unicode_lower(s: Seq<char>) -> Seq<char>;

/// `s` in small letters.
pub open spec fn lowercase(s: Seq<char>) -> Seq<char> {
    if vstd::utf8::is_ascii_chars(s) {
        ascii_lower(s)
    } else {
        unicode_lower(s)
    }
}

/// `str::to_lowercase` maps a text by the Unicode lowercase property, which
/// the text alone decides. On ASCII text that makes `A` to `Z` small and keeps
/// the rest; what it does to other text is left to `unicode_lower`.
#[verifier::external_body]
pub(crate) fn to_lowercase(s: &str) -> (r: String)
    ensures
        vstd::utf8::is_ascii_chars(s@) ==> r@ == ascii_lower(s@),
        !vstd::utf8::is_ascii_chars(s@) ==> r@ == unicode_lower(s@),
{
    s.to_lowercase()
}

/// What `String::from_utf8_lossy` makes of bytes that are not valid UTF-8.
pub uninterp spec fn repaired_utf8(bytes: Seq<u8>) -> Seq<char>;

/// The text of bytes that should be UTF-8.
pub open spec fn lossy(bytes: Seq<u8>) -> Seq<char> {
    if vstd::utf8::valid_utf8(bytes) {
        vstd::utf8::decode_utf8(bytes)
    } else {
        repaired_utf8(bytes)
    }
}

/// `String::from_utf8_lossy` decodes UTF-8, which the bytes alone decide. Valid
/// UTF-8 is decoded as it stands; where replacement characters stand for bytes
/// that are not valid is left to `repaired_utf8`.
#[verifier::external_body]
pub(crate) fn from_utf8_lossy(bytes: &[u8]) -> (r: String)
    ensures
        vstd::utf8::valid_utf8(bytes@) ==> r@ == vstd::utf8::decode_utf8(bytes@),
        !vstd::utf8::valid_utf8(bytes@) ==> r@ == repaired_utf8(bytes@),
{
    String::from_utf8_lossy(bytes).into_owned()
}

/// The Unicode White_Space property.
pub open spec fn is_space(c: char) -> bool {
    let n = c as u32;
    ||| 9 <= n <= 13
    ||| n == 0x20
    ||| n == 0x85
    ||| n == 0xA0
    ||| n == 0x1680
    ||| 0x2000 <= n <= 0x200A
    ||| n == 0x2028
    ||| n == 0x2029
    ||| n == 0x202F
    ||| n == 0x205F
    ||| n == 0x3000
}

/// `s` without leading whitespace.
pub open spec fn trim_start(s: Seq<char>) -> Seq<char>
    decreases s.len(),
{
    if s.len() == 0 || !is_space(s[0]) {
        s
    } else {
        trim_start(s.drop_first())
    }
}

/// `s` without trailing whitespace.
pub open spec fn trim_end(s: Seq<char>) -> Seq<char>
    decreases s.len(),
{
    if s.len() == 0 || !is_space(s.last()) {
        s
    } else {
        trim_end(s.drop_last())
    }
}

/// `s` without whitespace at either end.
pub open spec fn trim(s: Seq<char>) -> Seq<char> {
    trim_end(trim_start(s))
}

/// The first place of `c` in `s`.
pub open spec fn find(s: Seq<char>, c: char) -> Option<int>
    decreases s.len(),
{
    if s.len() == 0 {
        None
    } else if s[0] == c {
        Some(0)
    } else {
        match find(s.drop_first(), c) {
            Some(i) => Some(i + 1),
            None => None,
        }
    }
}

/// The pieces of `s` between the occurrences of `c`.
pub open spec fn split(s: Seq<char>, c: char) -> Seq<Seq<char>>
    decreases s.len(),
{
    match find(s, c) {
        Some(i) => if 0 <= i < s.len() {
            seq![s.take(i)] + split(s.skip(i + 1), c)
        } else {
            Seq::empty()
        },
        None => seq![s],
    }
}

/// `s` without a carriage return at its end.
pub open spec fn strip_cr(s: Seq<char>) -> Seq<char> {
    if s.len() > 0 && s.last() == '\r' {
        s.drop_last()
    } else {
        s
    }
}

/// The lines of `s`: each ends at a line feed, which with a carriage return
/// before it is no part of the line; what follows the last line feed is a
/// line if it is not empty.
pub open spec fn lines_of(s: Seq<char>) -> Seq<Seq<char>>
    decreases s.len(),
{
    if s.len() == 0 {
        Seq::empty()
    } else {
        match find(s, '\n') {
            Some(i) => if 0 <= i < s.len() {
                seq![strip_cr(s.take(i))] + lines_of(s.skip(i + 1))
            } else {
                Seq::empty()
            },
            None => seq![s],
        }
    }
}

/// `lines`, each ended by a line feed.
pub open spec fn text_of(lines: Seq<Seq<char>>) -> Seq<char>
    decreases lines.len(),
{
    if lines.len() == 0 {
        Seq::empty()
    } else {
        lines[0].push('\n') + text_of(lines.drop_first())
    }
}

/// The four hexadecimal digits of `v`.
pub open spec fn hex4(v: u16) -> Seq<char> {
    seq![
        digit_char((v / 0x1000) as int),
        digit_char((v / 0x100 % 16) as int),
        digit_char((v / 0x10 % 16) as int),
        digit_char((v % 16) as int),
    ]
}

/// The value of a hexadecimal digit, in either case of letters.
pub open spec fn hex_digit(c: char) -> Option<nat> {
    if '0' <= c <= '9' {
        Some((c as u32 - '0' as u32) as nat)
    } else if 'a' <= c <= 'f' {
        Some((c as u32 - 'a' as u32 + 10) as nat)
    } else if 'A' <= c <= 'F' {
        Some((c as u32 - 'A' as u32 + 10) as nat)
    } else {
        None
    }
}

/// The number that hexadecimal digits stand for, if all of `s` are such.
pub open spec fn hex_digits(s: Seq<char>) -> Option<nat>
    decreases s.len(),
{
    if s.len() == 0 {
        Some(0)
    } else {
        match (hex_digits(s.drop_last()), hex_digit(s.last())) {
            (Some(high), Some(low)) => Some(16 * high + low),
            _ => None,
        }
    }
}

/// The number that `s` stands for in base sixteen: an optional plus sign and
/// at least one digit.
pub open spec fn hex_number(s: Seq<char>) -> Option<nat> {
    let digits = if s.len() > 0 && s[0] == '+' {
        s.drop_first()
    } else {
        s
    };
    if digits.len() == 0 {
        None
    } else {
        hex_digits(digits)
    }
}

pub proof fn lemma_find(s: Seq<char>, c: char)
    ensures
        match find(s, c) {
            Some(i) => 0 <= i < s.len() && s[i] == c && forall|j: int| 0 <= j < i ==> s[j] != c,
            None => forall|j: int| 0 <= j < s.len() ==> s[j] != c,
        },
    decreases s.len(),
{
    if s.len() != 0 && s[0] != c {
        let rest = s.drop_first();
        lemma_find(rest, c);
        match find(rest, c) {
            Some(i) => {
                assert forall|j: int| 0 <= j < i + 1 implies s[j] != c by {
                    if j > 0 {
                        assert(rest[j - 1] == s[j]);
                    }
                }
            },
            None => {
                assert forall|j: int| 0 <= j < s.len() implies s[j] != c by {
                    if j > 0 {
                        assert(rest[j - 1] == s[j]);
                    }
                }
            },
        }
    }
}

pub proof fn lemma_find_at(s: Seq<char>, c: char, i: int)
    requires
        0 <= i < s.len(),
        s[i] == c,
        forall|j: int| 0 <= j < i ==> s[j] != c,
    ensures
        find(s, c) == Some(i),
{
    lemma_find(s, c);
}

pub proof fn lemma_not_found(s: Seq<char>, c: char)
    requires
        forall|j: int| 0 <= j < s.len() ==> s[j] != c,
    ensures
        find(s, c) is None,
{
    lemma_find(s, c);
}

/// Whether `c` is whitespace.
pub fn space(c: char) -> (r: bool)
    ensures
        r == is_space(c),
{
    let n = c as u32;
    (9 <= n && n <= 13) || n == 0x20 || n == 0x85 || n == 0xA0 || n == 0x1680 || (0x2000 <= n && n
        <= 0x200A) || n == 0x2028 || n == 0x2029 || n == 0x202F || n == 0x205F || n == 0x3000
}

/// `s` without whitespace at either end.
pub fn trimmed(s: &[char]) -> (r: &[char])
    ensures
        r@ == trim(s@),
{
    let mut from: usize = 0;
    assert(s@.skip(0) =~= s@);
    while from < s.len() && space(s[from])
        invariant
            from <= s@.len(),
            trim_start(s@) == trim_start(s@.skip(from as int)),
        decreases s@.len() - from,
    {
        assert(s@.skip(from as int).drop_first() =~= s@.skip(from + 1));
        from += 1;
    }
    let ghost rest = s@.skip(from as int);
    assert(trim_start(s@) == rest);
    let mut to: usize = s.len();
    assert(rest =~= s@.subrange(from as int, to as int));
    while to > from && space(s[to - 1])
        invariant
            from <= to <= s@.len(),
            trim_end(rest) == trim_end(s@.subrange(from as int, to as int)),
        decreases to - from,
    {
        assert(s@.subrange(from as int, to as int).drop_last() =~= s@.subrange(
            from as int,
            to - 1,
        ));
        to -= 1;
    }
    &s[from..to]
}

/// The first place of `c` in `s`.
pub fn position(s: &[char], c: char) -> (r: Option<usize>)
    ensures
        match r {
            Some(i) => i < s@.len() && find(s@, c) == Some(i as int),
            None => find(s@, c) is None,
        },
{
    let mut i: usize = 0;
    while i < s.len()
        invariant
            i <= s@.len(),
            forall|j: int| 0 <= j < i ==> s@[j] != c,
        decreases s@.len() - i,
    {
        if s[i] == c {
            proof {
                lemma_find_at(s@, c, i as int);
            }
            return Some(i);
        }
        i += 1;
    }
    proof {
        lemma_not_found(s@, c);
    }
    None
}

/// The texts of a list of character lists.
pub open spec fn texts(v: Seq<Vec<char>>) -> Seq<Seq<char>> {
    v.map_values(|t: Vec<char>| t@)
}

/// The texts of a list of strings.
pub open spec fn string_texts(v: Seq<String>) -> Seq<Seq<char>> {
    v.map_values(|t: String| t@)
}

/// The lines of `s`.
pub fn lines(s: &[char]) -> (r: Vec<Vec<char>>)
    ensures
        texts(r@) == lines_of(s@),
{
    let mut out: Vec<Vec<char>> = Vec::new();
    let mut from: usize = 0;
    assert(s@.skip(0) =~= s@);
    assert(texts(out@) + lines_of(s@) =~= lines_of(s@));
    while from < s.len()
        invariant
            from <= s@.len(),
            texts(out@) + lines_of(s@.skip(from as int)) == lines_of(s@),
        decreases s@.len() - from,
    {
        let rest = &s[from..s.len()];
        let ghost before = out@;
        assert(rest@ =~= s@.skip(from as int));
        match position(rest, '\n') {
            Some(i) => {
                let to = if i > 0 && rest[i - 1] == '\r' {
                    i - 1
                } else {
                    i
                };
                let line = &rest[0..to];
                assert(line@ =~= strip_cr(rest@.take(i as int)));
                out.push(vstd::slice::slice_to_vec(line));
                assert(texts(out@) =~= texts(before).push(line@));
                assert(rest@.skip(i + 1) =~= s@.skip(from + i + 1));
                from = from + i + 1;
            },
            None => {
                out.push(vstd::slice::slice_to_vec(rest));
                assert(texts(out@) =~= texts(before).push(rest@));
                from = s.len();
                assert(s@.skip(from as int) =~= Seq::<char>::empty());
            },
        }
        assert(texts(out@) + lines_of(s@.skip(from as int)) =~= texts(before) + lines_of(rest@));
    }
    assert(s@.skip(from as int) =~= Seq::<char>::empty());
    assert(texts(out@) =~= texts(out@) + lines_of(s@.skip(from as int)));
    out
}

/// The pieces of `s` between the occurrences of `c`.
pub fn pieces(s: &[char], c: char) -> (r: Vec<Vec<char>>)
    ensures
        texts(r@) == split(s@, c),
{
    let mut out: Vec<Vec<char>> = Vec::new();
    let mut from: usize = 0;
    assert(s@.skip(0) =~= s@);
    assert(texts(out@) + split(s@, c) =~= split(s@, c));
    loop
        invariant
            from <= s@.len(),
            texts(out@) + split(s@.skip(from as int), c) == split(s@, c),
        decreases s@.len() - from,
    {
        let rest = &s[from..s.len()];
        let ghost before = out@;
        assert(rest@ =~= s@.skip(from as int));
        match position(rest, c) {
            Some(i) => {
                let piece = &rest[0..i];
                assert(piece@ =~= rest@.take(i as int));
                out.push(vstd::slice::slice_to_vec(piece));
                assert(texts(out@) =~= texts(before).push(piece@));
                assert(rest@.skip(i + 1) =~= s@.skip(from + i + 1));
                from = from + i + 1;
                assert(texts(out@) + split(s@.skip(from as int), c) =~= texts(before) + split(
                    rest@,
                    c,
                ));
            },
            None => {
                out.push(vstd::slice::slice_to_vec(rest));
                assert(texts(out@) =~= texts(before) + split(rest@, c));
                return out;
            },
        }
    }
}

/// Appends `s` to `out`.
pub fn push_text(out: &mut String, s: &[char])
    ensures
        final(out)@ == old(out)@ + s@,
{
    let ghost before = out@;
    let mut i: usize = 0;
    while i < s.len()
        invariant
            i <= s@.len(),
            out@ == before + s@.take(i as int),
        decreases s@.len() - i,
    {
        out.push(s[i]);
        assert(out@ =~= before + s@.take(i + 1));
        i += 1;
    }
    assert(s@.take(i as int) =~= s@);
}

/// Appends the four hexadecimal digits of `v` to `out`.
pub fn push_hex4(out: &mut Vec<char>, v: u16)
    ensures
        final(out)@ == old(out)@ + hex4(v),
{
    let ghost before = out@;
    out.push(digit((v / 0x1000) as u8));
    out.push(digit((v / 0x100 % 16) as u8));
    out.push(digit((v / 0x10 % 16) as u8));
    out.push(digit((v % 16) as u8));
    assert(out@ =~= before + hex4(v));
}

/// The value of a hexadecimal digit.
pub fn digit_value(c: char) -> (r: Option<u8>)
    ensures
        match r {
            Some(d) => hex_digit(c) == Some(d as nat) && d < 16,
            None => hex_digit(c) is None,
        },
{
    if '0' <= c && c <= '9' {
        Some((c as u32 - 48) as u8)
    } else if 'a' <= c && c <= 'f' {
        Some((c as u32 - 97 + 10) as u8)
    } else if 'A' <= c && c <= 'F' {
        Some((c as u32 - 65 + 10) as u8)
    } else {
        None
    }
}

proof fn lemma_hex_grows(s: Seq<char>, n: int)
    requires
        0 <= n <= s.len(),
    ensures
        match (hex_digits(s.take(n)), hex_digits(s)) {
            (Some(part), Some(whole)) => part <= whole,
            (None, Some(_)) => false,
            _ => true,
        },
    decreases s.len() - n,
{
    if n == s.len() {
        assert(s.take(n) =~= s);
    } else {
        lemma_hex_grows(s, n + 1);
        assert(s.take(n + 1).drop_last() =~= s.take(n));
    }
}

/// The number that `s` stands for in base sixteen, if it fits sixteen bits.
pub fn number16(s: &[char]) -> (r: Option<u16>)
    ensures
        match r {
            Some(v) => hex_number(s@) == Some(v as nat),
            None => match hex_number(s@) {
                Some(n) => n > 0xffff,
                None => true,
            },
        },
{
    let start: usize = if s.len() > 0 && s[0] == '+' {
        1
    } else {
        0
    };
    let digits = &s[start..s.len()];
    proof {
        if start == 1 {
            assert(digits@ =~= s@.drop_first());
        } else {
            assert(digits@ =~= s@);
        }
    }
    if digits.len() == 0 {
        return None;
    }
    let mut value: u32 = 0;
    let mut i: usize = 0;
    while i < digits.len()
        invariant
            i <= digits@.len(),
            value <= 0xffff,
            hex_digits(digits@.take(i as int)) == Some(value as nat),
            digits@.len() > 0,
            hex_number(s@) == hex_digits(digits@),
        decreases digits@.len() - i,
    {
        let ghost shown = digits@.take(i + 1);
        proof {
            assert(shown.drop_last() =~= digits@.take(i as int));
            lemma_hex_grows(digits@, i + 1);
        }
        match digit_value(digits[i]) {
            None => {
                assert(hex_digits(shown) is None);
                return None;
            },
            Some(d) => {
                value = value * 16 + d as u32;
                assert(hex_digits(shown) == Some(value as nat));
                if value > 0xffff {
                    return None;
                }
            },
        }
        i += 1;
    }
    assert(digits@.take(i as int) =~= digits@);
    Some(value as u16)
}

/// Whether `c` stands nowhere in `s`.
pub open spec fn lacks(s: Seq<char>, c: char) -> bool {
    forall|i: int| 0 <= i < s.len() ==> #[trigger] s[i] != c
}

pub proof fn lemma_trim_start(s: Seq<char>)
    ensures
        trim_start(s).len() == 0 || !is_space(trim_start(s)[0]),
        forall|c: char| lacks(s, c) ==> #[trigger] lacks(trim_start(s), c),
    decreases s.len(),
{
    if s.len() != 0 && is_space(s[0]) {
        let rest = s.drop_first();
        lemma_trim_start(rest);
        assert forall|c: char| lacks(s, c) implies #[trigger] lacks(trim_start(s), c) by {
            assert forall|i: int| 0 <= i < rest.len() implies #[trigger] rest[i] != c by {
                assert(rest[i] == s[i + 1]);
            }
            assert(lacks(rest, c));
        }
    }
}

pub proof fn lemma_trim_end(s: Seq<char>)
    ensures
        trim_end(s).len() == 0 || !is_space(trim_end(s).last()),
        trim_end(s).len() > 0 ==> trim_end(s)[0] == s[0],
        forall|c: char| lacks(s, c) ==> #[trigger] lacks(trim_end(s), c),
    decreases s.len(),
{
    if s.len() != 0 && is_space(s.last()) {
        let rest = s.drop_last();
        lemma_trim_end(rest);
        assert forall|c: char| lacks(s, c) implies #[trigger] lacks(trim_end(s), c) by {
            assert forall|i: int| 0 <= i < rest.len() implies #[trigger] rest[i] != c by {
                assert(rest[i] == s[i]);
            }
            assert(lacks(rest, c));
        }
    }
}

/// What `trim` leaves neither starts nor ends with whitespace, and holds only
/// characters of the text.
pub proof fn lemma_trim(s: Seq<char>)
    ensures
        trim(s).len() > 0 ==> !is_space(trim(s)[0]) && !is_space(trim(s).last()),
        trim(trim(s)) == trim(s),
        forall|c: char| lacks(s, c) ==> #[trigger] lacks(trim(s), c),
        s.len() > 0 && !is_space(s[0]) ==> trim(s).len() > 0 && trim(s)[0] == s[0],
{
    lemma_trim_start(s);
    lemma_trim_end(trim_start(s));
    if s.len() > 0 && !is_space(s[0]) {
        lemma_trim_end_keeps(s);
    }
}

proof fn lemma_trim_end_keeps(s: Seq<char>)
    requires
        s.len() > 0,
        !is_space(s[0]),
    ensures
        trim_end(s).len() > 0,
    decreases s.len(),
{
    if is_space(s.last()) {
        lemma_trim_end_keeps(s.drop_last());
    }
}

/// Whitespace at the end of a text is nothing to `trim`.
pub proof fn lemma_trim_push(s: Seq<char>, c: char)
    requires
        is_space(c),
    ensures
        trim(s.push(c)) == trim(s),
    decreases s.len(),
{
    let more = s.push(c);
    if s.len() == 0 {
        assert(more.drop_first() =~= s);
    } else if is_space(s[0]) {
        assert(more.drop_first() =~= s.drop_first().push(c));
        lemma_trim_push(s.drop_first(), c);
    } else {
        assert(more.drop_last() =~= s);
    }
}

pub proof fn lemma_trim_strip_cr(s: Seq<char>)
    ensures
        trim(strip_cr(s)) == trim(s),
{
    if s.len() > 0 && s.last() == '\r' {
        assert(s =~= s.drop_last().push('\r'));
        lemma_trim_push(s.drop_last(), '\r');
    }
}

/// No line holds a line feed.
pub proof fn lemma_lines_lack_feeds(s: Seq<char>)
    ensures
        forall|i: int| 0 <= i < lines_of(s).len() ==> lacks(#[trigger] lines_of(s)[i], '\n'),
    decreases s.len(),
{
    if s.len() != 0 {
        lemma_find(s, '\n');
        match find(s, '\n') {
            Some(i) => {
                let first = strip_cr(s.take(i));
                let rest = s.skip(i + 1);
                lemma_lines_lack_feeds(rest);
                assert forall|j: int| 0 <= j < first.len() implies #[trigger] first[j] != '\n' by {
                    assert(first[j] == s[j]);
                }
                assert forall|k: int| 0 <= k < lines_of(s).len() implies lacks(
                    #[trigger] lines_of(s)[k],
                    '\n',
                ) by {
                    if k > 0 {
                        assert(lines_of(s)[k] == lines_of(rest)[k - 1]);
                    }
                }
            },
            None => {},
        }
    }
}

/// The lines of a text made of lines are those lines, but for a carriage
/// return at the end of one.
pub proof fn lemma_lines_read_back(lines: Seq<Seq<char>>)
    requires
        forall|i: int| 0 <= i < lines.len() ==> lacks(#[trigger] lines[i], '\n'),
    ensures
        lines_of(text_of(lines)) == lines.map_values(|line: Seq<char>| strip_cr(line)),
    decreases lines.len(),
{
    let strip = |line: Seq<char>| strip_cr(line);
    if lines.len() == 0 {
        assert(lines.map_values(strip) =~= Seq::<Seq<char>>::empty());
    } else {
        let first = lines[0];
        let others = lines.drop_first();
        let rest = text_of(others);
        let all = text_of(lines);
        assert forall|i: int| 0 <= i < others.len() implies lacks(#[trigger] others[i], '\n') by {
            assert(others[i] == lines[i + 1]);
        }
        lemma_lines_read_back(others);
        assert forall|j: int| 0 <= j < first.len() implies all[j] != '\n' by {
            assert(all[j] == first[j]);
        }
        lemma_find_at(all, '\n', first.len() as int);
        assert(all.take(first.len() as int) =~= first);
        assert(all.skip(first.len() + 1int) =~= rest);
        assert(lines.map_values(strip) =~= seq![strip_cr(first)] + others.map_values(strip));
    }
}

proof fn lemma_digit_char(d: int)
    requires
        0 <= d < 16,
    ensures
        hex_digit(digit_char(d)) == Some(d as nat),
        !is_space(digit_char(d)),
        digit_char(d) != '+',
{
}

proof fn lemma_hex_push(s: Seq<char>, high: nat, d: int)
    requires
        hex_digits(s) == Some(high),
        0 <= d < 16,
    ensures
        hex_digits(s.push(digit_char(d))) == Some((16 * high + d) as nat),
{
    lemma_digit_char(d);
    assert(s.push(digit_char(d)).drop_last() =~= s);
}

proof fn lemma_hex_word(a: int, b: int, c: int, d: int)
    requires
        0 <= a < 16,
        0 <= b < 16,
        0 <= c < 16,
        0 <= d < 16,
    ensures
        ({
            let s = seq![digit_char(a), digit_char(b), digit_char(c), digit_char(d)];
            &&& hex_number(s) == Some((4096 * a + 256 * b + 16 * c + d) as nat)
            &&& forall|i: int| 0 <= i < 4 ==> !is_space(#[trigger] s[i])
        }),
{
    let none = Seq::<char>::empty();
    let s1 = none.push(digit_char(a));
    let s2 = s1.push(digit_char(b));
    let s3 = s2.push(digit_char(c));
    lemma_hex_push(none, 0, a);
    lemma_hex_push(s1, a as nat, b);
    lemma_hex_push(s2, (16 * a + b) as nat, c);
    lemma_hex_push(s3, (256 * a + 16 * b + c) as nat, d);
    assert(seq![digit_char(a), digit_char(b), digit_char(c), digit_char(d)] =~= s3.push(
        digit_char(d),
    ));
    lemma_digit_char(a);
    lemma_digit_char(b);
    lemma_digit_char(c);
    lemma_digit_char(d);
}

/// Four hexadecimal digits stand for the number that they were made of.
pub proof fn lemma_hex4(v: u16)
    ensures
        hex_number(hex4(v)) == Some(v as nat),
        forall|i: int| 0 <= i < 4 ==> !is_space(#[trigger] hex4(v)[i]),
{
    assert(v == 4096 * (v / 0x1000) + 256 * (v / 0x100 % 16) + 16 * (v / 0x10 % 16) + v % 16)
        by (bit_vector);
    lemma_hex_word(
        (v / 0x1000) as int,
        (v / 0x100 % 16) as int,
        (v / 0x10 % 16) as int,
        (v % 16) as int,
    );
}

/// Whether `s` is whitespace alone.
pub open spec fn all_space(s: Seq<char>) -> bool {
    forall|i: int| 0 <= i < s.len() ==> is_space(#[trigger] s[i])
}

/// Whether `s` has no whitespace at its ends.
pub open spec fn clean(s: Seq<char>) -> bool {
    s.len() > 0 ==> !is_space(s[0]) && !is_space(s.last())
}

/// Whitespace is what Unicode gives the White_Space property: these 25
/// characters and no others.
pub proof fn law_whitespace(c: char)
    ensures
        is_space(c) <==> seq![
            0x09u32, 0x0A, 0x0B, 0x0C, 0x0D, 0x20, 0x85, 0xA0, 0x1680, 0x2000, 0x2001, 0x2002,
            0x2003, 0x2004, 0x2005, 0x2006, 0x2007, 0x2008, 0x2009, 0x200A, 0x2028, 0x2029, 0x202F,
            0x205F, 0x3000,
        ].contains(c as u32),
{
    let all = seq![
        0x09u32, 0x0A, 0x0B, 0x0C, 0x0D, 0x20, 0x85, 0xA0, 0x1680, 0x2000, 0x2001, 0x2002, 0x2003,
        0x2004, 0x2005, 0x2006, 0x2007, 0x2008, 0x2009, 0x200A, 0x2028, 0x2029, 0x202F, 0x205F,
        0x3000,
    ];
    let n = c as u32;
    if is_space(c) {
        let k = if n <= 13 {
            n - 9
        } else if n == 0x20 {
            5
        } else if n == 0x85 {
            6
        } else if n == 0xA0 {
            7
        } else if n == 0x1680 {
            8
        } else if n <= 0x200A {
            n - 0x2000 + 9
        } else if n == 0x2028 {
            20
        } else if n == 0x2029 {
            21
        } else if n == 0x202F {
            22
        } else if n == 0x205F {
            23
        } else {
            24
        };
        assert(all[k] == n);
    }
    if all.contains(n) {
        let k = choose|k: int| 0 <= k < all.len() && all[k] == n;
        assert(all[k] == n);
    }
}

/// Making letters small moves `A` to `Z` by 32 places, to `a` to `z`, and keeps
/// every other character.
pub proof fn law_small_letters(c: char)
    ensures
        65 <= c as u32 <= 90 ==> lower_char(c) as u32 == c as u32 + 32,
        (c as u32) < 65 || c as u32 > 90 ==> lower_char(c) == c,
{
}

/// A digit stands for its place among `0123456789abcdef`, in either case of
/// letters, and no other character is a digit.
pub proof fn law_digits(d: int, c: char)
    ensures
        0 <= d < 16 ==> digit_char(d) == "0123456789abcdef"@[d],
        0 <= d < 16 ==> (hex_digit(c) == Some(d as nat) <==> lower_char(c)
            == "0123456789abcdef"@[d]),
        hex_digit(c) matches Some(n) ==> n < 16,
{
    reveal_strlit("0123456789abcdef");
    if 0 <= d < 16 {
        assert(digit_char(d) == "0123456789abcdef"@[d]) by {
            assert(d == 0 || d == 1 || d == 2 || d == 3 || d == 4 || d == 5 || d == 6 || d == 7 || d
                == 8 || d == 9 || d == 10 || d == 11 || d == 12 || d == 13 || d == 14 || d == 15);
        }
        assert(hex_digit(c) == Some(d as nat) <==> lower_char(c) == digit_char(d));
    }
}

/// The number that decimal digits stand for.
pub open spec fn decimal_value(s: Seq<char>) -> int
    decreases s.len(),
{
    if s.len() == 0 {
        0
    } else {
        10 * decimal_value(s.drop_last()) + (s.last() as u32 - 48)
    }
}

/// A number in decimal is made of the digits `0` to `9`, reads back as the
/// number, and starts with `0` only where it is zero.
pub proof fn law_decimal_reads_back(n: nat)
    ensures
        decimal(n).len() >= 1,
        decimal_value(decimal(n)) == n,
        forall|i: int| 0 <= i < decimal(n).len() ==> 48 <= (#[trigger] decimal(n)[i]) as u32 <= 57,
        n > 0 ==> decimal(n)[0] as u32 != 48,
        n < 10 ==> decimal(n).len() == 1,
    decreases n,
{
    let s = decimal(n);
    if n < 10 {
        assert(s.drop_last() =~= Seq::<char>::empty());
        assert(s.last() as u32 == 48 + n);
        assert(decimal_value(s.drop_last()) == 0);
        assert(decimal_value(s) == n);
    } else {
        law_decimal_reads_back(n / 10);
        let front = decimal(n / 10);
        assert(s.drop_last() =~= front);
        assert(s.last() as u32 == 48 + n % 10);
        assert(decimal_value(s) == 10 * (n / 10) + n % 10);
        assert forall|i: int| 0 <= i < s.len() implies 48 <= (#[trigger] s[i]) as u32 <= 57 by {
            if i < front.len() {
                assert(s[i] == front[i]);
            }
        }
    }
}

/// A number below zero is written with a minus sign before its size.
pub proof fn law_signed_decimal(n: int)
    ensures
        n >= 0 ==> decimal_value(signed_decimal(n)) == n,
        n < 0 ==> signed_decimal(n)[0] == '-' && decimal_value(signed_decimal(n).skip(1)) == -n,
{
    if n >= 0 {
        law_decimal_reads_back(n as nat);
    } else {
        law_decimal_reads_back((-n) as nat);
        assert(signed_decimal(n).skip(1) =~= decimal((-n) as nat));
    }
}

proof fn lemma_trim_start_spaces(a: Seq<char>, s: Seq<char>)
    requires
        all_space(a),
    ensures
        trim_start(a + s) == trim_start(s),
    decreases a.len(),
{
    if a.len() == 0 {
        assert(a + s =~= s);
    } else {
        let rest = a.drop_first();
        assert forall|i: int| 0 <= i < rest.len() implies is_space(#[trigger] rest[i]) by {
            assert(rest[i] == a[i + 1]);
        }
        assert((a + s).drop_first() =~= rest + s);
        assert(is_space(a[0]));
        lemma_trim_start_spaces(rest, s);
    }
}

proof fn lemma_trim_end_spaces(s: Seq<char>, b: Seq<char>)
    requires
        all_space(b),
    ensures
        trim_end(s + b) == trim_end(s),
    decreases b.len(),
{
    if b.len() == 0 {
        assert(s + b =~= s);
    } else {
        let rest = b.drop_last();
        assert forall|i: int| 0 <= i < rest.len() implies is_space(#[trigger] rest[i]) by {
            assert(rest[i] == b[i]);
        }
        assert((s + b).drop_last() =~= s + rest);
        assert(is_space(b[b.len() - 1]));
        lemma_trim_end_spaces(s, rest);
    }
}

/// Trimming takes away the whitespace around a text and nothing else.
pub proof fn law_trim_takes_the_ends(before: Seq<char>, core: Seq<char>, behind: Seq<char>)
    requires
        all_space(before),
        all_space(behind),
        clean(core),
    ensures
        trim(before + core + behind) == core,
{
    assert(before + core + behind =~= before + (core + behind));
    lemma_trim_start_spaces(before, core + behind);
    if core.len() == 0 {
        assert(core + behind =~= behind);
        assert(behind + Seq::<char>::empty() =~= behind);
        lemma_trim_start_spaces(behind, Seq::empty());
    } else {
        assert((core + behind)[0] == core[0]);
        lemma_trim_end_spaces(core, behind);
    }
}

/// `parts` with `c` between them.
pub open spec fn joined(parts: Seq<Seq<char>>, c: char) -> Seq<char>
    decreases parts.len(),
{
    if parts.len() == 0 {
        Seq::empty()
    } else if parts.len() == 1 {
        parts[0]
    } else {
        parts[0] + seq![c] + joined(parts.drop_first(), c)
    }
}

/// Splitting undoes joining.
pub proof fn law_split_undoes_joining(parts: Seq<Seq<char>>, c: char)
    requires
        parts.len() > 0,
        forall|i: int| 0 <= i < parts.len() ==> lacks(#[trigger] parts[i], c),
    ensures
        split(joined(parts, c), c) == parts,
    decreases parts.len(),
{
    let all = joined(parts, c);
    assert(lacks(parts[0], c));
    if parts.len() == 1 {
        lemma_not_found(all, c);
        assert(parts =~= seq![all]);
    } else {
        let rest = parts.drop_first();
        assert forall|i: int| 0 <= i < rest.len() implies lacks(#[trigger] rest[i], c) by {
            assert(rest[i] == parts[i + 1]);
        }
        law_split_undoes_joining(rest, c);
        let n = parts[0].len() as int;
        assert forall|j: int| 0 <= j < n implies all[j] != c by {
            assert(all[j] == parts[0][j]);
        }
        lemma_find_at(all, c, n);
        assert(all.take(n) =~= parts[0]);
        assert(all.skip(n + 1) =~= joined(rest, c));
        assert(parts =~= seq![parts[0]] + rest);
    }
}

/// The lines of a text are what stands between its line feeds: writing lines
/// with a feed behind each and reading them gives them back, but for a carriage
/// return at the end of one; a last line needs no feed and keeps its end.
pub proof fn law_lines_read_back(lines: Seq<Seq<char>>, last: Seq<char>)
    requires
        forall|i: int| 0 <= i < lines.len() ==> lacks(#[trigger] lines[i], '\n'),
        lacks(last, '\n'),
    ensures
        lines_of(text_of(lines) + last) == lines.map_values(
            |line: Seq<char>|
                if line.len() > 0 && line.last() == '\r' {
                    line.drop_last()
                } else {
                    line
                },
        ) + (if last.len() > 0 {
            seq![last]
        } else {
            Seq::empty()
        }),
    decreases lines.len(),
{
    let strip = |line: Seq<char>|
        if line.len() > 0 && line.last() == '\r' {
            line.drop_last()
        } else {
            line
        };
    let end = if last.len() > 0 {
        seq![last]
    } else {
        Seq::empty()
    };
    let all = text_of(lines) + last;
    if lines.len() == 0 {
        assert(all =~= last);
        lemma_not_found(last, '\n');
        assert(lines.map_values(strip) + end =~= end);
        assert(lines_of(last) =~= end);
    } else {
        let first = lines[0];
        let others = lines.drop_first();
        assert forall|i: int| 0 <= i < others.len() implies lacks(#[trigger] others[i], '\n') by {
            assert(others[i] == lines[i + 1]);
        }
        law_lines_read_back(others, last);
        assert(lacks(first, '\n'));
        assert forall|j: int| 0 <= j < first.len() implies all[j] != '\n' by {
            assert(all[j] == first[j]);
        }
        lemma_find_at(all, '\n', first.len() as int);
        assert(all.take(first.len() as int) =~= first);
        assert(all.skip(first.len() + 1int) =~= text_of(others) + last);
        assert(lines.map_values(strip) + end =~= seq![strip_cr(first)] + (others.map_values(strip)
            + end));
    }
}

} // verus!
