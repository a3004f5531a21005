//! Byte- and character-level helpers over strings.
use vstd::prelude::*;
use vstd::string::*;
use vstd::utf8::*;

verus! {

/// `needle` stands in `hay` at byte offset `i`.
pub open spec fn occurs_at(hay: Seq<u8>, needle: Seq<u8>, i: int) -> bool {
    &&& 0 <= i
    &&& i + needle.len() <= hay.len()
    &&& hay.subrange(i, i + needle.len()) == needle
}

/// The UTF-8 bytes of a string value.
pub open spec fn utf8(s: Seq<char>) -> Seq<u8> {
    encode_utf8(s)
}

/// Two character sequences with the same encoding are the same.
pub proof fn lemma_utf8_injective(a: Seq<char>, b: Seq<char>)
    requires
        utf8(a) == utf8(b),
    ensures
        a == b,
{
    encode_utf8_decode_utf8(a);
    encode_utf8_decode_utf8(b);
}

/// The encoding of a concatenation is the concatenation of the encodings.
pub proof fn lemma_utf8_concat(a: Seq<char>, b: Seq<char>)
    ensures
        utf8(a + b) == utf8(a) + utf8(b),
    decreases a.len(),
{
    if a.len() == 0 {
        assert(a + b =~= b);
        assert(utf8(a) + utf8(b) =~= utf8(b));
    } else {
        lemma_utf8_concat(a.drop_first(), b);
        assert((a + b).drop_first() =~= a.drop_first() + b);
        assert(utf8(a + b) =~= encode_scalar(a[0] as u32) + (utf8(a.drop_first()) + utf8(b)));
        assert(utf8(a) + utf8(b) =~= utf8(a + b));
    }
}

/// Splitting the encoding of `s` at a byte offset that the encoding of `a`
/// ends at gives `a` and the rest.
pub proof fn lemma_utf8_split(s: Seq<char>, a: Seq<char>, b: Seq<char>)
    requires
        utf8(s) == utf8(a) + utf8(b),
    ensures
        s == a + b,
{
    lemma_utf8_concat(a, b);
    lemma_utf8_injective(s, a + b);
}

/// An empty string, and only that, has an empty encoding.
pub proof fn lemma_utf8_empty(s: Seq<char>)
    ensures
        utf8(s).len() == 0 <==> s.len() == 0,
{
    if s.len() > 0 {
        encode_utf8_first_scalar(s);
    }
}

/// A non-empty encoding does not begin with a continuation byte.
pub proof fn lemma_utf8_first_byte(s: Seq<char>)
    requires
        s.len() > 0,
    ensures
        utf8(s).len() > 0,
        !is_continuation_byte(utf8(s)[0]),
{
    encode_utf8_first_scalar(s);
    encode_utf8_valid_utf8(s);
}

/// Whether two byte slices are equal.
pub fn bytes_eq(a: &[u8], b: &[u8]) -> (r: bool)
    ensures
        r == (a@ == b@),
{
    if a.len() != b.len() {
        return false;
    }
    let mut i: usize = 0;
    while i < a.len()
        invariant
            i <= a@.len(),
            a@.len() == b@.len(),
            forall|j: int| 0 <= j < i ==> a@[j] == b@[j],
        decreases a@.len() - i,
    {
        if a[i] != b[i] {
            return false;
        }
        i += 1;
    }
    assert(a@ =~= b@);
    true
}

/// Whether two strings are equal.
pub fn str_eq(a: &str, b: &str) -> (r: bool)
    ensures
        r == (a@ == b@),
{
    let r = bytes_eq(a.as_bytes(), b.as_bytes());
    proof {
        if r {
            lemma_utf8_injective(a@, b@);
        }
    }
    r
}

/// Whether `needle` stands in `hay` at byte offset `i`.
pub fn bytes_at(hay: &[u8], needle: &[u8], i: usize) -> (r: bool)
    ensures
        r == occurs_at(hay@, needle@, i as int),
{
    if i > hay.len() || needle.len() > hay.len() - i {
        return false;
    }
    let end: usize = i + needle.len();
    let mut k: usize = 0;
    while k < needle.len()
        invariant
            k <= needle@.len(),
            end == i + needle@.len(),
            end <= hay@.len(),
            forall|j: int| 0 <= j < k ==> hay@[i + j] == needle@[j],
        decreases needle@.len() - k,
    {
        if hay[i + k] != needle[k] {
            assert(hay@.subrange(i as int, i + needle@.len())[k as int] != needle@[k as int]);
            return false;
        }
        k += 1;
    }
    assert(hay@.subrange(i as int, i + needle@.len()) =~= needle@);
    true
}

/// The first byte offset at which `needle` stands in `hay`.
pub fn find_bytes(hay: &[u8], needle: &[u8]) -> (r: Option<usize>)
    ensures
        r matches Some(i) ==> occurs_at(hay@, needle@, i as int) && forall|j: int|
            j < i ==> !#[trigger] occurs_at(hay@, needle@, j),
        r is None ==> forall|j: int| !#[trigger] occurs_at(hay@, needle@, j),
{
    if needle.len() > hay.len() {
        return None;
    }
    let last: usize = hay.len() - needle.len();
    let mut i: usize = 0;
    loop
        invariant
            needle@.len() <= hay@.len(),
            last == hay@.len() - needle@.len(),
            i <= last,
            forall|j: int| j < i ==> !#[trigger] occurs_at(hay@, needle@, j),
        decreases last - i,
    {
        if bytes_at(hay, needle, i) {
            return Some(i);
        }
        if i == last {
            return None;
        }
        i += 1;
    }
}

/// Whether `s` starts with `prefix`.
pub fn starts_with(s: &str, prefix: &str) -> (r: bool)
    ensures
        r == prefix@.is_prefix_of(s@),
{
    let r = bytes_at(s.as_bytes(), prefix.as_bytes(), 0);
    proof {
        lemma_prefix_bytes(s@, prefix@);
    }
    r
}

/// A string starts with another exactly when their encodings do.
pub proof fn lemma_prefix_bytes(s: Seq<char>, p: Seq<char>)
    ensures
        p.is_prefix_of(s) <==> occurs_at(utf8(s), utf8(p), 0),
{
    if p.is_prefix_of(s) {
        let rest = s.subrange(p.len() as int, s.len() as int);
        assert(s =~= p + rest);
        lemma_utf8_concat(p, rest);
        assert(utf8(s).subrange(0, utf8(p).len() as int) =~= utf8(p));
    }
    if occurs_at(utf8(s), utf8(p), 0) {
        let n = utf8(p).len() as int;
        encode_utf8_valid_utf8(s);
        encode_utf8_valid_utf8(p);
        let tail = utf8(s).subrange(n, utf8(s).len() as int);
        assert(utf8(s) =~= utf8(p) + tail);
        assert(valid_utf8(tail)) by {
            assert(utf8(s).subrange(0, n) == utf8(p));
            if !valid_utf8(tail) {
                partial_valid_partial_invalid_utf8(utf8(s), n);
            }
        }
        let rest = decode_utf8(tail);
        decode_utf8_encode_utf8(tail);
        lemma_utf8_split(s, p, rest);
        assert(s.subrange(0, p.len() as int) =~= p);
    }
}

/// The text before and after the byte offset `mid`.
pub fn split_text(s: &str, mid: usize) -> (r: (String, String))
    requires
        is_char_boundary(utf8(s@), mid as int),
    ensures
        s@ == r.0@ + r.1@,
        utf8(r.0@).len() == mid,
        utf8(r.0@) == utf8(s@).subrange(0, mid as int),
        utf8(r.1@) == utf8(s@).subrange(mid as int, utf8(s@).len() as int),
{
    proof {
        encode_utf8_valid_utf8(s@);
        lemma_boundary_in_range(utf8(s@), mid as int);
    }
    let (a, b) = s.split_at(mid);
    proof {
        assert(utf8(s@) =~= utf8(a@) + utf8(b@));
        lemma_utf8_split(s@, a@, b@);
    }
    (a.to_owned(), b.to_owned())
}

/// A character boundary lies within the text.
pub proof fn lemma_boundary_in_range(bytes: Seq<u8>, index: int)
    requires
        valid_utf8(bytes),
        is_char_boundary(bytes, index),
    ensures
        0 <= index <= bytes.len(),
{
}

/// The lower-case digit of value `d`, `d < 16`.
pub open spec fn digit(d: int) -> char {
    if d < 10 {
        (48 + d) as char
    } else {
        (87 + d) as char
    }
}

/// `n` in decimal, without leading zeros.
pub open spec fn decimal(n: nat) -> Seq<char>
    decreases n,
{
    if n < 10 {
        seq![digit(n as int)]
    } else {
        decimal(n / 10).push(digit((n % 10) as int))
    }
}

/// The last `width` hexadecimal digits of `n`, zero-padded.
pub open spec fn hex_padded(n: nat, width: nat) -> Seq<char>
    decreases width,
{
    if width == 0 {
        seq![]
    } else {
        hex_padded(n / 16, (width - 1) as nat).push(digit((n % 16) as int))
    }
}

/// `width` hexadecimal digits hold `n`.
pub open spec fn hex_fits(n: nat, width: nat) -> bool
    decreases width,
{
    if width == 0 {
        n == 0
    } else {
        hex_fits(n / 16, (width - 1) as nat)
    }
}

/// A padded number has as many digits as it is padded to, and numbers that those
/// digits hold are told apart by them.
pub proof fn lemma_hex_tells(m: nat, n: nat, width: nat)
    ensures
        hex_padded(m, width).len() == width,
        hex_padded(n, width).len() == width,
        hex_fits(m, width) && hex_fits(n, width) && hex_padded(m, width) == hex_padded(n, width)
            ==> m == n,
    decreases width,
{
    if width > 0 {
        let w = (width - 1) as nat;
        lemma_hex_tells(m / 16, n / 16, w);
        let a = hex_padded(m, width);
        let b = hex_padded(n, width);
        if a == b {
            assert(a.drop_last() =~= hex_padded(m / 16, w));
            assert(b.drop_last() =~= hex_padded(n / 16, w));
            assert(a.last() == digit((m % 16) as int));
            assert(b.last() == digit((n % 16) as int));
            assert(m % 16 == n % 16);
        }
    }
}

/// Sixteen hexadecimal digits hold 64 bits.
pub proof fn lemma_hex_holds(n: u64)
    ensures
        hex_fits(n as nat, 16),
{
    reveal_with_fuel(hex_fits, 17);
}

/// The digit `d` as a string.
pub fn digit_str(d: u64) -> (r: &'static str)
    requires
        d < 16,
    ensures
        r@ == seq![digit(d as int)],
{
    proof {
        reveal_strlit("0");
        reveal_strlit("1");
        reveal_strlit("2");
        reveal_strlit("3");
        reveal_strlit("4");
        reveal_strlit("5");
        reveal_strlit("6");
        reveal_strlit("7");
        reveal_strlit("8");
        reveal_strlit("9");
        reveal_strlit("a");
        reveal_strlit("b");
        reveal_strlit("c");
        reveal_strlit("d");
        reveal_strlit("e");
        reveal_strlit("f");
    }
    let r = match d {
        0 => "0",
        1 => "1",
        2 => "2",
        3 => "3",
        4 => "4",
        5 => "5",
        6 => "6",
        7 => "7",
        8 => "8",
        9 => "9",
        10 => "a",
        11 => "b",
        12 => "c",
        13 => "d",
        14 => "e",
        _ => "f",
    };
    assert(r@ =~= seq![digit(d as int)]);
    r
}

/// `n` written in decimal.
pub fn decimal_string(n: u64) -> (r: String)
    ensures
        r@ == decimal(n as nat),
    decreases n,
{
    if n < 10 {
        String::from_str(digit_str(n))
    } else {
        let mut s = decimal_string(n / 10);
        s.append(digit_str(n % 10));
        assert(s@ =~= decimal((n / 10) as nat).push(digit((n % 10) as int)));
        s
    }
}

/// The last `width` hexadecimal digits of `n`, zero-padded.
pub fn hex_string(n: u64, width: usize) -> (r: String)
    ensures
        r@ == hex_padded(n as nat, width as nat),
    decreases width,
{
    if width == 0 {
        String::new()
    } else {
        let mut s = hex_string(n / 16, width - 1);
        s.append(digit_str(n % 16));
        assert(s@ =~= hex_padded((n / 16) as nat, (width - 1) as nat).push(digit((n % 16) as int)));
        s
    }
}

/// `needle` stands in `hay` at character index `i`.
pub open spec fn stands_at(hay: Seq<char>, needle: Seq<char>, i: int) -> bool {
    &&& 0 <= i
    &&& i + needle.len() <= hay.len()
    &&& hay.subrange(i, i + needle.len()) == needle
}

/// `a` is what stands before the first `sep` in `s`, and `b` what stands after.
pub open spec fn split_at_first(s: Seq<char>, sep: Seq<char>, a: Seq<char>, b: Seq<char>) -> bool {
    &&& s == a + sep + b
    &&& forall|j: int| j < a.len() ==> !#[trigger] stands_at(s, sep, j)
}

/// An occurrence among the characters is one among the bytes.
proof fn lemma_stands_occurs(hay: Seq<char>, needle: Seq<char>, i: int)
    requires
        stands_at(hay, needle, i),
    ensures
        occurs_at(utf8(hay), utf8(needle), utf8(hay.take(i)).len() as int),
{
    let a = hay.take(i);
    let b = hay.skip(i + needle.len());
    assert(hay =~= a + (needle + b));
    lemma_utf8_concat(a, needle + b);
    lemma_utf8_concat(needle, b);
    let n = utf8(a).len() as int;
    assert(utf8(hay).subrange(n, n + utf8(needle).len()) =~= utf8(needle));
}

/// More characters take more bytes.
proof fn lemma_utf8_longer(s: Seq<char>, i: int, j: int)
    requires
        0 <= i < j <= s.len(),
    ensures
        utf8(s.take(i)).len() < utf8(s.take(j)).len(),
{
    let m = s.subrange(i, j);
    assert(s.take(j) =~= s.take(i) + m);
    lemma_utf8_concat(s.take(i), m);
    lemma_utf8_empty(m);
}

/// The text before and after the first `sep`.
pub fn split_once(s: &str, sep: &str) -> (r: Option<(String, String)>)
    requires
        sep@.len() > 0,
    ensures
        match r {
            Some((a, b)) => split_at_first(s@, sep@, a@, b@),
            None => forall|j: int| !#[trigger] stands_at(s@, sep@, j),
        },
{
    let hay = s.as_bytes();
    let needle = sep.as_bytes();
    match find_bytes(hay, needle) {
        None => {
            assert forall|j: int| !#[trigger] stands_at(s@, sep@, j) by {
                if stands_at(s@, sep@, j) {
                    lemma_stands_occurs(s@, sep@, j);
                }
            }
            None
        },
        Some(i) => {
            proof {
                encode_utf8_valid_utf8(s@);
                lemma_utf8_first_byte(sep@);
                assert(utf8(s@)[i as int] == utf8(s@).subrange(i as int, i + needle@.len())[0]);
                is_char_boundary_iff_not_is_continuation_byte(utf8(s@), i as int);
            }
            let (a, rest) = split_text(s, i);
            proof {
                assert(utf8(rest@).subrange(0, needle@.len() as int) =~= utf8(s@).subrange(
                    i as int,
                    i + needle@.len(),
                ));
                lemma_prefix_bytes(rest@, sep@);
            }
            let b = after_prefix(rest.as_str(), sep);
            assert(s@ =~= a@ + sep@ + b@);
            assert forall|j: int| j < a@.len() implies !#[trigger] stands_at(s@, sep@, j) by {
                if stands_at(s@, sep@, j) {
                    lemma_stands_occurs(s@, sep@, j);
                    lemma_utf8_longer(s@, j, a@.len() as int);
                    assert(s@.take(a@.len() as int) =~= a@);
                }
            }
            Some((a, b))
        },
    }
}

/// What follows `prefix` in a text that starts with it.
pub fn after_prefix(s: &str, prefix: &str) -> (r: String)
    requires
        prefix@.is_prefix_of(s@),
    ensures
        s@ == prefix@ + r@,
{
    let n: usize = prefix.as_bytes().len();
    proof {
        lemma_prefix_bytes(s@, prefix@);
        let rest = s@.skip(prefix@.len() as int);
        assert(s@ =~= prefix@ + rest);
        lemma_utf8_concat(prefix@, rest);
        encode_utf8_valid_utf8(s@);
        is_char_boundary_start_end_of_seq(utf8(s@));
        if n < utf8(s@).len() {
            lemma_utf8_empty(rest);
            lemma_utf8_first_byte(rest);
            assert(utf8(s@)[n as int] == utf8(rest)[0]);
            is_char_boundary_iff_not_is_continuation_byte(utf8(s@), n as int);
        }
    }
    let (a, b) = split_text(s, n);
    proof {
        assert(utf8(a@) =~= utf8(prefix@));
        lemma_utf8_injective(a@, prefix@);
    }
    b
}

/// What follows `prefix`, where the text starts with it.
pub fn strip_prefix(s: &str, prefix: &str) -> (r: Option<String>)
    ensures
        match r {
            Some(rest) => s@ == prefix@ + rest@,
            None => !prefix@.is_prefix_of(s@),
        },
{
    if starts_with(s, prefix) {
        Some(after_prefix(s, prefix))
    } else {
        None
    }
}

/// A text splits at the first separator in one way only.
pub proof fn lemma_split_unique(
    s: Seq<char>,
    sep: Seq<char>,
    a: Seq<char>,
    b: Seq<char>,
    c: Seq<char>,
    d: Seq<char>,
)
    requires
        split_at_first(s, sep, a, b),
        split_at_first(s, sep, c, d),
    ensures
        a == c,
        b == d,
{
    assert(s.subrange(a.len() as int, a.len() as int + sep.len() as int) =~= sep);
    assert(s.subrange(c.len() as int, c.len() as int + sep.len() as int) =~= sep);
    assert(stands_at(s, sep, a.len() as int));
    assert(stands_at(s, sep, c.len() as int));
    assert(a.len() == c.len());
    assert(a =~= s.take(a.len() as int));
    assert(c =~= s.take(a.len() as int));
    assert(b =~= s.skip(a.len() as int + sep.len() as int));
    assert(d =~= s.skip(a.len() as int + sep.len() as int));
}

/// The texts joined end to end.
pub open spec fn joined(parts: Seq<Seq<char>>) -> Seq<char>
    decreases parts.len(),
{
    if parts.len() == 0 {
        seq![]
    } else {
        joined(parts.drop_last()) + parts.last()
    }
}

/// Two texts joined.
pub fn join2(a: &str, b: &str) -> (r: String)
    ensures
        r@ == a@ + b@,
{
    let mut s = String::from_str(a);
    s.append(b);
    s
}

/// Three texts joined.
pub fn join3(a: &str, b: &str, c: &str) -> (r: String)
    ensures
        r@ == a@ + b@ + c@,
{
    let mut s = String::from_str(a);
    s.append(b);
    s.append(c);
    s
}

/// The characters that Unicode calls white space.
pub open spec fn white(c: char) -> bool {
    let n = c as u32;
    ||| 9 <= n <= 13
    ||| n == 0x20
    ||| n == 0x85
    ||| n == 0xa0
    ||| n == 0x1680
    ||| 0x2000 <= n <= 0x200a
    ||| n == 0x2028
    ||| n == 0x2029
    ||| n == 0x202f
    ||| n == 0x205f
    ||| n == 0x3000
}

/// Whether a character is white space.
fn is_white(c: char) -> (r: bool)
    ensures
        r == white(c),
{
    let n: u32 = c as u32;
    (9 <= n && n <= 13) || n == 0x20 || n == 0x85 || n == 0xa0 || n == 0x1680 || (0x2000 <= n && n
        <= 0x200a) || n == 0x2028 || n == 0x2029 || n == 0x202f || n == 0x205f || n == 0x3000
}

/// A text without the white space before and after it.
pub open spec fn trimmed(s: Seq<char>) -> Seq<char>
    decreases s.len(),
{
    if s.len() == 0 {
        s
    } else if white(s[0]) {
        trimmed(s.skip(1))
    } else if white(s.last()) {
        trimmed(s.drop_last())
    } else {
        s
    }
}

/// A text without the white space before and after it.
pub fn trim(s: &str) -> (r: String)
    ensures
        r@ == trimmed(s@),
{
    let n: usize = s.unicode_len();
    let mut from: usize = 0;
    let mut to: usize = n;
    assert(s@.subrange(0, n as int) =~= s@);
    while from < to && is_white(s.get_char(from))
        invariant
            from <= to <= n,
            to == n,
            n == s@.len(),
            trimmed(s@.subrange(from as int, to as int)) == trimmed(s@),
        decreases to - from,
    {
        assert(s@.subrange(from as int, to as int).skip(1) =~= s@.subrange(from + 1, to as int));
        from += 1;
    }
    while from < to && is_white(s.get_char(to - 1))
        invariant
            from <= to <= n,
            n == s@.len(),
            from < to ==> !white(s@[from as int]),
            trimmed(s@.subrange(from as int, to as int)) == trimmed(s@),
        decreases to - from,
    {
        assert(s@.subrange(from as int, to as int).drop_last() =~= s@.subrange(
            from as int,
            to - 1,
        ));
        to -= 1;
    }
    String::from_str(s.substring_char(from, to))
}

/// Whether `needle` stands anywhere in a text.
pub fn contains(s: &str, needle: &str) -> (r: bool)
    requires
        needle@.len() > 0,
    ensures
        r == exists|j: int| stands_at(s@, needle@, j),
{
    match split_once(s, needle) {
        Some((a, b)) => {
            proof {
                let j = a@.len() as int;
                assert(s@.subrange(j, j + needle@.len()) =~= needle@);
                assert(stands_at(s@, needle@, j));
            }
            true
        },
        None => false,
    }
}

/// The number that decimal digits spell.
pub open spec fn digits_value(s: Seq<char>) -> nat
    decreases s.len(),
{
    if s.len() == 0 {
        0
    } else {
        10 * digits_value(s.drop_last()) + (s.last() as nat - 48) as nat
    }
}

/// Nothing but decimal digits.
pub open spec fn all_digits(s: Seq<char>) -> bool {
    forall|i: int| 0 <= i < s.len() ==> '0' <= #[trigger] s[i] <= '9'
}

/// The number that a text spells: digits, with a plus sign before them or
/// without, of a value that 32 bits hold.
pub open spec fn u32_of(s: Seq<char>) -> Option<u32> {
    let digits = if s.len() > 0 && s[0] == '+' {
        s.skip(1)
    } else {
        s
    };
    if digits.len() > 0 && all_digits(digits) && digits_value(digits) <= u32::MAX {
        Some(digits_value(digits) as u32)
    } else {
        None
    }
}

/// More digits spell no smaller number.
proof fn lemma_digits_grow(s: Seq<char>, i: int)
    requires
        0 <= i <= s.len(),
        all_digits(s),
    ensures
        digits_value(s.take(i)) <= digits_value(s),
    decreases s.len(),
{
    if i == s.len() {
        assert(s.take(i) =~= s);
    } else {
        lemma_digits_grow(s.drop_last(), i);
        assert(s.drop_last().take(i) =~= s.take(i));
    }
}

/// The number that a text spells.
pub fn parse_u32(s: &str) -> (r: Option<u32>)
    ensures
        r == u32_of(s@),
{
    let n: usize = s.unicode_len();
    let from: usize = if n > 0 && s.get_char(0) == '+' {
        1
    } else {
        0
    };
    let ghost digits = s@.skip(from as int);
    assert(from == 0 ==> digits =~= s@);
    if from == n {
        return None;
    }
    let mut value: u64 = 0;
    let mut i: usize = from;
    assert(digits.take(0) =~= seq![]);
    while i < n
        invariant
            from <= i <= n,
            n == s@.len(),
            from < n,
            digits == s@.skip(from as int),
            u32_of(s@) == if all_digits(digits) && digits_value(digits) <= u32::MAX {
                Some(digits_value(digits) as u32)
            } else {
                None
            },
            all_digits(digits.take(i - from)),
            value == digits_value(digits.take(i - from)),
            value <= u32::MAX,
        decreases n - i,
    {
        let c = s.get_char(i);
        assert(c == digits[i - from]);
        if c < '0' || c > '9' {
            assert(!all_digits(digits));
            return None;
        }
        let ghost before = digits.take(i - from);
        let ghost after = digits.take(i + 1 - from);
        assert(after.drop_last() =~= before);
        assert(after.last() == c);
        value = 10 * value + (c as u64 - 48);
        assert(value == digits_value(after));
        assert(all_digits(after)) by {
            assert forall|k: int| 0 <= k < after.len() implies '0' <= #[trigger] after[k] <= '9' by {
                if k < before.len() {
                    assert(after[k] == before[k]);
                }
            }
        }
        if value > u32::MAX as u64 {
            proof {
                if all_digits(digits) {
                    lemma_digits_grow(digits, i + 1 - from);
                }
            }
            return None;
        }
        i += 1;
    }
    assert(digits.take(n - from) =~= digits);
    Some(value as u32)
}

} // verus!
