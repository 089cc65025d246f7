use vstd::prelude::*;
use vstd::string::*;

verus! {

/// Appends every byte of `src` to `dst`, in order.
pub fn push_bytes(dst: &mut Vec<u8>, src: &[u8])
    ensures
        final(dst)@ == old(dst)@ + src@,
{
    let ghost orig = dst@;
    let n = src.len();
    for i in 0..n
        invariant
            n == src@.len(),
            dst@ == orig + src@.subrange(0, i as int),
    {
        dst.push(src[i]);
        proof {
            assert(dst@ =~= orig + src@.subrange(0, i + 1));
        }
    }
    proof {
        assert(dst@ =~= orig + src@);
    }
}

/// Compares two byte slices for equality.
pub fn bytes_eq(a: &[u8], b: &[u8]) -> (r: bool)
    ensures
        r == (a@ == b@),
{
    if a.len() != b.len() {
        return false;
    }
    let n = a.len();
    for i in 0..n
        invariant
            n == a@.len() == b@.len(),
            forall|j: int| 0 <= j < i ==> a@[j] == b@[j],
    {
        if a[i] != b[i] {
            return false;
        }
    }
    proof {
        assert(a@ =~= b@);
    }
    true
}

/// Compares two string slices for equality of their character sequences.
pub fn str_eq(a: &str, b: &str) -> (r: bool)
    ensures
        r == (a@ == b@),
{
    let r = bytes_eq(a.as_bytes(), b.as_bytes());
    proof {
        vstd::utf8::encode_utf8_decode_utf8(a@);
        vstd::utf8::encode_utf8_decode_utf8(b@);
    }
    r
}

/// True when the last character of `s` is `c`.
pub fn ends_with_char(s: &str, c: char) -> (r: bool)
    ensures
        r == (s@.len() > 0 && s@.last() == c),
{
    let n = s.unicode_len();
    if n == 0 {
        false
    } else {
        s.get_char(n - 1) == c
    }
}

/// True when the first character of `s` is `c`.
pub fn starts_with_char(s: &str, c: char) -> (r: bool)
    ensures
        r == (s@.len() > 0 && s@.first() == c),
{
    let n = s.unicode_len();
    if n == 0 {
        false
    } else {
        s.get_char(0) == c
    }
}

/// True when `p` is a prefix of `s`.
pub fn starts_with_str(s: &str, p: &str) -> (r: bool)
    ensures
        r == p@.is_prefix_of(s@),
{
    let n = s.unicode_len();
    let m = p.unicode_len();
    if m > n {
        return false;
    }
    for i in 0..m
        invariant
            m <= n == s@.len(),
            m == p@.len(),
            forall|j: int| 0 <= j < i ==> s@[j] == p@[j],
    {
        if s.get_char(i) != p.get_char(i) {
            return false;
        }
    }
    proof {
        assert(s@.subrange(0, m as int) =~= p@);
    }
    true
}

/// The views of a sequence of strings.
pub open spec fn strs_view(v: Seq<String>) -> Seq<Seq<char>> {
    v.map_values(|x: String| x@)
}

/// The position of the first occurrence of `c` in `s`, or -1 when `c` does
/// not occur.
pub open spec fn spec_find_char(s: Seq<char>, c: char) -> int
    decreases s.len(),
{
    if s.len() == 0 {
        -1
    } else if s[0] == c {
        0
    } else {
        let r = spec_find_char(s.skip(1), c);
        if r < 0 {
            -1
        } else {
            r + 1
        }
    }
}

pub proof fn lemma_find_char_range(s: Seq<char>, c: char)
    ensures
        -1 <= spec_find_char(s, c) < s.len(),
        spec_find_char(s, c) >= 0 ==> s[spec_find_char(s, c)] == c,
        forall|j: int|
            0 <= j < s.len() && (spec_find_char(s, c) < 0 || j < spec_find_char(s, c))
                ==> #[trigger] s[j] != c,
    decreases s.len(),
{
    if s.len() > 0 && s[0] != c {
        lemma_find_char_range(s.skip(1), c);
        assert(forall|j: int| 0 <= j < s.skip(1).len() ==> #[trigger] s.skip(1)[j] == s[j + 1]);
        assert forall|j: int|
            0 <= j < s.len() && (spec_find_char(s, c) < 0 || j < spec_find_char(s, c)) implies #[trigger] s[j]
            != c by {
            if j > 0 {
                assert(s.skip(1)[j - 1] == s[j]);
            }
        }
    }
}

fn find_char(s: &str, c: char) -> (r: Option<usize>)
    ensures
        r matches Some(i) ==> spec_find_char(s@, c) == i as int,
        r is None ==> spec_find_char(s@, c) == -1,
{
    let n = s.unicode_len();
    for i in 0..n
        invariant
            n == s@.len(),
            forall|j: int| 0 <= j < i ==> s@[j] != c,
    {
        if s.get_char(i) == c {
            proof {
                lemma_find_char_first(s@, c, i as int);
            }
            return Some(i);
        }
    }
    proof {
        lemma_find_char_range(s@, c);
        if spec_find_char(s@, c) >= 0 {
            assert(s@[spec_find_char(s@, c)] == c);
        }
    }
    None
}

proof fn lemma_find_char_first(s: Seq<char>, c: char, i: int)
    requires
        0 <= i < s.len(),
        s[i] == c,
        forall|j: int| 0 <= j < i ==> s[j] != c,
    ensures
        spec_find_char(s, c) == i,
    decreases i,
{
    if i > 0 {
        lemma_find_char_first(s.skip(1), c, i - 1);
        assert(forall|j: int| 0 <= j < s.skip(1).len() ==> #[trigger] s.skip(1)[j] == s[j + 1]);
    }
}

/// The pieces of `s` between occurrences of `c`; adjacent occurrences and
/// occurrences at either end yield empty pieces.
pub open spec fn spec_split_char(s: Seq<char>, c: char) -> Seq<Seq<char>>
    decreases s.len(),
{
    let i = spec_find_char(s, c);
    if !(0 <= i < s.len()) {
        seq![s]
    } else {
        seq![s.take(i)] + spec_split_char(s.skip(i + 1), c)
    }
}

/// Splits `s` at every occurrence of `c`.
pub fn split_char(s: &str, c: char) -> (r: Vec<String>)
    ensures
        strs_view(r@) == spec_split_char(s@, c),
        r@.len() >= 1,
    decreases s@.len(),
{
    proof {
        lemma_find_char_range(s@, c);
    }
    let n = s.unicode_len();
    match find_char(s, c) {
        None => {
            let mut r: Vec<String> = Vec::new();
            r.push(String::from_str(s));
            proof {
                assert(strs_view(r@) =~= seq![s@]);
            }
            r
        },
        Some(i) => {
            let piece = String::from_str(s.substring_char(0, i));
            let mut r = split_char(s.substring_char(i + 1, n), c);
            r.insert(0, piece);
            proof {
                assert(s@.subrange(0, i as int) =~= s@.take(i as int));
                assert(s@.subrange(i + 1, n as int) =~= s@.skip(i + 1));
                assert(strs_view(r@) =~= seq![s@.take(i as int)] + spec_split_char(
                    s@.skip(i + 1),
                    c,
                ));
            }
            r
        },
    }
}

/// `pieces` joined with `c` between them.
pub open spec fn spec_join_char(pieces: Seq<Seq<char>>, c: char) -> Seq<char>
    decreases pieces.len(),
{
    if pieces.len() == 0 {
        Seq::empty()
    } else if pieces.len() == 1 {
        pieces[0]
    } else {
        pieces[0] + seq![c] + spec_join_char(pieces.skip(1), c)
    }
}

pub proof fn lemma_join_char_push(pieces: Seq<Seq<char>>, y: Seq<char>, c: char)
    requires
        pieces.len() >= 1,
    ensures
        spec_join_char(pieces.push(y), c) == spec_join_char(pieces, c) + seq![c] + y,
    decreases pieces.len(),
{
    if pieces.len() == 1 {
        assert(pieces.push(y)[0] == pieces[0]);
        assert(pieces.push(y).skip(1) =~= seq![y]);
        assert(spec_join_char(seq![y], c) == y);
        assert(spec_join_char(pieces.push(y), c) =~= spec_join_char(pieces, c) + seq![c] + y);
    } else {
        lemma_join_char_push(pieces.skip(1), y, c);
        assert(pieces.push(y).skip(1) =~= pieces.skip(1).push(y));
        assert(pieces.push(y)[0] == pieces[0]);
        assert(spec_join_char(pieces.push(y), c) =~= spec_join_char(pieces, c) + seq![c] + y);
    }
}

/// Joins the pieces in positions `from..to` with `c` between them.
pub fn join_range(pieces: &Vec<String>, from: usize, to: usize, c: char, sep: &str) -> (r: String)
    requires
        from <= to <= pieces@.len(),
        sep@ == seq![c],
    ensures
        r@ == spec_join_char(strs_view(pieces@).subrange(from as int, to as int), c),
{
    let mut r = String::new();
    if from == to {
        proof {
            assert(strs_view(pieces@).subrange(from as int, to as int) =~= Seq::<Seq<
                char,
            >>::empty());
        }
        return r;
    }
    r.append(pieces[from].as_str());
    proof {
        assert(strs_view(pieces@).subrange(from as int, from + 1) =~= seq![pieces@[from as int]@]);
    }
    let mut i = from + 1;
    while i < to
        invariant
            from < i <= to <= pieces@.len(),
            sep@ == seq![c],
            r@ == spec_join_char(strs_view(pieces@).subrange(from as int, i as int), c),
        decreases to - i,
    {
        r.append(sep);
        r.append(pieces[i].as_str());
        proof {
            let prev = strs_view(pieces@).subrange(from as int, i as int);
            assert(strs_view(pieces@).subrange(from as int, i + 1) =~= prev.push(
                pieces@[i as int]@,
            ));
            lemma_join_char_push(prev, pieces@[i as int]@, c);
        }
        i = i + 1;
    }
    r
}

/// `s` without its leading occurrences of `c`.
pub open spec fn spec_trim_start_char(s: Seq<char>, c: char) -> Seq<char>
    decreases s.len(),
{
    if s.len() > 0 && s[0] == c {
        spec_trim_start_char(s.skip(1), c)
    } else {
        s
    }
}

pub fn trim_start_char(s: &str, c: char) -> (r: String)
    ensures
        r@ == spec_trim_start_char(s@, c),
{
    let n = s.unicode_len();
    let mut i: usize = 0;
    proof {
        assert(s@.skip(0) =~= s@);
    }
    while i < n && s.get_char(i) == c
        invariant
            i <= n == s@.len(),
            spec_trim_start_char(s@, c) == spec_trim_start_char(s@.skip(i as int), c),
            forall|j: int| 0 <= j < i ==> s@[j] == c,
        decreases n - i,
    {
        proof {
            assert(s@.skip(i as int).skip(1) =~= s@.skip(i + 1));
        }
        i = i + 1;
    }
    let r = String::from_str(s.substring_char(i, n));
    proof {
        assert(s@.subrange(i as int, n as int) =~= s@.skip(i as int));
    }
    r
}

/// `s` without its trailing occurrences of `c`.
pub open spec fn spec_trim_end_char(s: Seq<char>, c: char) -> Seq<char>
    decreases s.len(),
{
    if s.len() > 0 && s.last() == c {
        spec_trim_end_char(s.drop_last(), c)
    } else {
        s
    }
}

pub fn trim_end_char(s: &str, c: char) -> (r: String)
    ensures
        r@ == spec_trim_end_char(s@, c),
{
    let n = s.unicode_len();
    let mut i: usize = n;
    proof {
        assert(s@.take(n as int) =~= s@);
    }
    while i > 0 && s.get_char(i - 1) == c
        invariant
            i <= n == s@.len(),
            spec_trim_end_char(s@, c) == spec_trim_end_char(s@.take(i as int), c),
            forall|j: int| i <= j < n ==> s@[j] == c,
        decreases i,
    {
        proof {
            assert(s@.take(i as int).drop_last() =~= s@.take(i - 1));
            assert(s@.take(i as int).last() == s@[i - 1]);
        }
        i = i - 1;
    }
    let r = String::from_str(s.substring_char(0, i));
    proof {
        assert(s@.subrange(0, i as int) =~= s@.take(i as int));
        if i > 0 {
            assert(s@.take(i as int).last() == s@[i - 1]);
        }
    }
    r
}

/// `s` split at the first occurrence of `c`: the part before it and, when it
/// occurs, the part after it.
pub fn split_once_char(s: &str, c: char) -> (r: (String, Option<String>))
    ensures
        ({
            let i = spec_find_char(s@, c);
            if i < 0 {
                r.0@ == s@ && r.1 is None
            } else {
                &&& r.0@ == s@.take(i)
                &&& r.1 is Some
                &&& r.1.unwrap()@ == s@.skip(i + 1)
            }
        }),
{
    proof {
        lemma_find_char_range(s@, c);
    }
    let n = s.unicode_len();
    match find_char(s, c) {
        None => (String::from_str(s), None),
        Some(i) => {
            let before = String::from_str(s.substring_char(0, i));
            let after = String::from_str(s.substring_char(i + 1, n));
            proof {
                assert(s@.subrange(0, i as int) =~= s@.take(i as int));
                assert(s@.subrange(i + 1, n as int) =~= s@.skip(i + 1));
            }
            (before, Some(after))
        },
    }
}

/// The numeric value of a decimal digit string as `str::parse::<u16>` reads
/// it: an optional leading plus sign, then at least one ASCII digit, and a
/// value of at most 65535.
pub open spec fn spec_parse_u16(s: Seq<char>) -> Option<u16> {
    if s.len() > 0 && s[0] == '+' {
        spec_parse_digits(s.skip(1))
    } else {
        spec_parse_digits(s)
    }
}

/// The value of a nonempty all-digit string of value at most 65535.
pub open spec fn spec_parse_digits(digits: Seq<char>) -> Option<u16> {
    if digits.len() > 0 && (forall|j: int|
        0 <= j < digits.len() ==> is_digit_char(#[trigger] digits[j])) && spec_digits_value(digits)
        <= 65535 {
        Some(spec_digits_value(digits) as u16)
    } else {
        None
    }
}

pub open spec fn is_digit_char(c: char) -> bool {
    '0' <= c <= '9'
}

/// The value of a sequence of ASCII digits.
pub open spec fn spec_digits_value(s: Seq<char>) -> nat
    decreases s.len(),
{
    if s.len() == 0 {
        0
    } else {
        (spec_digits_value(s.drop_last()) * 10 + (s.last() as u32 - '0' as u32)) as nat
    }
}

/// Parses a decimal number as `str::parse::<u16>` does.
pub fn parse_u16(s: &str) -> (r: Option<u16>)
    ensures
        r == spec_parse_u16(s@),
{
    let n = s.unicode_len();
    let start: usize = if n > 0 && s.get_char(0) == '+' {
        1
    } else {
        0
    };
    let ghost digits = if s@.len() > 0 && s@[0] == '+' {
        s@.skip(1)
    } else {
        s@
    };
    proof {
        assert(digits =~= s@.subrange(start as int, n as int));
    }
    if n == start {
        return None;
    }
    let mut value: u32 = 0;
    let mut i = start;
    while i < n
        invariant
            start <= i <= n == s@.len(),
            start == 1 <==> (s@.len() > 0 && s@[0] == '+'),
            start == 0 || start == 1,
            digits == (if s@.len() > 0 && s@[0] == '+' {
                s@.skip(1)
            } else {
                s@
            }),
            digits == s@.subrange(start as int, n as int),
            forall|j: int| start <= j < i ==> is_digit_char(s@[j]),
            value == spec_digits_value(s@.subrange(start as int, i as int)),
            value <= 65535,
        decreases n - i,
    {
        let c = s.get_char(i);
        if c < '0' || c > '9' {
            proof {
                assert(digits[i - start] == s@[i as int]);
                assert(!is_digit_char(digits[i - start]));
                assert(spec_parse_digits(digits) is None);
            }
            return None;
        }
        let d = (c as u32) - 48;
        let next: u32 = value * 10 + d;
        proof {
            assert(s@.subrange(start as int, i + 1).drop_last() =~= s@.subrange(
                start as int,
                i as int,
            ));
            assert(s@.subrange(start as int, i + 1).last() == s@[i as int]);
        }
        if next > 65535 {
            proof {
                if forall|j: int| 0 <= j < digits.len() ==> is_digit_char(#[trigger] digits[j]) {
                    lemma_digits_value_grows(digits, i + 1 - start);
                    assert(digits.subrange(0, i + 1 - start) =~= s@.subrange(start as int, i + 1));
                }
                assert(spec_parse_digits(digits) is None);
            }
            return None;
        }
        value = next;
        i = i + 1;
    }
    proof {
        assert(s@.subrange(start as int, n as int) =~= digits);
        assert(forall|j: int| 0 <= j < digits.len() ==> is_digit_char(#[trigger] digits[j]));
        assert(spec_parse_digits(digits) == Some(value as u16));
    }
    Some(value as u16)
}

/// A digit prefix of a digit string never exceeds the whole string's value.
proof fn lemma_digits_value_grows(s: Seq<char>, k: int)
    requires
        0 <= k <= s.len(),
        forall|j: int| 0 <= j < s.len() ==> is_digit_char(#[trigger] s[j]),
    ensures
        spec_digits_value(s.subrange(0, k)) <= spec_digits_value(s),
    decreases s.len() - k,
{
    if k < s.len() {
        lemma_digits_value_grows(s, k + 1);
        assert(s.subrange(0, k + 1).drop_last() =~= s.subrange(0, k));
        assert(is_digit_char(s.subrange(0, k + 1).last()));
        assert(spec_digits_value(s.subrange(0, k)) <= spec_digits_value(s.subrange(0, k + 1)));
    } else {
        assert(s.subrange(0, k) =~= s);
    }
}

/// The decimal digit characters of `n`, most significant first.
pub open spec fn dec_chars_of(n: nat) -> Seq<char>
    decreases n,
{
    if n < 10 {
        seq![spec_digit_char(n)]
    } else {
        dec_chars_of(n / 10).push(spec_digit_char(n % 10))
    }
}

/// The character of a single decimal digit.
pub open spec fn spec_digit_char(d: nat) -> char {
    if d == 0 {
        '0'
    } else if d == 1 {
        '1'
    } else if d == 2 {
        '2'
    } else if d == 3 {
        '3'
    } else if d == 4 {
        '4'
    } else if d == 5 {
        '5'
    } else if d == 6 {
        '6'
    } else if d == 7 {
        '7'
    } else if d == 8 {
        '8'
    } else {
        '9'
    }
}

fn digit_str(d: u64) -> (s: &'static str)
    requires
        d < 10,
    ensures
        s@ == seq![spec_digit_char(d as nat)],
{
    proof {
        reveal_strlit("0");
        reveal_strlit("1");
        reveal_strlit("2");
        reveal_strlit("3");
        reveal_strlit("4");
        reveal_strlit("5");
        reveal_strlit("6");
        reveal_strlit("7");
        reveal_strlit("8");
        reveal_strlit("9");
    }
    match d {
        0 => "0",
        1 => "1",
        2 => "2",
        3 => "3",
        4 => "4",
        5 => "5",
        6 => "6",
        7 => "7",
        8 => "8",
        _ => "9",
    }
}

/// Formats `n` in decimal.
pub fn dec_string(n: u64) -> (r: String)
    ensures
        r@ == dec_chars_of(n as nat),
{
    let mut rev: Vec<u64> = Vec::new();
    let ghost mut acc: Seq<char> = Seq::empty();
    let mut m = n;
    proof {
        assert(dec_chars_of(n as nat) =~= dec_chars_of(n as nat) + acc);
    }
    loop
        invariant_except_break
            forall|j: int| 0 <= j < rev@.len() ==> rev@[j] < 10,
            acc.len() == rev@.len(),
            forall|j: int|
                0 <= j < acc.len() ==> #[trigger] acc[j] == spec_digit_char(
                    rev@[rev@.len() - 1 - j] as nat,
                ),
            dec_chars_of(n as nat) == dec_chars_of(m as nat) + acc,
        ensures
            forall|j: int| 0 <= j < rev@.len() ==> rev@[j] < 10,
            acc.len() == rev@.len(),
            forall|j: int|
                0 <= j < acc.len() ==> #[trigger] acc[j] == spec_digit_char(
                    rev@[rev@.len() - 1 - j] as nat,
                ),
            dec_chars_of(n as nat) == acc,
        decreases m,
    {
        rev.push(m % 10);
        proof {
            acc = seq![spec_digit_char((m % 10) as nat)] + acc;
        }
        if m < 10 {
            proof {
                assert(dec_chars_of(m as nat) =~= seq![spec_digit_char((m % 10) as nat)]);
                assert(dec_chars_of(n as nat) =~= acc);
            }
            break;
        }
        proof {
            assert(dec_chars_of(m as nat) == dec_chars_of((m / 10) as nat).push(
                spec_digit_char((m % 10) as nat),
            ));
            assert(dec_chars_of((m / 10) as nat) + acc =~= dec_chars_of(n as nat));
        }
        m = m / 10;
    }
    let mut r = String::new();
    let len = rev.len();
    let mut i = len;
    while i > 0
        invariant
            i <= len == rev@.len() == acc.len(),
            forall|j: int| 0 <= j < rev@.len() ==> rev@[j] < 10,
            forall|j: int|
                0 <= j < acc.len() ==> #[trigger] acc[j] == spec_digit_char(
                    rev@[rev@.len() - 1 - j] as nat,
                ),
            r@ == acc.subrange(0, len - i),
        decreases i,
    {
        i = i - 1;
        r.append(digit_str(rev[i]));
        proof {
            assert(acc[len - 1 - i] == spec_digit_char(rev@[i as int] as nat));
            assert(r@ =~= acc.subrange(0, len - i));
        }
    }
    proof {
        assert(acc.subrange(0, len as int) =~= acc);
    }
    r
}

/// The uppercase hexadecimal character of a value below 16.
pub open spec fn spec_hex_char(d: nat) -> char {
    if d < 10 {
        spec_digit_char(d)
    } else if d == 10 {
        'A'
    } else if d == 11 {
        'B'
    } else if d == 12 {
        'C'
    } else if d == 13 {
        'D'
    } else if d == 14 {
        'E'
    } else {
        'F'
    }
}

/// Two uppercase hexadecimal characters for every byte, in order.
pub open spec fn spec_hex_upper(v: Seq<u8>) -> Seq<char>
    decreases v.len(),
{
    if v.len() == 0 {
        Seq::empty()
    } else {
        spec_hex_upper(v.drop_last()) + seq![
            spec_hex_char((v.last() / 16) as nat),
            spec_hex_char((v.last() % 16) as nat),
        ]
    }
}

fn hex_char_str(d: u8) -> (s: &'static str)
    requires
        d < 16,
    ensures
        s@ == seq![spec_hex_char(d as nat)],
{
    if d < 10 {
        digit_str(d as u64)
    } else {
        proof {
            reveal_strlit("A");
            reveal_strlit("B");
            reveal_strlit("C");
            reveal_strlit("D");
            reveal_strlit("E");
            reveal_strlit("F");
        }
        match d {
            10 => "A",
            11 => "B",
            12 => "C",
            13 => "D",
            14 => "E",
            _ => "F",
        }
    }
}

/// Formats bytes as uppercase hexadecimal, two characters a byte.
pub fn hex_upper(v: &[u8]) -> (r: String)
    ensures
        r@ == spec_hex_upper(v@),
{
    let mut r = String::new();
    let n = v.len();
    proof {
        assert(v@.subrange(0, 0) =~= Seq::<u8>::empty());
    }
    for i in 0..n
        invariant
            n == v@.len(),
            r@ == spec_hex_upper(v@.subrange(0, i as int)),
    {
        let b = v[i];
        r.append(hex_char_str(b / 16));
        r.append(hex_char_str(b % 16));
        proof {
            assert(v@.subrange(0, i + 1).drop_last() =~= v@.subrange(0, i as int));
            assert(v@.subrange(0, i + 1).last() == v@[i as int]);
        }
    }
    proof {
        assert(v@.subrange(0, n as int) =~= v@);
    }
    r
}

/// The decimal digit bytes of `n`, most significant first.
pub open spec fn dec_bytes_of(n: nat) -> Seq<u8>
    decreases n,
{
    if n < 10 {
        seq![(48 + n) as u8]
    } else {
        dec_bytes_of(n / 10).push((48 + n % 10) as u8)
    }
}

/// Formats `n` in decimal.
pub fn dec_bytes(n: u64) -> (v: Vec<u8>)
    ensures
        v@ == dec_bytes_of(n as nat),
{
    let mut rev: Vec<u8> = Vec::new();
    let mut m = n;
    loop
        invariant_except_break
            dec_bytes_of(n as nat) == dec_bytes_of(m as nat) + rev@.reverse(),
        ensures
            dec_bytes_of(n as nat) == rev@.reverse(),
        decreases m,
    {
        let ghost before = rev@;
        rev.push(48 + (m % 10) as u8);
        proof {
            assert(rev@.reverse() =~= seq![(48 + m as nat % 10) as u8] + before.reverse());
        }
        if m < 10 {
            proof {
                assert(dec_bytes_of(m as nat) =~= seq![(48 + m as nat % 10) as u8]);
                assert(dec_bytes_of(n as nat) =~= rev@.reverse());
            }
            break;
        }
        proof {
            assert(dec_bytes_of((m / 10) as nat) + rev@.reverse() =~= dec_bytes_of(m as nat)
                + before.reverse());
        }
        m = m / 10;
    }
    let mut v: Vec<u8> = Vec::new();
    let mut i = rev.len();
    while i > 0
        invariant
            i <= rev@.len(),
            v@ == rev@.subrange(i as int, rev@.len() as int).reverse(),
        decreases i,
    {
        i = i - 1;
        let ghost before = v@;
        v.push(rev[i]);
        proof {
            assert(v@ =~= rev@.subrange(i as int, rev@.len() as int).reverse());
        }
    }
    proof {
        assert(rev@.subrange(0, rev@.len() as int) =~= rev@);
        assert(v@ =~= dec_bytes_of(n as nat));
    }
    v
}

} // verus!
