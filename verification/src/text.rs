//! Text: characters, comparing, splitting and trimming, decimal and
//! hexadecimal digits.

use vstd::prelude::*;

verus! {

/// `String::push` appends one character at the end.
pub assume_specification[ std::string::String::push ](s: &mut std::string::String, c: char)
    ensures
        final(s)@ == old(s)@.push(c),
;

/// The characters of `s`, in order.
pub fn chars_of(s: &str) -> (r: Vec<char>)
    ensures
        r@ == s@,
{
    let mut v: Vec<char> = Vec::new();
    for c in it: s.chars()
        invariant
            v@ == s@.take(it.index() as int),
            it.seq() == s@,
    {
        v.push(c);
        assert(s@.take(it.index() + 1) =~= s@.take(it.index() as int).push(c));
    }
    assert(s@.take(s@.len() as int) =~= s@);
    v
}

/// The string made of `chars`.
pub fn string_of(chars: &[char]) -> (r: String)
    ensures
        r@ == chars@,
{
    let mut s = String::new();
    let mut i: usize = 0;
    while i < chars.len()
        invariant
            i <= chars.len(),
            s@ == chars@.take(i as int),
        decreases chars.len() - i,
    {
        s.push(chars[i]);
        assert(chars@.take(i + 1) =~= chars@.take(i as int).push(chars@[i as int]));
        i = i + 1;
    }
    assert(chars@.take(chars@.len() as int) =~= chars@);
    s
}

/// Whether `a` and `b` hold the same characters.
pub fn same_text(a: &str, b: &str) -> (r: bool)
    ensures
        r == (a@ == b@),
{
    let x = chars_of(a);
    let y = chars_of(b);
    if x.len() != y.len() {
        return false;
    }
    let mut i: usize = 0;
    while i < x.len()
        invariant
            i <= x.len(),
            x.len() == y.len(),
            x@ == a@,
            y@ == b@,
            forall|j: int| 0 <= j < i ==> x@[j] == y@[j],
        decreases x.len() - i,
    {
        if x[i] != y[i] {
            return false;
        }
        i = i + 1;
    }
    assert(a@ =~= b@);
    true
}

// -- splitting ----------------------------------------------------------------

/// Whether `sep` occurs in `s` at `i` and nowhere before.
pub open spec fn is_first(s: Seq<char>, sep: char, i: int) -> bool {
    &&& 0 <= i < s.len()
    &&& s[i] == sep
    &&& forall|j: int| 0 <= j < i ==> s[j] != sep
}

/// The pieces of `s` between the occurrences of `sep`.
pub open spec fn split(s: Seq<char>, sep: char) -> Seq<Seq<char>>
    decreases s.len(),
{
    if exists|i: int| is_first(s, sep, i) {
        let i = choose|i: int| is_first(s, sep, i);
        seq![s.take(i)] + split(s.skip(i + 1), sep)
    } else {
        seq![s]
    }
}

/// A first occurrence of `sep` ends the first piece.
pub proof fn lemma_split_first(s: Seq<char>, sep: char, i: int)
    requires
        is_first(s, sep, i),
    ensures
        split(s, sep) == seq![s.take(i)] + split(s.skip(i + 1), sep),
{
    let k = choose|k: int| is_first(s, sep, k);
    assert(k == i);
}

/// Text without `sep` is one piece.
pub proof fn lemma_split_none(s: Seq<char>, sep: char)
    requires
        forall|j: int| 0 <= j < s.len() ==> s[j] != sep,
    ensures
        split(s, sep) == seq![s],
{
}

/// A piece without `sep`, then `sep`, then more text.
pub proof fn lemma_split_joined(p: Seq<char>, sep: char, rest: Seq<char>)
    requires
        forall|j: int| 0 <= j < p.len() ==> p[j] != sep,
    ensures
        split(p.push(sep) + rest, sep) == seq![p] + split(rest, sep),
{
    let s = p.push(sep) + rest;
    assert(is_first(s, sep, p.len() as int)) by {
        assert forall|j: int| 0 <= j < p.len() implies s[j] != sep by {
            assert(s[j] == p[j]);
        }
    }
    lemma_split_first(s, sep, p.len() as int);
    assert(s.take(p.len() as int) =~= p);
    assert(s.skip(p.len() as int + 1) =~= rest);
}

/// The pieces of `s`, joined again by `sep`.
pub open spec fn join(parts: Seq<Seq<char>>, sep: char) -> Seq<char>
    decreases parts.len(),
{
    if parts.len() == 0 {
        seq![]
    } else if parts.len() == 1 {
        parts[0]
    } else {
        parts[0].push(sep) + join(parts.skip(1), sep)
    }
}

/// Joining the pieces of `s` gives `s`.
pub proof fn lemma_join_split(s: Seq<char>, sep: char)
    ensures
        split(s, sep).len() >= 1,
        join(split(s, sep), sep) == s,
    decreases s.len(),
{
    if exists|i: int| is_first(s, sep, i) {
        let i = choose|i: int| is_first(s, sep, i);
        let rest = s.skip(i + 1);
        lemma_join_split(rest, sep);
        let parts = split(s, sep);
        assert(parts.skip(1) =~= split(rest, sep));
        assert(parts[0] == s.take(i));
        assert(s =~= s.take(i).push(sep) + rest);
    }
}

/// The pieces of `s` between the occurrences of `sep`.
pub fn split_at(s: &[char], sep: char) -> (r: Vec<Vec<char>>)
    ensures
        r.len() == split(s@, sep).len(),
        forall|i: int| 0 <= i < r.len() ==> (#[trigger] r[i])@ == split(s@, sep)[i],
{
    let mut r: Vec<Vec<char>> = Vec::new();
    let mut piece: Vec<char> = Vec::new();
    let mut i: usize = 0;
    let ghost mut start: int = 0;
    assert(s@.skip(0) =~= s@);
    while i < s.len()
        invariant
            0 <= start <= i <= s.len(),
            piece@ == s@.subrange(start, i as int),
            forall|j: int| 0 <= j < piece.len() ==> piece[j] != sep,
            split(s@, sep).len() == r.len() + split(s@.skip(start), sep).len(),
            forall|j: int| 0 <= j < r.len() ==> (#[trigger] r[j])@ == split(s@, sep)[j],
            forall|j: int|
                0 <= j < split(s@.skip(start), sep).len() ==> #[trigger] split(
                    s@.skip(start),
                    sep,
                )[j] == split(s@, sep)[j + r.len()],
        decreases s.len() - i,
    {
        if s[i] == sep {
            proof {
                let tail = s@.skip(start);
                let at = i - start;
                assert forall|j: int| 0 <= j < at implies tail[j] != sep by {
                    assert(tail[j] == piece[j]);
                }
                assert(is_first(tail, sep, at));
                lemma_split_first(tail, sep, at);
                assert(tail.take(at) =~= piece@);
                assert(tail.skip(at + 1) =~= s@.skip(i + 1));
                assert(split(tail, sep)[0] == piece@);
                let next = split(s@.skip(i + 1), sep);
                assert forall|j: int| 0 <= j < next.len() implies #[trigger] next[j] == split(
                    s@,
                    sep,
                )[j + r.len() + 1] by {
                    assert(split(tail, sep)[j + 1] == next[j]);
                }
                start = i + 1;
            }
            r.push(piece);
            piece = Vec::new();
        } else {
            piece.push(s[i]);
        }
        i = i + 1;
    }
    proof {
        assert(s@.skip(start) =~= piece@);
        lemma_split_none(piece@, sep);
        assert(split(s@.skip(start), sep)[0] == piece@);
    }
    r.push(piece);
    r
}

// -- white space --------------------------------------------------------------

/// Whether `c` is white space, as Unicode has it.
pub open spec fn white_space(c: char) -> bool {
    ||| 0x9 <= c as u32 <= 0xd
    ||| c as u32 == 0x20
    ||| c as u32 == 0x85
    ||| c as u32 == 0xa0
    ||| c as u32 == 0x1680
    ||| 0x2000 <= c as u32 <= 0x200a
    ||| c as u32 == 0x2028
    ||| c as u32 == 0x2029
    ||| c as u32 == 0x202f
    ||| c as u32 == 0x205f
    ||| c as u32 == 0x3000
}

/// Whether `c` is white space.
pub fn is_white_space(c: char) -> (r: bool)
    ensures
        r == white_space(c),
{
    let n: u32 = c as u32;
    (0x9 <= n && n <= 0xd) || n == 0x20 || n == 0x85 || n == 0xa0 || n == 0x1680 || (0x2000 <= n
        && n <= 0x200a) || n == 0x2028 || n == 0x2029 || n == 0x202f || n == 0x205f || n == 0x3000
}

/// Whether `s` holds nothing but white space.
pub open spec fn blank(s: Seq<char>) -> bool {
    forall|i: int| 0 <= i < s.len() ==> white_space(#[trigger] s[i])
}

/// Whether `s` is empty or holds nothing but white space.
pub fn is_blank(s: &[char]) -> (r: bool)
    ensures
        r == blank(s@),
{
    let mut i: usize = 0;
    while i < s.len()
        invariant
            i <= s.len(),
            forall|j: int| 0 <= j < i ==> white_space(#[trigger] s@[j]),
        decreases s.len() - i,
    {
        if !is_white_space(s[i]) {
            return false;
        }
        i = i + 1;
    }
    true
}

/// Whether `t` is `s` without the white space at its two ends.
pub open spec fn is_trimmed(s: Seq<char>, t: Seq<char>) -> bool {
    exists|i: int, j: int| #[trigger]
        trims(s, i, j) && t == s.subrange(i, j)
}

/// Whether all of `s` outside `i..j` is white space and `i..j` neither
/// starts nor ends with any.
pub open spec fn trims(s: Seq<char>, i: int, j: int) -> bool {
    &&& 0 <= i <= j <= s.len()
    &&& blank(s.take(i))
    &&& blank(s.skip(j))
    &&& i < j ==> !white_space(s[i]) && !white_space(s[j - 1])
}

/// `s` without the white space at its two ends.
pub open spec fn trimmed(s: Seq<char>) -> Seq<char> {
    choose|t: Seq<char>| is_trimmed(s, t)
}

/// There is one way to trim a text.
pub proof fn lemma_trimmed(s: Seq<char>, i: int, j: int)
    requires
        trims(s, i, j),
    ensures
        trimmed(s) == s.subrange(i, j),
{
    assert(is_trimmed(s, s.subrange(i, j)));
    let t = trimmed(s);
    assert(is_trimmed(s, t));
    let (a, b) = choose|a: int, b: int| #[trigger] trims(s, a, b) && t == s.subrange(a, b);
    assert forall|k: int| 0 <= k < a implies white_space(s[k]) by {
        assert(s.take(a)[k] == s[k]);
    }
    assert forall|k: int| 0 <= k < i implies white_space(s[k]) by {
        assert(s.take(i)[k] == s[k]);
    }
    assert forall|k: int| b <= k < s.len() implies white_space(s[k]) by {
        assert(s.skip(b)[k - b] == s[k]);
    }
    assert forall|k: int| j <= k < s.len() implies white_space(s[k]) by {
        assert(s.skip(j)[k - j] == s[k]);
    }
    if i < j {
        assert(a <= i) by {
            if i < a {
                assert(white_space(s[i]));
            }
        }
        assert(!white_space(s[i]));
        assert(b > i) by {
            if b <= i {
                assert(white_space(s[i]));
            }
        }
        assert(a == i) by {
            if a < i {
                assert(white_space(s[a]));
            }
        }
        assert(b == j) by {
            if b < j {
                assert(white_space(s[j - 1]));
            }
            if b > j {
                assert(white_space(s[b - 1]));
            }
        }
    } else {
        assert(a == b) by {
            if a < b {
                assert(white_space(s[a]));
            }
        }
        assert(s.subrange(a, b) =~= s.subrange(i, j));
    }
}

/// `s` without the white space at its two ends.
pub fn trim(s: &[char]) -> (r: Vec<char>)
    ensures
        r@ == trimmed(s@),
{
    let mut i: usize = 0;
    while i < s.len() && is_white_space(s[i])
        invariant
            i <= s.len(),
            blank(s@.take(i as int)),
        decreases s.len() - i,
    {
        assert(s@.take(i + 1) =~= s@.take(i as int).push(s@[i as int]));
        i = i + 1;
    }
    let mut j: usize = s.len();
    assert(blank(s@.skip(j as int)));
    while j > i && is_white_space(s[j - 1])
        invariant
            i <= j <= s.len(),
            blank(s@.skip(j as int)),
        decreases j,
    {
        proof {
            let t = s@.skip(j - 1);
            assert forall|k: int| 0 <= k < t.len() implies white_space(#[trigger] t[k]) by {
                if k > 0 {
                    assert(t[k] == s@.skip(j as int)[k - 1]);
                }
            }
        }
        j = j - 1;
    }
    let mut r: Vec<char> = Vec::new();
    let mut k: usize = i;
    while k < j
        invariant
            i <= k <= j <= s.len(),
            r@ == s@.subrange(i as int, k as int),
        decreases j - k,
    {
        r.push(s[k]);
        assert(s@.subrange(i as int, k + 1) =~= s@.subrange(i as int, k as int).push(
            s@[k as int],
        ));
        k = k + 1;
    }
    proof {
        lemma_trimmed(s@, i as int, j as int);
    }
    r
}

// -- decimal ------------------------------------------------------------------

/// The decimal digit `d`.
pub open spec fn digit_char(d: int) -> char {
    (48 + d) as char
}

/// Whether `c` is a decimal digit.
pub open spec fn is_digit(c: char) -> bool {
    48 <= c as u32 <= 57
}

/// The number `n` in decimal, with no leading zero.
pub open spec fn decimal(n: nat) -> Seq<char>
    decreases n,
{
    if n < 10 {
        seq![digit_char(n as int)]
    } else {
        decimal(n / 10).push(digit_char((n % 10) as int))
    }
}

/// The number that the decimal digits `s` stand for.
pub open spec fn decimal_value(s: Seq<char>) -> nat
    decreases s.len(),
{
    if s.len() == 0 {
        0
    } else {
        (decimal_value(s.drop_last()) * 10 + (s.last() as u32 - 48)) as nat
    }
}

/// Whether `s` holds nothing but decimal digits.
pub open spec fn all_digits(s: Seq<char>) -> bool {
    forall|i: int| 0 <= i < s.len() ==> is_digit(#[trigger] s[i])
}

/// What is written in decimal reads as the number again.
pub proof fn lemma_decimal(n: nat)
    ensures
        decimal(n).len() >= 1,
        all_digits(decimal(n)),
        decimal_value(decimal(n)) == n,
    decreases n,
{
    if n < 10 {
        let s = decimal(n);
        assert(s.drop_last() =~= seq![]);
        assert(decimal_value(s.drop_last()) == 0);
    } else {
        lemma_decimal(n / 10);
        let s = decimal(n);
        assert(s.drop_last() =~= decimal(n / 10));
    }
}

/// The digit for `d`.
fn digit_of(d: u8) -> (r: char)
    requires
        d < 10,
    ensures
        r == digit_char(d as int),
{
    (48 + d) as char
}

/// The value of a decimal digit.
pub fn digit_value(c: char) -> (r: Option<u8>)
    ensures
        match r {
            Some(d) => d < 10 && c == digit_char(d as int),
            None => forall|d: int| 0 <= d < 10 ==> digit_char(d) != c,
        },
{
    let n: u32 = c as u32;
    if 48 <= n && n <= 57 {
        Some((n - 48) as u8)
    } else {
        None
    }
}

/// Appends `n` in decimal to `out`.
pub fn push_decimal(out: &mut Vec<char>, n: u64)
    ensures
        final(out)@ == old(out)@ + decimal(n as nat),
    decreases n,
{
    if n < 10 {
        out.push(digit_of(n as u8));
    } else {
        push_decimal(out, n / 10);
        out.push(digit_of((n % 10) as u8));
    }
    assert(out@ =~= old(out)@ + decimal(n as nat));
}

/// `n` in decimal.
pub fn decimal_string(n: u64) -> (r: String)
    ensures
        r@ == decimal(n as nat),
{
    let mut out: Vec<char> = Vec::new();
    push_decimal(&mut out, n);
    string_of(out.as_slice())
}

/// `s` without one leading `+`.
pub open spec fn unsigned_digits(s: Seq<char>) -> Seq<char> {
    if s.len() > 0 && s[0] == '+' {
        s.skip(1)
    } else {
        s
    }
}

/// The number that `s` stands for: decimal digits, at least one, after an
/// optional `+`, of a value up to `max`.
pub open spec fn number_in(s: Seq<char>, max: nat) -> Option<nat> {
    let d = unsigned_digits(s);
    if d.len() > 0 && all_digits(d) && decimal_value(d) <= max {
        Some(decimal_value(d))
    } else {
        None
    }
}

/// More digits never make a number smaller.
proof fn lemma_value_grows(s: Seq<char>, i: int)
    requires
        all_digits(s),
        0 <= i <= s.len(),
    ensures
        decimal_value(s.take(i)) <= decimal_value(s),
    decreases s.len() - i,
{
    if i < s.len() {
        lemma_value_grows(s, i + 1);
        let t = s.take(i + 1);
        assert(t.drop_last() =~= s.take(i));
        assert(is_digit(s[i]));
        assert(t.last() == s[i]);
    } else {
        assert(s.take(i) =~= s);
    }
}

/// The `u16` that `s` stands for.
pub fn parse_u16(s: &[char]) -> (r: Option<u16>)
    ensures
        match r {
            Some(n) => number_in(s@, 0xffff) == Some(n as nat),
            None => number_in(s@, 0xffff) is None,
        },
{
    let start: usize = if s.len() > 0 && s[0] == '+' {
        1
    } else {
        0
    };
    let ghost d = unsigned_digits(s@);
    assert(d =~= s@.skip(start as int));
    if s.len() == start {
        return None;
    }
    let mut n: u32 = 0;
    let mut i: usize = start;
    while i < s.len()
        invariant
            start <= i <= s.len(),
            d == s@.skip(start as int),
            d == unsigned_digits(s@),
            d.len() > 0,
            all_digits(d.take(i - start)),
            n == decimal_value(d.take(i - start)),
            n <= 0xffff,
        decreases s.len() - i,
    {
        let c: u32 = s[i] as u32;
        let ghost at = i - start;
        assert(d[at] == s@[i as int]);
        if c < 48 || c > 57 {
            assert(!is_digit(d[at]));
            return None;
        }
        n = n * 10 + (c - 48);
        proof {
            let t = d.take(at + 1);
            assert(t.drop_last() =~= d.take(at));
            assert(all_digits(t)) by {
                assert forall|k: int| 0 <= k < t.len() implies is_digit(#[trigger] t[k]) by {
                    if k < at {
                        assert(t[k] == d.take(at)[k]);
                    }
                }
            }
        }
        if n > 0xffff {
            proof {
                if all_digits(d) {
                    lemma_value_grows(d, at + 1);
                }
            }
            return None;
        }
        i = i + 1;
    }
    assert(d.take(d.len() as int) =~= d);
    Some(n as u16)
}

// -- hexadecimal --------------------------------------------------------------

/// The lower-case hexadecimal digit `d`.
pub open spec fn hex_char(d: int) -> char {
    if d < 10 {
        (48 + d) as char
    } else {
        (87 + d) as char
    }
}

/// A byte as two lower-case hexadecimal digits.
pub open spec fn hex_byte(b: u8) -> Seq<char> {
    seq![hex_char((b / 16) as int), hex_char((b % 16) as int)]
}

/// `c`, in lower case where it is one of `A` to `F`.
pub open spec fn lower_hex(c: char) -> char {
    if 65 <= c as u32 <= 70 {
        (c as u32 + 32) as char
    } else {
        c
    }
}

/// The hexadecimal digit for `d`.
fn hex_digit(d: u8) -> (r: char)
    requires
        d < 16,
    ensures
        r == hex_char(d as int),
{
    if d < 10 {
        (48 + d) as char
    } else {
        (87 + d) as char
    }
}

/// Appends `b` as two lower-case hexadecimal digits to `out`.
pub fn push_hex_byte(out: &mut Vec<char>, b: u8)
    ensures
        final(out)@ == old(out)@ + hex_byte(b),
{
    out.push(hex_digit(b / 16));
    out.push(hex_digit(b % 16));
    assert(out@ =~= old(out)@ + hex_byte(b));
}

/// The value of a hexadecimal digit of either case.
fn hex_value(c: char) -> (r: Option<u8>)
    ensures
        match r {
            Some(d) => d < 16 && hex_char(d as int) == lower_hex(c),
            None => forall|d: int| 0 <= d < 16 ==> hex_char(d) != lower_hex(c),
        },
{
    let n: u32 = c as u32;
    if 48 <= n && n <= 57 {
        Some((n - 48) as u8)
    } else if 97 <= n && n <= 102 {
        Some((n - 87) as u8)
    } else if 65 <= n && n <= 70 {
        Some((n - 55) as u8)
    } else {
        None
    }
}

/// The byte that two hexadecimal digits of either case stand for.
pub fn parse_hex_byte(hi: char, lo: char) -> (r: Option<u8>)
    ensures
        match r {
            Some(b) => hex_byte(b) == seq![lower_hex(hi), lower_hex(lo)],
            None => forall|b: u8| #[trigger] hex_byte(b) != seq![lower_hex(hi), lower_hex(lo)],
        },
{
    match (hex_value(hi), hex_value(lo)) {
        (Some(h), Some(l)) => {
            let b: u8 = h * 16 + l;
            assert(b / 16 == h && b % 16 == l);
            Some(b)
        },
        _ => {
            proof {
                assert forall|b: u8| #[trigger] hex_byte(b) != seq![
                    lower_hex(hi),
                    lower_hex(lo),
                ] by {
                    if hex_byte(b) == seq![lower_hex(hi), lower_hex(lo)] {
                        assert(hex_byte(b)[0] == lower_hex(hi));
                        assert(hex_byte(b)[1] == lower_hex(lo));
                    }
                }
            }
            None
        },
    }
}

// -- words --------------------------------------------------------------------

/// Where the word at the start of `s` ends: at the first white space.
pub open spec fn word_end(s: Seq<char>) -> int
    decreases s.len(),
{
    if s.len() == 0 || white_space(s[0]) {
        0
    } else {
        1 + word_end(s.skip(1))
    }
}

/// A word ends in its text.
pub proof fn lemma_word_end(s: Seq<char>)
    ensures
        0 <= word_end(s) <= s.len(),
    decreases s.len(),
{
    if s.len() > 0 && !white_space(s[0]) {
        lemma_word_end(s.skip(1));
    }
}

/// The words of `s`: the longest pieces without white space.
pub open spec fn words(s: Seq<char>) -> Seq<Seq<char>>
    decreases s.len(),
{
    if s.len() == 0 {
        seq![]
    } else if white_space(s[0]) {
        words(s.skip(1))
    } else {
        proof {
            lemma_word_end(s.skip(1));
        }
        let end = 1 + word_end(s.skip(1));
        seq![s.take(end)] + words(s.skip(end))
    }
}

/// The words of `s`.
pub fn words_of(s: &[char]) -> (r: Vec<Vec<char>>)
    ensures
        r.len() == words(s@).len(),
        forall|i: int| 0 <= i < r.len() ==> (#[trigger] r[i])@ == words(s@)[i],
{
    let mut r: Vec<Vec<char>> = Vec::new();
    let mut i: usize = 0;
    let ghost all = words(s@);
    assert(s@.skip(0) =~= s@);
    while i < s.len()
        invariant
            i <= s.len(),
            all == words(s@),
            all.len() == r.len() + words(s@.skip(i as int)).len(),
            forall|k: int| 0 <= k < r.len() ==> (#[trigger] r[k])@ == all[k],
            forall|k: int|
                r.len() <= k < all.len() ==> #[trigger] all[k] == words(s@.skip(i as int))[k
                    - r.len()],
        decreases s.len() - i,
    {
        let ghost rest = s@.skip(i as int);
        assert(rest[0] == s@[i as int]);
        assert(rest.skip(1) =~= s@.skip(i + 1));
        if is_white_space(s[i]) {
            i = i + 1;
        } else {
            let mut word: Vec<char> = Vec::new();
            let ghost start = i as int;
            word.push(s[i]);
            i = i + 1;
            while i < s.len() && !is_white_space(s[i])
                invariant
                    0 <= start < i <= s.len(),
                    word@ == s@.subrange(start, i as int),
                    word_end(s@.skip(start + 1)) == (i - start - 1) + word_end(s@.skip(i as int)),
                decreases s.len() - i,
            {
                assert(s@.skip(i as int)[0] == s@[i as int]);
                assert(s@.skip(i as int).skip(1) =~= s@.skip(i + 1));
                word.push(s[i]);
                assert(s@.subrange(start, i + 1) =~= s@.subrange(start, i as int).push(
                    s@[i as int],
                ));
                i = i + 1;
            }
            proof {
                assert(word_end(s@.skip(i as int)) == 0) by {
                    if i < s.len() {
                        assert(s@.skip(i as int)[0] == s@[i as int]);
                    }
                }
                assert(rest.take(i - start) =~= word@);
                assert(rest.skip(i - start) =~= s@.skip(i as int));
                assert(words(rest) == seq![word@] + words(s@.skip(i as int)));
            }
            let ghost n = r.len() as int;
            assert(all[n] == words(rest)[0]);
            r.push(word);
            proof {
                assert forall|k: int| n + 1 <= k < all.len() implies #[trigger] all[k] == words(
                    s@.skip(i as int),
                )[k - n - 1] by {
                    assert(words(rest)[k - n] == words(s@.skip(i as int))[k - n - 1]);
                }
            }
        }
    }
    assert(s@.skip(i as int).len() == 0);
    r
}

// -- order --------------------------------------------------------------------

/// Whether `a` comes before `b`, character by character.
pub open spec fn precedes(a: Seq<char>, b: Seq<char>) -> bool
    decreases a.len(),
{
    if b.len() == 0 {
        false
    } else if a.len() == 0 {
        true
    } else {
        (a[0] as u32) < (b[0] as u32) || (a[0] == b[0] && precedes(a.skip(1), b.skip(1)))
    }
}

/// The code of a character tells the character.
pub proof fn lemma_char_code(x: char, y: char)
    ensures
        x as u32 == y as u32 ==> x == y,
{
}

/// Of two texts that differ, just one comes before the other.
pub proof fn lemma_precedes_total(a: Seq<char>, b: Seq<char>)
    ensures
        a == b ==> !precedes(a, b),
        a != b ==> precedes(a, b) != precedes(b, a),
    decreases a.len(),
{
    if a.len() > 0 && b.len() > 0 {
        lemma_precedes_total(a.skip(1), b.skip(1));
        assert(a =~= seq![a[0]] + a.skip(1));
        assert(b =~= seq![b[0]] + b.skip(1));
        lemma_char_code(a[0], b[0]);
    } else if a.len() == 0 && b.len() == 0 {
        assert(a =~= b);
    }
}

/// What comes before a text comes before all that come after it.
pub proof fn lemma_precedes_transitive(a: Seq<char>, b: Seq<char>, c: Seq<char>)
    requires
        precedes(a, b),
        precedes(b, c),
    ensures
        precedes(a, c),
    decreases a.len(),
{
    if a.len() > 0 && a[0] == b[0] && b[0] == c[0] {
        lemma_precedes_transitive(a.skip(1), b.skip(1), c.skip(1));
    }
}

/// Whether `a` comes before `b`, character by character.
pub fn comes_before(a: &str, b: &str) -> (r: bool)
    ensures
        r == precedes(a@, b@),
{
    let x = chars_of(a);
    let y = chars_of(b);
    let mut i: usize = 0;
    assert(a@.skip(0) =~= a@);
    assert(b@.skip(0) =~= b@);
    while i < x.len() && i < y.len()
        invariant
            x@ == a@,
            y@ == b@,
            i <= x.len(),
            i <= y.len(),
            precedes(a@, b@) == precedes(a@.skip(i as int), b@.skip(i as int)),
        decreases x.len() - i,
    {
        proof {
            assert(a@.skip(i as int)[0] == x@[i as int]);
            assert(b@.skip(i as int)[0] == y@[i as int]);
            assert(a@.skip(i as int).skip(1) =~= a@.skip(i + 1));
            assert(b@.skip(i as int).skip(1) =~= b@.skip(i + 1));
        }
        if (x[i] as u32) < (y[i] as u32) {
            return true;
        }
        if x[i] != y[i] {
            return false;
        }
        i = i + 1;
    }
    i == x.len() && i < y.len()
}

/// A number that is written in decimal is read as that number, where it is not
/// above the most that is accepted.
pub proof fn law_decimal_is_read(n: nat, max: nat)
    ensures
        number_in(decimal(n), max) == (if n <= max {
            Some(n)
        } else {
            None
        }),
        number_in(seq!['+'] + decimal(n), max) == number_in(decimal(n), max),
        decimal(n).len() > 1 ==> decimal(n)[0] != '0',
{
    lemma_decimal(n);
    lemma_no_leading_zero(n);
    assert((seq!['+'] + decimal(n)).skip(1) =~= decimal(n));
    assert(is_digit(decimal(n)[0]));
}

proof fn lemma_no_leading_zero(n: nat)
    ensures
        decimal(n).len() >= 1,
        n > 0 ==> decimal(n)[0] != '0',
    decreases n,
{
    if n >= 10 {
        lemma_no_leading_zero(n / 10);
    }
}

/// Two pieces without white space, with white space between them, are two
/// words.
pub proof fn law_words_are_told_apart(a: Seq<char>, sep: char, b: Seq<char>)
    requires
        a.len() > 0,
        b.len() > 0,
        forall|i: int| 0 <= i < a.len() ==> !white_space(#[trigger] a[i]),
        forall|i: int| 0 <= i < b.len() ==> !white_space(#[trigger] b[i]),
        white_space(sep),
    ensures
        words(a.push(sep) + b) == seq![a, b],
{
    let s = a.push(sep) + b;
    lemma_word_ends(a, seq![sep] + b);
    assert(s =~= a + (seq![sep] + b));
    assert(word_end(s) == a.len());
    assert(word_end(s) == 1 + word_end(s.skip(1)));
    assert(s.take(a.len() as int) =~= a);
    let t = s.skip(a.len() as int);
    assert(t =~= seq![sep] + b);
    assert(t.skip(1) =~= b);
    lemma_word_ends(b, seq![]);
    assert(b + seq![] =~= b);
    assert(word_end(b) == 1 + word_end(b.skip(1)));
    assert(b.take(b.len() as int) =~= b);
    assert(b.skip(b.len() as int) =~= seq![]);
    reveal_with_fuel(words, 4);
    assert(words(b) =~= seq![b]);
    assert(words(s) =~= seq![a] + words(t));
    assert(words(s) =~= seq![a, b]);
}

/// A word ends where white space starts.
proof fn lemma_word_ends(a: Seq<char>, rest: Seq<char>)
    requires
        forall|i: int| 0 <= i < a.len() ==> !white_space(#[trigger] a[i]),
        rest.len() == 0 || white_space(rest[0]),
    ensures
        word_end(a + rest) == a.len(),
    decreases a.len(),
{
    let s = a + rest;
    if a.len() > 0 {
        assert(s[0] == a[0]);
        assert(s.skip(1) =~= a.skip(1) + rest);
        lemma_word_ends(a.skip(1), rest);
    } else {
        assert(s =~= rest);
    }
}

} // verus!
