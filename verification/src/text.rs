use vstd::prelude::*;
use vstd::string::*;

verus! {

/// The characters that `char::is_whitespace` accepts (the Unicode `White_Space` property).
pub open spec fn is_ws(c: char) -> bool {
    let u = c as u32;
    ||| u == 0x20
    ||| (0x09 <= u && u <= 0x0D)
    ||| u == 0x85
    ||| u == 0xA0
    ||| u == 0x1680
    ||| (0x2000 <= u && u <= 0x200A)
    ||| u == 0x2028
    ||| u == 0x2029
    ||| u == 0x202F
    ||| u == 0x205F
    ||| u == 0x3000
}

/// `s.trim().is_empty()`: the text holds nothing but whitespace.
pub open spec fn is_blank(s: Seq<char>) -> bool {
    forall|i: int| 0 <= i < s.len() ==> is_ws(#[trigger] s[i])
}

pub open spec fn trim_start(s: Seq<char>) -> Seq<char>
    decreases s.len(),
{
    if s.len() > 0 && is_ws(s[0]) {
        trim_start(s.drop_first())
    } else {
        s
    }
}

pub open spec fn trim_end(s: Seq<char>) -> Seq<char>
    decreases s.len(),
{
    if s.len() > 0 && is_ws(s.last()) {
        trim_end(s.drop_last())
    } else {
        s
    }
}

/// `str::trim`.
pub open spec fn trim(s: Seq<char>) -> Seq<char> {
    trim_end(trim_start(s))
}

/// `str::trim_end_matches(c)` for a single character.
pub open spec fn trim_end_char(s: Seq<char>, c: char) -> Seq<char>
    decreases s.len(),
{
    if s.len() > 0 && s.last() == c {
        trim_end_char(s.drop_last(), c)
    } else {
        s
    }
}

pub open spec fn is_prefix(p: Seq<char>, s: Seq<char>) -> bool {
    p.len() <= s.len() && s.subrange(0, p.len() as int) == p
}

/// `str::strip_prefix`.
pub open spec fn strip_prefix(s: Seq<char>, p: Seq<char>) -> Option<Seq<char>> {
    if is_prefix(p, s) {
        Some(s.subrange(p.len() as int, s.len() as int))
    } else {
        None
    }
}

pub open spec fn occurs_at(s: Seq<char>, pat: Seq<char>, i: int) -> bool {
    0 <= i && i + pat.len() <= s.len() && s.subrange(i, i + pat.len()) == pat
}

/// The first index at or after `from` where `pat` occurs.
pub open spec fn find_from(s: Seq<char>, pat: Seq<char>, from: int) -> Option<int>
    decreases s.len() + 1 - from,
{
    if from < 0 || from + pat.len() > s.len() {
        None
    } else if occurs_at(s, pat, from) {
        Some(from)
    } else {
        find_from(s, pat, from + 1)
    }
}

/// `str::find`.
pub open spec fn find(s: Seq<char>, pat: Seq<char>) -> Option<int> {
    find_from(s, pat, 0)
}

/// `find_from` gives the first occurrence at or after `from`: where the pattern occurs at `k`
/// and nowhere between `from` and `k`, the search finds `k`.
pub proof fn lemma_find_from_first(s: Seq<char>, pat: Seq<char>, from: int, k: int)
    requires
        0 <= from <= k,
        occurs_at(s, pat, k),
        forall|j: int| from <= j < k ==> !occurs_at(s, pat, j),
    ensures
        find_from(s, pat, from) == Some(k),
    decreases k - from,
{
    if from < k {
        lemma_find_from_first(s, pat, from + 1, k);
    }
}

/// Where the pattern occurs nowhere at or after `from`, the search finds nothing.
pub proof fn lemma_find_from_none(s: Seq<char>, pat: Seq<char>, from: int)
    requires
        0 <= from,
        forall|j: int| from <= j ==> !occurs_at(s, pat, j),
    ensures
        find_from(s, pat, from) is None,
    decreases s.len() + 1 - from,
{
    if from + pat.len() <= s.len() {
        lemma_find_from_none(s, pat, from + 1);
    }
}

/// What `find` gives lies within the text, where the pattern occurs.
pub proof fn lemma_find_bounds_any(s: Seq<char>, pat: Seq<char>)
    ensures
        find(s, pat) matches Some(i) ==> 0 <= i && i + pat.len() <= s.len() && occurs_at(s, pat, i),
{
    crate::json::lemma_find_from_bounds(s, pat, 0);
}

/// Where the pattern occurs at or after `from`, the search finds an occurrence.
pub proof fn lemma_find_from_some(s: Seq<char>, pat: Seq<char>, from: int, i: int)
    requires
        0 <= from <= i,
        occurs_at(s, pat, i),
    ensures
        find_from(s, pat, from) is Some,
    decreases i - from,
{
    if from < i && !occurs_at(s, pat, from) {
        lemma_find_from_some(s, pat, from + 1, i);
    }
}

/// The first index of character `c`.
pub open spec fn find_char(s: Seq<char>, c: char) -> Option<int> {
    find(s, seq![c])
}

/// The last index of character `c`.
pub open spec fn rfind_char(s: Seq<char>, c: char) -> Option<int>
    decreases s.len(),
{
    if s.len() == 0 {
        None
    } else if s.last() == c {
        Some(s.len() - 1)
    } else {
        rfind_char(s.drop_last(), c)
    }
}

pub open spec fn digit_char(d: nat) -> char {
    (d + 48) as char
}

/// The decimal rendering of a natural number, as `Display` writes it.
pub open spec fn decimal(n: nat) -> Seq<char>
    decreases n,
{
    if n < 10 {
        seq![digit_char(n)]
    } else {
        decimal(n / 10).push(digit_char(n % 10))
    }
}

/// Lexicographic order on character sequences by code point: the order of `String`'s `Ord`.
pub open spec fn seq_lt(a: Seq<char>, b: Seq<char>) -> bool
    decreases a.len(),
{
    if a.len() == 0 {
        b.len() > 0
    } else if b.len() == 0 {
        false
    } else if a[0] != b[0] {
        (a[0] as u32) < (b[0] as u32)
    } else {
        seq_lt(a.drop_first(), b.drop_first())
    }
}

/// The characters of a string slice.
pub fn chars_of(s: &str) -> (v: Vec<char>)
    ensures
        v@ == s@,
{
    let n = s.unicode_len();
    let mut v: Vec<char> = Vec::new();
    let mut i: usize = 0;
    while i < n
        invariant
            n == s@.len(),
            i <= n,
            v@ == s@.subrange(0, i as int),
        decreases n - i,
    {
        v.push(s.get_char(i));
        i = i + 1;
    }
    v
}

/// `String::push`: appends one character at the end of the string.
#[verifier::external_body]
fn push_char(s: &mut String, c: char)
    ensures
        final(s)@ == old(s)@.push(c),
{
    s.push(c);
}

/// The string made of the given characters.
pub fn string_of(v: &Vec<char>) -> (s: String)
    ensures
        s@ == v@,
{
    let mut s = String::new();
    let mut i: usize = 0;
    while i < v.len()
        invariant
            i <= v.len(),
            s@ == v@.subrange(0, i as int),
        decreases v.len() - i,
    {
        push_char(&mut s, v[i]);
        i = i + 1;
    }
    s
}

/// Appends the characters of `s` to `out`.
pub fn push_str(out: &mut Vec<char>, s: &str)
    ensures
        final(out)@ == old(out)@ + s@,
{
    let cs = chars_of(s);
    push_seq(out, &cs);
}

/// Appends the characters of `cs` to `out`.
pub fn push_seq(out: &mut Vec<char>, cs: &Vec<char>)
    ensures
        final(out)@ == old(out)@ + cs@,
{
    let ghost start = out@;
    let mut i: usize = 0;
    while i < cs.len()
        invariant
            i <= cs.len(),
            out@ == start + cs@.subrange(0, i as int),
        decreases cs.len() - i,
    {
        out.push(cs[i]);
        i = i + 1;
    }
    assert(cs@.subrange(0, cs@.len() as int) == cs@);
}

/// Appends the characters of a string to `out`.
pub fn push_string(out: &mut Vec<char>, s: &String)
    ensures
        final(out)@ == old(out)@ + s@,
{
    push_str(out, s.as_str());
}

proof fn lemma_decimal_len(n: nat)
    ensures
        decimal(n).len() >= 1,
    decreases n,
{
    if n >= 10 {
        lemma_decimal_len(n / 10);
    }
}

/// Different numbers have different decimal renderings.
pub proof fn lemma_decimal_injective(a: nat, b: nat)
    ensures
        decimal(a) == decimal(b) ==> a == b,
    decreases a,
{
    lemma_decimal_len(a / 10);
    lemma_decimal_len(b / 10);
    if decimal(a) == decimal(b) {
        if a >= 10 && b >= 10 {
            assert(decimal(a).drop_last() == decimal(a / 10));
            assert(decimal(b).drop_last() == decimal(b / 10));
            assert(decimal(a).last() == digit_char(a % 10));
            assert(decimal(b).last() == digit_char(b % 10));
            assert((digit_char(a % 10) as u32) == a % 10 + 48);
            assert((digit_char(b % 10) as u32) == b % 10 + 48);
            lemma_decimal_injective(a / 10, b / 10);
        } else if a >= 10 {
            assert(decimal(a).len() == decimal(a / 10).len() + 1);
        } else if b >= 10 {
            assert(decimal(b).len() == decimal(b / 10).len() + 1);
        } else {
            assert(decimal(a)[0] == decimal(b)[0]);
            assert((digit_char(a) as u32) == a + 48);
            assert((digit_char(b) as u32) == b + 48);
        }
    }
}

/// Appends the decimal rendering of `n` to `out`.
pub fn push_decimal(out: &mut Vec<char>, n: u64)
    ensures
        final(out)@ == old(out)@ + decimal(n as nat),
    decreases n,
{
    if n >= 10 {
        push_decimal(out, n / 10);
    }
    let d: u8 = (n % 10) as u8;
    let c: char = (d + 48) as char;
    assert(c == digit_char((n % 10) as nat));
    out.push(c);
    proof {
        if n >= 10 {
            assert(decimal(n as nat) == decimal((n / 10) as nat).push(digit_char((n % 10) as nat)));
        } else {
            assert(decimal(n as nat) == seq![digit_char(n as nat)]);
        }
    }
}

/// The decimal rendering of `n` as a string.
pub fn decimal_string(n: u64) -> (s: String)
    ensures
        s@ == decimal(n as nat),
{
    let mut out: Vec<char> = Vec::new();
    push_decimal(&mut out, n);
    assert(out@ == Seq::<char>::empty() + decimal(n as nat));
    string_of(&out)
}

/// Whether two character sequences are equal.
pub fn seq_eq(a: &Vec<char>, b: &Vec<char>) -> (r: bool)
    ensures
        r == (a@ == b@),
{
    if a.len() != b.len() {
        return false;
    }
    let mut i: usize = 0;
    while i < a.len()
        invariant
            a@.len() == b@.len(),
            i <= a.len(),
            forall|j: int| 0 <= j < i ==> a@[j] == b@[j],
        decreases a.len() - i,
    {
        if a[i] != b[i] {
            return false;
        }
        i = i + 1;
    }
    assert(a@ =~= b@);
    true
}

/// Whether two strings hold the same characters.
pub fn str_eq(a: &str, b: &str) -> (r: bool)
    ensures
        r == (a@ == b@),
{
    let x = chars_of(a);
    let y = chars_of(b);
    seq_eq(&x, &y)
}

/// Whether `s` holds nothing but whitespace.
pub fn blank(s: &str) -> (r: bool)
    ensures
        r == is_blank(s@),
{
    let cs = chars_of(s);
    let mut i: usize = 0;
    while i < cs.len()
        invariant
            cs@ == s@,
            i <= cs.len(),
            forall|j: int| 0 <= j < i ==> is_ws(#[trigger] cs@[j]),
        decreases cs.len() - i,
    {
        if !char_is_ws(cs[i]) {
            return false;
        }
        i = i + 1;
    }
    true
}

/// `char::is_whitespace`.
pub fn char_is_ws(c: char) -> (r: bool)
    ensures
        r == is_ws(c),
{
    let u = c as u32;
    u == 0x20 || (0x09 <= u && u <= 0x0D) || u == 0x85 || u == 0xA0 || u == 0x1680 || (0x2000
        <= u && u <= 0x200A) || u == 0x2028 || u == 0x2029 || u == 0x202F || u == 0x205F || u
        == 0x3000
}

/// Whether `p` is a prefix of `s`.
pub fn has_prefix_at(s: &Vec<char>, start: usize, p: &Vec<char>) -> (r: bool)
    requires
        start <= s.len(),
    ensures
        r == is_prefix(p@, s@.subrange(start as int, s@.len() as int)),
{
    if p.len() > s.len() - start {
        return false;
    }
    let mut i: usize = 0;
    while i < p.len()
        invariant
            start + p.len() <= s.len(),
            i <= p.len(),
            forall|j: int| 0 <= j < i ==> s@[start + j] == p@[j],
        decreases p.len() - i,
    {
        if s[start + i] != p[i] {
            assert(s@.subrange(start as int, s@.len() as int).subrange(0, p.len() as int)[i as int]
                != p@[i as int]);
            return false;
        }
        i = i + 1;
    }
    assert(s@.subrange(start as int, s@.len() as int).subrange(0, p@.len() as int) =~= p@);
    true
}

/// `str::strip_prefix` on character sequences.
pub fn strip_prefix_seq(s: &Vec<char>, p: &Vec<char>) -> (r: Option<Vec<char>>)
    ensures
        r is Some <==> strip_prefix(s@, p@) is Some,
        r is Some ==> r->0@ == strip_prefix(s@, p@)->0,
{
    assert(s@.subrange(0, s@.len() as int) == s@);
    if has_prefix_at(s, 0, p) {
        Some(slice_of(s, p.len(), s.len()))
    } else {
        None
    }
}

/// The characters of `s` from `from` up to `to`.
pub fn slice_of(s: &Vec<char>, from: usize, to: usize) -> (r: Vec<char>)
    requires
        from <= to <= s.len(),
    ensures
        r@ == s@.subrange(from as int, to as int),
{
    let mut r: Vec<char> = Vec::new();
    let mut i: usize = from;
    while i < to
        invariant
            from <= i <= to,
            to <= s.len(),
            r@ == s@.subrange(from as int, i as int),
        decreases to - i,
    {
        r.push(s[i]);
        i = i + 1;
    }
    r
}

/// `str::find` on character sequences, searching from `from`.
pub fn find_from_exec(s: &Vec<char>, pat: &Vec<char>, from: usize) -> (r: Option<usize>)
    requires
        from <= s.len(),
    ensures
        match r {
            Some(i) => find_from(s@, pat@, from as int) == Some(i as int),
            None => find_from(s@, pat@, from as int) is None,
        },
    decreases s.len() - from,
{
    if pat.len() > s.len() - from {
        return None;
    }
    let here = has_prefix_at(s, from, pat);
    proof {
        assert(s@.subrange(from as int, s@.len() as int).subrange(0, pat@.len() as int)
            =~= s@.subrange(from as int, from + pat@.len()));
    }
    if here {
        Some(from)
    } else {
        if from == s.len() {
            assert(find_from(s@, pat@, from + 1) is None);
            return None;
        }
        find_from_exec(s, pat, from + 1)
    }
}

/// The index of the last occurrence of `c`.
pub fn rfind_char_exec(s: &Vec<char>, c: char) -> (r: Option<usize>)
    ensures
        match r {
            Some(i) => rfind_char(s@, c) == Some(i as int),
            None => rfind_char(s@, c) is None,
        },
{
    let mut i: usize = s.len();
    assert(s@.subrange(0, s@.len() as int) =~= s@);
    while i > 0
        invariant
            i <= s.len(),
            rfind_char(s@, c) == rfind_char(s@.subrange(0, i as int), c),
        decreases i,
    {
        assert(s@.subrange(0, i as int).drop_last() =~= s@.subrange(0, i - 1));
        if s[i - 1] == c {
            return Some(i - 1);
        }
        i = i - 1;
    }
    None
}

/// `str::trim` on character sequences.
pub fn trim_seq(s: &Vec<char>) -> (r: Vec<char>)
    ensures
        r@ == trim(s@),
{
    let mut a: usize = 0;
    assert(s@.subrange(0, s@.len() as int) =~= s@);
    while a < s.len() && char_is_ws(s[a])
        invariant
            a <= s.len(),
            trim_start(s@) == trim_start(s@.subrange(a as int, s@.len() as int)),
        decreases s.len() - a,
    {
        assert(s@.subrange(a as int, s@.len() as int).drop_first() =~= s@.subrange(a + 1, s@.len()
            as int));
        a = a + 1;
    }
    assert(trim_start(s@) == s@.subrange(a as int, s@.len() as int));
    let mut b: usize = s.len();
    while b > a && char_is_ws(s[b - 1])
        invariant
            a <= b <= s.len(),
            trim(s@) == trim_end(s@.subrange(a as int, b as int)),
        decreases b,
    {
        assert(s@.subrange(a as int, b as int).drop_last() =~= s@.subrange(a as int, b - 1));
        b = b - 1;
    }
    slice_of(s, a, b)
}

/// `str::trim_end_matches(c)` on character sequences.
pub fn trim_end_char_seq(s: &Vec<char>, c: char) -> (r: Vec<char>)
    ensures
        r@ == trim_end_char(s@, c),
{
    let mut b: usize = s.len();
    assert(s@.subrange(0, s@.len() as int) =~= s@);
    while b > 0 && s[b - 1] == c
        invariant
            b <= s.len(),
            trim_end_char(s@, c) == trim_end_char(s@.subrange(0, b as int), c),
        decreases b,
    {
        assert(s@.subrange(0, b as int).drop_last() =~= s@.subrange(0, b - 1));
        b = b - 1;
    }
    assert(s@.subrange(0, b as int) == trim_end_char(s@.subrange(0, b as int), c));
    slice_of(s, 0, b)
}

/// Whether `a` sorts strictly before `b`.
pub fn seq_less(a: &Vec<char>, b: &Vec<char>) -> (r: bool)
    ensures
        r == seq_lt(a@, b@),
{
    let mut i: usize = 0;
    assert(a@.subrange(0, a@.len() as int) =~= a@);
    assert(b@.subrange(0, b@.len() as int) =~= b@);
    while i < a.len() && i < b.len() && a[i] == b[i]
        invariant
            i <= a.len(),
            i <= b.len(),
            seq_lt(a@, b@) == seq_lt(a@.subrange(i as int, a@.len() as int), b@.subrange(
                i as int,
                b@.len() as int,
            )),
        decreases a.len() - i,
    {
        assert(a@.subrange(i as int, a@.len() as int).drop_first() =~= a@.subrange(
            i + 1,
            a@.len() as int,
        ));
        assert(b@.subrange(i as int, b@.len() as int).drop_first() =~= b@.subrange(
            i + 1,
            b@.len() as int,
        ));
        i = i + 1;
    }
    if i == a.len() {
        i < b.len()
    } else if i == b.len() {
        false
    } else {
        (a[i] as u32) < (b[i] as u32)
    }
}


/// One line of `str::lines`: a trailing carriage return removed.
pub open spec fn strip_cr(s: Seq<char>) -> Seq<char> {
    if s.len() > 0 && s.last() == '\r' {
        s.drop_last()
    } else {
        s
    }
}

/// `str::lines`.
pub open spec fn lines(s: Seq<char>) -> Seq<Seq<char>>
    decreases s.len(),
{
    if s.len() == 0 {
        Seq::empty()
    } else {
        match find_char(s, '\n') {
            Some(i) => if 0 <= i < s.len() {
                seq![strip_cr(s.subrange(0, i))] + lines(s.subrange(i + 1, s.len() as int))
            } else {
                seq![strip_cr(s)]
            },
            None => seq![strip_cr(s)],
        }
    }
}

/// `str::split_whitespace`.
pub open spec fn ws_tokens(s: Seq<char>) -> Seq<Seq<char>>
    decreases s.len(),
{
    if s.len() == 0 {
        Seq::empty()
    } else if is_ws(s[0]) {
        ws_tokens(s.drop_first())
    } else {
        let n = token_len(s, 0);
        proof {
            lemma_token_len_range(s, 0);
        }
        seq![s.subrange(0, n)] + ws_tokens(s.subrange(n, s.len() as int))
    }
}

/// The length of the run of non-whitespace characters at the start of `s` from `i`.
pub open spec fn token_len(s: Seq<char>, i: int) -> int
    decreases s.len() - i,
{
    if i < 0 || i >= s.len() || is_ws(s[i]) {
        if i < 0 {
            0
        } else if i > s.len() {
            s.len() as int
        } else {
            i
        }
    } else {
        token_len(s, i + 1)
    }
}

pub open spec fn ascii_lower(c: char) -> char {
    if 'A' <= c && c <= 'Z' {
        ((c as u8) + 32) as char
    } else {
        c
    }
}

/// `str::to_ascii_lowercase`.
pub open spec fn to_ascii_lowercase(s: Seq<char>) -> Seq<char> {
    s.map_values(|c: char| ascii_lower(c))
}

pub open spec fn int_error_empty() -> Seq<char> {
    "cannot parse integer from empty string"@
}

pub open spec fn int_error_invalid() -> Seq<char> {
    "invalid digit found in string"@
}

pub open spec fn int_error_overflow() -> Seq<char> {
    "number too large to fit in target type"@
}

pub open spec fn is_digit(c: char) -> bool {
    '0' <= c && c <= '9'
}

/// The value of decimal digits read after `acc`, or why they are not a `u16`.
pub open spec fn digits_value(d: Seq<char>, acc: nat) -> Result<u16, Seq<char>>
    decreases d.len(),
{
    if d.len() == 0 {
        Ok(acc as u16)
    } else if !is_digit(d[0]) {
        Err(int_error_invalid())
    } else {
        let v = acc * 10 + ((d[0] as u32) - 48);
        if v > 65535 {
            Err(int_error_overflow())
        } else {
            digits_value(d.drop_first(), v as nat)
        }
    }
}

/// `str::parse::<u16>`: the value, or the text of the error.
pub open spec fn parse_u16(s: Seq<char>) -> Result<u16, Seq<char>> {
    if s.len() == 0 {
        Err(int_error_empty())
    } else if s.len() == 1 && (s[0] == '+' || s[0] == '-') {
        Err(int_error_invalid())
    } else if s[0] == '+' {
        digits_value(s.drop_first(), 0)
    } else {
        digits_value(s, 0)
    }
}

/// Parses a `u16` as `str::parse` does.
pub fn parse_u16_exec(s: &Vec<char>) -> (r: Result<u16, String>)
    ensures
        match r {
            Ok(v) => parse_u16(s@) == Ok::<u16, Seq<char>>(v),
            Err(m) => parse_u16(s@) == Err::<u16, Seq<char>>(m@),
        },
{
    if s.len() == 0 {
        return Err(String::from_str("cannot parse integer from empty string"));
    }
    if s.len() == 1 && (s[0] == '+' || s[0] == '-') {
        return Err(String::from_str("invalid digit found in string"));
    }
    let mut i: usize = if s[0] == '+' {
        1
    } else {
        0
    };
    let ghost d = s@.subrange(i as int, s@.len() as int);
    assert(s[0] == '+' ==> d =~= s@.drop_first());
    assert(s[0] != '+' ==> d =~= s@);
    let mut acc: u32 = 0;
    while i < s.len()
        invariant
            i <= s.len(),
            acc <= 65535,
            parse_u16(s@) == digits_value(d, 0),
            digits_value(d, 0) == digits_value(s@.subrange(i as int, s@.len() as int), acc as nat),
        decreases s.len() - i,
    {
        let c = s[i];
        assert(s@.subrange(i as int, s@.len() as int)[0] == c);
        assert(s@.subrange(i as int, s@.len() as int).drop_first() =~= s@.subrange(
            i + 1,
            s@.len() as int,
        ));
        if !('0' <= c && c <= '9') {
            return Err(String::from_str("invalid digit found in string"));
        }
        let v: u32 = acc * 10 + ((c as u32) - 48);
        if v > 65535 {
            return Err(String::from_str("number too large to fit in target type"));
        }
        acc = v;
        i = i + 1;
    }
    Ok(acc as u16)
}

/// The lowercase form of the ASCII letters of `s`.
pub fn to_ascii_lowercase_exec(s: &Vec<char>) -> (r: Vec<char>)
    ensures
        r@ == to_ascii_lowercase(s@),
{
    let mut r: Vec<char> = Vec::new();
    let mut i: usize = 0;
    while i < s.len()
        invariant
            i <= s.len(),
            r@ == to_ascii_lowercase(s@).subrange(0, i as int),
        decreases s.len() - i,
    {
        let c = s[i];
        let l = if 'A' <= c && c <= 'Z' {
            ((c as u8) + 32) as char
        } else {
            c
        };
        r.push(l);
        assert(to_ascii_lowercase(s@).subrange(0, i + 1) =~= to_ascii_lowercase(s@).subrange(
            0,
            i as int,
        ).push(l));
        i = i + 1;
    }
    r
}

/// The lines of `s`, as `str::lines` gives them.
pub fn lines_exec(s: &Vec<char>) -> (r: Vec<Vec<char>>)
    ensures
        r@.len() == lines(s@).len(),
        forall|i: int| 0 <= i < r@.len() ==> #[trigger] r@[i]@ == lines(s@)[i],
{
    let mut out: Vec<Vec<char>> = Vec::new();
    let mut rest = s.clone();
    let nl = vec!['\n'];
    assert(rest@ =~= s@);
    loop
        invariant
            nl@ == seq!['\n'],
            lines(s@) =~= out@.map_values(|v: Vec<char>| v@) + lines(rest@),
        decreases rest@.len(),
    {
        if rest.len() == 0 {
            proof {
                assert(out@.map_values(|v: Vec<char>| v@) + lines(rest@) =~= out@.map_values(
                    |v: Vec<char>| v@,
                ));
                assert forall|i: int| 0 <= i < out@.len() implies #[trigger] out@[i]@ == lines(
                    s@,
                )[i] by {
                    assert(out@.map_values(|v: Vec<char>| v@)[i] == out@[i]@);
                }
            }
            return out;
        }
        let ghost r0 = rest@;
        proof {
            crate::json::lemma_find_from_bounds(r0, seq!['\n'], 0);
        }
        match find_from_exec(&rest, &nl, 0) {
            Some(i) => {
                let line = strip_cr_exec(&slice_of(&rest, 0, i));
                let tail = slice_of(&rest, i + 1, rest.len());
                let ghost before = out@;
                out.push(line);
                proof {
                    assert(out@.map_values(|v: Vec<char>| v@) =~= before.map_values(
                        |v: Vec<char>| v@,
                    ).push(line@));
                }
                rest = tail;
            },
            None => {
                let line = strip_cr_exec(&rest);
                let ghost before = out@;
                out.push(line);
                proof {
                    assert(out@.map_values(|v: Vec<char>| v@) =~= before.map_values(
                        |v: Vec<char>| v@,
                    ).push(line@));
                    assert(lines(r0) == seq![strip_cr(r0)]);
                    assert forall|i: int| 0 <= i < out@.len() implies #[trigger] out@[i]@
                        == lines(s@)[i] by {
                        assert(out@.map_values(|v: Vec<char>| v@)[i] == out@[i]@);
                    }
                }
                return out;
            },
        }
    }
}

/// The line with one trailing carriage return removed.
pub fn strip_cr_exec(s: &Vec<char>) -> (r: Vec<char>)
    ensures
        r@ == strip_cr(s@),
{
    if s.len() > 0 && s[s.len() - 1] == '\r' {
        slice_of(s, 0, s.len() - 1)
    } else {
        s.clone()
    }
}

/// The second whitespace-separated token of `s`, if there is one.
pub fn second_token(s: &Vec<char>) -> (r: Option<Vec<char>>)
    ensures
        r is Some <==> ws_tokens(s@).len() >= 2,
        r is Some ==> r->0@ == ws_tokens(s@)[1],
{
    let mut count: usize = 0;
    let mut i: usize = 0;
    assert(s@.subrange(0, s@.len() as int) =~= s@);
    while i < s.len()
        invariant
            i <= s.len(),
            count <= 1,
            ws_tokens(s@).len() >= 2 <==> ws_tokens(s@.subrange(i as int, s@.len() as int)).len()
                >= 2 - count,
            ws_tokens(s@).len() >= 2 ==> ws_tokens(s@)[1] == ws_tokens(
                s@.subrange(i as int, s@.len() as int),
            )[1 - count],
        decreases s.len() - i,
    {
        let ghost t = s@.subrange(i as int, s@.len() as int);
        if char_is_ws(s[i]) {
            assert(t.drop_first() =~= s@.subrange(i + 1, s@.len() as int));
            i = i + 1;
        } else {
            let mut j: usize = i;
            while j < s.len() && !char_is_ws(s[j])
                invariant
                    i <= j <= s.len(),
                    t == s@.subrange(i as int, s@.len() as int),
                    token_len(t, 0) == token_len(t, (j - i) as int),
                decreases s.len() - j,
            {
                assert(t[(j - i) as int] == s@[j as int]);
                j = j + 1;
            }
            proof {
                lemma_token_len_bounds(t, (j - i) as int);
                assert(token_len(t, (j - i) as int) == j - i);
                assert(t.subrange(j - i, t.len() as int) =~= s@.subrange(j as int, s@.len() as int));
                assert(ws_tokens(t) == seq![t.subrange(0, (j - i) as int)] + ws_tokens(
                    s@.subrange(j as int, s@.len() as int),
                ));
            }
            if count == 1 {
                let tok = slice_of(s, i, j);
                assert(tok@ =~= t.subrange(0, (j - i) as int));
                return Some(tok);
            }
            count = 1;
            i = j;
        }
    }
    proof {
        assert(ws_tokens(s@.subrange(i as int, s@.len() as int)).len() == 0);
    }
    None
}

pub proof fn lemma_token_len_range(s: Seq<char>, i: int)
    requires
        0 <= i <= s.len(),
    ensures
        i <= token_len(s, i) <= s.len(),
        i < s.len() && !is_ws(s[i]) ==> token_len(s, i) > i,
    decreases s.len() - i,
{
    if i < s.len() && !is_ws(s[i]) {
        lemma_token_len_range(s, i + 1);
    }
}

proof fn lemma_token_len_bounds(s: Seq<char>, i: int)
    requires
        0 <= i <= s.len(),
        i == s.len() || is_ws(s[i]),
    ensures
        token_len(s, i) == i,
{
}

/// Whether `pat` occurs in `s`.
pub fn contains_seq(s: &Vec<char>, pat: &Vec<char>) -> (r: bool)
    ensures
        r == (find(s@, pat@) is Some),
{
    find_from_exec(s, pat, 0).is_some()
}

/// `str::split_once(c)`.
pub open spec fn split_once_char(s: Seq<char>, c: char) -> Option<(Seq<char>, Seq<char>)> {
    match find_char(s, c) {
        Some(i) => if 0 <= i < s.len() {
            Some((s.subrange(0, i), s.subrange(i + 1, s.len() as int)))
        } else {
            None
        },
        None => None,
    }
}

/// `str::rsplit_once(c)`.
pub open spec fn rsplit_once_char(s: Seq<char>, c: char) -> Option<(Seq<char>, Seq<char>)> {
    match rfind_char(s, c) {
        Some(i) => if 0 <= i < s.len() {
            Some((s.subrange(0, i), s.subrange(i + 1, s.len() as int)))
        } else {
            None
        },
        None => None,
    }
}

pub proof fn lemma_rfind_bounds(s: Seq<char>, c: char)
    ensures
        rfind_char(s, c) matches Some(i) ==> 0 <= i < s.len() && s[i] == c,
    decreases s.len(),
{
    if s.len() > 0 && s.last() != c {
        lemma_rfind_bounds(s.drop_last(), c);
    }
}

/// Splits at the first `c`.
pub fn split_once_exec(s: &Vec<char>, c: char) -> (r: Option<(Vec<char>, Vec<char>)>)
    ensures
        match r {
            Some(p) => split_once_char(s@, c) == Some((p.0@, p.1@)),
            None => split_once_char(s@, c) is None,
        },
{
    let pat = vec![c];
    assert(pat@ == seq![c]);
    proof {
        crate::json::lemma_find_from_bounds(s@, seq![c], 0);
    }
    match find_from_exec(s, &pat, 0) {
        Some(i) => Some((slice_of(s, 0, i), slice_of(s, i + 1, s.len()))),
        None => None,
    }
}

/// Splits at the last `c`.
pub fn rsplit_once_exec(s: &Vec<char>, c: char) -> (r: Option<(Vec<char>, Vec<char>)>)
    ensures
        match r {
            Some(p) => rsplit_once_char(s@, c) == Some((p.0@, p.1@)),
            None => rsplit_once_char(s@, c) is None,
        },
{
    proof {
        lemma_rfind_bounds(s@, c);
    }
    match rfind_char_exec(s, c) {
        Some(i) => Some((slice_of(s, 0, i), slice_of(s, i + 1, s.len()))),
        None => None,
    }
}

/// The texts, joined with commas.
pub open spec fn join_comma(ss: Seq<Seq<char>>) -> Seq<char>
    decreases ss.len(),
{
    if ss.len() == 0 {
        Seq::empty()
    } else if ss.len() == 1 {
        ss[0]
    } else {
        join_comma(ss.drop_last()) + ", "@ + ss.last()
    }
}

} // verus!
