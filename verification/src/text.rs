//! Character-level string helpers shared by the display and parsing code.
use vstd::prelude::*;

verus! {

/// Appends one character to a `String` (std `String::push`).
#[verifier::external_body]
pub(crate) fn push_char(s: &mut String, c: char)
    ensures
        final(s)@ == old(s)@.push(c),
{
    s.push(c);
}

/// The characters of `s`, in order.
pub fn chars_of(s: &str) -> (v: Vec<char>)
    ensures
        v@ == s@,
{
    let mut v: Vec<char> = Vec::new();
    for c in it: s.chars()
        invariant
            v@ == it.seq().take(it.index() as int),
            it.seq() == s@,
    {
        v.push(c);
        assert(it.seq().take(it.index() + 1) == it.seq().take(it.index() as int).push(c));
    }
    v
}


/// The character of a decimal digit.
pub open spec fn digit_char(d: nat) -> char
    recommends
        d < 10,
{
    (48 + d) as char
}

/// The decimal digits of `n`, most significant first, without leading zeros
/// (a single `0` for zero).
pub open spec fn decimal(n: nat) -> Seq<char>
    decreases n,
{
    if n < 10 {
        seq![digit_char(n)]
    } else {
        decimal(n / 10).push(digit_char(n % 10))
    }
}

/// `digits` preceded by enough `0`s to make it at least `width` long.
pub open spec fn zero_padded(digits: Seq<char>, width: nat) -> Seq<char> {
    if digits.len() < width {
        Seq::new((width - digits.len()) as nat, |i: int| '0') + digits
    } else {
        digits
    }
}

/// Decimal text of a signed integer: a `-` before the magnitude when negative.
pub open spec fn signed_decimal(n: int) -> Seq<char> {
    if n < 0 {
        seq!['-'] + decimal((-n) as nat)
    } else {
        decimal(n as nat)
    }
}

pub fn digit_to_char(d: u64) -> (c: char)
    requires
        d < 10,
    ensures
        c == digit_char(d as nat),
{
    let b: u8 = 48u8 + (d as u8);
    b as char
}

/// Appends the decimal text of `n`.
pub fn push_decimal(s: &mut String, n: u64)
    ensures
        final(s)@ == old(s)@ + decimal(n as nat),
    decreases n,
{
    if n >= 10 {
        push_decimal(s, n / 10);
    }
    let c = digit_to_char(n % 10);
    push_char(s, c);
    assert(final(s)@ == old(s)@ + decimal(n as nat)) by {
        if n >= 10 {
            assert(decimal(n as nat) == decimal((n / 10) as nat).push(digit_char((n % 10) as nat)));
        }
    }
}

/// Appends the decimal text of `n`, padded with `0`s to at least `width` characters.
pub fn push_decimal_padded(s: &mut String, n: u64, width: usize)
    requires
        width <= 20,
    ensures
        final(s)@ == old(s)@ + zero_padded(decimal(n as nat), width as nat),
{
    let len = decimal_len(n);
    let ghost start = s@;
    if len < width {
        let mut i: usize = 0;
        while i < width - len
            invariant
                len < width <= 20,
                i <= width - len,
                s@ == start + Seq::new(i as nat, |k: int| '0'),
            decreases width - len - i,
        {
            push_char(s, '0');
            i = i + 1;
            assert(s@ == start + Seq::new(i as nat, |k: int| '0'));
        }
    }
    let ghost mid = s@;
    push_decimal(s, n);
    assert(s@ == start + zero_padded(decimal(n as nat), width as nat)) by {
        if len < width {
            assert(mid == start + Seq::new((width - len) as nat, |k: int| '0'));
        }
    }
}

/// Number of decimal digits of `n`.
pub fn decimal_len(n: u64) -> (len: usize)
    ensures
        len as nat == decimal(n as nat).len(),
        1 <= len <= 20,
    decreases n,
{
    if n < 10 {
        1
    } else {
        let l = decimal_len(n / 10);
        assert(decimal(n as nat).len() == decimal((n / 10) as nat).len() + 1);
        proof { lemma_decimal_len_bound(n as nat); }
        l + 1
    }
}

pub proof fn lemma_decimal_len_bound(n: nat)
    requires
        n <= u64::MAX,
    ensures
        1 <= decimal(n).len() <= 20,
{
    reveal_with_fuel(pow10, 21);
    assert(pow10(20) == 100000000000000000000);
    lemma_decimal_len_below_pow10(n, 20);
    lemma_decimal_nonempty(n);
}

pub proof fn lemma_decimal_nonempty(n: nat)
    ensures
        decimal(n).len() >= 1,
    decreases n,
{
    if n >= 10 {
        lemma_decimal_nonempty(n / 10);
    }
}

proof fn lemma_decimal_len_below_pow10(n: nat, k: nat)
    requires
        k >= 1,
        n < pow10(k),
    ensures
        decimal(n).len() <= k,
    decreases n,
{
    if n >= 10 {
        assert(k >= 2) by {
            if k < 2 {
                assert(pow10(1) == 10) by { reveal_with_fuel(pow10, 2); }
            }
        }
        assert(pow10(k) == 10 * pow10((k - 1) as nat));
        lemma_decimal_len_below_pow10(n / 10, (k - 1) as nat);
    }
}

pub open spec fn pow10(k: nat) -> nat
    decreases k,
{
    if k == 0 { 1 } else { 10 * pow10((k - 1) as nat) }
}


/// Unicode `White_Space` property, the set that `char::is_whitespace` and
/// `str::trim` use.
pub open spec fn is_white_space(c: char) -> bool {
    let u = c as u32;
    ||| 0x9 <= u <= 0xD
    ||| u == 0x20
    ||| u == 0x85
    ||| u == 0xA0
    ||| u == 0x1680
    ||| 0x2000 <= u <= 0x200A
    ||| u == 0x2028
    ||| u == 0x2029
    ||| u == 0x202F
    ||| u == 0x205F
    ||| u == 0x3000
}

pub fn white_space(c: char) -> (b: bool)
    ensures
        b == is_white_space(c),
{
    let u = c as u32;
    (0x9 <= u && u <= 0xD) || u == 0x20 || u == 0x85 || u == 0xA0 || u == 0x1680 || (0x2000 <= u
        && u <= 0x200A) || u == 0x2028 || u == 0x2029 || u == 0x202F || u == 0x205F || u == 0x3000
}

/// `s` without its leading white space.
pub open spec fn trim_start(s: Seq<char>) -> Seq<char>
    decreases s.len(),
{
    if s.len() > 0 && is_white_space(s[0]) {
        trim_start(s.drop_first())
    } else {
        s
    }
}

/// `s` without its trailing white space.
pub open spec fn trim_end(s: Seq<char>) -> Seq<char>
    decreases s.len(),
{
    if s.len() > 0 && is_white_space(s.last()) {
        trim_end(s.drop_last())
    } else {
        s
    }
}

/// `s` without leading and trailing white space (`str::trim`).
pub open spec fn trim(s: Seq<char>) -> Seq<char> {
    trim_end(trim_start(s))
}

/// The bounds of `v[lo..hi]` once white space is trimmed from both ends.
pub fn trim_range(v: &Vec<char>, lo: usize, hi: usize) -> (r: (usize, usize))
    requires
        lo <= hi <= v@.len(),
    ensures
        lo <= r.0 <= r.1 <= hi,
        v@.subrange(r.0 as int, r.1 as int) == trim(v@.subrange(lo as int, hi as int)),
{
    let mut a = lo;
    while a < hi && white_space(v[a])
        invariant
            lo <= a <= hi <= v@.len(),
            trim_start(v@.subrange(lo as int, hi as int)) == trim_start(
                v@.subrange(a as int, hi as int),
            ),
        decreases hi - a,
    {
        assert(v@.subrange(a as int, hi as int).drop_first() == v@.subrange(a + 1, hi as int));
        a = a + 1;
    }
    let mut b = hi;
    while b > a && white_space(v[b - 1])
        invariant
            lo <= a <= b <= hi <= v@.len(),
            trim_end(v@.subrange(a as int, hi as int)) == trim_end(v@.subrange(a as int, b as int)),
        decreases b - a,
    {
        assert(v@.subrange(a as int, b as int).drop_last() == v@.subrange(a as int, b - 1));
        b = b - 1;
    }
    (a, b)
}

/// A new vector holding `v[lo..hi]`.
pub fn slice_chars(v: &Vec<char>, lo: usize, hi: usize) -> (r: Vec<char>)
    requires
        lo <= hi <= v@.len(),
    ensures
        r@ == v@.subrange(lo as int, hi as int),
{
    let mut r: Vec<char> = Vec::new();
    let mut i = lo;
    while i < hi
        invariant
            lo <= i <= hi <= v@.len(),
            r@ == v@.subrange(lo as int, i as int),
        decreases hi - i,
    {
        r.push(v[i]);
        i = i + 1;
    }
    r
}

/// A `String` holding `v[lo..hi]`.
pub fn string_of_range(v: &Vec<char>, lo: usize, hi: usize) -> (r: String)
    requires
        lo <= hi <= v@.len(),
    ensures
        r@ == v@.subrange(lo as int, hi as int),
{
    let mut r = String::new();
    let mut i = lo;
    while i < hi
        invariant
            lo <= i <= hi <= v@.len(),
            r@ == v@.subrange(lo as int, i as int),
        decreases hi - i,
    {
        push_char(&mut r, v[i]);
        i = i + 1;
    }
    r
}

/// `s` trimmed, as a new `String` (`str::trim` followed by `to_owned`).
pub fn trimmed(s: &str) -> (r: String)
    ensures
        r@ == trim(s@),
{
    let v = chars_of(s);
    let (a, b) = trim_range(&v, 0, v.len());
    assert(v@.subrange(0, v@.len() as int) == v@);
    string_of_range(&v, a, b)
}

/// `p` occurs in `s` starting at index `i`.
pub open spec fn occurs_at(s: Seq<char>, p: Seq<char>, i: int) -> bool {
    0 <= i && i + p.len() <= s.len() && s.subrange(i, i + p.len()) == p
}

/// `p` occurs somewhere in `s` (`str::contains` with a string pattern).
pub open spec fn contains(s: Seq<char>, p: Seq<char>) -> bool {
    exists|i: int| occurs_at(s, p, i)
}

fn occurs_at_exec(s: &Vec<char>, p: &Vec<char>, i: usize) -> (b: bool)
    requires
        i + p@.len() <= s@.len(),
    ensures
        b == occurs_at(s@, p@, i as int),
{
    let n = s.len();
    let mut k: usize = 0;
    while k < p.len()
        invariant
            n == s@.len(),
            i + p@.len() <= s@.len(),
            k <= p@.len(),
            forall|j: int| 0 <= j < k ==> s@[i + j] == p@[j],
        decreases p@.len() - k,
    {
        assert(i + k < n);
        if s[i + k] != p[k] {
            assert(s@.subrange(i as int, i + p@.len())[k as int] != p@[k as int]);
            return false;
        }
        k = k + 1;
    }
    assert(s@.subrange(i as int, i + p@.len()) == p@);
    true
}

/// Whether `p` occurs in `s`.
pub fn contains_chars(s: &Vec<char>, p: &Vec<char>) -> (b: bool)
    ensures
        b == contains(s@, p@),
{
    if p.len() > s.len() {
        assert(!contains(s@, p@));
        return false;
    }
    let last = s.len() - p.len();
    let mut i: usize = 0;
    loop
        invariant
            p@.len() <= s@.len(),
            last == s@.len() - p@.len(),
            i <= last,
            forall|j: int| 0 <= j < i ==> !occurs_at(s@, p@, j),
        ensures
            forall|j: int| 0 <= j <= last ==> !occurs_at(s@, p@, j),
        decreases last - i,
    {
        if occurs_at_exec(s, p, i) {
            return true;
        }
        if i == last {
            break;
        }
        i = i + 1;
    }
    assert forall|j: int| !occurs_at(s@, p@, j) by {
        if 0 <= j && j + p@.len() <= s@.len() {
            assert(j <= last);
        }
    }
    false
}

/// Whether `p` occurs in `s` (`str::contains`).
pub fn str_contains(s: &str, p: &str) -> (b: bool)
    ensures
        b == contains(s@, p@),
{
    let sv = chars_of(s);
    let pv = chars_of(p);
    contains_chars(&sv, &pv)
}

/// ASCII `A`-`Z` mapped to `a`-`z`, every other character unchanged
/// (`char::to_ascii_lowercase`).
pub open spec fn ascii_lower(c: char) -> char {
    if 'A' <= c <= 'Z' {
        ((c as u32) + 32) as char
    } else {
        c
    }
}

pub open spec fn ascii_lowercase(s: Seq<char>) -> Seq<char> {
    s.map_values(|c: char| ascii_lower(c))
}

pub fn ascii_lower_char(c: char) -> (r: char)
    ensures
        r == ascii_lower(c),
{
    if 'A' <= c && c <= 'Z' {
        let u: u32 = (c as u32) + 32;
        let b: u8 = u as u8;
        b as char
    } else {
        c
    }
}

pub fn is_ascii_digit(c: char) -> (b: bool)
    ensures
        b == ('0' <= c <= '9'),
{
    '0' <= c && c <= '9'
}

/// Numeric value of a run of decimal digits.
pub open spec fn digits_value(d: Seq<char>) -> nat
    decreases d.len(),
{
    if d.len() == 0 {
        0
    } else {
        digits_value(d.drop_last()) * 10 + ((d.last() as u32) - 48) as nat
    }
}

pub open spec fn all_ascii_digits(d: Seq<char>) -> bool {
    forall|i: int| 0 <= i < d.len() ==> '0' <= #[trigger] d[i] <= '9'
}

/// `u32::from_str`: an optional `+`, then at least one decimal digit and nothing
/// else, with a value that fits in 32 bits.
pub open spec fn parse_u32_spec(s: Seq<char>) -> Option<u32> {
    let d = if s.len() > 0 && s[0] == '+' {
        s.drop_first()
    } else {
        s
    };
    if d.len() > 0 && all_ascii_digits(d) && digits_value(d) <= u32::MAX {
        Some(digits_value(d) as u32)
    } else {
        None
    }
}

/// Parses `v[lo..hi]` as `u32::from_str` does.
pub fn parse_u32_range(v: &Vec<char>, lo: usize, hi: usize) -> (r: Option<u32>)
    requires
        lo <= hi <= v@.len(),
    ensures
        r == parse_u32_spec(v@.subrange(lo as int, hi as int)),
{
    let ghost s = v@.subrange(lo as int, hi as int);
    let mut start = lo;
    if lo < hi && v[lo] == '+' {
        start = lo + 1;
        assert(s.drop_first() == v@.subrange(start as int, hi as int));
    }
    let ghost d = v@.subrange(start as int, hi as int);
    assert(d == (if s.len() > 0 && s[0] == '+' { s.drop_first() } else { s }));
    if start == hi {
        return None;
    }
    let mut acc: u64 = 0;
    let mut i = start;
    while i < hi
        invariant
            lo <= start <= i <= hi <= v@.len(),
            d == v@.subrange(start as int, hi as int),
            s == v@.subrange(lo as int, hi as int),
            d == (if s.len() > 0 && s[0] == '+' { s.drop_first() } else { s }),
            all_ascii_digits(v@.subrange(start as int, i as int)),
            acc as nat == digits_value(v@.subrange(start as int, i as int)),
            acc <= u32::MAX,
        decreases hi - i,
    {
        let c = v[i];
        if !is_ascii_digit(c) {
            assert(d[i - start] == c);
            assert(!all_ascii_digits(d));
            return None;
        }
        let dv: u64 = (c as u32 - 48) as u64;
        assert(v@.subrange(start as int, i + 1).drop_last() == v@.subrange(start as int, i as int));
        assert(v@.subrange(start as int, i + 1).last() == c);
        let next = acc * 10 + dv;
        if next > 0xFFFF_FFFF {
            proof {
                assert(d.subrange(0, i + 1 - start) == v@.subrange(start as int, i + 1));
                lemma_digits_value_prefix_monotone(d, (i + 1 - start) as nat);
            }
            return None;
        }
        acc = next;
        i = i + 1;
    }
    assert(v@.subrange(start as int, hi as int) == d);
    Some(acc as u32)
}

/// The value of a digit string is at least the value of any of its prefixes.
pub proof fn lemma_digits_value_prefix_monotone(d: Seq<char>, k: nat)
    requires
        k <= d.len(),
    ensures
        digits_value(d.subrange(0, k as int)) <= digits_value(d),
    decreases d.len(),
{
    if k < d.len() {
        assert(d.drop_last().subrange(0, k as int) == d.subrange(0, k as int));
        lemma_digits_value_prefix_monotone(d.drop_last(), k);
    } else {
        assert(d.subrange(0, k as int) == d);
    }
}

/// Parses `s` as `u32::from_str` does.
pub fn parse_u32(s: &str) -> (r: Option<u32>)
    ensures
        r == parse_u32_spec(s@),
{
    let v = chars_of(s);
    assert(v@.subrange(0, v@.len() as int) == v@);
    parse_u32_range(&v, 0, v.len())
}


/// Whether two character vectors are equal.
pub fn chars_eq(a: &Vec<char>, b: &Vec<char>) -> (r: bool)
    ensures
        r == (a@ == b@),
{
    if a.len() != b.len() {
        return false;
    }
    let mut i: usize = 0;
    while i < a.len()
        invariant
            a@.len() == b@.len(),
            i <= a@.len(),
            forall|j: int| 0 <= j < i ==> a@[j] == b@[j],
        decreases a@.len() - i,
    {
        if a[i] != b[i] {
            return false;
        }
        i = i + 1;
    }
    assert(a@ == b@);
    true
}


/// The pieces of `s` that `str::split_inclusive('\n')` yields: each ends with
/// its `\n`, except possibly the last.
pub open spec fn line_pieces(s: Seq<char>) -> Seq<Seq<char>>
    decreases s.len(),
{
    if s.len() == 0 {
        seq![]
    } else if s[0] == '\n' {
        seq![seq!['\n']] + line_pieces(s.drop_first())
    } else {
        let p = line_pieces(s.drop_first());
        if p.len() == 0 {
            seq![seq![s[0]]]
        } else {
            p.update(0, seq![s[0]] + p[0])
        }
    }
}

/// A piece without its `\n` terminator and, when it had one, a `\r` before it.
pub open spec fn strip_line(piece: Seq<char>) -> Seq<char> {
    if piece.len() > 0 && piece.last() == '\n' {
        let q = piece.drop_last();
        if q.len() > 0 && q.last() == '\r' {
            q.drop_last()
        } else {
            q
        }
    } else {
        piece
    }
}

/// The lines of `s`, as `str::lines` yields them.
pub open spec fn lines(s: Seq<char>) -> Seq<Seq<char>> {
    line_pieces(s).map_values(|p: Seq<char>| strip_line(p))
}

pub open spec fn no_newline(s: Seq<char>) -> bool {
    forall|i: int| 0 <= i < s.len() ==> s[i] != '\n'
}

/// A piece ending at the first `\n` of `s` comes first, then the pieces of the rest.
proof fn lemma_pieces_split(s: Seq<char>, j: int)
    requires
        0 <= j < s.len(),
        s[j] == '\n',
        no_newline(s.subrange(0, j)),
    ensures
        line_pieces(s) == seq![s.subrange(0, j + 1)] + line_pieces(s.subrange(j + 1, s.len() as int)),
    decreases j,
{
    if j == 0 {
        assert(s.subrange(0, 1) == seq!['\n']);
        assert(s.drop_first() == s.subrange(1, s.len() as int));
    } else {
        let t = s.drop_first();
        assert(s.subrange(0, j)[0] == s[0]);
        assert(t.subrange(0, j - 1) == s.subrange(1, j));
        assert forall|i: int| 0 <= i < j - 1 implies #[trigger] t.subrange(0, j - 1)[i] != '\n' by {
            assert(t.subrange(0, j - 1)[i] == s.subrange(0, j)[i + 1]);
        }
        lemma_pieces_split(t, j - 1);
        assert(t.subrange(j, t.len() as int) == s.subrange(j + 1, s.len() as int));
        assert(seq![s[0]] + t.subrange(0, j) == s.subrange(0, j + 1));
    }
}

/// A rest without any `\n` is a single piece.
proof fn lemma_pieces_last(s: Seq<char>)
    requires
        s.len() > 0,
        no_newline(s),
    ensures
        line_pieces(s) == seq![s],
    decreases s.len(),
{
    let t = s.drop_first();
    assert(s[0] != '\n');
    if t.len() == 0 {
        assert(line_pieces(t) == Seq::<Seq<char>>::empty());
        assert(seq![s[0]] == s);
    } else {
        assert forall|i: int| 0 <= i < t.len() implies #[trigger] t[i] != '\n' by {
            assert(t[i] == s[i + 1]);
        }
        lemma_pieces_last(t);
        assert(seq![s[0]] + t == s);
    }
}

/// The lines of `v` as separate character vectors (`str::lines`).
pub fn lines_of(v: &Vec<char>) -> (r: Vec<Vec<char>>)
    ensures
        r@.len() == lines(v@).len(),
        forall|i: int| 0 <= i < r@.len() ==> (#[trigger] r@[i])@ == lines(v@)[i],
{
    let n = v.len();
    let mut r: Vec<Vec<char>> = Vec::new();
    let mut start: usize = 0;
    let mut j: usize = 0;
    let ghost mut done: Seq<Seq<char>> = seq![];
    assert(v@.subrange(0, n as int) == v@);
    while j < n
        invariant
            n == v@.len(),
            start <= j <= n,
            no_newline(v@.subrange(start as int, j as int)),
            line_pieces(v@) == done + line_pieces(v@.subrange(start as int, n as int)),
            r@.len() == done.len(),
            forall|i: int| 0 <= i < r@.len() ==> (#[trigger] r@[i])@ == strip_line(done[i]),
        decreases n - j,
    {
        if v[j] == '\n' {
            let ghost sub = v@.subrange(start as int, n as int);
            proof {
                assert(sub.subrange(0, (j - start) as int) == v@.subrange(start as int, j as int));
                lemma_pieces_split(sub, (j - start) as int);
                assert(sub.subrange((j - start) as int + 1, sub.len() as int) == v@.subrange(
                    j + 1,
                    n as int,
                ));
                assert(sub.subrange(0, (j - start) as int + 1) == v@.subrange(
                    start as int,
                    j + 1,
                ));
            }
            let mut end = j;
            if end > start && v[end - 1] == '\r' {
                end = end - 1;
            }
            let line = slice_chars(v, start, end);
            proof {
                let piece = v@.subrange(start as int, j + 1);
                assert(piece.drop_last() == v@.subrange(start as int, j as int));
                assert(line@ == strip_line(piece)) by {
                    if j > start && v@[j - 1] == '\r' {
                        assert(piece.drop_last().drop_last() == v@.subrange(
                            start as int,
                            j - 1,
                        ));
                    }
                }
                done = done.push(piece);
                assert(line_pieces(v@) == done + line_pieces(v@.subrange(j + 1, n as int)));
            }
            r.push(line);
            start = j + 1;
            j = j + 1;
            assert(v@.subrange(start as int, j as int) == Seq::<char>::empty());
        } else {
            j = j + 1;
            assert forall|i: int| 0 <= i < j - start implies #[trigger] v@.subrange(
                start as int,
                j as int,
            )[i] != '\n' by {
                if i < j - 1 - start {
                    assert(v@.subrange(start as int, j as int)[i] == v@.subrange(
                        start as int,
                        j - 1,
                    )[i]);
                }
            }
        }
    }
    if start < n {
        let line = slice_chars(v, start, n);
        proof {
            lemma_pieces_last(v@.subrange(start as int, n as int));
            done = done.push(v@.subrange(start as int, n as int));
            assert(line_pieces(v@) == done);
        }
        r.push(line);
    } else {
        assert(line_pieces(v@.subrange(start as int, n as int)) == Seq::<Seq<char>>::empty());
        assert(line_pieces(v@) == done);
    }
    r
}


/// Index of the first `c` in `s`, or -1.
pub open spec fn first_index_of(s: Seq<char>, c: char) -> int
    decreases s.len(),
{
    if s.len() == 0 {
        -1
    } else if s[0] == c {
        0
    } else {
        let i = first_index_of(s.drop_first(), c);
        if i < 0 {
            -1
        } else {
            i + 1
        }
    }
}

/// Index of the first `c` in `v`.
pub fn first_index_exec(v: &Vec<char>, c: char) -> (r: Option<usize>)
    ensures
        match r {
            Some(i) => i as int == first_index_of(v@, c) && i < v@.len() && v@[i as int] == c,
            None => first_index_of(v@, c) == -1,
        },
{
    let n = v.len();
    let mut i: usize = 0;
    assert(v@.subrange(0, n as int) == v@);
    while i < n
        invariant
            n == v@.len(),
            i <= n,
            first_index_of(v@, c) == (if first_index_of(v@.subrange(i as int, n as int), c) < 0 {
                -1
            } else {
                first_index_of(v@.subrange(i as int, n as int), c) + i
            }),
        decreases n - i,
    {
        assert(v@.subrange(i as int, n as int).drop_first() == v@.subrange(i + 1, n as int));
        if v[i] == c {
            return Some(i);
        }
        i = i + 1;
    }
    None
}


/// Whether two strings are equal.
pub fn str_eq(a: &str, b: &str) -> (r: bool)
    ensures
        r == (a@ == b@),
{
    let av = chars_of(a);
    let bv = chars_of(b);
    chars_eq(&av, &bv)
}

/// The ASCII digits of `s`, in order.
pub open spec fn ascii_digits(s: Seq<char>) -> Seq<char> {
    s.filter(|c: char| '0' <= c <= '9')
}

/// `s` with its ASCII digits only.
pub fn ascii_digits_of(s: &str) -> (r: Vec<char>)
    ensures
        r@ == ascii_digits(s@),
{
    let v = chars_of(s);
    let mut r: Vec<char> = Vec::new();
    let mut i: usize = 0;
    proof {
        reveal(Seq::filter);
        assert(v@.subrange(0, 0).filter(|c: char| '0' <= c <= '9') == Seq::<char>::empty());
    }
    while i < v.len()
        invariant
            i <= v@.len(),
            r@ == v@.subrange(0, i as int).filter(|c: char| '0' <= c <= '9'),
        decreases v@.len() - i,
    {
        let c = v[i];
        proof {
            reveal(Seq::filter);
            assert(v@.subrange(0, i + 1).drop_last() == v@.subrange(0, i as int));
        }
        if is_ascii_digit(c) {
            r.push(c);
        }
        i = i + 1;
    }
    assert(v@.subrange(0, v@.len() as int) == v@);
    r
}

/// Appends the decimal text of a signed integer.
pub fn push_signed_decimal(s: &mut String, n: i64)
    ensures
        final(s)@ == old(s)@ + signed_decimal(n as int),
{
    if n < 0 {
        push_char(s, '-');
        let mag: u64 = (-(n as i128)) as u64;
        push_decimal(s, mag);
    } else {
        push_decimal(s, n as u64);
    }
}


/// `parts` joined with `sep` between neighbours (`[..].join(sep)`).
pub open spec fn join(parts: Seq<Seq<char>>, sep: Seq<char>) -> Seq<char>
    decreases parts.len(),
{
    if parts.len() == 0 {
        seq![]
    } else if parts.len() == 1 {
        parts[0]
    } else {
        join(parts.drop_last(), sep) + sep + parts.last()
    }
}

/// The texts of a list of strings.
pub open spec fn views(parts: Seq<String>) -> Seq<Seq<char>> {
    parts.map_values(|s: String| s@)
}

/// `parts` joined with `sep`.
pub fn join_strings(parts: &Vec<String>, sep: &str) -> (r: String)
    ensures
        r@ == join(views(parts@), sep@),
{
    let mut r = String::new();
    let mut i: usize = 0;
    while i < parts.len()
        invariant
            i <= parts@.len(),
            r@ == join(views(parts@).subrange(0, i as int), sep@),
        decreases parts@.len() - i,
    {
        proof {
            assert(views(parts@).subrange(0, i + 1).drop_last() == views(parts@).subrange(
                0,
                i as int,
            ));
        }
        if i > 0 {
            r.append(sep);
        }
        r.append(parts[i].as_str());
        i = i + 1;
    }
    assert(views(parts@).subrange(0, parts@.len() as int) == views(parts@));
    r
}


/// Decimal text of a 128-bit value.
pub fn push_decimal_u128(s: &mut String, n: u128)
    ensures
        final(s)@ == old(s)@ + decimal(n as nat),
    decreases n,
{
    if n >= 10 {
        push_decimal_u128(s, n / 10);
    }
    let c = digit_to_char((n % 10) as u64);
    push_char(s, c);
    assert(final(s)@ == old(s)@ + decimal(n as nat)) by {
        if n >= 10 {
            assert(decimal(n as nat) == decimal((n / 10) as nat).push(digit_char((n % 10) as nat)));
        }
    }
}

/// `a` sorts strictly before `b` in lexicographic order of code points (the
/// order of their UTF-8 bytes).
pub open spec fn lex_lt(a: Seq<char>, b: Seq<char>) -> bool
    decreases a.len(),
{
    if a.len() == 0 {
        b.len() > 0
    } else if b.len() == 0 {
        false
    } else if a[0] != b[0] {
        (a[0] as int) < (b[0] as int)
    } else {
        lex_lt(a.drop_first(), b.drop_first())
    }
}

pub open spec fn lex_le(a: Seq<char>, b: Seq<char>) -> bool {
    a == b || lex_lt(a, b)
}

pub proof fn lemma_lex_total(a: Seq<char>, b: Seq<char>)
    ensures
        lex_le(a, b) || lex_lt(b, a),
    decreases a.len(),
{
    if a.len() > 0 && b.len() > 0 && a[0] == b[0] {
        lemma_lex_total(a.drop_first(), b.drop_first());
        if a.drop_first() == b.drop_first() {
            assert(a == seq![a[0]] + a.drop_first());
            assert(b == seq![b[0]] + b.drop_first());
        }
    } else if a.len() == 0 && b.len() == 0 {
        assert(a == b);
    } else if a.len() > 0 && b.len() > 0 {
        assert((a[0] as int) != (b[0] as int));
    }
}

pub proof fn lemma_lex_lt_trans(a: Seq<char>, b: Seq<char>, c: Seq<char>)
    requires
        lex_lt(a, b),
        lex_lt(b, c),
    ensures
        lex_lt(a, c),
    decreases a.len(),
{
    if a.len() > 0 && b.len() > 0 && c.len() > 0 && a[0] == b[0] && b[0] == c[0] {
        lemma_lex_lt_trans(a.drop_first(), b.drop_first(), c.drop_first());
    }
}

pub proof fn lemma_lex_le_trans(a: Seq<char>, b: Seq<char>, c: Seq<char>)
    requires
        lex_le(a, b),
        lex_le(b, c),
    ensures
        lex_le(a, c),
{
    if lex_lt(a, b) && lex_lt(b, c) {
        lemma_lex_lt_trans(a, b, c);
    }
}

/// Whether `a` sorts strictly before `b`.
pub fn str_lt(a: &str, b: &str) -> (r: bool)
    ensures
        r == lex_lt(a@, b@),
{
    let av = chars_of(a);
    let bv = chars_of(b);
    let mut i: usize = 0;
    assert(av@.subrange(0, av@.len() as int) == av@);
    assert(bv@.subrange(0, bv@.len() as int) == bv@);
    while i < av.len() && i < bv.len() && av[i] == bv[i]
        invariant
            i <= av@.len(),
            i <= bv@.len(),
            lex_lt(av@, bv@) == lex_lt(
                av@.subrange(i as int, av@.len() as int),
                bv@.subrange(i as int, bv@.len() as int),
            ),
        decreases av@.len() - i,
    {
        assert(av@.subrange(i as int, av@.len() as int).drop_first() == av@.subrange(
            i + 1,
            av@.len() as int,
        ));
        assert(bv@.subrange(i as int, bv@.len() as int).drop_first() == bv@.subrange(
            i + 1,
            bv@.len() as int,
        ));
        i = i + 1;
    }
    if i == av.len() {
        i < bv.len()
    } else if i == bv.len() {
        false
    } else {
        let ca = av[i];
        let cb = bv[i];
        assert(av@.subrange(i as int, av@.len() as int)[0] == ca);
        assert(bv@.subrange(i as int, bv@.len() as int)[0] == cb);
        ca < cb
    }
}

/// The strings in ascending lexicographic order.
pub fn sort_strings(items: Vec<String>) -> (r: Vec<String>)
    ensures
        views(r@).to_multiset() == views(items@).to_multiset(),
        forall|i: int, j: int| 0 <= i < j < r@.len() ==> lex_le(#[trigger] r@[i]@, #[trigger] r@[j]@),
{
    let ghost orig = views(items@);
    let mut rest = items;
    let mut out: Vec<String> = Vec::new();
    proof {
        assert(orig.subrange(orig.len() as int, orig.len() as int) == Seq::<Seq<char>>::empty());
        assert(views(rest@) == orig.subrange(0, rest@.len() as int));
        assert(views(out@) == Seq::<Seq<char>>::empty());
    }
    while rest.len() > 0
        invariant
            rest@.len() <= orig.len(),
            views(rest@) == orig.subrange(0, rest@.len() as int),
            views(out@).to_multiset() == orig.subrange(rest@.len() as int, orig.len() as int).to_multiset(),
            forall|i: int, j: int| 0 <= i < j < out@.len() ==> lex_le(#[trigger] out@[i]@, #[trigger] out@[j]@),
        decreases rest@.len(),
    {
        let ghost suffix = orig.subrange(rest@.len() as int, orig.len() as int);
        let ghost before_rest = rest@;
        let x = rest.pop().unwrap();
        proof {
            assert(views(before_rest) == views(rest@).push(x@));
            assert(views(before_rest)[rest@.len() as int] == x@);
            assert(orig[rest@.len() as int] == x@);
            assert(orig.subrange(rest@.len() as int, orig.len() as int) == seq![x@] + suffix);
            assert(views(rest@) == orig.subrange(0, rest@.len() as int));
        }
        let mut p: usize = 0;
        while p < out.len() && str_lt(out[p].as_str(), x.as_str())
            invariant
                p <= out@.len(),
                forall|j: int| 0 <= j < p ==> lex_lt(#[trigger] out@[j]@, x@),
            decreases out@.len() - p,
        {
            p = p + 1;
        }
        let ghost old_out = out@;
        proof {
            if p < old_out.len() {
                lemma_lex_total(old_out[p as int]@, x@);
            }
        }
        out.insert(p as usize, x);
        proof {
            assert(out@ == old_out.insert(p as int, x));
            assert forall|i: int, j: int| 0 <= i < j < out@.len() implies lex_le(
                #[trigger] out@[i]@,
                #[trigger] out@[j]@,
            ) by {
                if j < p {
                } else if j == p {
                } else if i < p {
                    assert(out@[j] == old_out[j - 1]);
                    if j - 1 > i {
                    }
                } else if i == p {
                    assert(out@[j] == old_out[j - 1]);
                    if j - 1 > p {
                        lemma_lex_le_trans(x@, old_out[p as int]@, old_out[j - 1]@);
                    }
                } else {
                    assert(out@[j] == old_out[j - 1]);
                    assert(out@[i] == old_out[i - 1]);
                }
            }
            assert(views(out@) == views(old_out).insert(p as int, x@));
            vstd::seq_lib::to_multiset_insert(views(old_out), p as int, x@);
            vstd::seq_lib::to_multiset_insert(suffix, 0, x@);
            assert(suffix.insert(0, x@) == seq![x@] + suffix);
        }
    }
    assert(orig.subrange(0, orig.len() as int) == orig);
    out
}

} // verus!
