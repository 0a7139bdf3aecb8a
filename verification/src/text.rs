use vstd::prelude::*;

verus! {

/// `String::push` (std) appends one character at the end of the string.
pub assume_specification[ String::push ](s: &mut String, ch: char)
    ensures
        final(s)@ == old(s)@.push(ch),
;

/// String-slice equality (std `<str as PartialEq>::eq`): two slices are equal
/// exactly when they hold the same characters.
pub assume_specification[ <str as PartialEq>::eq ](a: &str, b: &str) -> (r: bool)
    ensures
        r == (a@ == b@),
;

/// The characters of a string slice, in order.
pub fn chars_of(s: &str) -> (v: Vec<char>)
    ensures
        v@ == s@,
{
    broadcast use vstd::string::group_string_axioms;
    let mut v: Vec<char> = Vec::new();
    for c in it: s.chars()
        invariant
            v@ == it.seq().take(it.index() as int),
    {
        v.push(c);
    }
    v
}


/// The string made of the characters `v[lo..hi]`.
pub fn string_of(v: &Vec<char>, lo: usize, hi: usize) -> (r: String)
    requires
        lo <= hi <= v@.len(),
    ensures
        r@ == v@.subrange(lo as int, hi as int),
{
    let mut r = String::new();
    let mut i = lo;
    while i < hi
        invariant
            lo <= i <= hi <= v@.len(),
            r@ == v@.subrange(lo as int, i as int),
        decreases hi - i,
    {
        r.push(v[i]);
        assert(v@.subrange(lo as int, i + 1) == v@.subrange(lo as int, i as int).push(v@[i as int]));
        i += 1;
    }
    r
}

/// Unicode white space, as std's `char::is_whitespace` classifies it
/// (the `White_Space` property).
pub open spec fn is_whitespace(c: char) -> bool {
    let n = c as u32;
    ||| 0x9 <= n <= 0xd
    ||| n == 0x20
    ||| n == 0x85
    ||| n == 0xa0
    ||| n == 0x1680
    ||| 0x2000 <= n <= 0x200a
    ||| n == 0x2028
    ||| n == 0x2029
    ||| n == 0x202f
    ||| n == 0x205f
    ||| n == 0x3000
}

/// Whether `c` is white space.
pub fn is_whitespace_char(c: char) -> (r: bool)
    ensures
        r == is_whitespace(c),
{
    let n = c as u32;
    (0x9 <= n && n <= 0xd) || n == 0x20 || n == 0x85 || n == 0xa0 || n == 0x1680 || (0x2000 <= n
        && n <= 0x200a) || n == 0x2028 || n == 0x2029 || n == 0x202f || n == 0x205f || n == 0x3000
}

/// `s` without its leading white space.
pub open spec fn trim_start(s: Seq<char>) -> Seq<char>
    decreases s.len(),
{
    if s.len() > 0 && is_whitespace(s[0]) {
        trim_start(s.drop_first())
    } else {
        s
    }
}

/// `s` without its trailing white space.
pub open spec fn trim_end(s: Seq<char>) -> Seq<char>
    decreases s.len(),
{
    if s.len() > 0 && is_whitespace(s.last()) {
        trim_end(s.drop_last())
    } else {
        s
    }
}

/// `s` without white space at either end (std's `str::trim`).
pub open spec fn trim(s: Seq<char>) -> Seq<char> {
    trim_end(trim_start(s))
}

/// The string slice without white space at either end.
pub fn trimmed(s: &str) -> (r: String)
    ensures
        r@ == trim(s@),
{
    let v = chars_of(s);
    let len = v.len();
    let mut i: usize = 0;
    assert(v@.subrange(0, len as int) == v@);
    while i < len && is_whitespace_char(v[i])
        invariant
            i <= len == v@.len(),
            trim_start(v@) == trim_start(v@.subrange(i as int, len as int)),
        decreases len - i,
    {
        assert(v@.subrange(i as int, len as int).drop_first() == v@.subrange(i + 1, len as int));
        i += 1;
    }
    assert(trim_start(v@) == v@.subrange(i as int, len as int));
    let mut j: usize = len;
    while j > i && is_whitespace_char(v[j - 1])
        invariant
            i <= j <= len == v@.len(),
            trim_end(v@.subrange(i as int, len as int)) == trim_end(v@.subrange(i as int, j as int)),
        decreases j - i,
    {
        assert(v@.subrange(i as int, j as int).drop_last() == v@.subrange(i as int, j - 1));
        j -= 1;
    }
    string_of(&v, i, j)
}

/// Whether `p` occurs in `s` starting at index `i`.
pub open spec fn occurs_at(s: Seq<char>, p: Seq<char>, i: int) -> bool {
    0 <= i && i + p.len() <= s.len() && s.subrange(i, i + p.len()) == p
}

/// Whether `p` occurs in `s` (std's `str::contains` with a string pattern).
pub open spec fn contains_seq(s: Seq<char>, p: Seq<char>) -> bool {
    exists|i: int| #[trigger] occurs_at(s, p, i)
}

/// Whether `s` begins with `p` (std's `str::starts_with`).
pub open spec fn starts_with_seq(s: Seq<char>, p: Seq<char>) -> bool {
    occurs_at(s, p, 0)
}

/// Whether `p` occurs in `h` at index `i`.
pub fn occurs_at_index(h: &Vec<char>, p: &Vec<char>, i: usize) -> (r: bool)
    ensures
        r == occurs_at(h@, p@, i as int),
{
    if i > h.len() || p.len() > h.len() - i {
        return false;
    }
    let mut k: usize = 0;
    while k < p.len()
        invariant
            i + p.len() <= h.len(),
            h@.len() == h.len(),
            p@.len() == p.len(),
            k <= p@.len(),
            forall|m: int| 0 <= m < k ==> h@[i + m] == p@[m],
        decreases p@.len() - k,
    {
        if h[i + k] != p[k] {
            assert(h@.subrange(i as int, i + p@.len())[k as int] != p@[k as int]);
            return false;
        }
        k += 1;
    }
    assert(h@.subrange(i as int, i + p@.len()) =~= p@);
    true
}

/// Whether `p` occurs anywhere in `h`.
pub fn contains_chars(h: &Vec<char>, p: &Vec<char>) -> (r: bool)
    ensures
        r == contains_seq(h@, p@),
{
    if p.len() > h.len() {
        assert forall|i: int| !occurs_at(h@, p@, i) by {}
        return false;
    }
    let last = h.len() - p.len();
    let mut i: usize = 0;
    while i < last
        invariant
            last + p@.len() == h@.len(),
            i <= last,
            forall|m: int| 0 <= m < i ==> !occurs_at(h@, p@, m),
        decreases last - i,
    {
        if occurs_at_index(h, p, i) {
            return true;
        }
        i += 1;
    }
    if occurs_at_index(h, p, last) {
        return true;
    }
    assert forall|m: int| !occurs_at(h@, p@, m) by {
        if 0 <= m < i {
        }
    }
    false
}

/// Whether the string slice `p` occurs in `h`.
pub fn contains_str(h: &str, p: &str) -> (r: bool)
    ensures
        r == contains_seq(h@, p@),
{
    let hv = chars_of(h);
    let pv = chars_of(p);
    contains_chars(&hv, &pv)
}

/// Whether the string slice `h` begins with `p`.
pub fn starts_with_str(h: &str, p: &str) -> (r: bool)
    ensures
        r == starts_with_seq(h@, p@),
{
    let hv = chars_of(h);
    let pv = chars_of(p);
    occurs_at_index(&hv, &pv, 0)
}


/// A line without the carriage return that closed it before its line feed.
pub open spec fn strip_cr(l: Seq<char>) -> Seq<char> {
    if l.len() > 0 && l.last() == '\r' {
        l.drop_last()
    } else {
        l
    }
}

/// Reading `s` from the left: the lines already ended by a line feed,
/// and the characters of the line not yet ended.
pub open spec fn scan_lines(s: Seq<char>) -> (Seq<Seq<char>>, Seq<char>)
    decreases s.len(),
{
    if s.len() == 0 {
        (seq![], seq![])
    } else {
        let (done, cur) = scan_lines(s.drop_last());
        if s.last() == '\n' {
            (done.push(strip_cr(cur)), seq![])
        } else {
            (done, cur.push(s.last()))
        }
    }
}

/// The lines of `s`, as std's `str::lines` yields them: split at each line
/// feed, a carriage return just before the line feed removed, and no empty
/// line after a final line feed.
pub open spec fn lines(s: Seq<char>) -> Seq<Seq<char>> {
    let (done, cur) = scan_lines(s);
    if cur.len() > 0 {
        done.push(cur)
    } else {
        done
    }
}

/// The views of a list of strings.
pub open spec fn views(v: Seq<String>) -> Seq<Seq<char>> {
    v.map_values(|x: String| x@)
}

/// The lines of a string slice.
pub fn split_lines(s: &str) -> (r: Vec<String>)
    ensures
        views(r@) == lines(s@),
{
    let v = chars_of(s);
    let len = v.len();
    let mut out: Vec<String> = Vec::new();
    let mut start: usize = 0;
    let mut i: usize = 0;
    while i < len
        invariant
            len == v@.len(),
            start <= i <= len,
            scan_lines(v@.take(i as int)) == (views(out@), v@.subrange(start as int, i as int)),
        decreases len - i,
    {
        assert(v@.take(i + 1).drop_last() == v@.take(i as int));
        assert(v@.take(i + 1).last() == v@[i as int]);
        if v[i] == '\n' {
            let end = if i > start && v[i - 1] == '\r' {
                i - 1
            } else {
                i
            };
            assert(v@.subrange(start as int, end as int) == strip_cr(v@.subrange(start as int, i as int)));
            let line = string_of(&v, start, end);
            let ghost old_out = out@;
            out.push(line);
            assert(views(out@) == views(old_out).push(line@));
            start = i + 1;
            assert(v@.subrange(start as int, i + 1) == Seq::<char>::empty());
        } else {
            assert(v@.subrange(start as int, i + 1) == v@.subrange(start as int, i as int).push(v@[i as int]));
        }
        i += 1;
    }
    assert(v@.take(len as int) == v@);
    if start < len {
        let line = string_of(&v, start, len);
        let ghost old_out = out@;
        out.push(line);
        assert(views(out@) == views(old_out).push(line@));
    }
    out
}

/// Reading `s` from the left: the words already ended by white space, and
/// the characters of the word not yet ended.
pub open spec fn scan_words(s: Seq<char>) -> (Seq<Seq<char>>, Seq<char>)
    decreases s.len(),
{
    if s.len() == 0 {
        (seq![], seq![])
    } else {
        let (done, cur) = scan_words(s.drop_last());
        if is_whitespace(s.last()) {
            if cur.len() > 0 {
                (done.push(cur), seq![])
            } else {
                (done, cur)
            }
        } else {
            (done, cur.push(s.last()))
        }
    }
}

/// The words of `s`, as std's `str::split_whitespace` yields them: the
/// maximal runs of characters that are not white space, in order.
pub open spec fn words(s: Seq<char>) -> Seq<Seq<char>> {
    let (done, cur) = scan_words(s);
    if cur.len() > 0 {
        done.push(cur)
    } else {
        done
    }
}

/// The words of a string slice.
pub fn split_words(s: &str) -> (r: Vec<String>)
    ensures
        views(r@) == words(s@),
{
    let v = chars_of(s);
    let len = v.len();
    let mut out: Vec<String> = Vec::new();
    let mut start: usize = 0;
    let mut i: usize = 0;
    while i < len
        invariant
            len == v@.len(),
            start <= i <= len,
            scan_words(v@.take(i as int)) == (views(out@), v@.subrange(start as int, i as int)),
        decreases len - i,
    {
        assert(v@.take(i + 1).drop_last() == v@.take(i as int));
        assert(v@.take(i + 1).last() == v@[i as int]);
        if is_whitespace_char(v[i]) {
            if start < i {
                let word = string_of(&v, start, i);
                let ghost old_out = out@;
                out.push(word);
                assert(views(out@) == views(old_out).push(word@));
            }
            start = i + 1;
            assert(v@.subrange(start as int, i + 1) == Seq::<char>::empty());
        } else {
            assert(v@.subrange(start as int, i + 1) == v@.subrange(start as int, i as int).push(v@[i as int]));
        }
        i += 1;
    }
    assert(v@.take(len as int) == v@);
    if start < len {
        let word = string_of(&v, start, len);
        let ghost old_out = out@;
        out.push(word);
        assert(views(out@) == views(old_out).push(word@));
    }
    out
}

/// Whether `c` is an ASCII decimal digit.
pub open spec fn is_digit(c: char) -> bool {
    '0' <= c <= '9'
}

/// The value of a run of decimal digits, most significant first.
pub open spec fn decimal_value(d: Seq<char>) -> nat
    decreases d.len(),
{
    if d.len() == 0 {
        0
    } else {
        decimal_value(d.drop_last()) * 10 + ((d.last() as u32) - ('0' as u32)) as nat
    }
}

/// The digits of an unsigned decimal literal: a leading `+` is allowed.
pub open spec fn unsigned_digits(s: Seq<char>) -> Seq<char> {
    if s.len() > 0 && s[0] == '+' {
        s.drop_first()
    } else {
        s
    }
}

/// What std's `u16::from_str` gives: the value when `s` is an optional `+`
/// followed by at least one ASCII digit and the value fits in 16 bits,
/// otherwise nothing.
pub open spec fn parse_u16_spec(s: Seq<char>) -> Option<u16> {
    let d = unsigned_digits(s);
    if d.len() > 0 && (forall|i: int| 0 <= i < d.len() ==> is_digit(#[trigger] d[i]))
        && decimal_value(d) <= 0xffff {
        Some(decimal_value(d) as u16)
    } else {
        None
    }
}

proof fn lemma_decimal_value_grows(d: Seq<char>, j: int)
    requires
        0 <= j <= d.len(),
        forall|i: int| 0 <= i < d.len() ==> is_digit(#[trigger] d[i]),
    ensures
        decimal_value(d.take(j)) <= decimal_value(d),
    decreases d.len() - j,
{
    if j < d.len() {
        lemma_decimal_value_grows(d, j + 1);
        assert(d.take(j + 1).drop_last() == d.take(j));
    } else {
        assert(d.take(j) == d);
    }
}

/// Parses a port number the way std's `u16::from_str` does.
pub fn parse_u16(s: &str) -> (r: Option<u16>)
    ensures
        r == parse_u16_spec(s@),
{
    let v = chars_of(s);
    let len = v.len();
    let first: usize = if len > 0 && v[0] == '+' {
        1
    } else {
        0
    };
    let ghost d = unsigned_digits(v@);
    assert(d == v@.subrange(first as int, len as int));
    if first >= len {
        return None;
    }
    let mut acc: u32 = 0;
    let mut i: usize = first;
    while i < len
        invariant
            first <= i <= len == v@.len(),
            v@ == s@,
            d == unsigned_digits(s@),
            d == v@.subrange(first as int, len as int),
            forall|k: int| 0 <= k < i - first ==> is_digit(#[trigger] d[k]),
            acc == decimal_value(d.take(i - first)),
            acc <= 0xffff,
        decreases len - i,
    {
        let c = v[i];
        if !('0' <= c && c <= '9') {
            assert(!is_digit(d[i - first]));
            return None;
        }
        assert(d.take(i + 1 - first).drop_last() == d.take(i - first));
        assert(d.take(i + 1 - first).last() == c);
        let digit = (c as u32) - ('0' as u32);
        acc = acc * 10 + digit;
        i += 1;
        if acc > 0xffff {
            proof {
                if forall|k: int| 0 <= k < d.len() ==> is_digit(#[trigger] d[k]) {
                    lemma_decimal_value_grows(d, i - first);
                }
            }
            return None;
        }
    }
    assert(d.take(len - first) == d);
    Some(acc as u16)
}


/// The digit character of `d` (0 to 9).
pub open spec fn digit_char(d: nat) -> char {
    (('0' as u32) + d) as char
}

/// The decimal rendering of `n`, without leading zeros (as std's `Display`
/// writes an unsigned integer).
pub open spec fn decimal_digits(n: nat) -> Seq<char>
    decreases n,
{
    if n < 10 {
        seq![digit_char(n)]
    } else {
        decimal_digits(n / 10).push(digit_char(n % 10))
    }
}

/// Appends the decimal rendering of `n`.
pub fn push_decimal(s: &mut String, n: u16)
    ensures
        final(s)@ == old(s)@ + decimal_digits(n as nat),
    decreases n,
{
    if n >= 10 {
        push_decimal(s, n / 10);
    }
    let d = n % 10;
    let c: char = match d {
        0 => '0',
        1 => '1',
        2 => '2',
        3 => '3',
        4 => '4',
        5 => '5',
        6 => '6',
        7 => '7',
        8 => '8',
        _ => '9',
    };
    assert(c == digit_char(d as nat));
    s.push(c);
}

/// The address `addr:port` that a socket is bound or connected to.
pub fn socket_address(addr: &str, port: u16) -> (r: String)
    ensures
        r@ == addr@ + ":"@ + decimal_digits(port as nat),
{
    let mut r = String::from_str(addr);
    r.append(":");
    push_decimal(&mut r, port);
    r
}

/// The rendering of a number is made of digits and reads back as the number.
pub proof fn lemma_decimal_digits_read_back(n: nat)
    ensures
        decimal_digits(n).len() > 0,
        forall|i: int| 0 <= i < decimal_digits(n).len() ==> is_digit(#[trigger] decimal_digits(n)[i]),
        decimal_value(decimal_digits(n)) == n,
    decreases n,
{
    let d = decimal_digits(n);
    assert(digit_char(n % 10) as u32 == ('0' as u32) + n % 10);
    if n >= 10 {
        lemma_decimal_digits_read_back(n / 10);
        assert(d.drop_last() == decimal_digits(n / 10));
        assert(d.last() == digit_char(n % 10));
        assert(d.last() as u32 == ('0' as u32) + n % 10);
        assert(decimal_value(d) == decimal_value(d.drop_last()) * 10 + n % 10);
        assert(n == (n / 10) * 10 + n % 10) by (nonlinear_arith);
    } else {
        assert(d.drop_last().len() == 0);
        assert(d.last() == digit_char(n));
        assert(d.last() as u32 == ('0' as u32) + n);
        assert(decimal_value(d) == decimal_value(d.drop_last()) * 10 + n);
    }
}

/// Parsing a rendered port gives the port back.
pub proof fn lemma_port_round_trip(port: u16)
    ensures
        parse_u16_spec(decimal_digits(port as nat)) == Some(port),
{
    lemma_decimal_digits_read_back(port as nat);
    let d = decimal_digits(port as nat);
    assert(is_digit(d[0]));
    assert(unsigned_digits(d) == d);
}

} // verus!
