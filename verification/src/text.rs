//! Text helpers: trimming, splitting, decimal numbers and the pieces that the
//! error messages are made of.
use vstd::prelude::*;
use vstd::utf8::*;

verus! {

/// The Unicode `White_Space` property.
pub open spec fn is_white_space(c: char) -> bool {
    ||| '\u{9}' <= c <= '\u{d}'
    ||| c == ' '
    ||| c == '\u{85}'
    ||| c == '\u{a0}'
    ||| c == '\u{1680}'
    ||| '\u{2000}' <= c <= '\u{200a}'
    ||| c == '\u{2028}'
    ||| c == '\u{2029}'
    ||| c == '\u{202f}'
    ||| c == '\u{205f}'
    ||| c == '\u{3000}'
}

/// `char::is_whitespace` decides the Unicode `White_Space` property.
pub assume_specification[ char::is_whitespace ](c: char) -> (r: bool)
    ensures
        r == is_white_space(c),
;

/// `s` without its leading white space.
pub open spec fn trimmed_start(s: Seq<char>) -> Seq<char>
    decreases s.len(),
{
    if s.len() > 0 && is_white_space(s[0]) {
        trimmed_start(s.skip(1))
    } else {
        s
    }
}

/// `s` without its trailing white space.
pub open spec fn trimmed_end(s: Seq<char>) -> Seq<char>
    decreases s.len(),
{
    if s.len() > 0 && is_white_space(s.last()) {
        trimmed_end(s.drop_last())
    } else {
        s
    }
}

/// `s` without white space at either end.
pub open spec fn trimmed(s: Seq<char>) -> Seq<char> {
    trimmed_end(trimmed_start(s))
}

/// Drops white space at both ends.
pub fn trim(s: &str) -> (r: &str)
    ensures
        r@ == trimmed(s@),
{
    let len: usize = s.unicode_len();
    let mut start: usize = 0;
    assert(s@.skip(0) =~= s@);
    while start < len && s.get_char(start).is_whitespace()
        invariant
            len == s@.len(),
            start <= len,
            trimmed_start(s@) == trimmed_start(s@.skip(start as int)),
        decreases len - start,
    {
        assert(s@.skip(start as int).skip(1) =~= s@.skip(start + 1));
        start = start + 1;
    }
    assert(trimmed_start(s@) == s@.skip(start as int));
    let mut end: usize = len;
    assert(s@.subrange(start as int, len as int) =~= s@.skip(start as int));
    while end > start && s.get_char(end - 1).is_whitespace()
        invariant
            len == s@.len(),
            start <= end <= len,
            trimmed(s@) == trimmed_end(s@.subrange(start as int, end as int)),
        decreases end - start,
    {
        assert(s@.subrange(start as int, end as int).drop_last() =~= s@.subrange(
            start as int,
            end - 1,
        ));
        end = end - 1;
    }
    s.substring_char(start, end)
}

/// The first position of `c` in `s` at or after `from`.
pub open spec fn first_at(s: Seq<char>, c: char, from: int) -> Option<int>
    decreases s.len() - from,
{
    if from >= s.len() {
        None
    } else if s[from] == c {
        Some(from)
    } else {
        first_at(s, c, from + 1)
    }
}

/// The last position of `c` in `s` before `upto`.
pub open spec fn last_at(s: Seq<char>, c: char, upto: int) -> Option<int>
    decreases upto,
{
    if upto <= 0 {
        None
    } else if s[upto - 1] == c {
        Some(upto - 1)
    } else {
        last_at(s, c, upto - 1)
    }
}

/// `s` cut around the character at `at`.
pub open spec fn cut(s: Seq<char>, at: Option<int>) -> Option<(Seq<char>, Seq<char>)> {
    match at {
        Some(i) => Some((s.take(i), s.skip(i + 1))),
        None => None,
    }
}

/// `s` cut at the first `c`.
pub open spec fn cut_first(s: Seq<char>, c: char) -> Option<(Seq<char>, Seq<char>)> {
    cut(s, first_at(s, c, 0))
}

/// `s` cut at the last `c`.
pub open spec fn cut_last(s: Seq<char>, c: char) -> Option<(Seq<char>, Seq<char>)> {
    cut(s, last_at(s, c, s.len() as int))
}

/// The views of a pair of strings, where there is one.
pub open spec fn pair_view(p: Option<(&str, &str)>) -> Option<(Seq<char>, Seq<char>)> {
    match p {
        Some((a, b)) => Some((a@, b@)),
        None => None,
    }
}

/// Splits `s` at the first `c`, which belongs to neither half.
pub fn split_first<'a>(s: &'a str, c: char) -> (r: Option<(&'a str, &'a str)>)
    ensures
        pair_view(r) == cut_first(s@, c),
{
    let len: usize = s.unicode_len();
    let mut i: usize = 0;
    while i < len
        invariant
            len == s@.len(),
            i <= len,
            first_at(s@, c, 0) == first_at(s@, c, i as int),
        decreases len - i,
    {
        if s.get_char(i) == c {
            let head = s.substring_char(0, i);
            let tail = s.substring_char(i + 1, len);
            assert(head@ =~= s@.take(i as int));
            assert(tail@ =~= s@.skip(i + 1));
            return Some((head, tail));
        }
        i = i + 1;
    }
    None
}

/// Splits `s` at the last `c`, which belongs to neither half.
pub fn split_last<'a>(s: &'a str, c: char) -> (r: Option<(&'a str, &'a str)>)
    ensures
        pair_view(r) == cut_last(s@, c),
{
    let len: usize = s.unicode_len();
    let mut i: usize = len;
    while i > 0
        invariant
            len == s@.len(),
            i <= len,
            last_at(s@, c, len as int) == last_at(s@, c, i as int),
        decreases i,
    {
        if s.get_char(i - 1) == c {
            let head = s.substring_char(0, i - 1);
            let tail = s.substring_char(i, len);
            assert(head@ =~= s@.take(i - 1));
            assert(tail@ =~= s@.skip(i as int));
            return Some((head, tail));
        }
        i = i - 1;
    }
    None
}

/// Is `c` one of the ten decimal digits?
pub open spec fn is_digit(c: char) -> bool {
    '0' <= c <= '9'
}

/// Are all characters decimal digits?
pub open spec fn all_digits(s: Seq<char>) -> bool {
    forall|i: int| 0 <= i < s.len() ==> is_digit(#[trigger] s[i])
}

/// The number that a run of decimal digits stands for.
pub open spec fn digits_value(s: Seq<char>) -> nat
    decreases s.len(),
{
    if s.len() == 0 {
        0
    } else {
        digits_value(s.drop_last()) * 10 + (s.last() as nat - '0' as nat) as nat
    }
}

/// The number that `s` stands for: digits, with an optional `+` in front, and
/// no more than 16 bits.
pub open spec fn port_number(s: Seq<char>) -> Option<u16> {
    let d = if s.len() > 0 && s[0] == '+' {
        s.skip(1)
    } else {
        s
    };
    if d.len() > 0 && all_digits(d) && digits_value(d) <= 65535 {
        Some(digits_value(d) as u16)
    } else {
        None
    }
}

/// What `str::parse::<u16>` says of a text that is no 16-bit number: its
/// error, as text.
pub uninterp spec fn parse_error_text(s: Seq<char>) -> Seq<char>;

/// Reads `s` with `str::parse::<u16>`. It gives the number that `s` stands for
/// and fails on every other text; of the error only that its text depends on
/// `s` alone is claimed.
#[verifier::external_body]
pub(crate) fn parse_u16(s: &str) -> (r: Result<u16, String>)
    ensures
        match r {
            Ok(p) => port_number(s@) == Some(p),
            Err(e) => port_number(s@) is None && e@ == parse_error_text(s@),
        },
{
    match s.parse::<u16>() {
        Ok(p) => Ok(p),
        Err(e) => Err(e.to_string()),
    }
}

/// `s` in double quotes with escapes, as the `{:?}` format writes it.
pub uninterp spec fn quoted_text(s: Seq<char>) -> Seq<char>;

/// Formats `s` with `{:?}`; the result depends on `s` alone.
#[verifier::external_body]
pub(crate) fn quote(s: &str) -> (r: String)
    ensures
        r@ == quoted_text(s@),
{
    format!("{s:?}")
}

/// What `String::from_utf8_lossy` makes of bytes that are not UTF-8: the text
/// with U+FFFD in the place of what is invalid.
pub uninterp spec fn repaired_text(b: Seq<u8>) -> Seq<char>;

/// The text in `b`.
pub open spec fn text_of(b: Seq<u8>) -> Seq<char> {
    if valid_utf8(b) {
        decode_utf8(b)
    } else {
        repaired_text(b)
    }
}

/// Reads text with `String::from_utf8_lossy`: UTF-8 is taken as it stands, and
/// other bytes are repaired, in a way that depends on them alone.
#[verifier::external_body]
pub(crate) fn read_text(b: &[u8]) -> (r: String)
    ensures
        r@ == (if valid_utf8(b@) {
            decode_utf8(b@)
        } else {
            repaired_text(b@)
        }),
{
    String::from_utf8_lossy(b).into_owned()
}

/// What is written as UTF-8 is read back.
pub proof fn law_text_roundtrip(s: Seq<char>)
    ensures
        text_of(encode_utf8(s)) == s,
{
    encode_utf8_valid_utf8(s);
    encode_utf8_decode_utf8(s);
}

/// The digit for `d`, which is below ten.
pub open spec fn digit_char(d: nat) -> char {
    ('0' as nat + d) as char
}

/// `n` in decimal, without leading zeros.
pub open spec fn decimal(n: nat) -> Seq<char>
    decreases n,
{
    if n < 10 {
        seq![digit_char(n)]
    } else {
        decimal(n / 10).push(digit_char(n % 10))
    }
}

fn digit_text(d: u64) -> (r: String)
    requires
        d < 10,
    ensures
        r@ == seq![digit_char(d as nat)],
{
    proof {
        reveal_strlit("0");
        reveal_strlit("1");
        reveal_strlit("2");
        reveal_strlit("3");
        reveal_strlit("4");
        reveal_strlit("5");
        reveal_strlit("6");
        reveal_strlit("7");
        reveal_strlit("8");
        reveal_strlit("9");
    }
    let t: &str = if d == 0 {
        "0"
    } else if d == 1 {
        "1"
    } else if d == 2 {
        "2"
    } else if d == 3 {
        "3"
    } else if d == 4 {
        "4"
    } else if d == 5 {
        "5"
    } else if d == 6 {
        "6"
    } else if d == 7 {
        "7"
    } else if d == 8 {
        "8"
    } else {
        "9"
    };
    assert(t@ =~= seq![digit_char(d as nat)]);
    t.to_owned()
}

/// Writes `n` in decimal.
pub fn number_text(n: u64) -> (r: String)
    ensures
        r@ == decimal(n as nat),
    decreases n,
{
    if n < 10 {
        digit_text(n)
    } else {
        let head = number_text(n / 10);
        let tail = digit_text(n % 10);
        let r = head.concat(tail.as_str());
        assert(r@ =~= decimal(n as nat));
        r
    }
}

/// `host:port`.
pub open spec fn host_port(host: Seq<char>, port: u16) -> Seq<char> {
    host + ":"@ + decimal(port as nat)
}

/// Writes `host:port`.
pub fn host_port_text(host: &str, port: u16) -> (r: String)
    ensures
        r@ == host_port(host@, port),
{
    host.to_owned().concat(":").concat(number_text(port as u64).as_str())
}

/// A number in decimal is digits, and they stand for the number.
pub proof fn law_decimal(n: nat)
    ensures
        decimal(n).len() > 0,
        all_digits(decimal(n)),
        digits_value(decimal(n)) == n,
    decreases n,
{
    if n < 10 {
        reveal_with_fuel(digits_value, 2);
        assert(seq![digit_char(n)].drop_last() =~= Seq::<char>::empty());
    } else {
        law_decimal(n / 10);
        assert(decimal(n).drop_last() =~= decimal(n / 10));
    }
}

/// A port in decimal is read back.
pub proof fn law_port_text(p: u16)
    ensures
        port_number(decimal(p as nat)) == Some(p),
{
    law_decimal(p as nat);
    assert(is_digit(decimal(p as nat)[0]));
}

/// A text with a digit at either end has nothing to trim.
pub proof fn lemma_digits_trimmed(s: Seq<char>)
    requires
        s.len() > 0,
        is_digit(s[0]),
        is_digit(s.last()),
    ensures
        trimmed(s) == s,
{
}

/// The first `c` of a text that starts without one.
pub proof fn lemma_first_after(s: Seq<char>, c: char, from: int, at: int)
    requires
        0 <= from <= at < s.len(),
        s[at] == c,
        forall|i: int| from <= i < at ==> s[i] != c,
    ensures
        first_at(s, c, from) == Some(at),
    decreases at - from,
{
    if from < at {
        lemma_first_after(s, c, from + 1, at);
    }
}

/// Are all characters white space?
pub open spec fn all_white(s: Seq<char>) -> bool {
    forall|i: int| 0 <= i < s.len() ==> is_white_space(#[trigger] s[i])
}

proof fn lemma_trimmed_start(s: Seq<char>) -> (a: Seq<char>)
    ensures
        all_white(a),
        a + trimmed_start(s) == s,
        trimmed_start(s).len() > 0 ==> !is_white_space(trimmed_start(s)[0]),
    decreases s.len(),
{
    if s.len() > 0 && is_white_space(s[0]) {
        let b = lemma_trimmed_start(s.skip(1));
        let a = seq![s[0]] + b;
        assert forall|i: int| 0 <= i < a.len() implies is_white_space(#[trigger] a[i]) by {
            if i > 0 {
                assert(a[i] == b[i - 1]);
            }
        }
        assert(a + trimmed_start(s) =~= seq![s[0]] + s.skip(1));
        assert(seq![s[0]] + s.skip(1) =~= s);
        a
    } else {
        assert(Seq::<char>::empty() + s =~= s);
        Seq::empty()
    }
}

proof fn lemma_trimmed_end(s: Seq<char>) -> (b: Seq<char>)
    ensures
        all_white(b),
        trimmed_end(s) + b == s,
        trimmed_end(s).len() > 0 ==> !is_white_space(trimmed_end(s).last()),
    decreases s.len(),
{
    if s.len() > 0 && is_white_space(s.last()) {
        let a = lemma_trimmed_end(s.drop_last());
        let b = a.push(s.last());
        assert forall|i: int| 0 <= i < b.len() implies is_white_space(#[trigger] b[i]) by {
            if i < a.len() {
                assert(b[i] == a[i]);
            }
        }
        assert(trimmed_end(s) + b =~= s.drop_last().push(s.last()));
        assert(s.drop_last().push(s.last()) =~= s);
        b
    } else {
        assert(s + Seq::<char>::empty() =~= s);
        Seq::empty()
    }
}

/// Trimming takes off white space at both ends, all of it and nothing else: a
/// text is white space, what trimming leaves of it, and white space, and what
/// is left has none at its ends.
pub proof fn law_trimmed(s: Seq<char>) -> (r: (Seq<char>, Seq<char>))
    ensures
        all_white(r.0),
        all_white(r.1),
        r.0 + trimmed(s) + r.1 == s,
        trimmed(s).len() > 0 ==> !is_white_space(trimmed(s)[0]) && !is_white_space(
            trimmed(s).last(),
        ),
{
    let a = lemma_trimmed_start(s);
    let t = trimmed_start(s);
    let b = lemma_trimmed_end(t);
    if trimmed(s).len() > 0 {
        assert(t[0] == trimmed(s)[0]);
    }
    assert(a + trimmed(s) + b =~= a + t);
    (a, b)
}

/// A text without white space at its ends, put between white space, is what
/// trimming leaves.
pub proof fn law_trim_between(a: Seq<char>, t: Seq<char>, b: Seq<char>)
    requires
        all_white(a),
        all_white(b),
        t.len() > 0 ==> !is_white_space(t[0]) && !is_white_space(t.last()),
    ensures
        trimmed(a + t + b) == t,
{
    let s = a + t + b;
    let (c, d) = law_trimmed(s);
    let u = trimmed(s);
    assert(s == c + u + d);
    if t.len() == 0 {
        if u.len() > 0 {
            assert(s[c.len() as int] == u[0]);
            let k = c.len() as int;
            if k < a.len() {
                assert(s[k] == a[k]);
            } else {
                assert(s[k] == b[k - a.len()]);
            }
        }
        assert(u =~= t);
    } else {
        // both ends of `t` are the first and the last character that is not
        // white space
        assert(s[a.len() as int] == t[0]);
        let e = a.len() + t.len() - 1;
        assert(s[e] == t.last());
        if a.len() < c.len() {
            assert(s[a.len() as int] == c[a.len() as int]);
        }
        assert(u.len() > 0) by {
            if u.len() == 0 {
                let k = a.len() as int;
                assert(s[k] == d[k - c.len()]);
            }
        }
        if c.len() < a.len() {
            assert(s[c.len() as int] == u[0]);
            assert(s[c.len() as int] == a[c.len() as int]);
        }
        let f = c.len() + u.len() - 1;
        assert(s[f] == u.last());
        if e < f {
            assert(s[f] == b[f - e - 1]);
        }
        if f < e {
            assert(s[e] == d[e - f - 1]);
        }
        assert(u =~= t) by {
            assert forall|i: int| 0 <= i < t.len() implies u[i] == t[i] by {
                assert(s[a.len() + i] == t[i]);
                assert(s[c.len() + i] == u[i]);
            }
        }
    }
}

proof fn lemma_first_at(s: Seq<char>, c: char, from: int)
    requires
        0 <= from <= s.len(),
    ensures
        match first_at(s, c, from) {
            Some(i) => from <= i < s.len() && s[i] == c && forall|k: int| from <= k < i ==> s[k] != c,
            None => forall|k: int| from <= k < s.len() ==> s[k] != c,
        },
    decreases s.len() - from,
{
    if from < s.len() && s[from] != c {
        lemma_first_at(s, c, from + 1);
    }
}

proof fn lemma_last_at(s: Seq<char>, c: char, upto: int)
    requires
        0 <= upto <= s.len(),
    ensures
        match last_at(s, c, upto) {
            Some(i) => 0 <= i < upto && s[i] == c && forall|k: int| i < k < upto ==> s[k] != c,
            None => forall|k: int| 0 <= k < upto ==> s[k] != c,
        },
    decreases upto,
{
    if upto > 0 && s[upto - 1] != c {
        lemma_last_at(s, c, upto - 1);
    }
}

/// A text is cut at its first `c`: the two halves with `c` between them are the
/// text, and there is no `c` in the first half. It is not cut exactly where
/// there is no `c`.
pub proof fn law_cut_first(s: Seq<char>, c: char)
    ensures
        match cut_first(s, c) {
            Some((a, b)) => s == a + seq![c] + b && !a.contains(c),
            None => !s.contains(c),
        },
{
    lemma_first_at(s, c, 0);
    if let Some((a, b)) = cut_first(s, c) {
        assert(s =~= a + seq![c] + b);
    }
}

/// Two halves with `c` between them, and none in the first, are where the text is
/// cut.
pub proof fn law_cut_first_of(a: Seq<char>, c: char, b: Seq<char>)
    requires
        !a.contains(c),
    ensures
        cut_first(a + seq![c] + b, c) == Some((a, b)),
{
    let s = a + seq![c] + b;
    assert forall|i: int| 0 <= i < a.len() implies s[i] != c by {
        assert(s[i] == a[i]);
    }
    lemma_first_after(s, c, 0, a.len() as int);
    assert(s.take(a.len() as int) =~= a);
    assert(s.skip(a.len() + 1int) =~= b);
}

/// A text is cut at its last `c`: the two halves with `c` between them are the
/// text, and there is no `c` in the second half. It is not cut exactly where
/// there is no `c`.
pub proof fn law_cut_last(s: Seq<char>, c: char)
    ensures
        match cut_last(s, c) {
            Some((a, b)) => s == a + seq![c] + b && !b.contains(c),
            None => !s.contains(c),
        },
{
    lemma_last_at(s, c, s.len() as int);
    if let Some((a, b)) = cut_last(s, c) {
        assert(s =~= a + seq![c] + b);
        assert forall|i: int| 0 <= i < b.len() implies b[i] != c by {
            assert(b[i] == s[a.len() + 1 + i]);
        }
    }
}

/// Two halves with `c` between them, and none in the second, are where the text
/// is cut.
pub proof fn law_cut_last_of(a: Seq<char>, c: char, b: Seq<char>)
    requires
        !b.contains(c),
    ensures
        cut_last(a + seq![c] + b, c) == Some((a, b)),
{
    let s = a + seq![c] + b;
    lemma_last_at(s, c, s.len() as int);
    assert(s[a.len() as int] == c);
    let i = last_at(s, c, s.len() as int)->Some_0;
    if i > a.len() {
        assert(s[i] == b[i - a.len() - 1]);
        assert(b.contains(c));
    }
    assert(s.take(a.len() as int) =~= a);
    assert(s.skip(a.len() + 1int) =~= b);
}

/// A number has one writing in decimal without leading zeros.
pub proof fn law_decimal_canonical(n: nat)
    ensures
        n == 0 ==> decimal(n) == seq!['0'],
        n > 0 ==> decimal(n)[0] != '0',
    decreases n,
{
    if n >= 10 {
        law_decimal_canonical(n / 10);
        law_decimal(n / 10);
        assert(decimal(n)[0] == decimal(n / 10)[0]);
    }
}

/// Two numbers with the same writing are the same.
pub proof fn law_decimal_injective(m: nat, n: nat)
    requires
        decimal(m) == decimal(n),
    ensures
        m == n,
{
    law_decimal(m);
    law_decimal(n);
}

/// Digits are worth ten times as much with one digit more behind them, and that
/// digit.
pub proof fn law_digits_value(s: Seq<char>, d: nat)
    requires
        d < 10,
    ensures
        digits_value(s.push(digit_char(d))) == 10 * digits_value(s) + d,
        digits_value(seq![digit_char(d)]) == d,
        digits_value(seq!['0'] + s) == digits_value(s),
    decreases s.len(),
{
    assert(s.push(digit_char(d)).drop_last() =~= s);
    reveal_with_fuel(digits_value, 2);
    assert(seq![digit_char(d)].drop_last() =~= Seq::<char>::empty());
    if s.len() > 0 {
        law_digits_value(s.drop_last(), d);
        assert((seq!['0'] + s).drop_last() =~= seq!['0'] + s.drop_last());
    } else {
        assert(seq!['0'] + s =~= seq!['0']);
        assert(seq!['0'].drop_last() =~= s);
    }
}

/// What is read as a port is digits, with or without a `+`; a port in decimal
/// may have a `+` or a zero in front, and no text with another character in it
/// is one.
pub proof fn law_port_number(s: Seq<char>, p: u16)
    ensures
        port_number(seq!['+'] + decimal(p as nat)) == Some(p),
        port_number(seq!['0'] + decimal(p as nat)) == Some(p),
        port_number(s) is Some ==> s.len() > 0 && forall|i: int|
            0 < i < s.len() ==> is_digit(#[trigger] s[i]),
        port_number(s) is Some ==> s[0] == '+' || is_digit(s[0]),
        port_number(Seq::empty()) is None,
{
    let d = decimal(p as nat);
    law_decimal(p as nat);
    law_digits_value(d, 0);
    assert((seq!['+'] + d).skip(1) =~= d);
    let z = seq!['0'] + d;
    assert forall|i: int| 0 <= i < z.len() implies is_digit(#[trigger] z[i]) by {
        if i > 0 {
            assert(z[i] == d[i - 1]);
        }
    }
    if port_number(s) is Some {
        if s[0] == '+' {
            assert forall|i: int| 0 < i < s.len() implies is_digit(#[trigger] s[i]) by {
                assert(s.skip(1)[i - 1] == s[i]);
            }
        }
    }
}

/// Numbers above 65535 are no ports.
pub proof fn law_port_limit(n: nat)
    requires
        n > 65535,
    ensures
        port_number(decimal(n)) is None,
{
    law_decimal(n);
    assert(is_digit(decimal(n)[0]));
}

/// The address of a host and a port is the host, a colon, and the port in
/// decimal: the port is behind the last colon.
pub proof fn law_host_port(host: Seq<char>, port: u16)
    ensures
        cut_last(host_port(host, port), ':') == Some((host, decimal(port as nat))),
{
    reveal_strlit(":");
    let d = decimal(port as nat);
    law_decimal(port as nat);
    assert(!d.contains(':')) by {
        assert forall|i: int| 0 <= i < d.len() implies d[i] != ':' by {
            assert(is_digit(d[i]));
        }
    }
    assert(":"@ =~= seq![':']);
    law_cut_last_of(host, ':', d);
}

/// Does `sub` stand somewhere in `s`?
pub open spec fn mentions(s: Seq<char>, sub: Seq<char>) -> bool {
    exists|a: Seq<char>, b: Seq<char>| s == #[trigger] (a + sub + b)
}

/// What stands between two texts is mentioned.
pub proof fn lemma_mentions(a: Seq<char>, sub: Seq<char>, b: Seq<char>, s: Seq<char>)
    requires
        s == a + sub + b,
    ensures
        mentions(s, sub),
{
}

/// Is `s` a number without a sign: at least one digit, and nothing else?
pub open spec fn unsigned(s: Seq<char>) -> bool {
    &&& s.len() > 0
    &&& forall|i: int| 0 <= i < s.len() ==> '0' <= #[trigger] s[i] <= '9'
}

/// Digits stand for a port exactly where their value fits 16 bits, with or without
/// a `+` in front.
pub proof fn law_port_digits(d: Seq<char>)
    requires
        unsigned(d),
    ensures
        port_number(d) is Some <==> digits_value(d) <= 65535,
        port_number(d) matches Some(p) ==> p == digits_value(d),
        port_number(seq!['+'] + d) == port_number(d),
{
    assert(is_digit(d[0]));
    assert(all_digits(d)) by {
        assert forall|i: int| 0 <= i < d.len() implies is_digit(#[trigger] d[i]) by {}
    }
    assert((seq!['+'] + d).skip(1) =~= d);
}

/// Nothing but digits, with or without a `+` in front, stands for a port.
pub proof fn law_port_refused(s: Seq<char>)
    requires
        !unsigned(s),
        !(s.len() > 0 && s[0] == '+' && unsigned(s.skip(1))),
    ensures
        port_number(s) is None,
{
    let d = if s.len() > 0 && s[0] == '+' {
        s.skip(1)
    } else {
        s
    };
    if d.len() > 0 && all_digits(d) {
        assert forall|i: int| 0 <= i < d.len() implies '0' <= #[trigger] d[i] <= '9' by {
            assert(is_digit(d[i]));
        }
        assert(unsigned(d));
    }
}

/// The ten digits, by their value.
pub proof fn law_digits()
    ensures
        digit_char(0) == '0',
        digit_char(1) == '1',
        digit_char(2) == '2',
        digit_char(3) == '3',
        digit_char(4) == '4',
        digit_char(5) == '5',
        digit_char(6) == '6',
        digit_char(7) == '7',
        digit_char(8) == '8',
        digit_char(9) == '9',
        forall|d: nat| d < 10 ==> is_digit(#[trigger] digit_char(d)),
{
}

/// The last digit of a number is what is left of it by ten, and the digits in
/// front of it are those of the tenth part.
pub proof fn law_decimal_digits(n: nat)
    ensures
        decimal(n).last() == digit_char(n % 10),
        n >= 10 ==> decimal(n).drop_last() == decimal(n / 10),
        n < 10 ==> decimal(n).len() == 1,
{
    if n >= 10 {
        assert(decimal(n).drop_last() =~= decimal(n / 10));
    }
}

/// White space, by code point.
pub proof fn law_white_space(c: char)
    ensures
        is_white_space(c) <==> {
            let u = c as u32;
            ||| 9 <= u <= 13
            ||| u == 32
            ||| u == 0x85
            ||| u == 0xa0
            ||| u == 0x1680
            ||| 0x2000 <= u <= 0x200a
            ||| u == 0x2028
            ||| u == 0x2029
            ||| u == 0x202f
            ||| u == 0x205f
            ||| u == 0x3000
        },
        is_digit(c) ==> !is_white_space(c),
{
}

/// UTF-8 is read as the text whose bytes it is; anything else is repaired.
pub proof fn law_text_of(b: Seq<u8>)
    ensures
        valid_utf8(b) ==> encode_utf8(text_of(b)) == b,
        !valid_utf8(b) ==> text_of(b) == repaired_text(b),
{
    if valid_utf8(b) {
        decode_utf8_encode_utf8(b);
    }
}

} // verus!
