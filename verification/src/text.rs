//! Text: comparing, trimming, reading and writing decimal numbers.

use vstd::prelude::*;
use vstd::string::*;

verus! {

/// Do two strings hold the same text?
pub fn same(a: &str, b: &str) -> (r: bool)
    ensures
        r == (a@ == b@),
{
    let x: String = a.to_owned();
    let y: String = b.to_owned();
    x == y
}

/// The characters of a string.
pub fn chars_of(s: &str) -> (v: Vec<char>)
    ensures
        v@ == s@,
{
    let mut v: Vec<char> = Vec::new();
    for c in it: s.chars()
        invariant
            v@ == it.seq().take(it.index() as int),
            it.seq() == s@,
    {
        v.push(c);
    }
    v
}

/// `a` begins with `b`.
pub open spec fn begins(a: Seq<char>, b: Seq<char>) -> bool {
    b.len() <= a.len() && a.take(b.len() as int) == b
}

/// Does `a` begin with `b`?
pub fn starts_with(a: &str, b: &str) -> (r: bool)
    ensures
        r == begins(a@, b@),
{
    let x: Vec<char> = chars_of(a);
    let y: Vec<char> = chars_of(b);
    if x.len() < y.len() {
        return false;
    }
    let mut i: usize = 0;
    while i < y.len()
        invariant
            x@ == a@,
            y@ == b@,
            y.len() <= x.len(),
            i <= y.len(),
            forall|k: int| 0 <= k < i ==> x@[k] == y@[k],
        decreases y.len() - i,
    {
        if x[i] != y[i] {
            proof {
                assert(a@.take(b@.len() as int)[i as int] != b@[i as int]);
            }
            return false;
        }
        i += 1;
    }
    proof {
        assert(a@.take(b@.len() as int) =~= b@);
    }
    true
}

/// `a` ends with `b`.
pub open spec fn closes(a: Seq<char>, b: Seq<char>) -> bool {
    b.len() <= a.len() && a.skip(a.len() - b.len()) == b
}

/// Does `a` end with `b`?
pub fn ends_with(a: &str, b: &str) -> (r: bool)
    ensures
        r == closes(a@, b@),
{
    let x: Vec<char> = chars_of(a);
    let y: Vec<char> = chars_of(b);
    if x.len() < y.len() {
        return false;
    }
    let off: usize = x.len() - y.len();
    let mut i: usize = 0;
    while i < y.len()
        invariant
            x@ == a@,
            y@ == b@,
            off + y.len() == x.len(),
            i <= y.len(),
            forall|k: int| 0 <= k < i ==> x@[off + k] == y@[k],
        decreases y.len() - i,
    {
        if x[off + i] != y[i] {
            proof {
                assert(a@.skip(a@.len() - b@.len())[i as int] != b@[i as int]);
            }
            return false;
        }
        i += 1;
    }
    proof {
        assert(a@.skip(a@.len() - b@.len()) =~= b@);
    }
    true
}

/// A character with the Unicode property `White_Space`.
pub open spec fn is_space_spec(c: char) -> bool {
    let u = c as u32;
    0x9 <= u <= 0xd || u == 0x20 || u == 0x85 || u == 0xa0 || u == 0x1680 || 0x2000 <= u <= 0x200a
        || u == 0x2028 || u == 0x2029 || u == 0x202f || u == 0x205f || u == 0x3000
}

/// Is a character white space?
fn is_space(c: char) -> (r: bool)
    ensures
        r == is_space_spec(c),
{
    let u: u32 = c as u32;
    (0x9 <= u && u <= 0xd) || u == 0x20 || u == 0x85 || u == 0xa0 || u == 0x1680 || (0x2000 <= u && u
        <= 0x200a) || u == 0x2028 || u == 0x2029 || u == 0x202f || u == 0x205f || u == 0x3000
}

/// A text without its leading white space.
pub open spec fn trimmed(s: Seq<char>) -> Seq<char>
    decreases s.len(),
{
    if s.len() > 0 && is_space_spec(s[0]) {
        trimmed(s.skip(1))
    } else {
        s
    }
}

/// Does a text, its leading white space set aside, begin with `b`?
pub fn trimmed_starts_with(a: &str, b: &str) -> (r: bool)
    ensures
        r == begins(trimmed(a@), b@),
{
    let x: Vec<char> = chars_of(a);
    let n: usize = x.len();
    let mut i: usize = 0;
    proof {
        assert(a@.skip(0) =~= a@);
    }
    while i < n && is_space(x[i])
        invariant
            x@ == a@,
            n == x.len(),
            i <= n,
            trimmed(a@) == trimmed(a@.skip(i as int)),
        ensures
            i <= n,
            trimmed(a@) == a@.skip(i as int),
        decreases n - i,
    {
        proof {
            assert(a@.skip(i as int)[0] == x@[i as int]);
            assert(a@.skip(i as int).skip(1) =~= a@.skip(i + 1));
        }
        i += 1;
    }
    proof {
        assert(trimmed(a@) == a@.skip(i as int));
    }
    starts_with(a.substring_char(i, n), b)
}

/// A decimal digit.
pub open spec fn is_digit(c: char) -> bool {
    '0' <= c <= '9'
}

/// The number a digit stands for.
pub open spec fn digit(c: char) -> int {
    c as int - '0' as int
}

/// The number a run of digits stands for.
pub open spec fn decimal(s: Seq<char>) -> int
    decreases s.len(),
{
    if s.len() == 0 {
        0
    } else {
        10 * decimal(s.drop_last()) + digit(s.last())
    }
}

/// Nothing but digits, and at least one.
pub open spec fn is_decimal(s: Seq<char>) -> bool {
    s.len() > 0 && forall|i: int| 0 <= i < s.len() ==> is_digit(#[trigger] s[i])
}

/// The number that a text denotes: digits, with an optional leading plus.
pub open spec fn unsigned_spec(s: Seq<char>, max: int) -> Option<int> {
    let body = if s.len() > 0 && s[0] == '+' {
        s.skip(1)
    } else {
        s
    };
    if is_decimal(body) && decimal(body) <= max {
        Some(decimal(body))
    } else {
        None
    }
}

/// The integer that a text denotes: digits, with an optional leading sign.
pub open spec fn signed_spec(s: Seq<char>, min: int, max: int) -> Option<int> {
    if s.len() > 0 && s[0] == '-' {
        let body = s.skip(1);
        if is_decimal(body) && -decimal(body) >= min {
            Some(-decimal(body))
        } else {
            None
        }
    } else {
        unsigned_spec(s, max)
    }
}

/// Read digits from `from` on, as a number of at most `max`.
fn read_digits(x: &Vec<char>, from: usize, max: u64) -> (r: Option<u64>)
    requires
        from <= x.len(),
    ensures
        ({
            let body = x@.skip(from as int);
            match r {
                Some(v) => is_decimal(body) && decimal(body) == v && v <= max,
                None => !is_decimal(body) || decimal(body) > max,
            }
        }),
{
    let ghost body = x@.skip(from as int);
    if from == x.len() {
        return None;
    }
    let mut v: u64 = 0;
    let mut over: bool = false;
    let mut i: usize = from;
    while i < x.len()
        invariant
            from <= i <= x.len(),
            body == x@.skip(from as int),
            forall|k: int| 0 <= k < i - from ==> is_digit(#[trigger] body[k]),
            !over ==> v == decimal(body.take(i - from)) && v <= max,
            over ==> decimal(body.take(i - from)) > max,
        decreases x.len() - i,
    {
        let c: char = x[i];
        proof {
            assert(body[i - from] == c);
        }
        if !('0' <= c && c <= '9') {
            return None;
        }
        proof {
            let seen = body.take(i - from);
            let next = body.take(i + 1 - from);
            assert(next.drop_last() =~= seen);
            assert(next.last() == c);
        }
        let d: u64 = c as u64 - '0' as u64;
        if !over {
            if v > (u64::MAX - d) / 10 || v * 10 + d > max {
                over = true;
            } else {
                v = v * 10 + d;
            }
        }
        i += 1;
    }
    proof {
        assert(body.take(x.len() - from) =~= body);
    }
    if over {
        None
    } else {
        Some(v)
    }
}

/// Read an unsigned number of at most `max`, as `str::parse` does.
pub fn parse_unsigned(s: &str, max: u64) -> (r: Option<u64>)
    ensures
        match (r, unsigned_spec(s@, max as int)) {
            (Some(v), Some(w)) => v == w,
            (None, None) => true,
            _ => false,
        },
{
    let x: Vec<char> = chars_of(s);
    proof {
        assert(s@.skip(0) =~= s@);
    }
    if x.len() > 0 && x[0] == '+' {
        read_digits(&x, 1, max)
    } else {
        read_digits(&x, 0, max)
    }
}

/// Read a signed 32-bit number, as `str::parse` does.
pub fn parse_i32(s: &str) -> (r: Option<i32>)
    ensures
        match (r, signed_spec(s@, i32::MIN as int, i32::MAX as int)) {
            (Some(v), Some(w)) => v == w,
            (None, None) => true,
            _ => false,
        },
{
    let x: Vec<char> = chars_of(s);
    if x.len() > 0 && x[0] == '-' {
        match read_digits(&x, 1, 0x8000_0000) {
            Some(v) => Some((-(v as i64)) as i32),
            None => None,
        }
    } else {
        match parse_unsigned(s, 0x7fff_ffff) {
            Some(v) => Some(v as i32),
            None => None,
        }
    }
}

/// The decimal notation of a number, without leading zeros.
pub open spec fn digits(n: nat) -> Seq<char>
    decreases n,
{
    if n < 10 {
        seq![('0' as u8 + n) as u8 as char]
    } else {
        digits(n / 10).push(('0' as u8 + n % 10) as u8 as char)
    }
}

/// Reading back what was written gives the number.
pub proof fn law_digits_read_back(n: nat)
    ensures
        is_decimal(digits(n)),
        decimal(digits(n)) == n,
        digits(n).len() >= 1,
        n > 0 ==> digits(n)[0] != '0',
    decreases n,
{
    let s = digits(n);
    if n < 10 {
        assert(s.drop_last() =~= Seq::empty());
        assert(decimal(s.drop_last()) == 0);
    } else {
        law_digits_read_back(n / 10);
        assert(s.drop_last() =~= digits(n / 10));
        assert(s[0] == digits(n / 10)[0]);
        assert forall|i: int| 0 <= i < s.len() implies is_digit(#[trigger] s[i]) by {
            if i < s.len() - 1 {
                assert(s[i] == digits(n / 10)[i]);
            }
        }
    }
}

/// Append the decimal notation of a number.
pub fn push_decimal(out: &mut Vec<char>, n: u64)
    ensures
        final(out)@ == old(out)@ + digits(n as nat),
    decreases n,
{
    if n >= 10 {
        push_decimal(out, n / 10);
    }
    let d: u8 = (n % 10) as u8;
    let c: char = (48 + d) as char;
    out.push(c);
    proof {
        assert(out@ =~= old(out)@ + digits(n as nat));
    }
}

/// Append a text.
pub fn push_text(out: &mut Vec<char>, s: &str)
    ensures
        final(out)@ == old(out)@ + s@,
{
    let mut tail: Vec<char> = chars_of(s);
    out.append(&mut tail);
}

/// A string of the given characters.
///
/// Calls std's `String::from_iter` over characters. Taken on trust: the string
/// holds these characters, in order, and no others.
#[verifier::external_body]
pub(crate) fn string_of(chars: Vec<char>) -> (s: String)
    ensures
        s@ == chars@,
{
    String::from_iter(chars)
}

/// A text begins with what another text was put before it, and ends with what was put
/// behind it; and only then.
pub proof fn law_begins_and_ends(a: Seq<char>, b: Seq<char>)
    ensures
        begins(a + b, a),
        closes(a + b, b),
        begins(a, b) ==> a == b + a.skip(b.len() as int),
        closes(a, b) ==> a == a.take(a.len() - b.len()) + b,
{
    assert((a + b).take(a.len() as int) =~= a);
    assert((a + b).skip(a.len() as int) =~= b);
    if begins(a, b) {
        assert(a =~= b + a.skip(b.len() as int));
    }
    if closes(a, b) {
        assert(a =~= a.take(a.len() - b.len()) + b);
    }
}

/// Leading white space does not count, and nothing else is lost: a text put behind any run
/// of spaces, tabs and line ends is trimmed to what it is trimmed to by itself, and a text
/// that begins with a visible ASCII character is left alone.
pub proof fn law_leading_space_is_trimmed(space: Seq<char>, s: Seq<char>)
    requires
        forall|i: int|
            0 <= i < space.len() ==> (#[trigger] space[i] == ' ' || space[i] == '\t' || space[i]
                == '\n' || space[i] == '\r'),
    ensures
        trimmed(space + s) == trimmed(s),
        s.len() == 0 || '!' <= s[0] <= '~' ==> trimmed(s) == s,
    decreases space.len(),
{
    if space.len() == 0 {
        assert(space + s =~= s);
    } else {
        assert((space + s)[0] == space[0]);
        assert((space + s).skip(1) =~= space.skip(1) + s);
        assert forall|i: int| 0 <= i < space.skip(1).len() implies (#[trigger] space.skip(1)[i]
            == ' ' || space.skip(1)[i] == '\t' || space.skip(1)[i] == '\n' || space.skip(1)[i]
            == '\r') by {
            assert(space.skip(1)[i] == space[i + 1]);
        }
        law_leading_space_is_trimmed(space.skip(1), s);
    }
}

/// A written number reads back, with or without a plus, where it is not above the largest
/// there may be; behind a minus it reads as its negative, where that is not below the
/// smallest.
pub proof fn law_written_numbers_read_back(n: nat, min: int, max: int)
    ensures
        unsigned_spec(digits(n), max) == (if n <= max {
            Some(n as int)
        } else {
            None
        }),
        unsigned_spec(seq!['+'] + digits(n), max) == unsigned_spec(digits(n), max),
        signed_spec(digits(n), min, max) == unsigned_spec(digits(n), max),
        signed_spec(seq!['+'] + digits(n), min, max) == unsigned_spec(digits(n), max),
        signed_spec(seq!['-'] + digits(n), min, max) == (if -(n as int) >= min {
            Some(-(n as int))
        } else {
            None
        }),
        unsigned_spec(seq!['-'] + digits(n), max) is None,
        unsigned_spec(Seq::empty(), max) is None,
        signed_spec(seq!['-'], min, max) is None,
{
    law_digits_read_back(n);
    let s = digits(n);
    assert(is_digit(s[0]));
    assert((seq!['+'] + s).skip(1) =~= s);
    assert((seq!['-'] + s).skip(1) =~= s);
    let minus = seq!['-'] + s;
    assert(minus[0] == '-');
    assert(!is_digit(minus[0]));
    assert(seq!['-'].skip(1) =~= Seq::empty());
}

/// A number reads as no text but runs of digits: a character that is neither a digit nor a
/// leading sign is refused wherever it stands.
pub proof fn law_other_characters_are_refused(s: Seq<char>, i: int, min: int, max: int)
    requires
        0 <= i < s.len(),
        !('0' <= s[i] <= '9'),
        i > 0 || (s[0] != '+' && s[0] != '-'),
    ensures
        unsigned_spec(s, max) is None,
        signed_spec(s, min, max) is None,
{
    if i > 0 {
        assert(s.skip(1)[i - 1] == s[i]);
    }
    assert(!is_digit(s[i]));
}

} // verus!
