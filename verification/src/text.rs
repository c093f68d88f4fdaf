//! Numbers and paths as text.
use vstd::prelude::*;
use vstd::string::StringExecFns;

verus! {

/// The character of a decimal digit.
pub open spec fn digit(d: nat) -> char {
    (48 + d) as char
}

/// A number in decimal.
pub open spec fn decimal(n: nat) -> Seq<char>
    decreases n,
{
    if n < 10 {
        seq![digit(n)]
    } else {
        decimal(n / 10).push(digit(n % 10))
    }
}

/// A signed number in decimal.
pub open spec fn decimal_signed(v: int) -> Seq<char> {
    if v < 0 {
        seq!['-'] + decimal((-v) as nat)
    } else {
        decimal(v as nat)
    }
}

/// A digit as text.
fn digit_text(d: u64) -> (r: &'static str)
    requires
        d < 10,
    ensures
        r@ == seq![digit(d as nat)],
{
    proof {
        reveal_strlit("0");
        reveal_strlit("1");
        reveal_strlit("2");
        reveal_strlit("3");
        reveal_strlit("4");
        reveal_strlit("5");
        reveal_strlit("6");
        reveal_strlit("7");
        reveal_strlit("8");
        reveal_strlit("9");
    }
    let r: &'static str = if d == 0 {
        "0"
    } else if d == 1 {
        "1"
    } else if d == 2 {
        "2"
    } else if d == 3 {
        "3"
    } else if d == 4 {
        "4"
    } else if d == 5 {
        "5"
    } else if d == 6 {
        "6"
    } else if d == 7 {
        "7"
    } else if d == 8 {
        "8"
    } else {
        "9"
    };
    assert(r@ =~= seq![digit(d as nat)]);
    r
}

/// Puts a number in decimal at the end of `out`.
pub fn push_decimal(out: &mut String, n: u64)
    ensures
        final(out)@ == old(out)@ + decimal(n as nat),
    decreases n,
{
    if n < 10 {
        out.append(digit_text(n));
    } else {
        push_decimal(out, n / 10);
        out.append(digit_text(n % 10));
        assert(out@ =~= old(out)@ + decimal(n as nat));
    }
}

/// Puts a signed number in decimal at the end of `out`.
pub fn push_signed(out: &mut String, v: i32)
    ensures
        final(out)@ == old(out)@ + decimal_signed(v as int),
{
    if v < 0 {
        proof {
            reveal_strlit("-");
        }
        out.append("-");
        push_decimal(out, (-(v as i64)) as u64);
        assert(out@ =~= old(out)@ + decimal_signed(v as int));
    } else {
        push_decimal(out, v as u64);
    }
}

/// Whether a character is a decimal digit.
pub open spec fn is_digit(c: char) -> bool {
    '0' <= c <= '9'
}

/// Whether a text is made of decimal digits only.
pub open spec fn all_digits(s: Seq<char>) -> bool {
    forall|i: int| 0 <= i < s.len() ==> is_digit(#[trigger] s[i])
}

/// The number that a text of digits spells.
pub open spec fn digits_value(s: Seq<char>) -> nat
    decreases s.len(),
{
    if s.len() == 0 {
        0
    } else {
        10 * digits_value(s.drop_last()) + (s.last() as nat - 48) as nat
    }
}

/// A text without the plus sign that it may start with.
pub open spec fn unsigned_part(s: Seq<char>) -> Seq<char> {
    if s.len() > 0 && s[0] == '+' {
        s.skip(1)
    } else {
        s
    }
}

/// The number that a text stands for: decimal digits, at least one, perhaps with a plus sign
/// before them, and no more than fits.
pub open spec fn number(s: Seq<char>) -> Option<usize> {
    let t = unsigned_part(s);
    if t.len() > 0 && all_digits(t) && digits_value(t) <= usize::MAX {
        Some(digits_value(t) as usize)
    } else {
        None
    }
}

/// Reads a number.
pub fn parse_number(s: &str) -> (r: Option<usize>)
    ensures
        r == number(s@),
{
    let n: usize = s.unicode_len();
    let ghost t = unsigned_part(s@);
    let start: usize = if n > 0 && s.get_char(0) == '+' {
        1
    } else {
        0
    };
    assert(forall|j: int| start <= j < n ==> s@[j] == t[j - start]);
    if start == n {
        return None;
    }
    let mut value: usize = 0;
    let mut i: usize = start;
    assert(t.take(0) =~= Seq::empty());
    while i < n
        invariant
            start <= i <= n,
            n == s@.len(),
            t == unsigned_part(s@),
            t.len() == n - start,
            forall|j: int| start <= j < n ==> s@[j] == t[j - start],
            all_digits(t.take(i - start)),
            value == digits_value(t.take(i - start)),
        decreases n - i,
    {
        let c: char = s.get_char(i);
        let k: Ghost<int> = Ghost(i - start);
        proof {
            assert(t.take(k@ + 1).drop_last() =~= t.take(k@));
            assert(t.take(k@ + 1).last() == c);
        }
        if !(c >= '0' && c <= '9') {
            assert(!is_digit(t[k@]));
            return None;
        }
        let d: usize = (c as u32 - 48) as usize;
        if value > usize::MAX / 10 || value * 10 > usize::MAX - d {
            proof {
                lemma_value_grows(t, k@ + 1);
                assert(digits_value(t.take(k@ + 1)) > usize::MAX);
            }
            return None;
        }
        value = value * 10 + d;
        i += 1;
        assert(all_digits(t.take(i - start)));
    }
    assert(t.take(n - start) =~= t);
    Some(value)
}

/// More digits never make the number smaller.
proof fn lemma_value_grows(s: Seq<char>, i: int)
    requires
        0 <= i <= s.len(),
    ensures
        digits_value(s.take(i)) <= digits_value(s),
    decreases s.len() - i,
{
    if i < s.len() {
        lemma_value_grows(s, i + 1);
        assert(s.take(i + 1).drop_last() =~= s.take(i));
    } else {
        assert(s.take(i) =~= s);
    }
}

/// Reading a number that was written in decimal gives it back.
pub proof fn number_reads_decimal(n: usize)
    ensures
        number(decimal(n as nat)) == Some(n),
{
    lemma_decimal(n as nat);
    let s = decimal(n as nat);
    assert(s[0] != '+');
}

proof fn lemma_decimal(n: nat)
    ensures
        decimal(n).len() > 0,
        all_digits(decimal(n)),
        digits_value(decimal(n)) == n,
    decreases n,
{
    reveal_with_fuel(digits_value, 2);
    if n >= 10 {
        lemma_decimal(n / 10);
        assert(decimal(n).drop_last() =~= decimal(n / 10));
        assert(decimal(n).last() as nat == 48 + n % 10);
    } else {
        assert(decimal(n).drop_last() =~= Seq::empty());
        assert(decimal(n).last() as nat == 48 + n);
    }
}

/// Where a part of a directory lies: the two with a slash between them, unless the directory
/// is empty or ends in one.
pub open spec fn joined(directory: Seq<char>, name: Seq<char>) -> Seq<char> {
    if directory.len() == 0 || directory.last() == '/' {
        directory + name
    } else {
        directory.push('/') + name
    }
}

/// The path of something in a directory, by a name that does not start with a slash.
pub fn join_path(directory: &str, name: &str) -> (r: String)
    ensures
        r@ == joined(directory@, name@),
{
    let n: usize = directory.unicode_len();
    let mut out: String = directory.to_owned();
    if n > 0 && directory.get_char(n - 1) != '/' {
        proof {
            reveal_strlit("/");
        }
        out.append("/");
        assert(out@ =~= directory@.push('/'));
    }
    out.append(name);
    out
}

/// Whether a string of bytes occurs in another one.
pub open spec fn occurs(needle: Seq<u8>, s: Seq<u8>) -> bool {
    exists|i: int|
        0 <= i && i + needle.len() <= s.len() && #[trigger] s.subrange(i, i + needle.len())
            == needle
}

/// Whether a string of bytes stands at a place of another one.
fn stands_at(s: &[u8], at: usize, needle: &[u8]) -> (r: bool)
    requires
        at + needle@.len() <= s@.len(),
    ensures
        r == (s@.subrange(at as int, at + needle@.len()) == needle@),
{
    let mut k: usize = 0;
    assert(s.len() <= usize::MAX);
    while k < needle.len()
        invariant
            k <= needle@.len(),
            at + needle@.len() <= s@.len(),
            s@.len() <= usize::MAX,
            forall|j: int| 0 <= j < k ==> s@[at + j] == needle@[j],
        decreases needle@.len() - k,
    {
        if s[at + k] != needle[k] {
            assert(s@.subrange(at as int, at + needle@.len())[k as int] != needle@[k as int]);
            return false;
        }
        k += 1;
    }
    assert(s@.subrange(at as int, at + needle@.len()) =~= needle@);
    true
}

/// Looks for a string of bytes in another one.
pub fn find_bytes(s: &[u8], needle: &[u8]) -> (r: bool)
    ensures
        r == occurs(needle@, s@),
{
    let mut i: usize = 0;
    if needle.len() > s.len() {
        return false;
    }
    let last: usize = s.len() - needle.len();
    while i <= last
        invariant
            i <= last + 1,
            last + needle@.len() == s@.len(),
            s@.len() <= usize::MAX,
            forall|j: int|
                0 <= j < i ==> #[trigger] s@.subrange(j, j + needle@.len()) != needle@,
        decreases last + 1 - i,
    {
        if stands_at(s, i, needle) {
            return true;
        }
        if i == last {
            return false;
        }
        i += 1;
    }
    false
}

/// A number in decimal: one digit for a number below ten, and else the digits of its tenth part
/// and its last digit. The digits are the characters from zero to nine, in their order.
pub proof fn decimal_in_digits(n: nat)
    ensures
        n < 10 ==> decimal(n).len() == 1 && decimal(n)[0] as nat == 48 + n,
        n >= 10 ==> decimal(n).drop_last() == decimal(n / 10) && decimal(n).last() as nat == 48
            + n % 10,
        digit(0) == '0',
        digit(9) == '9',
        all_digits(decimal(n)),
{
    lemma_decimal(n);
    if n >= 10 {
        assert(decimal(n).drop_last() =~= decimal(n / 10));
    }
}

/// A negative number is its amount with a minus before it, and others are without a sign.
pub proof fn signed_decimal(v: int)
    ensures
        v >= 0 ==> decimal_signed(v) == decimal(v as nat),
        v < 0 ==> decimal_signed(v)[0] == '-' && decimal_signed(v).skip(1) == decimal((-v) as nat),
{
    if v < 0 {
        assert(decimal_signed(v).skip(1) =~= decimal((-v) as nat));
    }
}

/// Different numbers are different in decimal.
pub proof fn decimals_are_told_apart(a: nat, b: nat)
    requires
        decimal(a) == decimal(b),
    ensures
        a == b,
{
    lemma_decimal(a);
    lemma_decimal(b);
}

/// Reading a number goes digit by digit: one more digit makes ten times as much and the digit,
/// and does not fit any more if that is too much. A text with anything else in it, or with no
/// digit, is no number. One plus sign before the digits does not matter.
pub proof fn numbers_are_read_by_digits(s: Seq<char>, c: char)
    ensures
        number(s) matches Some(n) ==> '0' <= c <= '9' ==> number(s.push(c)) == (if 10 * n + (
        c as nat - 48) <= usize::MAX {
            Some((10 * n + (c as nat - 48)) as usize)
        } else {
            None
        }),
        s.len() > 0 && !('0' <= c <= '9') ==> number(s.push(c)) is None,
        '0' <= c <= '9' ==> number(seq![c]) == Some((c as nat - 48) as usize),
        number(Seq::empty()) is None,
        number(seq!['+']) is None,
        s.len() > 0 && s[0] != '+' ==> number(seq!['+'] + s) == number(s),
{
    let t = unsigned_part(s);
    let more = s.push(c);
    reveal_with_fuel(digits_value, 2);
    assert(seq![c].drop_last() =~= Seq::empty());
    assert(unsigned_part(seq!['+']) =~= Seq::empty());
    assert((seq!['+'] + s).skip(1) =~= s);
    if s.len() > 0 {
        assert(unsigned_part(more) =~= t.push(c));
        assert(t.push(c).drop_last() =~= t);
        assert(t.push(c).last() == c);
        assert(t.push(c)[t.len() as int] == c);
        if all_digits(t) && is_digit(c) {
            assert(all_digits(t.push(c)));
        }
    }
    if is_digit(c) {
        assert(unsigned_part(seq![c]) =~= seq![c]);
    }
}

/// A path in a directory starts with the directory and ends with the name, with one slash
/// between them, which may be the one that the directory ends in; in no directory it is the
/// name itself.
pub proof fn paths_are_joined_by_one_slash(directory: Seq<char>, name: Seq<char>)
    ensures
        ({
            let path = joined(directory, name);
            let n = path.len() - name.len();
            &&& path.skip(n) == name
            &&& path.take(directory.len() as int) == directory
            &&& directory.len() == 0 ==> path == name
            &&& directory.len() > 0 ==> path[n - 1] == '/'
            &&& directory.len() > 0 && directory.last() == '/' ==> n == directory.len()
            &&& directory.len() > 0 && directory.last() != '/' ==> n == directory.len() + 1
        }),
{
    let path = joined(directory, name);
    let n = path.len() - name.len();
    assert(path.skip(n) =~= name);
    assert(path.take(directory.len() as int) =~= directory);
    if directory.len() == 0 {
        assert(path =~= name);
    }
}

/// A string occurs in another one exactly if it stands somewhere in it, with something before
/// and something behind it.
pub proof fn what_stands_there_occurs(before: Seq<u8>, needle: Seq<u8>, behind: Seq<u8>)
    ensures
        occurs(needle, before + needle + behind),
        needle.len() > behind.len() ==> !occurs(needle, behind),
{
    let s = before + needle + behind;
    let i = before.len() as int;
    assert(s.subrange(i, i + needle.len()) =~= needle);
}

} // verus!
