//! Texts by their characters: searching, trimming, and numbers in decimal
//! digits.

use vstd::prelude::*;

verus! {

/// `needle` occurs in `hay` starting at position `at`.
pub open spec fn occurs_at(hay: Seq<char>, needle: Seq<char>, at: int) -> bool {
    &&& 0 <= at
    &&& at + needle.len() <= hay.len()
    &&& hay.subrange(at, at + needle.len()) == needle
}

/// `needle` occurs somewhere in `hay`.
pub open spec fn occurs_in(hay: Seq<char>, needle: Seq<char>) -> bool {
    exists|at: int| occurs_at(hay, needle, at)
}

/// `hay` begins with `prefix`.
pub open spec fn begins_with(hay: Seq<char>, prefix: Seq<char>) -> bool {
    occurs_at(hay, prefix, 0)
}

/// The characters of a string, in order.
pub fn chars_of(s: &str) -> (out: Vec<char>)
    ensures
        out@ == s@,
{
    let mut out: Vec<char> = Vec::new();
    for c in it: s.chars()
        invariant
            out@ == s@.take(it.index() as int),
            it.seq() == s@,
    {
        out.push(c);
    }
    out
}

/// What is left of `s` once every leading `c` is taken away.
pub open spec fn without_leading(s: Seq<char>, c: char) -> Seq<char>
    decreases s.len(),
{
    if s.len() > 0 && s[0] == c {
        without_leading(s.drop_first(), c)
    } else {
        s
    }
}

/// The lower-case form of a text, as `str::to_lowercase` of the standard
/// library gives it.
pub uninterp spec fn lowercase(s: Seq<char>) -> Seq<char>;

/// `str::to_lowercase`: the result depends on the characters alone; it is
/// the lower-case form named [`lowercase`].
pub assume_specification[ str::to_lowercase ](s: &str) -> (out: String)
    ensures
        out@ == lowercase(s@),
;

/// `String::push`: appends one character at the end.
pub assume_specification[ String::push ](s: &mut String, c: char)
    ensures
        final(s)@ == old(s)@.push(c),
;

/// `str::eq`: two texts are equal when they hold the same characters.
pub assume_specification[ <str as PartialEq>::eq ](a: &str, b: &str) -> (same: bool)
    ensures
        same == (a@ == b@),
;

/// Tests whether two texts hold the same characters.
pub fn same_text(a: &str, b: &str) -> (same: bool)
    ensures
        same == (a@ == b@),
{
    a.eq(b)
}

/// Tests whether `needle` stands in `hay` at position `at`.
pub fn matches_at(hay: &Vec<char>, needle: &Vec<char>, at: usize) -> (found: bool)
    ensures
        found == occurs_at(hay@, needle@, at as int),
{
    if needle.len() > hay.len() || at > hay.len() - needle.len() {
        return false;
    }
    let mut k: usize = 0;
    while k < needle.len()
        invariant
            k <= needle.len(),
            at + needle.len() <= hay.len(),
            forall|j: int| 0 <= j < k ==> hay@[at + j] == needle@[j],
        decreases needle.len() - k,
    {
        if hay[at + k] != needle[k] {
            proof {
                let sub = hay@.subrange(at as int, at + needle.len());
                assert(sub[k as int] == hay@[at + k]);
            }
            return false;
        }
        k += 1;
    }
    proof {
        assert(hay@.subrange(at as int, at + needle.len()) =~= needle@);
    }
    true
}

/// Tests whether `needle` occurs anywhere in `hay`.
pub fn contains(hay: &str, needle: &str) -> (found: bool)
    ensures
        found == occurs_in(hay@, needle@),
{
    let h = chars_of(hay);
    let n = chars_of(needle);
    if n.len() > h.len() {
        return false;
    }
    let last: usize = h.len() - n.len();
    let mut at: usize = 0;
    loop
        invariant
            at <= last,
            last == h.len() - n.len(),
            n.len() <= h.len(),
            h@ == hay@,
            n@ == needle@,
            forall|j: int| 0 <= j < at ==> !occurs_at(hay@, needle@, j),
        decreases last - at,
    {
        if matches_at(&h, &n, at) {
            return true;
        }
        if at == last {
            return false;
        }
        at += 1;
    }
}

/// Tests whether `hay` begins with `prefix`.
pub fn starts_with(hay: &str, prefix: &str) -> (found: bool)
    ensures
        found == begins_with(hay@, prefix@),
{
    let h = chars_of(hay);
    let p = chars_of(prefix);
    matches_at(&h, &p, 0)
}

/// The text from position `from` on.
pub fn tail_from(chars: &Vec<char>, from: usize) -> (out: String)
    requires
        from <= chars.len(),
    ensures
        out@ == chars@.skip(from as int),
{
    let mut out = String::new();
    let mut i: usize = from;
    while i < chars.len()
        invariant
            from <= i <= chars.len(),
            out@ == chars@.subrange(from as int, i as int),
        decreases chars.len() - i,
    {
        out.push(chars[i]);
        i += 1;
        proof {
            assert(chars@.subrange(from as int, i as int) =~= chars@.subrange(
                from as int,
                i - 1,
            ).push(chars@[i - 1]));
        }
    }
    proof {
        assert(chars@.subrange(from as int, chars.len() as int) =~= chars@.skip(from as int));
    }
    out
}

/// Takes every leading `c` away from `s`.
pub fn trim_leading(s: &str, c: char) -> (out: String)
    ensures
        out@ == without_leading(s@, c),
{
    let chars = chars_of(s);
    let mut i: usize = 0;
    proof {
        assert(chars@.skip(0) =~= chars@);
    }
    while i < chars.len() && chars[i] == c
        invariant
            i <= chars.len(),
            chars@ == s@,
            without_leading(s@, c) == without_leading(chars@.skip(i as int), c),
        decreases chars.len() - i,
    {
        proof {
            let cur = chars@.skip(i as int);
            assert(cur[0] == c);
            assert(cur.drop_first() =~= chars@.skip(i + 1));
        }
        i += 1;
    }
    proof {
        let cur = chars@.skip(i as int);
        assert(cur.len() == 0 || cur[0] != c);
    }
    tail_from(&chars, i)
}

/// What is left of `s` once `prefix` is taken away from its beginning as
/// often as it stands there. An empty prefix takes nothing away.
pub open spec fn without_prefix(s: Seq<char>, prefix: Seq<char>) -> Seq<char>
    decreases s.len(),
{
    if prefix.len() > 0 && begins_with(s, prefix) {
        without_prefix(s.skip(prefix.len() as int), prefix)
    } else {
        s
    }
}

/// Takes `prefix` away from the beginning of `s` as often as it stands
/// there.
pub fn trim_prefix(s: &str, prefix: &str) -> (out: String)
    ensures
        out@ == without_prefix(s@, prefix@),
{
    let chars = chars_of(s);
    let p = chars_of(prefix);
    let mut at: usize = 0;
    proof {
        assert(chars@.skip(0) =~= chars@);
    }
    if p.len() == 0 {
        return tail_from(&chars, 0);
    }
    while matches_at(&chars, &p, at)
        invariant
            at <= chars.len(),
            chars@ == s@,
            p@ == prefix@,
            p.len() > 0,
            without_prefix(s@, prefix@) == without_prefix(chars@.skip(at as int), prefix@),
        decreases chars.len() - at,
    {
        proof {
            let rest = chars@.skip(at as int);
            assert(rest.subrange(0, p.len() as int) =~= chars@.subrange(
                at as int,
                at + p.len(),
            ));
            assert(begins_with(rest, prefix@));
            assert(rest.skip(p.len() as int) =~= chars@.skip(at + p.len()));
        }
        at += p.len();
    }
    proof {
        let rest = chars@.skip(at as int);
        if begins_with(rest, prefix@) {
            assert(rest.subrange(0, p.len() as int) =~= chars@.subrange(
                at as int,
                at + p.len(),
            ));
        }
    }
    tail_from(&chars, at)
}

/// Whether a character is white space, as `char::is_whitespace` of the
/// standard library has it.
pub uninterp spec fn white(c: char) -> bool;

/// `char::is_whitespace`: whether the character has the property
/// `White_Space`. The answer depends on the character alone.
pub assume_specification[ char::is_whitespace ](c: char) -> (out: bool)
    ensures
        out == white(c),
;

/// How many characters of white space a text begins with.
pub open spec fn leading_space(s: Seq<char>) -> nat
    decreases s.len(),
{
    if s.len() > 0 && white(s[0]) {
        1 + leading_space(s.drop_first())
    } else {
        0
    }
}

/// How many characters of white space a text ends with.
pub open spec fn trailing_space(s: Seq<char>) -> nat
    decreases s.len(),
{
    if s.len() > 0 && white(s.last()) {
        1 + trailing_space(s.drop_last())
    } else {
        0
    }
}

/// How many characters other than white space a text begins with.
pub open spec fn leading_word(s: Seq<char>) -> nat
    decreases s.len(),
{
    if s.len() > 0 && !white(s[0]) {
        1 + leading_word(s.drop_first())
    } else {
        0
    }
}

/// A text without the white space at its beginning and at its end.
pub open spec fn trimmed(s: Seq<char>) -> Seq<char> {
    let rest = s.skip(leading_space(s) as int);
    rest.take(rest.len() - trailing_space(rest))
}

/// Counts the white space from position `from` on.
pub fn skip_space(chars: &Vec<char>, from: usize) -> (to: usize)
    requires
        from <= chars.len(),
    ensures
        from <= to <= chars.len(),
        to - from == leading_space(chars@.skip(from as int)),
{
    let mut to: usize = from;
    while to < chars.len() && chars[to].is_whitespace()
        invariant
            from <= to <= chars.len(),
            leading_space(chars@.skip(from as int)) == (to - from) + leading_space(
                chars@.skip(to as int),
            ),
        decreases chars.len() - to,
    {
        proof {
            assert(chars@.skip(to as int)[0] == chars@[to as int]);
            assert(chars@.skip(to as int).drop_first() =~= chars@.skip(to + 1));
        }
        to += 1;
    }
    proof {
        if to < chars.len() {
            assert(chars@.skip(to as int)[0] == chars@[to as int]);
        }
    }
    to
}

/// Counts the characters of the word that begins at position `from`.
pub fn skip_word(chars: &Vec<char>, from: usize) -> (to: usize)
    requires
        from <= chars.len(),
    ensures
        from <= to <= chars.len(),
        to - from == leading_word(chars@.skip(from as int)),
{
    let mut to: usize = from;
    while to < chars.len() && !chars[to].is_whitespace()
        invariant
            from <= to <= chars.len(),
            leading_word(chars@.skip(from as int)) == (to - from) + leading_word(
                chars@.skip(to as int),
            ),
        decreases chars.len() - to,
    {
        proof {
            assert(chars@.skip(to as int)[0] == chars@[to as int]);
            assert(chars@.skip(to as int).drop_first() =~= chars@.skip(to + 1));
        }
        to += 1;
    }
    proof {
        if to < chars.len() {
            assert(chars@.skip(to as int)[0] == chars@[to as int]);
        }
    }
    to
}

/// The characters from position `from` up to, but not with, position `to`.
pub fn text_between(chars: &Vec<char>, from: usize, to: usize) -> (out: String)
    requires
        from <= to <= chars.len(),
    ensures
        out@ == chars@.subrange(from as int, to as int),
{
    let mut out = String::new();
    let mut i: usize = from;
    while i < to
        invariant
            from <= i <= to <= chars.len(),
            out@ == chars@.subrange(from as int, i as int),
        decreases to - i,
    {
        out.push(chars[i]);
        proof {
            assert(chars@.subrange(from as int, i + 1) =~= chars@.subrange(
                from as int,
                i as int,
            ).push(chars@[i as int]));
        }
        i += 1;
    }
    out
}

/// Takes the white space away from the beginning and the end of a text.
pub fn trim(s: &str) -> (out: String)
    ensures
        out@ == trimmed(s@),
{
    let chars = chars_of(s);
    let from = skip_space(&chars, 0);
    let mut to: usize = chars.len();
    proof {
        assert(chars@.skip(0) =~= chars@);
        assert(chars@.subrange(from as int, to as int) =~= chars@.skip(from as int));
    }
    while to > from && chars[to - 1].is_whitespace()
        invariant
            from <= to <= chars.len(),
            trailing_space(chars@.skip(from as int)) == (chars.len() - to) + trailing_space(
                chars@.subrange(from as int, to as int),
            ),
        decreases to - from,
    {
        proof {
            let cur = chars@.subrange(from as int, to as int);
            assert(cur.last() == chars@[to - 1]);
            assert(cur.drop_last() =~= chars@.subrange(from as int, to - 1));
        }
        to -= 1;
    }
    proof {
        let cur = chars@.subrange(from as int, to as int);
        if to > from {
            assert(cur.last() == chars@[to - 1]);
        }
        let rest = chars@.skip(from as int);
        assert(rest.take(rest.len() - trailing_space(rest)) =~= cur);
    }
    text_between(&chars, from, to)
}

/// The character for a decimal digit.
pub open spec fn digit(d: int) -> char {
    if d == 0 {
        '0'
    } else if d == 1 {
        '1'
    } else if d == 2 {
        '2'
    } else if d == 3 {
        '3'
    } else if d == 4 {
        '4'
    } else if d == 5 {
        '5'
    } else if d == 6 {
        '6'
    } else if d == 7 {
        '7'
    } else if d == 8 {
        '8'
    } else {
        '9'
    }
}

/// A number in decimal digits, without sign and without leading zeros.
pub open spec fn decimal(n: nat) -> Seq<char>
    decreases n,
{
    if n < 10 {
        seq![digit(n as int)]
    } else {
        decimal(n / 10).push(digit((n % 10) as int))
    }
}

/// The character for a digit below ten.
pub fn digit_char(d: u64) -> (c: char)
    requires
        d < 10,
    ensures
        c == digit(d as int),
{
    match d {
        0 => '0',
        1 => '1',
        2 => '2',
        3 => '3',
        4 => '4',
        5 => '5',
        6 => '6',
        7 => '7',
        8 => '8',
        _ => '9',
    }
}

/// Writes a number in decimal digits.
pub fn render_decimal(n: u64) -> (out: String)
    ensures
        out@ == decimal(n as nat),
{
    let mut digits: Vec<char> = Vec::new();
    let mut rest: u64 = n;
    while rest >= 10
        invariant
            decimal(n as nat) == decimal(rest as nat) + digits@.reverse(),
        decreases rest,
    {
        let ghost before = digits@;
        digits.push(digit_char(rest % 10));
        proof {
            let d = digit((rest % 10) as int);
            assert(digits@.reverse() =~= seq![d] + before.reverse());
            assert(decimal(rest as nat) == decimal((rest / 10) as nat).push(d));
            assert(decimal((rest / 10) as nat).push(d) + before.reverse() =~= decimal(
                (rest / 10) as nat,
            ) + (seq![d] + before.reverse()));
        }
        rest = rest / 10;
    }
    let mut out = String::new();
    out.push(digit_char(rest));
    let mut i: usize = digits.len();
    while i > 0
        invariant
            i <= digits.len(),
            out@ == decimal(rest as nat) + digits@.reverse().take(digits.len() - i),
        decreases i,
    {
        i -= 1;
        out.push(digits[i]);
        proof {
            let r = digits@.reverse();
            let k = digits.len() - i - 1;
            assert(r[k] == digits@[i as int]);
            assert(r.take(k + 1) =~= r.take(k).push(r[k]));
            assert(decimal(rest as nat) + r.take(k).push(r[k]) =~= (decimal(rest as nat) + r.take(
                k,
            )).push(r[k]));
        }
    }
    proof {
        assert(digits@.reverse().take(digits.len() as int) =~= digits@.reverse());
    }
    out
}

/// The value of a decimal digit.
pub open spec fn digit_of(c: char) -> Option<nat> {
    if c == '0' {
        Some(0)
    } else if c == '1' {
        Some(1)
    } else if c == '2' {
        Some(2)
    } else if c == '3' {
        Some(3)
    } else if c == '4' {
        Some(4)
    } else if c == '5' {
        Some(5)
    } else if c == '6' {
        Some(6)
    } else if c == '7' {
        Some(7)
    } else if c == '8' {
        Some(8)
    } else if c == '9' {
        Some(9)
    } else {
        None
    }
}

/// Every character is a decimal digit.
pub open spec fn all_digits(s: Seq<char>) -> bool {
    forall|i: int| 0 <= i < s.len() ==> digit_of(#[trigger] s[i]) is Some
}

/// The number that decimal digits stand for.
pub open spec fn value_of(s: Seq<char>) -> nat
    decreases s.len(),
{
    if s.len() == 0 {
        0
    } else {
        value_of(s.drop_last()) * 10 + match digit_of(s.last()) {
            Some(d) => d,
            None => 0,
        }
    }
}

/// A text without the plus sign that it may begin with.
pub open spec fn unsigned(s: Seq<char>) -> Seq<char> {
    if s.len() > 0 && s[0] == '+' {
        s.drop_first()
    } else {
        s
    }
}

/// The number that a text stands for: the text is one or more decimal
/// digits, after a plus sign or without one, and the number fits into 64
/// bits.
pub open spec fn number_of(s: Seq<char>) -> Option<u64> {
    let digits = unsigned(s);
    if digits.len() > 0 && all_digits(digits) && value_of(digits) <= u64::MAX {
        Some(value_of(digits) as u64)
    } else {
        None
    }
}

/// The digits that a number begins with stand for no more than the number.
proof fn lemma_value_grows(s: Seq<char>, k: int)
    requires
        0 <= k <= s.len(),
    ensures
        value_of(s.take(k)) <= value_of(s),
    decreases s.len() - k,
{
    if k < s.len() {
        assert(s.take(k + 1).drop_last() =~= s.take(k));
        lemma_value_grows(s, k + 1);
    } else {
        assert(s.take(k) =~= s);
    }
}

/// Reads the value of a decimal digit.
pub fn read_digit(c: char) -> (out: Option<u64>)
    ensures
        match out {
            Some(d) => digit_of(c) == Some(d as nat) && d < 10,
            None => digit_of(c) is None,
        },
{
    match c {
        '0' => Some(0),
        '1' => Some(1),
        '2' => Some(2),
        '3' => Some(3),
        '4' => Some(4),
        '5' => Some(5),
        '6' => Some(6),
        '7' => Some(7),
        '8' => Some(8),
        '9' => Some(9),
        _ => None,
    }
}

/// Reads the number that a text stands for.
pub fn parse_number(text: &str) -> (out: Option<u64>)
    ensures
        out == number_of(text@),
{
    let chars = chars_of(text);
    let from: usize = if chars.len() > 0 && chars[0] == '+' {
        1
    } else {
        0
    };
    let ghost digits = unsigned(text@);
    proof {
        assert(digits =~= chars@.skip(from as int));
    }
    if from == chars.len() {
        return None;
    }
    let mut acc: u64 = 0;
    let mut i: usize = from;
    proof {
        assert(digits.take(0) =~= Seq::<char>::empty());
    }
    while i < chars.len()
        invariant
            from <= i <= chars.len(),
            digits == chars@.skip(from as int),
            digits == unsigned(text@),
            digits.len() > 0,
            all_digits(digits.take(i - from)),
            acc == value_of(digits.take(i - from)),
        decreases chars.len() - i,
    {
        let ghost k = i - from;
        proof {
            assert(digits.take(k + 1).drop_last() =~= digits.take(k));
            assert(digits.take(k + 1).last() == chars@[i as int]);
            assert(digits[k] == chars@[i as int]);
        }
        let d = match read_digit(chars[i]) {
            Some(d) => d,
            None => {
                proof {
                    assert(digit_of(digits[k]) is None);
                }
                return None;
            },
        };
        if acc > (u64::MAX - d) / 10 {
            proof {
                lemma_value_grows(digits, k + 1);
                assert(value_of(digits.take(k + 1)) == acc * 10 + d);
            }
            return None;
        }
        acc = acc * 10 + d;
        i += 1;
        proof {
            assert forall|j: int| 0 <= j < k + 1 implies digit_of(
                #[trigger] digits.take(k + 1)[j],
            ) is Some by {
                if j < k {
                    assert(digits.take(k)[j] == digits.take(k + 1)[j]);
                }
            }
        }
    }
    proof {
        assert(digits.take(i - from) =~= digits);
    }
    Some(acc)
}

/// The digits of a number are digits, and they stand for the number.
pub proof fn lemma_decimal_reads_back(n: nat)
    ensures
        decimal(n).len() > 0,
        all_digits(decimal(n)),
        value_of(decimal(n)) == n,
        digit_of(decimal(n)[0]) is Some,
    decreases n,
{
    if n < 10 {
        let s = seq![digit(n as int)];
        assert(s.drop_last() =~= Seq::<char>::empty());
        assert(value_of(s.drop_last()) == 0);
        assert(digit_of(s.last()) == Some(n));
    } else {
        lemma_decimal_reads_back(n / 10);
        let front = decimal(n / 10);
        let d = digit((n % 10) as int);
        let s = front.push(d);
        assert(s.drop_last() =~= front);
        assert(digit_of(d) == Some(n % 10));
        assert(s[0] == front[0]);
        assert forall|i: int| 0 <= i < s.len() implies digit_of(#[trigger] s[i]) is Some by {
            if i < front.len() {
                assert(s[i] == front[i]);
            }
        }
    }
}

/// A number that is written and read again is the number that it was.
pub proof fn law_numbers_read_back(n: u64)
    ensures
        number_of(decimal(n as nat)) == Some(n),
{
    lemma_decimal_reads_back(n as nat);
}

} // verus!
