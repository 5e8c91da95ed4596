//! Characters, lines and numbers: the small text operations that the rest of
//! the library is built from.

use vstd::prelude::*;

verus! {

/// Stands for the answer of `char::is_whitespace`: whether a character has
/// the Unicode property White_Space.
pub uninterp spec fn is_space(c: char) -> bool;

/// `char::is_whitespace` depends on the character alone; the contract gives
/// its answer a name.
pub assume_specification[ char::is_whitespace ](c: char) -> (b: bool)
    ensures
        b == is_space(c),
;

/// `String::push` appends one character to the end of the string.
pub assume_specification[ String::push ](s: &mut String, c: char)
    ensures
        final(s)@ == old(s)@.push(c),
;

/// The characters of a string slice, in order.
pub fn chars_of(s: &str) -> (v: Vec<char>)
    ensures
        v@ == s@,
{
    let mut v: Vec<char> = Vec::new();
    for c in it: s.chars()
        invariant
            it.seq() == s@,
            v@ == s@.take(it.index()),
    {
        v.push(c);
    }
    v
}

/// Whether two string slices hold the same text.
pub fn same_text(a: &str, b: &str) -> (same: bool)
    ensures
        same == (a@ == b@),
{
    let x = chars_of(a);
    let y = chars_of(b);
    if x.len() != y.len() {
        return false;
    }
    let mut i: usize = 0;
    while i < x.len()
        invariant
            i <= x.len() == y.len(),
            x@ == a@,
            y@ == b@,
            forall|j: int| 0 <= j < i ==> x@[j] == y@[j],
        decreases x.len() - i,
    {
        if x[i] != y[i] {
            return false;
        }
        i += 1;
    }
    assert(x@ =~= y@);
    true
}

/// The string made of the characters `chars[from..to]`.
pub fn string_of(chars: &Vec<char>, from: usize, to: usize) -> (s: String)
    requires
        from <= to <= chars.len(),
    ensures
        s@ == chars@.subrange(from as int, to as int),
{
    let mut s = String::new();
    let mut i: usize = from;
    while i < to
        invariant
            from <= i <= to <= chars.len(),
            s@ == chars@.subrange(from as int, i as int),
        decreases to - i,
    {
        s.push(chars[i]);
        i += 1;
        assert(chars@.subrange(from as int, i as int) == chars@.subrange(from as int, i - 1).push(
            chars@[i - 1],
        ));
    }
    s
}

/// The string made of all of `chars`.
pub fn text_of(chars: &Vec<char>) -> (s: String)
    ensures
        s@ == chars@,
{
    let s = string_of(chars, 0, chars.len());
    assert(chars@.subrange(0, chars@.len() as int) == chars@);
    s
}

/// The characters `chars[from..to]` as a vector of their own.
pub fn subvec(chars: &Vec<char>, from: usize, to: usize) -> (v: Vec<char>)
    requires
        from <= to <= chars.len(),
    ensures
        v@ == chars@.subrange(from as int, to as int),
{
    let mut v: Vec<char> = Vec::new();
    let mut i: usize = from;
    while i < to
        invariant
            from <= i <= to <= chars.len(),
            v@ == chars@.subrange(from as int, i as int),
        decreases to - i,
    {
        v.push(chars[i]);
        i += 1;
        assert(chars@.subrange(from as int, i as int) == chars@.subrange(from as int, i - 1).push(
            chars@[i - 1],
        ));
    }
    v
}

/// A copy of `chars`.
pub fn copy_of(chars: &Vec<char>) -> (v: Vec<char>)
    ensures
        v@ == chars@,
{
    let v = subvec(chars, 0, chars.len());
    assert(chars@.subrange(0, chars@.len() as int) == chars@);
    v
}

/// A text without its first `n` characters; empty when it has no more than
/// `n`.
pub open spec fn without_prefix(s: Seq<char>, n: int) -> Seq<char> {
    if 0 <= n <= s.len() {
        s.subrange(n, s.len() as int)
    } else {
        Seq::empty()
    }
}

/// Drops the first `n` characters of `chars`.
pub fn drop_prefix(chars: &Vec<char>, n: usize) -> (v: Vec<char>)
    ensures
        v@ == without_prefix(chars@, n as int),
{
    if n <= chars.len() {
        subvec(chars, n, chars.len())
    } else {
        Vec::new()
    }
}

/// A text without its leading white space.
pub open spec fn trim_start(s: Seq<char>) -> Seq<char>
    decreases s.len(),
{
    if s.len() > 0 && is_space(s[0]) {
        trim_start(s.drop_first())
    } else {
        s
    }
}

/// A text without its trailing white space.
pub open spec fn trim_end(s: Seq<char>) -> Seq<char>
    decreases s.len(),
{
    if s.len() > 0 && is_space(s.last()) {
        trim_end(s.drop_last())
    } else {
        s
    }
}

/// A text without leading and trailing white space.
pub open spec fn trim(s: Seq<char>) -> Seq<char> {
    trim_end(trim_start(s))
}

/// Whether a text holds nothing but white space.
pub open spec fn is_blank(s: Seq<char>) -> bool {
    trim(s).len() == 0
}

/// Removes leading and trailing white space.
pub fn trimmed(chars: &Vec<char>) -> (v: Vec<char>)
    ensures
        v@ == trim(chars@),
{
    let n: usize = chars.len();
    let mut from: usize = 0;
    assert(chars@.subrange(0, n as int) == chars@);
    while from < n && chars[from].is_whitespace()
        invariant
            from <= n == chars.len(),
            trim_start(chars@) == trim_start(chars@.subrange(from as int, n as int)),
        decreases n - from,
    {
        assert(chars@.subrange(from as int, n as int).drop_first() == chars@.subrange(
            from + 1,
            n as int,
        ));
        from += 1;
    }
    let mut to: usize = n;
    while to > from && chars[to - 1].is_whitespace()
        invariant
            from <= to <= n == chars.len(),
            trim(chars@) == trim_end(chars@.subrange(from as int, to as int)),
        decreases to - from,
    {
        assert(chars@.subrange(from as int, to as int).drop_last() == chars@.subrange(
            from as int,
            to - 1,
        ));
        to -= 1;
    }
    subvec(chars, from, to)
}

/// Tells whether a line holds nothing but white space.
pub fn blank(chars: &Vec<char>) -> (b: bool)
    ensures
        b == is_blank(chars@),
{
    trimmed(chars).len() == 0
}

/// The place of the first line feed of a text; the length of the text when
/// it has none.
pub open spec fn newline_at(s: Seq<char>) -> nat
    decreases s.len(),
{
    if s.len() == 0 || s[0] == '\n' {
        0
    } else {
        1 + newline_at(s.drop_first())
    }
}

/// A line as it was cut at a line feed, without the carriage return that
/// may precede the line feed.
pub open spec fn without_cr(s: Seq<char>) -> Seq<char> {
    if s.len() > 0 && s.last() == '\r' {
        s.drop_last()
    } else {
        s
    }
}

/// The lines of a text. A line ends at a line feed, which may follow a
/// carriage return; neither belongs to the line. The last line needs no line
/// feed, and a text that ends in one has no further, empty line.
pub open spec fn lines_of(s: Seq<char>) -> Seq<Seq<char>>
    decreases s.len(),
{
    if s.len() == 0 {
        Seq::empty()
    } else {
        let k = newline_at(s);
        if k >= s.len() {
            seq![s]
        } else {
            seq![without_cr(s.subrange(0, k as int))] + lines_of(
                s.subrange(k as int + 1, s.len() as int),
            )
        }
    }
}

/// The texts that a list of lines holds.
pub open spec fn texts(lines: Seq<Vec<char>>) -> Seq<Seq<char>> {
    Seq::new(lines.len(), |i: int| lines[i]@)
}

/// The first line feed lies where a scan from the start finds it.
pub proof fn lemma_newline_at(s: Seq<char>, k: int)
    requires
        0 <= k <= s.len(),
        forall|j: int| 0 <= j < k ==> s[j] != '\n',
        k < s.len() ==> s[k] == '\n',
    ensures
        newline_at(s) == k,
    decreases k,
{
    if k > 0 {
        lemma_newline_at(s.drop_first(), k - 1);
    }
}

/// Cuts a text into its lines.
pub fn split_lines(text: &Vec<char>) -> (lines: Vec<Vec<char>>)
    ensures
        texts(lines@) == lines_of(text@),
{
    let n: usize = text.len();
    let mut lines: Vec<Vec<char>> = Vec::new();
    let mut start: usize = 0;
    assert(text@.subrange(0, n as int) == text@);
    while start < n
        invariant
            start <= n == text.len(),
            texts(lines@) + lines_of(text@.subrange(start as int, n as int)) == lines_of(text@),
        decreases n - start,
    {
        let ghost rest = text@.subrange(start as int, n as int);
        let ghost before = texts(lines@);
        let mut end: usize = start;
        while end < n && text[end] != '\n'
            invariant
                start <= end <= n == text.len(),
                forall|j: int| start <= j < end ==> text@[j] != '\n',
            decreases n - end,
        {
            end += 1;
        }
        proof {
            lemma_newline_at(rest, end - start);
        }
        if end == n {
            lines.push(subvec(text, start, n));
            start = n;
            assert(texts(lines@) =~= before + seq![rest]);
            assert(lines_of(text@.subrange(n as int, n as int)) =~= Seq::empty());
        } else {
            let stop: usize = if end > start && text[end - 1] == '\r' {
                end - 1
            } else {
                end
            };
            lines.push(subvec(text, start, stop));
            proof {
                let k = end - start;
                assert(rest.subrange(0, k) =~= text@.subrange(start as int, end as int));
                assert(without_cr(rest.subrange(0, k)) =~= text@.subrange(start as int, stop as int));
                assert(rest.subrange(k + 1, rest.len() as int) =~= text@.subrange(end + 1, n as int));
                assert(texts(lines@) =~= before + seq![text@.subrange(start as int, stop as int)]);
            }
            start = end + 1;
        }
    }
    lines
}

/// The value of a decimal digit.
pub open spec fn digit_value(c: char) -> Option<nat> {
    if '0' <= c <= '9' {
        Some((c as nat - '0' as nat) as nat)
    } else {
        None
    }
}

/// The value of a text made of decimal digits alone; `None` for an empty
/// text and for one that holds anything else.
pub open spec fn number(s: Seq<char>) -> Option<nat>
    decreases s.len(),
{
    if s.len() == 0 {
        None
    } else {
        match digit_value(s.last()) {
            None => None,
            Some(d) => if s.len() == 1 {
                Some(d)
            } else {
                match number(s.drop_last()) {
                    Some(v) => Some(v * 10 + d),
                    None => None,
                }
            },
        }
    }
}

/// The number that a text writes, if it is one that fits in 32 bits.
pub open spec fn number_u32(s: Seq<char>) -> Option<u32> {
    match number(s) {
        Some(v) => if v <= u32::MAX {
            Some(v as u32)
        } else {
            None
        },
        None => None,
    }
}

/// A number is at least the number that any shorter beginning of it writes,
/// and every beginning of a number is a number.
pub proof fn lemma_number_prefix(s: Seq<char>, k: int)
    requires
        1 <= k <= s.len(),
        number(s) is Some,
    ensures
        number(s.take(k)) is Some,
        number(s.take(k))->0 <= number(s)->0,
    decreases s.len() - k,
{
    if k < s.len() {
        assert(s.drop_last().take(k) == s.take(k));
        lemma_number_prefix(s.drop_last(), k);
    } else {
        assert(s.take(k) == s);
    }
}

/// Reads a decimal number of at most 32 bits.
pub fn parse_u32(chars: &Vec<char>) -> (value: Option<u32>)
    ensures
        value == number_u32(chars@),
{
    let n: usize = chars.len();
    if n == 0 {
        return None;
    }
    let mut acc: u64 = 0;
    let mut i: usize = 0;
    while i < n
        invariant
            i <= n == chars.len(),
            n > 0,
            acc <= u32::MAX,
            i > 0 ==> number(chars@.take(i as int)) == Some(acc as nat),
            i == 0 ==> acc == 0,
        decreases n - i,
    {
        let c: char = chars[i];
        assert(chars@.take(i + 1).drop_last() == chars@.take(i as int));
        if c < '0' || c > '9' {
            proof {
                if number(chars@) is Some {
                    lemma_number_prefix(chars@, i + 1);
                }
            }
            return None;
        }
        let d: u64 = (c as u32 - '0' as u32) as u64;
        acc = acc * 10 + d;
        if acc > 0xffff_ffff {
            proof {
                if number(chars@) is Some {
                    lemma_number_prefix(chars@, i + 1);
                }
            }
            return None;
        }
        i += 1;
    }
    assert(chars@.take(n as int) == chars@);
    Some(acc as u32)
}

/// The character that writes a single decimal digit.
pub open spec fn digit_char(d: nat) -> char {
    if d == 0 {
        '0'
    } else if d == 1 {
        '1'
    } else if d == 2 {
        '2'
    } else if d == 3 {
        '3'
    } else if d == 4 {
        '4'
    } else if d == 5 {
        '5'
    } else if d == 6 {
        '6'
    } else if d == 7 {
        '7'
    } else if d == 8 {
        '8'
    } else {
        '9'
    }
}

/// A number written in decimal, without sign or leading zeros.
pub open spec fn decimal(n: nat) -> Seq<char>
    decreases n,
{
    if n < 10 {
        seq![digit_char(n)]
    } else {
        decimal(n / 10).push(digit_char(n % 10))
    }
}

fn digit_of(d: u64) -> (c: char)
    requires
        d < 10,
    ensures
        c == digit_char(d as nat),
{
    if d == 0 {
        '0'
    } else if d == 1 {
        '1'
    } else if d == 2 {
        '2'
    } else if d == 3 {
        '3'
    } else if d == 4 {
        '4'
    } else if d == 5 {
        '5'
    } else if d == 6 {
        '6'
    } else if d == 7 {
        '7'
    } else if d == 8 {
        '8'
    } else {
        '9'
    }
}

/// Appends `n` in decimal to `out`.
pub fn push_decimal(out: &mut String, n: u64)
    ensures
        final(out)@ == old(out)@ + decimal(n as nat),
    decreases n,
{
    if n >= 10 {
        push_decimal(out, n / 10);
    }
    out.push(digit_of(n % 10));
}

} // verus!
