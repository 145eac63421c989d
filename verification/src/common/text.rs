//! Text helpers: appending to strings and rendering numbers as decimal text.

use vstd::prelude::*;

verus! {

/// Appends `tail` to `target` (std's `String::push_str`).
///
/// Trusted: the contract claims that the new text is the old text followed by `tail`,
/// which is what `push_str` documents.
#[verifier::external_body]
pub(crate) fn push_str(target: &mut String, tail: &str)
    ensures
        final(target)@ == old(target)@ + tail@,
{
    target.push_str(tail);
}

/// Appends one character to `target` (std's `String::push`).
///
/// Trusted: the contract claims that the new text is the old text followed by `ch`,
/// which is what `push` documents.
#[verifier::external_body]
pub(crate) fn push_char(target: &mut String, ch: char)
    ensures
        final(target)@ == old(target)@.push(ch),
{
    target.push(ch);
}

/// The characters of `text`, in order (std's `str::chars`, collected).
///
/// Trusted: claims that the characters are those of `text`.
#[verifier::external_body]
pub(crate) fn chars_of(text: &str) -> (r: Vec<char>)
    ensures
        r@ == text@,
{
    text.chars().collect()
}

/// Copies a string slice into a new owned string.
pub fn owned(text: &str) -> (out: String)
    ensures
        out@ == text@,
{
    let mut out = String::new();
    push_str(&mut out, text);
    out
}

/// The ASCII digit character for a value below ten.
pub open spec fn digit_char(d: nat) -> char {
    if d == 0 { '0' } else if d == 1 { '1' } else if d == 2 { '2' } else if d == 3 { '3' }
    else if d == 4 { '4' } else if d == 5 { '5' } else if d == 6 { '6' } else if d == 7 { '7' }
    else if d == 8 { '8' } else { '9' }
}

/// The decimal representation of a natural number, without leading zeros
/// (zero is written `0`).
pub open spec fn decimal(n: nat) -> Seq<char>
    decreases n,
{
    if n < 10 {
        seq![digit_char(n)]
    } else {
        decimal(n / 10).push(digit_char(n % 10))
    }
}

/// The decimal representation of an integer, with a leading `-` when negative.
pub open spec fn signed_decimal(v: int) -> Seq<char> {
    if v < 0 {
        seq!['-'] + decimal((-v) as nat)
    } else {
        decimal(v as nat)
    }
}

fn digit_to_char(d: usize) -> (c: char)
    requires
        d < 10,
    ensures
        c == digit_char(d as nat),
{
    if d == 0 { '0' } else if d == 1 { '1' } else if d == 2 { '2' } else if d == 3 { '3' }
    else if d == 4 { '4' } else if d == 5 { '5' } else if d == 6 { '6' } else if d == 7 { '7' }
    else if d == 8 { '8' } else { '9' }
}

/// Appends the decimal representation of `n` to `target`.
pub fn push_decimal(target: &mut String, n: usize)
    ensures
        final(target)@ == old(target)@ + decimal(n as nat),
    decreases n,
{
    if n < 10 {
        push_char(target, digit_to_char(n));
        assert(decimal(n as nat) == seq![digit_char(n as nat)]);
    } else {
        push_decimal(target, n / 10);
        push_char(target, digit_to_char(n % 10));
        assert(decimal(n as nat) == decimal((n / 10) as nat).push(digit_char((n % 10) as nat)));
    }
}

/// Renders `n` as decimal text.
pub fn usize_to_decimal(n: usize) -> (out: String)
    ensures
        out@ == decimal(n as nat),
{
    let mut out = String::new();
    push_decimal(&mut out, n);
    assert(Seq::<char>::empty() + decimal(n as nat) == decimal(n as nat));
    out
}

/// Whether `c` has the Unicode `White_Space` property (what `char::is_whitespace` tests).
pub open spec fn is_white_space(c: char) -> bool {
    let v = c as u32;
    ||| 0x9 <= v <= 0xd
    ||| v == 0x20
    ||| v == 0x85
    ||| v == 0xa0
    ||| v == 0x1680
    ||| 0x2000 <= v <= 0x200a
    ||| v == 0x2028
    ||| v == 0x2029
    ||| v == 0x202f
    ||| v == 0x205f
    ||| v == 0x3000
}

fn white_space(c: char) -> (r: bool)
    ensures
        r == is_white_space(c),
{
    let v = c as u32;
    (0x9 <= v && v <= 0xd) || v == 0x20 || v == 0x85 || v == 0xa0 || v == 0x1680
        || (0x2000 <= v && v <= 0x200a) || v == 0x2028 || v == 0x2029 || v == 0x202f || v == 0x205f
        || v == 0x3000
}

/// `s` without its leading white space.
pub open spec fn trim_start(s: Seq<char>) -> Seq<char>
    decreases s.len(),
{
    if s.len() > 0 && is_white_space(s[0]) {
        trim_start(s.drop_first())
    } else {
        s
    }
}

/// `s` without its trailing white space.
pub open spec fn trim_end(s: Seq<char>) -> Seq<char>
    decreases s.len(),
{
    if s.len() > 0 && is_white_space(s[s.len() - 1]) {
        trim_end(s.drop_last())
    } else {
        s
    }
}

/// `s` without leading and trailing white space (what `str::trim` returns).
pub open spec fn trimmed(s: Seq<char>) -> Seq<char> {
    trim_end(trim_start(s))
}

proof fn lemma_trim_start(s: Seq<char>, i: int)
    requires
        0 <= i <= s.len(),
        forall|j: int| 0 <= j < i ==> is_white_space(#[trigger] s[j]),
        i == s.len() || !is_white_space(s[i]),
    ensures
        trim_start(s) == s.subrange(i, s.len() as int),
    decreases i,
{
    if i == 0 {
        assert(s.subrange(0, s.len() as int) =~= s);
    } else {
        let rest = s.drop_first();
        assert forall|j: int| 0 <= j < i - 1 implies is_white_space(#[trigger] rest[j]) by {
            assert(rest[j] == s[j + 1]);
        }
        if i < s.len() {
            assert(rest[i - 1] == s[i]);
        }
        lemma_trim_start(rest, i - 1);
        assert(rest.subrange(i - 1, rest.len() as int) =~= s.subrange(i, s.len() as int));
    }
}

proof fn lemma_trim_end(s: Seq<char>, k: int)
    requires
        0 <= k <= s.len(),
        forall|j: int| k <= j < s.len() ==> is_white_space(#[trigger] s[j]),
        k == 0 || !is_white_space(s[k - 1]),
    ensures
        trim_end(s) == s.subrange(0, k),
    decreases s.len() - k,
{
    if k == s.len() {
        assert(s.subrange(0, k) =~= s);
    } else {
        let rest = s.drop_last();
        assert forall|j: int| k <= j < rest.len() implies is_white_space(#[trigger] rest[j]) by {
            assert(rest[j] == s[j]);
        }
        if k > 0 {
            assert(rest[k - 1] == s[k - 1]);
        }
        lemma_trim_end(rest, k);
        assert(rest.subrange(0, k) =~= s.subrange(0, k));
    }
}

/// `text` without leading and trailing white space.
pub fn trim(text: &str) -> (r: String)
    ensures
        r@ == trimmed(text@),
{
    let chars = chars_of(text);
    let n = chars.len();
    let mut start: usize = 0;
    while start < n && white_space(chars[start])
        invariant
            chars@ == text@,
            n == chars@.len(),
            0 <= start <= n,
            forall|j: int| 0 <= j < start ==> is_white_space(#[trigger] chars@[j]),
        decreases n - start,
    {
        start = start + 1;
    }
    proof { lemma_trim_start(text@, start as int); }
    let mut end: usize = n;
    while end > start && white_space(chars[end - 1])
        invariant
            chars@ == text@,
            n == chars@.len(),
            start <= end <= n,
            forall|j: int| end <= j < n ==> is_white_space(#[trigger] chars@[j]),
        decreases end - start,
    {
        end = end - 1;
    }
    proof {
        let t = text@.subrange(start as int, n as int);
        assert forall|j: int| end - start <= j < t.len() implies is_white_space(#[trigger] t[j]) by {
            assert(t[j] == chars@[j + start]);
        }
        if end > start {
            assert(t[end - start - 1] == chars@[end - 1]);
        }
        lemma_trim_end(t, (end - start) as int);
    }
    let mut out = String::new();
    let mut i: usize = start;
    while i < end
        invariant
            chars@ == text@,
            start <= i <= end <= n,
            n == chars@.len(),
            out@ == text@.subrange(start as int, i as int),
        decreases end - i,
    {
        push_char(&mut out, chars[i]);
        proof {
            assert(text@.subrange(start as int, i + 1) =~= text@.subrange(start as int, i as int).push(chars@[i as int]));
        }
        i = i + 1;
    }
    proof {
        assert(text@.subrange(start as int, n as int).subrange(0, (end - start) as int) =~= text@.subrange(start as int, end as int));
    }
    out
}

} // verus!
