//! Small helpers on strings and sequences of characters.
use vstd::prelude::*;

verus! {

/// Appends one character to a string.
///
/// Wraps `String::push`, of which the contract claims that the new content
/// is the old content followed by `c`.
#[verifier::external_body]
pub(crate) fn push_char(s: &mut String, c: char)
    ensures
        final(s)@ == old(s)@.push(c),
{
    s.push(c)
}

/// The characters of `s`, in order.
pub fn chars_of(s: &str) -> (out: Vec<char>)
    ensures
        out@ == s@,
{
    let mut out: Vec<char> = Vec::new();
    for c in it: s.chars()
        invariant
            out@ == it.seq().take(it.index() as int),
            it.seq() == s@,
    {
        out.push(c);
    }
    out
}

/// The string made of the characters of `chars`, in order.
pub fn string_of(chars: &Vec<char>) -> (out: String)
    ensures
        out@ == chars@,
{
    let mut out = String::new();
    let mut i: usize = 0;
    while i < chars.len()
        invariant
            i <= chars.len(),
            out@ == chars@.take(i as int),
        decreases chars.len() - i,
    {
        push_char(&mut out, chars[i]);
        proof {
            assert(chars@.take(i as int + 1) == chars@.take(i as int).push(chars@[i as int]));
        }
        i += 1;
    }
    proof {
        assert(chars@.take(chars.len() as int) == chars@);
    }
    out
}

/// Appends the characters of `s` to `out`.
pub fn push_text(out: &mut Vec<char>, s: &str)
    ensures
        final(out)@ == old(out)@ + s@,
{
    let chars = chars_of(s);
    push_chars(out, &chars);
}

/// Appends the characters of `chars` to `out`.
pub fn push_chars(out: &mut Vec<char>, chars: &Vec<char>)
    ensures
        final(out)@ == old(out)@ + chars@,
{
    let mut i: usize = 0;
    while i < chars.len()
        invariant
            i <= chars.len(),
            out@ == old(out)@ + chars@.take(i as int),
        decreases chars.len() - i,
    {
        out.push(chars[i]);
        proof {
            assert(chars@.take(i as int + 1) == chars@.take(i as int).push(chars@[i as int]));
        }
        i += 1;
    }
    proof {
        assert(chars@.take(chars.len() as int) == chars@);
    }
}

/// The character that stands for the decimal digit `d`.
pub open spec fn digit_char(d: nat) -> char {
    if d == 0 {
        '0'
    } else if d == 1 {
        '1'
    } else if d == 2 {
        '2'
    } else if d == 3 {
        '3'
    } else if d == 4 {
        '4'
    } else if d == 5 {
        '5'
    } else if d == 6 {
        '6'
    } else if d == 7 {
        '7'
    } else if d == 8 {
        '8'
    } else {
        '9'
    }
}

/// The decimal notation of `n`, without leading zeros.
pub open spec fn decimal(n: nat) -> Seq<char>
    decreases n,
{
    if n < 10 {
        seq![digit_char(n)]
    } else {
        decimal(n / 10).push(digit_char(n % 10))
    }
}

fn digit_of(d: u64) -> (c: char)
    requires
        d < 10,
    ensures
        c == digit_char(d as nat),
{
    if d == 0 {
        '0'
    } else if d == 1 {
        '1'
    } else if d == 2 {
        '2'
    } else if d == 3 {
        '3'
    } else if d == 4 {
        '4'
    } else if d == 5 {
        '5'
    } else if d == 6 {
        '6'
    } else if d == 7 {
        '7'
    } else if d == 8 {
        '8'
    } else {
        '9'
    }
}

/// Appends the decimal notation of `n` to `out`.
pub fn push_decimal(out: &mut Vec<char>, n: u64)
    ensures
        final(out)@ == old(out)@ + decimal(n as nat),
    decreases n,
{
    if n >= 10 {
        push_decimal(out, n / 10);
    }
    out.push(digit_of(n % 10));
    proof {
        if n >= 10 {
            assert(old(out)@ + decimal(n as nat) == (old(out)@ + decimal((n / 10) as nat)).push(
                digit_char((n % 10) as nat),
            ));
        } else {
            assert(old(out)@ + decimal(n as nat) == old(out)@.push(digit_char(n as nat)));
        }
    }
}

/// Whether two character sequences held in vectors are the same.
pub fn same_chars(a: &Vec<char>, b: &Vec<char>) -> (eq: bool)
    ensures
        eq == (a@ == b@),
{
    if a.len() != b.len() {
        return false;
    }
    let mut i: usize = 0;
    while i < a.len()
        invariant
            i <= a.len(),
            a.len() == b.len(),
            a@.take(i as int) == b@.take(i as int),
        decreases a.len() - i,
    {
        if a[i] != b[i] {
            return false;
        }
        proof {
            assert(a@.take(i as int + 1) == a@.take(i as int).push(a@[i as int]));
            assert(b@.take(i as int + 1) == b@.take(i as int).push(b@[i as int]));
        }
        i += 1;
    }
    proof {
        assert(a@.take(a.len() as int) == a@);
        assert(b@.take(b.len() as int) == b@);
    }
    true
}

/// Whether `text` begins with `prefix`.
pub fn starts_with(text: &str, prefix: &str) -> (yes: bool)
    ensures
        yes == prefix@.is_prefix_of(text@),
{
    let t = chars_of(text);
    let p = chars_of(prefix);
    chars_start_with(&t, 0, &p)
}

/// Whether `pattern` stands in `text` at position `at`.
pub open spec fn occurs_at(text: Seq<char>, at: int, pattern: Seq<char>) -> bool {
    &&& 0 <= at
    &&& at + pattern.len() <= text.len()
    &&& text.subrange(at, at + pattern.len()) == pattern
}

/// Whether `pattern` stands in `text` at position `at`.
pub fn chars_start_with(text: &Vec<char>, at: usize, pattern: &Vec<char>) -> (yes: bool)
    ensures
        yes == occurs_at(text@, at as int, pattern@),
        at == 0 ==> yes == pattern@.is_prefix_of(text@),
{
    if at > text.len() || pattern.len() > text.len() - at {
        proof {
            if at == 0 && pattern@.is_prefix_of(text@) {
                assert(pattern@.len() <= text@.len());
            }
        }
        return false;
    }
    let mut i: usize = 0;
    while i < pattern.len()
        invariant
            i <= pattern.len(),
            at + pattern.len() <= text.len(),
            forall|k: int| 0 <= k < i ==> text@[at + k] == pattern@[k],
        decreases pattern.len() - i,
    {
        if text[at + i] != pattern[i] {
            proof {
                let sub = text@.subrange(at as int, at + pattern.len());
                assert(sub[i as int] == text@[at + i]);
                if at == 0 && pattern@.is_prefix_of(text@) {
                    assert(text@.subrange(0, pattern@.len() as int)[i as int] == pattern@[i as int]);
                }
            }
            return false;
        }
        i += 1;
    }
    proof {
        assert(text@.subrange(at as int, at + pattern.len()) =~= pattern@);
    }
    true
}

/// Whether `pattern` occurs somewhere in `text`.
pub open spec fn has_infix(text: Seq<char>, pattern: Seq<char>) -> bool {
    exists|at: int| occurs_at(text, at, pattern)
}

/// Whether `text` contains `pattern`.
pub fn contains(text: &str, pattern: &str) -> (yes: bool)
    ensures
        yes == has_infix(text@, pattern@),
{
    let t = chars_of(text);
    let p = chars_of(pattern);
    if p.len() > t.len() {
        return false;
    }
    let last = t.len() - p.len();
    let mut at: usize = 0;
    loop
        invariant
            last == t.len() - p.len(),
            at <= last,
            t@ == text@,
            p@ == pattern@,
            forall|k: int| 0 <= k < at ==> !occurs_at(t@, k, p@),
        decreases last - at,
    {
        if chars_start_with(&t, at, &p) {
            return true;
        }
        if at == last {
            return false;
        }
        at += 1;
    }
}

/// Whether `text` ends with `suffix`.
pub open spec fn has_suffix(text: Seq<char>, suffix: Seq<char>) -> bool {
    suffix.len() <= text.len() && occurs_at(text, text.len() - suffix.len(), suffix)
}

/// Whether `text` ends with `suffix`.
pub fn ends_with(text: &str, suffix: &str) -> (yes: bool)
    ensures
        yes == has_suffix(text@, suffix@),
{
    let t = chars_of(text);
    let p = chars_of(suffix);
    if p.len() > t.len() {
        return false;
    }
    chars_start_with(&t, t.len() - p.len(), &p)
}

/// Whether two strings hold the same text.
pub fn same_text(a: &str, b: &str) -> (eq: bool)
    ensures
        eq == (a@ == b@),
{
    let x = chars_of(a);
    let y = chars_of(b);
    same_chars(&x, &y)
}

/// The first `n` entries of a list, each on a line of its own behind its
/// number, counted from one.
pub open spec fn numbered(entries: Seq<String>, n: int) -> Seq<char>
    decreases n,
{
    if n <= 0 {
        Seq::empty()
    } else {
        numbered(entries, n - 1) + "\n    "@ + decimal(n as nat) + ". "@ + entries[n - 1]@
    }
}

/// Writes a list of items, each on a line of its own behind its number.
pub fn print_list(list: &Vec<String>) -> (output: String)
    ensures
        output@ == numbered(list@, list@.len() as int),
{
    let mut out: Vec<char> = Vec::new();
    let mut i: usize = 0;
    while i < list.len()
        invariant
            i <= list.len(),
            out@ == numbered(list@, i as int),
        decreases list.len() - i,
    {
        let ghost before = out@;
        push_text(&mut out, "\n    ");
        push_decimal(&mut out, i as u64 + 1);
        push_text(&mut out, ". ");
        push_text(&mut out, list[i].as_str());
        proof {
            assert(out@ =~= numbered(list@, i as int + 1));
        }
        i += 1;
    }
    string_of(&out)
}

} // verus!
