//! Text as sequences of characters, and the character classes the config language uses.
use vstd::prelude::*;
use vstd::std_specs::iter::IteratorSpec;

verus! {

broadcast use vstd::string::group_string_axioms;

/// The characters of `s` in upper case, as Unicode maps them; a character may become
/// several.
pub uninterp spec fn unicode_uppercase(s: Seq<char>) -> Seq<char>;

/// `str::to_uppercase` of std, on the characters `s`: each character mapped to its upper
/// case by Unicode's tables. Nothing is claimed of its result but that it is that function
/// of `s`.
#[verifier::external_body]
pub fn to_uppercase(s: &[char]) -> (r: Vec<char>)
    ensures
        r@ == unicode_uppercase(s@),
{
    let text: String = s.iter().collect();
    text.to_uppercase().chars().collect()
}

/// The characters of `s` in lower case, as Unicode maps them; a character may become
/// several.
pub uninterp spec fn unicode_lowercase(s: Seq<char>) -> Seq<char>;

/// `str::to_lowercase` of std: each character of `s` mapped to its lower case by Unicode's
/// tables. Nothing is claimed of its result but that it is that function of `s`.
#[verifier::external_body]
pub fn to_lowercase(s: &str) -> (r: Vec<char>)
    ensures
        r@ == unicode_lowercase(s@),
{
    s.to_lowercase().chars().collect()
}

/// The characters of `s`.
pub fn str_chars(s: &str) -> (r: Vec<char>)
    ensures
        r@ == s@,
{
    let mut out: Vec<char> = Vec::new();
    let mut it = s.chars();
    loop
        invariant
            out@ + it.remaining() == s@,
            it.obeys_prophetic_iter_laws(),
            it.decrease() is Some,
        ensures
            out@ == s@,
        decreases it.decrease()->0,
    {
        match it.next() {
            Some(c) => {
                out.push(c);
            },
            None => {
                assert(out@ + it.remaining() =~= out@);
                break;
            },
        }
    }
    out
}

/// `c` in lower case, where it is an ASCII capital letter.
pub open spec fn spec_ascii_lower(c: char) -> char {
    if 'A' <= c <= 'Z' {
        ((c as u32) + 32) as char
    } else {
        c
    }
}

/// `c` in lower case, where it is an ASCII capital letter.
pub fn ascii_lower(c: char) -> (r: char)
    ensures
        r == spec_ascii_lower(c),
{
    if 'A' <= c && c <= 'Z' {
        ((c as u8) + 32) as char
    } else {
        c
    }
}

/// Whether the characters `s` spell the text `lit`.
pub fn eq_lit(s: &[char], lit: &str) -> (r: bool)
    ensures
        r == (s@ == lit@),
{
    let n = lit.unicode_len();
    if s.len() != n {
        return false;
    }
    let mut i: usize = 0;
    while i < n
        invariant
            n == lit@.len(),
            s@.len() == n,
            i <= n,
            forall|k: int| 0 <= k < i ==> s@[k] == lit@[k],
        decreases n - i,
    {
        if s[i] != lit.get_char(i) {
            return false;
        }
        i = i + 1;
    }
    assert(s@ =~= lit@);
    true
}

/// Whether the characters `a` and `b` are the same.
pub fn chars_eq(a: &[char], b: &[char]) -> (r: bool)
    ensures
        r == (a@ == b@),
{
    if a.len() != b.len() {
        return false;
    }
    let mut i: usize = 0;
    while i < a.len()
        invariant
            a@.len() == b@.len(),
            i <= a@.len(),
            forall|k: int| 0 <= k < i ==> a@[k] == b@[k],
        decreases a@.len() - i,
    {
        if a[i] != b[i] {
            return false;
        }
        i = i + 1;
    }
    assert(a@ =~= b@);
    true
}

/// The decimal digit character of `d`.
pub open spec fn digit_char(d: int) -> char {
    (d + '0' as int) as char
}

/// The decimal digits of `n`, most significant first.
pub open spec fn spec_decimal(n: nat) -> Seq<char>
    decreases n,
{
    if n < 10 {
        seq![digit_char(n as int)]
    } else {
        spec_decimal(n / 10).push(digit_char((n % 10) as int))
    }
}

/// The text of the decimal digit `d`.
pub fn digit_str(d: u32) -> (r: &'static str)
    requires
        d < 10,
    ensures
        r@ == seq![digit_char(d as int)],
{
    if d == 0 {
        proof {
            reveal_strlit("0");
        }
        "0"
    } else if d == 1 {
        proof {
            reveal_strlit("1");
        }
        "1"
    } else if d == 2 {
        proof {
            reveal_strlit("2");
        }
        "2"
    } else if d == 3 {
        proof {
            reveal_strlit("3");
        }
        "3"
    } else if d == 4 {
        proof {
            reveal_strlit("4");
        }
        "4"
    } else if d == 5 {
        proof {
            reveal_strlit("5");
        }
        "5"
    } else if d == 6 {
        proof {
            reveal_strlit("6");
        }
        "6"
    } else if d == 7 {
        proof {
            reveal_strlit("7");
        }
        "7"
    } else if d == 8 {
        proof {
            reveal_strlit("8");
        }
        "8"
    } else if d == 9 {
        proof {
            reveal_strlit("9");
        }
        "9"
    } else {
        proof {
            reveal_strlit("9");
        }
        "9"
    }
}

/// Appends the decimal digits of `n` to `s`.
pub fn push_decimal(s: &mut String, n: u32)
    ensures
        final(s)@ == old(s)@ + spec_decimal(n as nat),
    decreases n,
{
    if n >= 10 {
        push_decimal(s, n / 10);
    }
    s.append(digit_str(n % 10));
    proof {
        if n >= 10 {
            assert(old(s)@ + spec_decimal(n as nat) =~= old(s)@ + spec_decimal((n / 10) as nat) + seq![digit_char((n % 10) as int)]);
        } else {
            assert(spec_decimal(n as nat) == seq![digit_char((n % 10) as int)]);
        }
    }
}

/// The number of bytes `c` takes in UTF-8.
pub open spec fn spec_utf8_len(c: char) -> nat {
    if (c as u32) < 0x80 {
        1
    } else if (c as u32) < 0x800 {
        2
    } else if (c as u32) < 0x10000 {
        3
    } else {
        4
    }
}

/// The number of bytes `c` takes in UTF-8.
pub fn utf8_len(c: char) -> (r: usize)
    ensures
        r == spec_utf8_len(c),
        1 <= r <= 4,
{
    let v = c as u32;
    if v < 0x80 {
        1
    } else if v < 0x800 {
        2
    } else if v < 0x10000 {
        3
    } else {
        4
    }
}

/// The UTF-8 byte offset of each character of `s`, and of its end.
pub open spec fn spec_byte_offset(s: Seq<char>, i: int) -> int
    decreases i,
{
    if i <= 0 || s.len() == 0 {
        0
    } else if i > s.len() {
        spec_byte_offset(s, s.len() as int)
    } else {
        spec_byte_offset(s, i - 1) + spec_utf8_len(s[i - 1])
    }
}

/// The UTF-8 byte offsets of the characters of `s`, then of its end; an offset too big for
/// the machine stays at the largest number.
pub fn byte_offsets(s: &[char]) -> (r: Vec<usize>)
    ensures
        r@.len() == s@.len() + 1,
        forall|i: int| 0 <= i <= s@.len() && spec_byte_offset(s@, i) <= usize::MAX ==> r@[i]
            == spec_byte_offset(s@, i),
{
    let mut out: Vec<usize> = Vec::new();
    out.push(0);
    let mut off: usize = 0;
    let mut i: usize = 0;
    while i < s.len()
        invariant
            i <= s@.len(),
            out@.len() == i + 1,
            off == out@[i as int],
            forall|k: int| 0 <= k <= i && spec_byte_offset(s@, k) <= usize::MAX ==> out@[k]
                == spec_byte_offset(s@, k),
            forall|k: int| 0 <= k <= i ==> out@[k] <= spec_byte_offset(s@, k),
            forall|k: int| 0 <= k <= i && out@[k] < usize::MAX ==> out@[k] == spec_byte_offset(s@, k),
        decreases s@.len() - i,
    {
        let n = utf8_len(s[i]);
        off = if off <= usize::MAX - n {
            off + n
        } else {
            usize::MAX
        };
        out.push(off);
        i = i + 1;
    }
    out
}

} // verus!
