//! Errors of the config compiler, with the part of the source they point at.
use vstd::prelude::*;
use core::ops::Range;
use crate::config::globals::pow10;
use crate::config::text::{byte_offsets, digit_char, push_decimal, spec_byte_offset, spec_decimal, str_chars};

verus! {

broadcast use vstd::string::group_string_axioms;

/// A config error: its message and, where it has one, the range of the source it is about,
/// counted in bytes once `compile` returns it (the parser counts characters).
#[derive(Debug)]
pub struct ConfigError {
    pub message: String,
    pub span: Option<Range<usize>>,
}

impl ConfigError {
    pub fn new(message: String, span: Range<usize>) -> (r: Self)
        ensures
            r.message@ == message@,
            r.span == Some(span),
    {
        ConfigError { message, span: Some(span) }
    }

    /// An error with no place in the source.
    pub fn from_message(message: &str) -> (r: Self)
        ensures
            r.message@ == message@,
            r.span is None,
    {
        ConfigError { message: String::from_str(message), span: None }
    }
}

/// The line, column and line range of the byte offset `start`, read from character `k` of
/// `s` on: lines count from 1 and columns from 0; the range runs from the newline before
/// the line (or 0) to the newline after it (or `total`).
pub open spec fn line_col_from(
    s: Seq<char>,
    k: int,
    start: int,
    line: int,
    col: int,
    sol: int,
    total: int,
) -> (int, int, (int, int))
    decreases s.len() - k,
{
    if k >= s.len() || k < 0 {
        (line, col, (sol, total))
    } else {
        let i = spec_byte_offset(s, k);
        if s[k] == '\n' {
            if i <= start {
                line_col_from(s, k + 1, start, line + 1, 0, i, total)
            } else {
                (line, col, (sol, i))
            }
        } else if i <= start {
            line_col_from(s, k + 1, start, line, col + 1, sol, total)
        } else {
            line_col_from(s, k + 1, start, line, col, sol, total)
        }
    }
}

/// The line and column an error with the span `span` is reported at in the source `s`: those
/// of the start of the span, and 0 and 0 without a span.
pub open spec fn error_line_col(span: Option<Range<usize>>, s: Seq<char>) -> (int, int) {
    match span {
        Some(b) => {
            let e = line_col_from(s, 0, b.start as int, 1, 0, 0, spec_byte_offset(s, s.len() as int));
            (e.0, e.1)
        },
        None => (0, 0),
    }
}

/// The first line of the long form of an error with `message` at `line`, `column` of the
/// file `file`, and the start of the next.
pub open spec fn error_header(message: Seq<char>, file: Seq<char>, line: int, column: int) -> Seq<char> {
    "error: "@ + message + " \n   --> "@ + file + ":"@ + spec_decimal(line as nat) + ":"@ + spec_decimal(
        column as nat,
    ) + "\n"@
}

/// The byte range of the source line an error with the span `span` is reported on in `s`.
pub open spec fn error_slice(span: Option<Range<usize>>, s: Seq<char>) -> (int, int) {
    match span {
        Some(b) => line_col_from(s, 0, b.start as int, 1, 0, 0, spec_byte_offset(s, s.len() as int)).2,
        None => (0, 0),
    }
}

/// The first character of `s` from `i` on that starts at byte `x` or later, or the end.
pub open spec fn first_at_byte(s: Seq<char>, i: int, x: int) -> int
    decreases s.len() - i,
{
    if i >= s.len() || spec_byte_offset(s, i) >= x {
        i
    } else {
        first_at_byte(s, i + 1, x)
    }
}

/// The first newline of `s` from `i` on before `b`, or `b`.
pub open spec fn line_end(s: Seq<char>, i: int, b: int) -> int
    decreases b - i,
{
    if i >= b || s[i] == '\n' {
        i
    } else {
        line_end(s, i + 1, b)
    }
}

/// The line number after `n`, staying at the top of the range.
pub open spec fn next_line_number(n: int) -> int {
    if n < usize::MAX {
        n + 1
    } else {
        n
    }
}

/// The lines of `s` after the newline at `k` and before `b`, each as a space, its number
/// right-aligned to `width` digits, a bar and the line, the first numbered `number`.
pub open spec fn numbered_lines(s: Seq<char>, k: int, b: int, number: int, width: int) -> Seq<char>
    decreases b - k,
{
    if k >= b {
        Seq::empty()
    } else {
        let e = line_end(s, k + 1, b);
        let digits = spec_decimal(number as nat).len() as int;
        if e <= k || e > b {
            Seq::empty()
        } else {
            " "@ + Seq::new(if width > digits { (width - digits) as nat } else { 0 }, |j: int| ' ') + spec_decimal(
                number as nat,
            ) + " | "@ + s.subrange(k + 1, e) + "\n"@ + numbered_lines(s, e, b, next_line_number(number), width)
        }
    }
}

/// `line_end` lies between its start and `b`.
proof fn lemma_line_end(s: Seq<char>, i: int, b: int)
    requires
        i <= b,
    ensures
        i <= line_end(s, i, b) <= b,
    decreases b - i,
{
    if i < b && s[i] != '\n' {
        lemma_line_end(s, i + 1, b);
    }
}

/// The character range of the byte range `b` of `s`, read from character `k` on, the
/// range starting at `st` once found.
pub open spec fn char_span_from(s: Seq<char>, k: int, b: (int, int), st: Option<int>) -> (int, int)
    decreases s.len() - k,
{
    if k >= s.len() || k < 0 {
        (
            match st {
                Some(x) => x,
                None => usize::MAX as int,
            },
            spec_byte_offset(s, s.len() as int) - 1,
        )
    } else {
        let j = spec_byte_offset(s, k);
        if j >= b.0 {
            let st2 = match st {
                Some(x) => x,
                None => k,
            };
            if j >= b.1 {
                (st2, k)
            } else {
                char_span_from(s, k + 1, b, Some(st2))
            }
        } else {
            char_span_from(s, k + 1, b, st)
        }
    }
}

/// Byte offsets grow with the character offset.
pub proof fn lemma_byte_offset_mono(s: Seq<char>, i: int, j: int)
    requires
        0 <= i <= j <= s.len(),
    ensures
        spec_byte_offset(s, i) + (j - i) <= spec_byte_offset(s, j),
    decreases j - i,
{
    if i < j {
        lemma_byte_offset_mono(s, i, j - 1);
    }
}

impl ConfigError {
    /// The span as a range of characters of `source`, the span being a range of its bytes.
    pub fn char_span(&self, source: &str) -> (r: Option<Range<usize>>)
        ensures
            self.span is None ==> r is None,
            self.span matches Some(b) ==> (spec_byte_offset(source@, source@.len() as int)
                < usize::MAX ==> (r matches Some(c) && ({
                let e = char_span_from(source@, 0, (b.start as int, b.end as int), None);
                &&& c.start == e.0
                &&& (e.1 >= 0 ==> c.end == e.1)
            }))),
    {
        let (bs, be) = match &self.span {
            Some(b) => (b.start, b.end),
            None => {
                return None;
            },
        };
        let chars = str_chars(source);
        let offs = byte_offsets(chars.as_slice());
        let n = chars.len();
        let mut st: Option<usize> = None;
        let mut k: usize = 0;
        proof {
            assert forall|i: int| 0 <= i <= n implies spec_byte_offset(source@, i) <= spec_byte_offset(source@, n as int) by {
                lemma_byte_offset_mono(source@, i, n as int);
            }
        }
        while k < n
            invariant
                self.span matches Some(b) && b.start == bs && b.end == be,
                k <= n,
                n == source@.len(),
                chars@ == source@,
                offs@.len() == n + 1,
                forall|i: int| 0 <= i <= n && spec_byte_offset(source@, i) <= usize::MAX ==> offs@[i]
                    == spec_byte_offset(source@, i),
                spec_byte_offset(source@, n as int) < usize::MAX ==> char_span_from(source@, 0, (bs as int, be as int), None)
                    == char_span_from(
                    source@,
                    k as int,
                    (bs as int, be as int),
                    match st {
                        Some(x) => Some(x as int),
                        None => None,
                    },
                ),
                spec_byte_offset(source@, n as int) < usize::MAX ==> forall|i: int| 0 <= i <= n ==> spec_byte_offset(source@, i) <= spec_byte_offset(source@, n as int),
            decreases n - k,
        {
            let j = offs[k];
            if j >= bs {
                let s2 = match st {
                    Some(x) => x,
                    None => k,
                };
                if j >= be {
                    return Some(Range { start: s2, end: k });
                }
                st = Some(s2);
            }
            k = k + 1;
        }
        let total = offs[n];
        Some(Range {
            start: match st {
                Some(x) => x,
                None => usize::MAX,
            },
            end: if total > 0 {
                total - 1
            } else {
                0
            },
        })
    }

    /// The line and column of the start of the span in `source`, and the byte range of its
    /// line; all zero without a span.
    pub fn line_col_slice(&self, source: &str) -> (r: (usize, usize, (usize, usize)))
        ensures
            self.span is None ==> r == (0usize, 0usize, (0usize, 0usize)),
            self.span matches Some(b) ==> (spec_byte_offset(source@, source@.len() as int) < usize::MAX
                ==> ({
                let e = line_col_from(source@, 0, b.start as int, 1, 0, 0, spec_byte_offset(source@, source@.len() as int));
                &&& r.0 == e.0
                &&& r.1 == e.1
                &&& r.2.0 == e.2.0
                &&& r.2.1 == e.2.1
            })),
    {
        let start = match &self.span {
            Some(b) => b.start,
            None => {
                return (0, 0, (0, 0));
            },
        };
        let chars = str_chars(source);
        let offs = byte_offsets(chars.as_slice());
        let n = chars.len();
        let total = offs[n];
        let mut line: usize = 1;
        let mut col: usize = 0;
        let mut sol: usize = 0;
        let mut k: usize = 0;
        proof {
            lemma_byte_offset_mono(source@, 0, n as int);
            assert forall|i: int| 0 <= i <= n implies spec_byte_offset(source@, i) <= spec_byte_offset(source@, n as int) by {
                lemma_byte_offset_mono(source@, i, n as int);
            }
        }
        while k < n
            invariant
                self.span matches Some(b) && b.start == start,
                k <= n,
                n == source@.len(),
                chars@ == source@,
                offs@.len() == n + 1,
                total == offs@[n as int],
                line <= k + 1,
                line <= usize::MAX,
                col <= k,
                forall|i: int| 0 <= i <= n && spec_byte_offset(source@, i) <= usize::MAX ==> offs@[i]
                    == spec_byte_offset(source@, i),
                spec_byte_offset(source@, n as int) < usize::MAX ==> forall|i: int| 0 <= i <= n ==> spec_byte_offset(source@, i) <= spec_byte_offset(source@, n as int),
                n <= spec_byte_offset(source@, n as int),
                spec_byte_offset(source@, n as int) < usize::MAX ==> line_col_from(
                    source@,
                    0,
                    start as int,
                    1,
                    0,
                    0,
                    spec_byte_offset(source@, n as int),
                ) == line_col_from(
                    source@,
                    k as int,
                    start as int,
                    line as int,
                    col as int,
                    sol as int,
                    spec_byte_offset(source@, n as int),
                ),
            decreases n - k,
        {
            let i = offs[k];
            if chars[k] == '\n' {
                if i <= start {
                    line = if line < usize::MAX {
                        line + 1
                    } else {
                        line
                    };
                    col = 0;
                    sol = i;
                } else {
                    return (line, col, (sol, i));
                }
            } else if i <= start {
                col = col + 1;
            }
            k = k + 1;
        }
        (line, col, (sol, total))
    }
}

/// A number below `10` to the `k` has at most `k` decimal digits.
proof fn lemma_decimal_len(n: nat, k: nat)
    requires
        n < pow10(k),
        k >= 1,
    ensures
        spec_decimal(n).len() <= k,
        n >= 10 ==> spec_decimal(n).len() == spec_decimal(n / 10).len() + 1,
        spec_decimal(n).len() >= 1,
    decreases k,
{
    if n >= 10 {
        assert(k >= 2) by {
            if k == 1 {
                assert(pow10(1) == 10 * pow10(0));
            }
        }
        assert(pow10(k) == 10 * pow10((k - 1) as nat));
        assert(n / 10 < pow10((k - 1) as nat)) by (nonlinear_arith)
            requires
                n < 10 * pow10((k - 1) as nat),
        ;
        lemma_decimal_len(n / 10, (k - 1) as nat);
    }
}

/// The number of decimal digits of `n`.
fn decimal_width(n: usize) -> (r: usize)
    ensures
        r >= 1,
        r == spec_decimal(n as nat).len(),
{
    let mut w: usize = 1;
    let mut v = n;
    proof {
        assert(pow10(20) == 100000000000000000000nat) by {
            reveal_with_fuel(pow10, 21);
        }
        lemma_decimal_len(n as nat, 20);
    }
    while v >= 10
        invariant
            w >= 1,
            w <= 20,
            v <= n,
            n < pow10(20),
            spec_decimal(n as nat).len() <= 20,
            w - 1 + spec_decimal(v as nat).len() == spec_decimal(n as nat).len(),
        decreases v,
    {
        proof {
            lemma_decimal_len(v as nat, 20);
            lemma_decimal_len((v / 10) as nat, 20);
        }
        v = v / 10;
        if w < 20 {
            w = w + 1;
        }
    }
    w
}

impl ConfigError {
    /// The error for a reader: its message, the file, line and column where it is, and the
    /// lines of the source from there.
    #[verifier::rlimit(80)]
    #[verifier::spinoff_prover]
    pub fn long_format(&self, source_file: &str, source: &str) -> (r: String)
        ensures
            r@.subrange(0, 7 + self.message@.len() as int) == "error: "@ + self.message@,
            self.span is None || spec_byte_offset(source@, source@.len() as int) < usize::MAX ==> ({
                let lc = error_line_col(self.span, source@);
                let h = error_header(self.message@, source_file@, lc.0, lc.1);
                r@.len() >= h.len() && r@.subrange(0, h.len() as int) == h
            }),
            self.span is None || spec_byte_offset(source@, source@.len() as int) < usize::MAX ==> ({
                let lc = error_line_col(self.span, source@);
                let sl = error_slice(self.span, source@);
                let a = first_at_byte(source@, 0, sl.0);
                let b = first_at_byte(source@, a, sl.1);
                let width = spec_decimal(
                    (if lc.0 <= usize::MAX - 10 {
                        lc.0 + 10
                    } else {
                        usize::MAX as int
                    }) as nat,
                ).len() as int;
                r@ == error_header(self.message@, source_file@, lc.0, lc.1) + numbered_lines(
                    source@,
                    line_end(source@, a, b),
                    b,
                    lc.0,
                    width,
                )
            }),
    {
        let (line, col, slice) = self.line_col_slice(source);
        let width = decimal_width(if line <= usize::MAX - 10 {
            line + 10
        } else {
            usize::MAX
        });
        let mut out = String::new();
        out.append(" \n   --> ");
        out.append(source_file);
        out.append(":");
        push_decimal_usize(&mut out, line);
        out.append(":");
        push_decimal_usize(&mut out, col);
        out.append("\n");
        let ghost head = out@;
        proof {
            reveal_strlit(" \n   --> ");
            reveal_strlit(":");
            reveal_strlit("\n");
            reveal_strlit(" ");
            reveal_strlit(" | ");
        }
        let chars = str_chars(source);
        let offs = byte_offsets(chars.as_slice());
        let n = chars.len();
        let ghost src = source@;
        let ghost bound = spec_byte_offset(src, src.len() as int) < usize::MAX;
        proof {
            if bound {
                assert forall|i: int| 0 <= i <= n implies spec_byte_offset(src, i) <= usize::MAX by {
                    lemma_byte_offset_mono(src, i, n as int);
                }
            }
            assert(spec_byte_offset(src, 0) == 0);
        }
        let mut a: usize = 0;
        while a < n && offs[a] < slice.0
            invariant
                a <= n,
                n == chars@.len(),
                chars@ == src,
                offs@.len() == n + 1,
                forall|i: int| 0 <= i <= n && spec_byte_offset(src, i) <= usize::MAX ==> offs@[i]
                    == spec_byte_offset(src, i),
                bound ==> forall|i: int| 0 <= i <= n ==> spec_byte_offset(src, i) <= usize::MAX,
                bound ==> first_at_byte(src, 0, slice.0 as int) == first_at_byte(src, a as int, slice.0 as int),
                self.span is None ==> slice.0 == 0 && slice.1 == 0 && a == 0,
                offs@[0] == 0,
            decreases n - a,
        {
            a = a + 1;
        }
        let mut b: usize = a;
        while b < n && offs[b] < slice.1
            invariant
                a <= b <= n,
                n == chars@.len(),
                chars@ == src,
                offs@.len() == n + 1,
                forall|i: int| 0 <= i <= n && spec_byte_offset(src, i) <= usize::MAX ==> offs@[i]
                    == spec_byte_offset(src, i),
                bound ==> forall|i: int| 0 <= i <= n ==> spec_byte_offset(src, i) <= usize::MAX,
                bound ==> first_at_byte(src, a as int, slice.1 as int) == first_at_byte(src, b as int, slice.1 as int),
                self.span is None ==> slice.0 == 0 && slice.1 == 0 && a == 0 && b == 0,
                offs@[0] == 0,
            decreases n - b,
        {
            b = b + 1;
        }
        let mut k = a;
        while k < b && chars[k] != '\n'
            invariant
                a <= k <= b <= n,
                n == chars@.len(),
                chars@ == src,
                line_end(src, a as int, b as int) == line_end(src, k as int, b as int),
            decreases b - k,
        {
            k = k + 1;
        }
        let ghost k0 = k;
        let ghost w = width as int;
        let mut number = line;
        while k < b
            invariant
                a <= k <= b <= n,
                n == chars@.len(),
                chars@ == source@,
                src == source@,
                out@.len() >= head.len(),
                out@.subrange(0, head.len() as int) == head,
                w == width,
                out@ + numbered_lines(src, k as int, b as int, number as int, w) == head + numbered_lines(
                    src,
                    k0 as int,
                    b as int,
                    line as int,
                    w,
                ),
            decreases b - k,
        {
            let start = k + 1;
            let mut e = start;
            while e < b && chars[e] != '\n'
                invariant
                    start <= e <= b <= n,
                    n == chars@.len(),
                    chars@ == src,
                    line_end(src, start as int, b as int) == line_end(src, e as int, b as int),
                decreases b - e,
            {
                e = e + 1;
            }
            let ghost before = out@;
            out.append(" ");
            assert(out@ =~= before + " "@ + Seq::new(0, |j: int| ' '));
            let digits = decimal_width(number);
            let mut pad = digits;
            while pad < width
                invariant
                    out@.len() >= head.len(),
                    out@.subrange(0, head.len() as int) == head,
                    digits <= pad,
                    pad <= width || pad == digits,
                    out@ == before + " "@ + Seq::new((pad - digits) as nat, |j: int| ' '),
                decreases width - pad,
            {
                let ghost prev = out@;
                out.append(" ");
                proof {
                    reveal_strlit(" ");
                }
                assert(" "@ =~= seq![' ']);
                pad = pad + 1;
                assert(out@ =~= prev + seq![' ']);
                assert(out@ =~= before + " "@ + Seq::new((pad - digits) as nat, |j: int| ' '));
                assert(out@.subrange(0, head.len() as int) =~= head) by {
                    assert(prev.subrange(0, head.len() as int) =~= head);
                }
            }
            push_decimal_usize(&mut out, number);
            out.append(" | ");
            out.append(source.substring_char(start, e));
            out.append("\n");
            proof {
                let dg = spec_decimal(number as nat).len() as int;
                assert(dg == digits);
                let sp = Seq::new(if w > dg { (w - dg) as nat } else { 0 }, |j: int| ' ');
                assert(Seq::new((pad - digits) as nat, |j: int| ' ') =~= sp);
                let chunk = " "@ + sp + spec_decimal(number as nat) + " | "@ + src.subrange(start as int, e as int) + "\n"@;
                assert(out@ =~= before + chunk);
                assert(e > k);
                assert(numbered_lines(src, k as int, b as int, number as int, w) == chunk + numbered_lines(
                    src,
                    e as int,
                    b as int,
                    next_line_number(number as int),
                    w,
                ));
                assert(out@.subrange(0, head.len() as int) =~= head);
            }
            number = if number < usize::MAX {
                number + 1
            } else {
                number
            };
            k = e;
        }
        let mut r = String::from_str("error: ");
        r.append(self.message.as_str());
        let ghost first = r@;
        proof {
            reveal_strlit("error: ");
        }
        assert(first =~= "error: "@ + self.message@);
        r.append(out.as_str());
        assert(r@.subrange(0, first.len() as int) =~= first);
        proof {
            if self.span is None || spec_byte_offset(source@, source@.len() as int) < usize::MAX {
                let lc = error_line_col(self.span, source@);
                assert(line == lc.0 && col == lc.1);
                let sl = error_slice(self.span, source@);
                assert(slice.0 == sl.0 && slice.1 == sl.1);
                let h = error_header(self.message@, source_file@, lc.0, lc.1);
                assert(h =~= first + head);
                assert(r@.subrange(0, h.len() as int) =~= h);
                assert(out@ == head + numbered_lines(src, k0 as int, b as int, line as int, w));
                assert(r@ =~= h + numbered_lines(src, k0 as int, b as int, line as int, w));
            }
        }
        r
    }
}

/// Appends the decimal digits of `n` to `s`.
fn push_decimal_usize(s: &mut String, n: usize)
    ensures
        final(s)@ == old(s)@ + spec_decimal(n as nat),
        final(s)@.len() >= old(s)@.len(),
        final(s)@.subrange(0, old(s)@.len() as int) == old(s)@,
    decreases n,
{
    if n >= 10 {
        push_decimal_usize(s, n / 10);
    }
    s.append(crate::config::text::digit_str((n % 10) as u32));
    proof {
        if n >= 10 {
            assert(old(s)@ + spec_decimal(n as nat) =~= old(s)@ + spec_decimal((n / 10) as nat) + seq![digit_char((n % 10) as int)]);
        } else {
            assert(spec_decimal(n as nat) == seq![digit_char((n % 10) as int)]);
        }
        assert(final(s)@.subrange(0, old(s)@.len() as int) =~= old(s)@);
    }
}

} // verus!
