//! Small verified text helpers: decimal rendering of integers, the
//! basename of a file path, and splitting text into lines.

use vstd::prelude::*;

verus! {

/// The character for one decimal digit.
pub open spec fn spec_digit_char(d: int) -> char {
    if d == 0 {
        '0'
    } else if d == 1 {
        '1'
    } else if d == 2 {
        '2'
    } else if d == 3 {
        '3'
    } else if d == 4 {
        '4'
    } else if d == 5 {
        '5'
    } else if d == 6 {
        '6'
    } else if d == 7 {
        '7'
    } else if d == 8 {
        '8'
    } else {
        '9'
    }
}

/// The usual decimal rendering of `n`, most significant digit first,
/// without leading zeros (except for `n == 0` itself).
pub open spec fn spec_decimal(n: nat) -> Seq<char>
    decreases n,
{
    if n < 10 {
        seq![spec_digit_char(n as int)]
    } else {
        spec_decimal(n / 10) + seq![spec_digit_char((n % 10) as int)]
    }
}

/// Holds when every character of `s` is a decimal digit.
pub open spec fn spec_all_digits(s: Seq<char>) -> bool {
    forall|i: int| 0 <= i < s.len() ==> '0' <= #[trigger] s[i] && s[i] <= '9'
}

/// A decimal rendering is never empty and consists of digits only.
pub proof fn lemma_decimal_digits(n: nat)
    ensures
        spec_decimal(n).len() >= 1,
        spec_all_digits(spec_decimal(n)),
    decreases n,
{
    if n >= 10 {
        lemma_decimal_digits(n / 10);
    }
}

pub(crate) fn digit_str(d: u8) -> (s: &'static str)
    requires
        d < 10,
    ensures
        s@ == seq![spec_digit_char(d as int)],
{
    proof {
        reveal_strlit("0");
        reveal_strlit("1");
        reveal_strlit("2");
        reveal_strlit("3");
        reveal_strlit("4");
        reveal_strlit("5");
        reveal_strlit("6");
        reveal_strlit("7");
        reveal_strlit("8");
        reveal_strlit("9");
    }
    let s = match d {
        0 => "0",
        1 => "1",
        2 => "2",
        3 => "3",
        4 => "4",
        5 => "5",
        6 => "6",
        7 => "7",
        8 => "8",
        _ => "9",
    };
    proof {
        assert(s@ =~= seq![spec_digit_char(d as int)]);
    }
    s
}

/// Renders `n` in decimal.
pub fn decimal_string(n: u64) -> (s: String)
    ensures
        s@ == spec_decimal(n as nat),
    decreases n,
{
    let d = (n % 10) as u8;
    let ds = digit_str(d);
    if n < 10 {
        String::from_str(ds)
    } else {
        let mut s = decimal_string(n / 10);
        s.append(ds);
        s
    }
}

/// The index of the last `/` in `p`, or `-1` if there is none.
pub open spec fn spec_last_slash(p: Seq<char>) -> int
    decreases p.len(),
{
    if p.len() == 0 {
        -1
    } else if p[p.len() - 1] == '/' {
        p.len() - 1
    } else {
        spec_last_slash(p.drop_last())
    }
}

/// A path without its trivial tail: trailing `/` separators and
/// trailing lone `.` segments name no file and are dropped, from the
/// end, until something else (or nothing) remains.
pub open spec fn spec_strip_trivial_tail(p: Seq<char>) -> Seq<char>
    decreases p.len(),
{
    if p.len() == 0 {
        p
    } else if p.last() == '/' {
        spec_strip_trivial_tail(p.drop_last())
    } else if p.last() == '.' && (p.len() == 1 || p[p.len() - 2] == '/') {
        spec_strip_trivial_tail(p.drop_last())
    } else {
        p
    }
}

/// The file name a path points at: trailing separators and lone `.`
/// segments are ignored, and the last remaining segment is the name.
/// When nothing remains, or that segment is `..`, the path carries no
/// file name and stands in for it unchanged.
pub open spec fn spec_basename(p: Seq<char>) -> Seq<char> {
    let q = spec_strip_trivial_tail(p);
    let j = spec_last_slash(q);
    let seg = if j < 0 {
        q
    } else {
        q.skip(j + 1)
    };
    if q.len() == 0 || seg == seq!['.', '.'] {
        p
    } else {
        seg
    }
}

/// Returns the name of the file that a path points at, or the path
/// itself when no file name can be extracted from it.
pub fn get_filename(path: &str) -> (name: String)
    ensures
        name@ == spec_basename(path@),
{
    let n = path.unicode_len();
    let mut m: usize = n;
    proof {
        assert(path@.take(n as int) =~= path@);
    }
    while m > 0
        invariant_except_break
            m <= n,
            n == path@.len(),
            spec_strip_trivial_tail(path@) == spec_strip_trivial_tail(path@.take(m as int)),
        ensures
            m <= n,
            n == path@.len(),
            spec_strip_trivial_tail(path@) == spec_strip_trivial_tail(path@.take(m as int)),
            spec_strip_trivial_tail(path@.take(m as int)) == path@.take(m as int),
        decreases m,
    {
        let c = path.get_char(m - 1);
        proof {
            assert(path@.take(m as int).last() == path@[m - 1]);
            assert(path@.take(m as int).drop_last() =~= path@.take(m - 1));
            if m >= 2 {
                assert(path@.take(m as int)[m - 2] == path@[m - 2]);
            }
        }
        let lone_dot = c == '.' && (m == 1 || path.get_char(m - 2) == '/');
        if c != '/' && !lone_dot {
            break ;
        }
        m -= 1;
    }
    let ghost q = path@.take(m as int);
    if m == 0 {
        proof {
            assert(q.len() == 0);
        }
        return String::from_str(path);
    }
    let mut last: usize = m;
    let mut k: usize = 0;
    while k < m
        invariant
            k <= m <= n,
            n == path@.len(),
            last == m ==> spec_last_slash(path@.take(k as int)) == -1,
            last != m ==> last < k && spec_last_slash(path@.take(k as int)) == last as int,
        decreases m - k,
    {
        let c = path.get_char(k);
        proof {
            assert(path@.take(k + 1).drop_last() =~= path@.take(k as int));
            assert(path@.take(k + 1)[k as int] == path@[k as int]);
        }
        if c == '/' {
            last = k;
        }
        k += 1;
    }
    let seg = if last == m {
        path.substring_char(0, m)
    } else {
        path.substring_char(last + 1, m)
    };
    proof {
        if last == m {
            assert(seg@ =~= q);
        } else {
            assert(seg@ =~= q.skip(last as int + 1));
        }
        reveal_strlit("..");
        assert("..".view() =~= seq!['.', '.']);
    }
    let seg_string = String::from_str(seg);
    let dotdot = String::from_str("..");
    if seg_string == dotdot {
        String::from_str(path)
    } else {
        seg_string
    }
}

/// The index of the first line break in `s`, or `s.len()` if there is
/// none.
pub open spec fn spec_line_break(s: Seq<char>) -> int
    decreases s.len(),
{
    if s.len() == 0 {
        0
    } else if s[0] == '\n' {
        0
    } else {
        1 + spec_line_break(s.drop_first())
    }
}

/// Where the first line break of `s` is known, `spec_line_break` returns it.
pub proof fn lemma_line_break_at(s: Seq<char>, j: int)
    requires
        0 <= j <= s.len(),
        forall|i: int| 0 <= i < j ==> s[i] != '\n',
        j < s.len() ==> s[j] == '\n',
    ensures
        spec_line_break(s) == j,
    decreases j,
{
    if j > 0 {
        lemma_line_break_at(s.drop_first(), j - 1);
    }
}

/// The lines of `s`: the segments between line breaks, with a final
/// segment only where text follows the last break. The empty text has
/// no lines.
pub open spec fn spec_split_lines(s: Seq<char>) -> Seq<Seq<char>>
    decreases s.len(),
{
    if s.len() == 0 {
        Seq::empty()
    } else {
        let b = spec_line_break(s);
        if 0 <= b && b < s.len() {
            seq![s.take(b)] + spec_split_lines(s.skip(b + 1))
        } else {
            seq![s]
        }
    }
}

/// Splits text into its lines: segments separated by `\n`, the final
/// segment kept only when it is not empty.
pub fn split_lines(text: &str) -> (lines: Vec<String>)
    ensures
        lines.deep_view() == spec_split_lines(text@),
{
    let n = text.unicode_len();
    let mut lines: Vec<String> = Vec::new();
    let mut st: usize = 0;
    let mut k: usize = 0;
    proof {
        assert(lines.deep_view() =~= Seq::<Seq<char>>::empty());
        assert(text@.skip(0) =~= text@);
        assert(lines.deep_view() + spec_split_lines(text@.skip(0)) =~= spec_split_lines(
            text@,
        ));
    }
    while k < n
        invariant
            st <= k <= n,
            n == text@.len(),
            forall|i: int| st <= i < k ==> text@[i] != '\n',
            spec_split_lines(text@) == lines.deep_view() + spec_split_lines(
                text@.skip(st as int),
            ),
        decreases n - k,
    {
        let c = text.get_char(k);
        if c == '\n' {
            let seg = text.substring_char(st, k);
            proof {
                let rest = text@.skip(st as int);
                assert forall|i: int| 0 <= i < k - st implies rest[i] != '\n' by {
                    assert(rest[i] == text@[i + st]);
                }
                assert(rest[k - st] == text@[k as int]);
                lemma_line_break_at(rest, k - st);
                assert(rest.take(k - st) =~= text@.subrange(st as int, k as int));
                assert(rest.skip(k - st + 1) =~= text@.skip(k + 1));
                assert(spec_split_lines(rest) == seq![seg@] + spec_split_lines(
                    text@.skip(k + 1),
                ));
            }
            let seg_string = String::from_str(seg);
            let ghost pre = lines.deep_view();
            lines.push(seg_string);
            proof {
                assert(lines.deep_view() =~= pre + seq![seg@]);
            }
            st = k + 1;
        }
        k += 1;
    }
    if st < n {
        let seg = text.substring_char(st, n);
        proof {
            let rest = text@.skip(st as int);
            assert forall|i: int| 0 <= i < n - st implies rest[i] != '\n' by {
                assert(rest[i] == text@[i + st]);
            }
            lemma_line_break_at(rest, n - st);
            assert(rest.take((n - st) as int) =~= rest);
            assert(spec_split_lines(rest) == seq![seg@]);
        }
        let seg_string = String::from_str(seg);
        let ghost pre = lines.deep_view();
        lines.push(seg_string);
        proof {
            assert(lines.deep_view() =~= pre + seq![seg@]);
        }
    }
    proof {
        if st >= n {
            assert(text@.skip(st as int) =~= Seq::<char>::empty());
        }
        assert(lines.deep_view() =~= spec_split_lines(text@));
    }
    lines
}

} // verus!
