//! Character-level helpers: decimal numbers, path components, infix search, and the
//! bracketed `[current/total]` progress marker that the build tool prints.
use vstd::prelude::*;
use vstd::string::*;

verus! {

/// The character sequences of a sequence of strings.
pub open spec fn views(v: Seq<String>) -> Seq<Seq<char>> {
    v.map_values(|s: String| s@)
}

pub open spec fn is_digit(c: char) -> bool {
    '0' <= c && c <= '9'
}

pub open spec fn digit_value(c: char) -> int {
    c as int - '0' as int
}

/// The number written by a run of decimal digits, most significant first.
pub open spec fn digits_value(s: Seq<char>) -> int
    decreases s.len(),
{
    if s.len() == 0 {
        0
    } else {
        digits_value(s.drop_last()) * 10 + digit_value(s.last())
    }
}

/// Where the run of decimal digits that starts at `start` ends.
pub open spec fn digit_run_end(s: Seq<char>, start: int) -> int
    decreases s.len() - start,
{
    if 0 <= start < s.len() && is_digit(s[start]) {
        digit_run_end(s, start + 1)
    } else {
        start
    }
}

/// What a build-output line says of the build's progress: `(current, total)` when the
/// line opens with `[`, digits, `/`, digits, `]`, and both numbers fit in 64 bits.
pub open spec fn progress_of(s: Seq<char>) -> Option<(u64, u64)> {
    let slash = digit_run_end(s, 1);
    let close = digit_run_end(s, slash + 1);
    let current = digits_value(s.subrange(1, slash));
    let total = digits_value(s.subrange(slash + 1, close));
    if s.len() > 0 && s[0] == '[' && slash > 1 && slash < s.len() && s[slash] == '/' && close
        > slash + 1 && close < s.len() && s[close] == ']' && current <= u64::MAX && total
        <= u64::MAX {
        Some((current as u64, total as u64))
    } else {
        None
    }
}

pub open spec fn digit_char(d: int) -> char {
    if d == 0 {
        '0'
    } else if d == 1 {
        '1'
    } else if d == 2 {
        '2'
    } else if d == 3 {
        '3'
    } else if d == 4 {
        '4'
    } else if d == 5 {
        '5'
    } else if d == 6 {
        '6'
    } else if d == 7 {
        '7'
    } else if d == 8 {
        '8'
    } else {
        '9'
    }
}

/// The decimal writing of `n`, without leading zeros.
pub open spec fn decimal(n: nat) -> Seq<char>
    decreases n,
{
    if n < 10 {
        seq![digit_char(n as int)]
    } else {
        decimal(n / 10) + seq![digit_char((n % 10) as int)]
    }
}

/// `base` extended by one path component, with `/` as separator; a component that
/// starts with `/` replaces the whole path.
pub open spec fn path_join(base: Seq<char>, part: Seq<char>) -> Seq<char> {
    if part.len() > 0 && part[0] == '/' {
        part
    } else if base.len() == 0 || base.last() == '/' {
        base + part
    } else {
        base + seq!['/'] + part
    }
}

/// `pattern` occurs in `s` as a run of consecutive characters.
pub open spec fn has_infix(s: Seq<char>, pattern: Seq<char>) -> bool {
    exists|i: int|
        0 <= i && i + pattern.len() <= s.len() && #[trigger] s.subrange(i, i + pattern.len())
            == pattern
}

fn digit_str(d: u64) -> (r: &'static str)
    requires
        d < 10,
    ensures
        r@ == seq![digit_char(d as int)],
{
    proof {
        reveal_strlit("0");
        reveal_strlit("1");
        reveal_strlit("2");
        reveal_strlit("3");
        reveal_strlit("4");
        reveal_strlit("5");
        reveal_strlit("6");
        reveal_strlit("7");
        reveal_strlit("8");
        reveal_strlit("9");
    }
    if d == 0 {
        "0"
    } else if d == 1 {
        "1"
    } else if d == 2 {
        "2"
    } else if d == 3 {
        "3"
    } else if d == 4 {
        "4"
    } else if d == 5 {
        "5"
    } else if d == 6 {
        "6"
    } else if d == 7 {
        "7"
    } else if d == 8 {
        "8"
    } else {
        "9"
    }
}

/// Writes `n` in decimal.
pub fn to_decimal(n: u64) -> (r: String)
    ensures
        r@ == decimal(n as nat),
    decreases n,
{
    if n < 10 {
        String::from_str(digit_str(n))
    } else {
        let mut s = to_decimal(n / 10);
        s.append(digit_str(n % 10));
        s
    }
}

/// Concatenates two strings.
pub fn concatenate(a: &str, b: &str) -> (r: String)
    ensures
        r@ == a@ + b@,
{
    let mut s = String::from_str(a);
    s.append(b);
    s
}

/// Extends a path by one component.
pub fn join_path(base: &str, part: &str) -> (r: String)
    ensures
        r@ == path_join(base@, part@),
{
    let n = base.unicode_len();
    if part.unicode_len() > 0 && part.get_char(0) == '/' {
        String::from_str(part)
    } else if n == 0 || base.get_char(n - 1) == '/' {
        concatenate(base, part)
    } else {
        let mut s = String::from_str(base);
        s.append("/");
        s.append(part);
        proof {
            reveal_strlit("/");
        }
        s
    }
}

/// Tells whether `pattern` occurs in `s`.
pub fn contains_infix(s: &str, pattern: &str) -> (r: bool)
    ensures
        r == has_infix(s@, pattern@),
{
    let n = s.unicode_len();
    let m = pattern.unicode_len();
    if m > n {
        proof {
            assert forall|i: int|
                0 <= i && i + pattern@.len() <= s@.len() implies #[trigger] s@.subrange(
                i,
                i + pattern@.len(),
            ) != pattern@ by {}
        }
        return false;
    }
    let mut i: usize = 0;
    while i <= n - m
        invariant
            n == s@.len(),
            m == pattern@.len(),
            m <= n,
            i <= n - m + 1,
            forall|k: int| 0 <= k < i ==> #[trigger] s@.subrange(k, k + m) != pattern@,
        decreases n - m + 1 - i,
    {
        let mut j: usize = 0;
        let mut same = true;
        while j < m
            invariant
                n == s@.len(),
                m == pattern@.len(),
                i + m <= n,
                j <= m,
                same == (forall|k: int| 0 <= k < j ==> s@[i + k] == pattern@[k]),
            decreases m - j,
        {
            if s.get_char(i + j) != pattern.get_char(j) {
                same = false;
            }
            j = j + 1;
        }
        if same {
            assert(s@.subrange(i as int, i + m) =~= pattern@);
            return true;
        }
        assert(s@.subrange(i as int, i + m) != pattern@) by {
            let k = choose|k: int| 0 <= k < m && s@[i + k] != pattern@[k];
            assert(s@.subrange(i as int, i + m)[k] == s@[i + k]);
        }
        i = i + 1;
    }
    false
}

proof fn lemma_digits_value_nonneg(s: Seq<char>)
    requires
        forall|k: int| 0 <= k < s.len() ==> is_digit(#[trigger] s[k]),
    ensures
        digits_value(s) >= 0,
    decreases s.len(),
{
    if s.len() > 0 {
        lemma_digits_value_nonneg(s.drop_last());
    }
}

/// Reads the run of digits of `line` (of `n` characters) that starts at `start`: its end,
/// and its value when that fits in 64 bits.
fn read_number(line: &str, n: usize, start: usize) -> (r: (usize, Option<u64>))
    requires
        n == line@.len(),
        start <= n,
    ensures
        r.0 == digit_run_end(line@, start as int),
        start <= r.0 <= n,
        r.1 == (if digits_value(line@.subrange(start as int, r.0 as int)) <= u64::MAX {
            Some(digits_value(line@.subrange(start as int, r.0 as int)) as u64)
        } else {
            None::<u64>
        }),
{
    let ghost s = line@;
    let mut i = start;
    let mut acc: u64 = 0;
    let mut overflow = false;
    while i < n && is_ascii_digit(line.get_char(i))
        invariant
            n == s.len(),
            s == line@,
            start <= i <= n,
            digit_run_end(s, start as int) == digit_run_end(s, i as int),
            forall|k: int| start <= k < i ==> is_digit(#[trigger] s[k]),
            !overflow ==> acc == digits_value(s.subrange(start as int, i as int)),
            overflow ==> digits_value(s.subrange(start as int, i as int)) > u64::MAX,
        decreases n - i,
    {
        let c = line.get_char(i);
        let d = (c as u32 - '0' as u32) as u64;
        let ghost before = s.subrange(start as int, i as int);
        let ghost after = s.subrange(start as int, i + 1);
        assert(after.drop_last() =~= before);
        assert(digits_value(after) == digits_value(before) * 10 + d);
        proof {
            assert forall|k: int| 0 <= k < before.len() implies is_digit(#[trigger] before[k]) by {
                assert(before[k] == s[start + k]);
            }
            lemma_digits_value_nonneg(before);
        }
        if !overflow {
            match acc.checked_mul(10) {
                Some(m) => match m.checked_add(d) {
                    Some(v) => {
                        acc = v;
                    },
                    None => {
                        overflow = true;
                    },
                },
                None => {
                    overflow = true;
                },
            }
        }
        i = i + 1;
    }
    let r = if overflow {
        None
    } else {
        Some(acc)
    };
    (i, r)
}

fn is_ascii_digit(c: char) -> (r: bool)
    ensures
        r == is_digit(c),
{
    '0' <= c && c <= '9'
}

/// Reads the progress marker that opens a line of build output, `[current/total]`, as
/// `(current, total)`; `None` for any other line.
pub fn parse_progress(line: &str) -> (r: Option<(u64, u64)>)
    ensures
        r == progress_of(line@),
{
    let n = line.unicode_len();
    if n == 0 || line.get_char(0) != '[' {
        return None;
    }
    let (slash, current) = read_number(line, n, 1);
    if slash <= 1 || slash >= n || line.get_char(slash) != '/' {
        return None;
    }
    let (close, total) = read_number(line, n, slash + 1);
    if close <= slash + 1 || close >= n || line.get_char(close) != ']' {
        return None;
    }
    match (current, total) {
        (Some(c), Some(t)) => Some((c, t)),
        _ => None,
    }
}

} // verus!
