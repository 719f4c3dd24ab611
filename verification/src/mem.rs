//! The memory probe: turning the text of a `/proc/<pid>/status` file into
//! the child's peak resident memory in kilobytes, with the sentinel values
//! the supervisor expects, and the pid heuristic for sandboxed children.
use vstd::prelude::*;
use vstd::string::*;

verus! {

/// The whitespace that separates fields in a `/proc` status line.
pub open spec fn is_ws(c: char) -> bool {
    c == ' ' || c == '\t'
}

/// The first position at or after `i` that holds whitespace (or the end).
pub open spec fn end_nonws(s: Seq<char>, i: int) -> int
    decreases s.len() - i,
{
    if i < 0 || i >= s.len() {
        s.len() as int
    } else if is_ws(s[i]) {
        i
    } else {
        end_nonws(s, i + 1)
    }
}

/// The first position at or after `i` that holds non-whitespace (or the end).
pub open spec fn end_ws(s: Seq<char>, i: int) -> int
    decreases s.len() - i,
{
    if i < 0 || i >= s.len() {
        s.len() as int
    } else if !is_ws(s[i]) {
        i
    } else {
        end_ws(s, i + 1)
    }
}

/// The second whitespace-separated token of a line, if there is one.
pub open spec fn second_token_spec(s: Seq<char>) -> Option<Seq<char>> {
    let t0 = end_ws(s, 0);
    let a = end_nonws(s, t0);
    let b = end_ws(s, a);
    let c = end_nonws(s, b);
    if b < s.len() {
        Some(s.subrange(b, c))
    } else {
        None
    }
}

fn scan_nonws(s: &str, from: usize) -> (r: usize)
    requires
        from <= s@.len(),
    ensures
        r == end_nonws(s@, from as int),
        from <= r <= s@.len(),
    decreases s@.len() - from,
{
    let n = s.unicode_len();
    if from == n {
        return n;
    }
    let c = s.get_char(from);
    if c == ' ' || c == '\t' {
        from
    } else {
        scan_nonws(s, from + 1)
    }
}

fn scan_ws(s: &str, from: usize) -> (r: usize)
    requires
        from <= s@.len(),
    ensures
        r == end_ws(s@, from as int),
        from <= r <= s@.len(),
    decreases s@.len() - from,
{
    let n = s.unicode_len();
    if from == n {
        return n;
    }
    let c = s.get_char(from);
    if c == ' ' || c == '\t' {
        scan_ws(s, from + 1)
    } else {
        from
    }
}

/// Extracts the second whitespace-separated token of a line, if present.
pub fn second_token(s: &str) -> (r: Option<String>)
    ensures
        (match (r, second_token_spec(s@)) {
            (Some(t), Some(ts)) => t@ == ts,
            (None, None) => true,
            _ => false,
        }),
{
    let n = s.unicode_len();
    let t0 = scan_ws(s, 0);
    let a = scan_nonws(s, t0);
    let b = scan_ws(s, a);
    let c = scan_nonws(s, b);
    if b < n {
        Some(String::from_str(s.substring_char(b, c)))
    } else {
        None
    }
}

/// A decimal digit.
pub open spec fn is_digit(c: char) -> bool {
    48 <= c as u32 && c as u32 <= 57
}

/// The numeric value of a decimal digit character.
pub open spec fn digit_val(c: char) -> int {
    c as u32 - 48
}

/// Every character of `s` is a decimal digit.
pub open spec fn all_digits(s: Seq<char>) -> bool {
    forall|i: int| 0 <= i < s.len() ==> is_digit(#[trigger] s[i])
}

/// The value of a string of decimal digits, most significant first.
pub open spec fn digits_val(s: Seq<char>) -> int
    decreases s.len(),
{
    if s.len() == 0 {
        0
    } else {
        digits_val(s.drop_last()) * 10 + digit_val(s.last())
    }
}

proof fn lemma_digits_val_nonneg(s: Seq<char>)
    requires
        all_digits(s),
    ensures
        digits_val(s) >= 0,
    decreases s.len(),
{
    if s.len() > 0 {
        assert(all_digits(s.drop_last()));
        lemma_digits_val_nonneg(s.drop_last());
    }
}

/// The length of the optional sign prefix of a decimal integer string.
pub open spec fn sign_len(s: Seq<char>) -> int {
    if s.len() > 0 && (s[0] == '-' || s[0] == '+') {
        1
    } else {
        0
    }
}

/// What `str::parse::<i32>` accepts and returns: an optional sign, then at
/// least one decimal digit and nothing else, with the signed value in range.
pub open spec fn parse_i32_spec(s: Seq<char>) -> Option<i32> {
    let neg = s.len() > 0 && s[0] == '-';
    let ds = s.subrange(sign_len(s), s.len() as int);
    if ds.len() == 0 || !all_digits(ds) {
        None
    } else {
        let v = if neg {
            -digits_val(ds)
        } else {
            digits_val(ds)
        };
        if -0x80000000 <= v && v <= 0x7fffffff {
            Some(v as i32)
        } else {
            None
        }
    }
}

/// Parses a decimal integer exactly as `str::parse::<i32>` does: optional
/// sign, digits only, rejecting empty input, stray characters and overflow.
pub fn parse_i32(s: &str) -> (r: Option<i32>)
    ensures
        r == parse_i32_spec(s@),
{
    let n = s.unicode_len();
    let mut i: usize = 0;
    let mut neg = false;
    if n > 0 {
        let c0 = s.get_char(0);
        if c0 == '-' {
            neg = true;
            i = 1;
        } else if c0 == '+' {
            i = 1;
        }
    }
    let ghost start = i as int;
    let ghost ds = s@.subrange(start, n as int);
    if i == n {
        return None;
    }
    let mut acc: i64 = 0;
    while i < n
        invariant
            0 <= start <= i <= n,
            n == s@.len(),
            start == sign_len(s@),
            neg == (s@.len() > 0 && s@[0] == '-'),
            ds == s@.subrange(start, n as int),
            all_digits(s@.subrange(start, i as int)),
            0 <= acc <= 0x500000009,
            ({
                let p = digits_val(s@.subrange(start, i as int));
                (p <= 0x80000000 && acc == p) || (p > 0x80000000 && acc > 0x80000000)
            }),
        decreases n - i,
    {
        let c = s.get_char(i);
        let u = c as u32;
        if u < 48 || u > 57 {
            proof {
                let j = i as int - start;
                assert(s@.subrange(start, n as int)[j] == s@[i as int]);
                assert(!is_digit(ds[j]));
                assert(!all_digits(ds));
            }
            return None;
        }
        let d = (u - 48) as i64;
        proof {
            let pre = s@.subrange(start, i as int);
            let post = s@.subrange(start, i as int + 1);
            assert(post.drop_last() =~= pre);
            assert(post.last() == s@[i as int]);
            lemma_digits_val_nonneg(pre);
        }
        if acc <= 0x80000000 {
            acc = acc * 10 + d;
        }
        i += 1;
    }
    proof {
        assert(s@.subrange(start, i as int) =~= ds);
        lemma_digits_val_nonneg(ds);
    }
    if neg {
        if acc <= 0x80000000 {
            Some((-acc) as i32)
        } else {
            None
        }
    } else {
        if acc <= 0x7fffffff {
            Some(acc as i32)
        } else {
            None
        }
    }
}

/// The views of a sequence of lines.
pub open spec fn line_views(lines: Seq<String>) -> Seq<Seq<char>> {
    lines.map_values(|s: String| s@)
}

/// The peak resident memory, in kilobytes, read from the lines of a
/// `/proc/<pid>/status` file: the second field of the first `VmHWM:` line.
/// `-1` marks a malformed line, `-2` a file with no `VmHWM:` line at all.
pub open spec fn vm_hwm_of(lines: Seq<Seq<char>>) -> int
    decreases lines.len(),
{
    if lines.len() == 0 {
        -2
    } else if crate::text::starts_with_spec(lines[0], "VmHWM:"@) {
        match second_token_spec(lines[0]) {
            Some(t) => match parse_i32_spec(t) {
                Some(v) => v as int,
                None => -1,
            },
            None => -1,
        }
    } else {
        vm_hwm_of(lines.drop_first())
    }
}

/// What one probe of the child's status file yielded, before interpretation.
pub enum MemProbe {
    /// The supervisor had no pid for the child.
    NoPid,
    /// The status file could not be opened.
    Unreadable,
    /// The lines read from the status file.
    StatusLines(Vec<String>),
}

/// The memory sample for one probe: `-1` without a pid, `-3` for an
/// unreadable status file, otherwise the `VmHWM:` reading (with `-1` for a
/// malformed line and `-2` when the line is absent).
pub open spec fn mem_peak_spec(probe: MemProbe) -> int {
    match probe {
        MemProbe::NoPid => -1,
        MemProbe::Unreadable => -3,
        MemProbe::StatusLines(lines) => vm_hwm_of(line_views(lines@)),
    }
}

/// Interprets one probe of the child's status file as a memory sample in
/// kilobytes.
pub fn get_mem_peak(probe: &MemProbe) -> (r: i32)
    ensures
        r as int == mem_peak_spec(*probe),
{
    match probe {
        MemProbe::NoPid => -1,
        MemProbe::Unreadable => -3,
        MemProbe::StatusLines(lines) => {
            let ghost all = line_views(lines@);
            let mut i: usize = 0;
            proof {
                assert(all.skip(0) =~= all);
            }
            loop
                invariant
                    i <= lines@.len(),
                    all == line_views(lines@),
                    mem_peak_spec(*probe) == vm_hwm_of(all.skip(i as int)),
                decreases lines@.len() - i,
            {
                proof {
                    if i < lines@.len() {
                        assert(all.skip(i as int)[0] == lines@[i as int]@);
                        assert(all.skip(i as int).drop_first() =~= all.skip(i as int + 1));
                    }
                }
                if i == lines.len() {
                    return -2;
                }
                let line = &lines[i];
                if crate::text::str_starts_with(line.as_str(), "VmHWM:") {
                    match second_token(line.as_str()) {
                        Some(t) => {
                            match parse_i32(t.as_str()) {
                                Some(v) => {
                                    return v;
                                },
                                None => {
                                    return -1;
                                },
                            }
                        },
                        None => {
                            return -1;
                        },
                    }
                }
                i += 1;
            }
        },
    }
}

/// The pid whose status file the probe reads: the child's own, or — for a
/// child launched through the sandbox wrapper — the wrapper's pid plus one,
/// a documented approximation of the real workload's pid.
pub fn probe_target_pid(pid: Option<u32>, nsjail: bool) -> (r: Option<u32>)
    requires
        (match pid {
            Some(p) => nsjail ==> p < u32::MAX,
            None => true,
        }),
    ensures
        (match (pid, r) {
            (Some(p), Some(t)) => t == if nsjail {
                p + 1
            } else {
                p as int
            },
            (None, None) => true,
            _ => false,
        }),
{
    match pid {
        Some(p) => if nsjail {
            Some(p + 1)
        } else {
            Some(p)
        },
        None => None,
    }
}

} // verus!
