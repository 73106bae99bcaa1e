use vstd::prelude::*;
use crate::text::{chars_of, push_char};

verus! {

/// Bound at or above which the integer part of a Y value is surely past any limit.
const INT_CAP: u64 = 1_000_000;

/// The auxiliary axis that takes over travel beyond the Y limit.
#[derive(Clone, Copy, Debug, PartialEq, Eq, Structural)]
pub enum BedAxis {
    A,
    B,
    C,
    U,
    V,
    W,
}

pub open spec fn bed_letter(b: BedAxis) -> char {
    match b {
        BedAxis::A => 'A',
        BedAxis::B => 'B',
        BedAxis::C => 'C',
        BedAxis::U => 'U',
        BedAxis::V => 'V',
        BedAxis::W => 'W',
    }
}

fn bed_char(b: BedAxis) -> (c: char)
    ensures
        c == bed_letter(b),
{
    match b {
        BedAxis::A => 'A',
        BedAxis::B => 'B',
        BedAxis::C => 'C',
        BedAxis::U => 'U',
        BedAxis::V => 'V',
        BedAxis::W => 'W',
    }
}

/// Gantry and bed extension: Y targets beyond `y_limit` (ten-thousandths of a
/// millimetre) go to the bed axis instead.
#[derive(Clone, Copy, Debug, PartialEq, Eq, Structural)]
pub struct MotionConfig {
    pub y_limit: u32,
    pub bed_axis: BedAxis,
}

impl Default for MotionConfig {
    /// A 609.6 mm gantry, extended by the A axis.
    fn default() -> (r: MotionConfig)
        ensures
            r == (MotionConfig { y_limit: 6_096_000, bed_axis: BedAxis::A }),
    {
        MotionConfig { y_limit: 6_096_000, bed_axis: BedAxis::A }
    }
}

pub open spec fn is_dchar(c: char) -> bool {
    '0' <= c <= '9'
}

pub open spec fn dnum(c: char) -> nat {
    ((c as u32) - 48) as nat
}

/// Comment state before position `i`: inside parentheses, after a semicolon.
pub open spec fn comment_before(s: Seq<char>, i: int) -> (bool, bool)
    decreases i,
{
    if i <= 0 {
        (false, false)
    } else {
        let (p, q) = comment_before(s, i - 1);
        let c = s[i - 1];
        if q {
            (p, true)
        } else if p {
            (c != ')', false)
        } else if c == '(' {
            (true, false)
        } else if c == ';' {
            (false, true)
        } else {
            (false, false)
        }
    }
}

/// Position `i` holds code, not comment.
pub open spec fn is_code(s: Seq<char>, i: int) -> bool {
    let (p, q) = comment_before(s, i);
    !p && !q && s[i] != '(' && s[i] != ';'
}

/// End of the run of digits that starts at `j`.
pub open spec fn run_end(s: Seq<char>, j: int) -> int
    decreases s.len() - j,
{
    if j < 0 || j >= s.len() {
        if j < 0 { j } else { s.len() as int }
    } else if is_dchar(s[j]) {
        run_end(s, j + 1)
    } else {
        j
    }
}

/// Value of the digits `s[j..k]`.
pub open spec fn dval(s: Seq<char>, j: int, k: int) -> nat
    decreases k - j,
{
    if k <= j {
        0
    } else {
        dval(s, j, k - 1) * 10 + dnum(s[k - 1])
    }
}

pub open spec fn digit_or_zero(s: Seq<char>, k: int, e: int) -> nat {
    if k < e { dnum(s[k]) } else { 0 }
}

/// Whether the number starting at `j0` (an optional `+`, digits, an optional
/// point and digits, at least one digit) is greater than `limit` ten-thousandths.
pub open spec fn exceeds_from(s: Seq<char>, j0: int, limit: nat) -> bool {
    let j = if j0 < s.len() && s[j0] == '+' { j0 + 1 } else { j0 };
    let e1 = run_end(s, j);
    let has_dot = e1 < s.len() && s[e1] == '.';
    let fs = e1 + 1;
    let e2 = if has_dot { run_end(s, fs) } else { e1 };
    let count = (e1 - j) + if has_dot { e2 - fs } else { 0 };
    let ip = dval(s, j, e1);
    let f4 = digit_or_zero(s, fs, e2) * 1000 + digit_or_zero(s, fs + 1, e2) * 100
        + digit_or_zero(s, fs + 2, e2) * 10 + digit_or_zero(s, fs + 3, e2);
    let tail = exists|k: int| fs + 4 <= k < e2 && s[k] != '0';
    count > 0 && (ip * 10000 + f4 > limit || (ip * 10000 + f4 == limit && tail))
}

/// Position `i` starts a Y word in code whose value is beyond the limit.
pub open spec fn rewrite_at(s: Seq<char>, i: int, cfg: MotionConfig) -> bool {
    (s[i] == 'Y' || s[i] == 'y') && is_code(s, i) && exceeds_from(s, i + 1, cfg.y_limit as nat)
}

/// A line with every Y word beyond the limit moved to the bed axis.
pub open spec fn translate_line_spec(s: Seq<char>, cfg: MotionConfig) -> Seq<char> {
    Seq::new(s.len(), |i: int| if rewrite_at(s, i, cfg) { bed_letter(cfg.bed_axis) } else { s[i] })
}

/// A line holds no Y word, outside comments.
pub open spec fn is_non_motion(s: Seq<char>) -> bool {
    forall|i: int| 0 <= i < s.len() && is_code(s, i) ==> s[i] != 'Y' && s[i] != 'y'
}

/// A line moves no Y axis beyond the limit.
pub open spec fn within_limit(s: Seq<char>, cfg: MotionConfig) -> bool {
    forall|i: int| 0 <= i < s.len() ==> !rewrite_at(s, i, cfg)
}

proof fn lemma_run_end(s: Seq<char>, j: int)
    requires
        0 <= j <= s.len(),
    ensures
        j <= run_end(s, j) <= s.len(),
        forall|k: int| j <= k < run_end(s, j) ==> is_dchar(s[k]),
        run_end(s, j) < s.len() ==> !is_dchar(s[run_end(s, j)]),
    decreases s.len() - j,
{
    if j < s.len() && is_dchar(s[j]) {
        lemma_run_end(s, j + 1);
    }
}

proof fn lemma_sat(a: nat, d: nat)
    requires
        d < 10,
    ensures
        (if (if a < INT_CAP { a } else { INT_CAP as nat }) * 10 + d < INT_CAP {
            (if a < INT_CAP { a } else { INT_CAP as nat }) * 10 + d
        } else {
            INT_CAP as nat
        }) == (if a * 10 + d < INT_CAP { a * 10 + d } else { INT_CAP as nat }),
{
    if a >= INT_CAP {
        assert(a * 10 + d >= INT_CAP) by (nonlinear_arith)
            requires a >= INT_CAP;
    }
}

fn char_value(c: char) -> (d: u64)
    requires
        is_dchar(c),
    ensures
        d as nat == dnum(c),
        d < 10,
{
    ((c as u32) - 48) as u64
}

/// Index of the end of the run of digits that starts at `j`.
fn scan_digits(s: &Vec<char>, j: usize) -> (e: usize)
    requires
        j <= s@.len(),
    ensures
        e as int == run_end(s@, j as int),
{
    let mut k = j;
    while k < s.len() && '0' <= s[k] && s[k] <= '9'
        invariant
            j <= k <= s@.len(),
            run_end(s@, j as int) == run_end(s@, k as int),
        decreases s@.len() - k,
    {
        k = k + 1;
    }
    k
}

fn digit_at(s: &Vec<char>, fs: usize, off: usize, e: usize) -> (d: u64)
    requires
        fs <= e <= s@.len(),
        forall|m: int| fs <= m < e ==> is_dchar(s@[m]),
    ensures
        d as nat == digit_or_zero(s@, fs + off, e as int),
        d < 10,
{
    if off < e - fs {
        char_value(s[fs + off])
    } else {
        0
    }
}

fn exceeds(s: &Vec<char>, j0: usize, limit: u32) -> (r: bool)
    requires
        j0 <= s@.len(),
    ensures
        r == exceeds_from(s@, j0 as int, limit as nat),
{
    let n = s.len();
    let j: usize = if j0 < n && s[j0] == '+' { j0 + 1 } else { j0 };
    let e1 = scan_digits(s, j);
    proof {
        lemma_run_end(s@, j as int);
    }
    let mut ip: u64 = 0;
    let mut k: usize = j;
    while k < e1
        invariant
            j <= k <= e1 <= n,
            n == s@.len(),
            forall|m: int| j <= m < e1 ==> is_dchar(s@[m]),
            ip as nat == (if dval(s@, j as int, k as int) < INT_CAP {
                dval(s@, j as int, k as int)
            } else {
                INT_CAP as nat
            }),
        decreases e1 - k,
    {
        let d = char_value(s[k]);
        proof {
            lemma_sat(dval(s@, j as int, k as int), d as nat);
        }
        ip = if ip * 10 + d < INT_CAP {
            ip * 10 + d
        } else {
            INT_CAP
        };
        k = k + 1;
    }
    let has_dot = e1 < n && s[e1] == '.';
    let ghost fs = e1 + 1;
    let e2: usize = if has_dot { scan_digits(s, e1 + 1) } else { e1 };
    proof {
        if has_dot {
            lemma_run_end(s@, fs as int);
        }
    }
    let count_zero = e1 == j && (!has_dot || e2 == e1 + 1);
    if count_zero {
        return false;
    }
    if ip >= INT_CAP {
        proof {
            let v = dval(s@, j as int, e1 as int);
            assert(v * 10000 >= INT_CAP * 10000) by (nonlinear_arith)
                requires v >= INT_CAP;
        }
        return true;
    }
    let f4: u64 = if has_dot {
        digit_at(s, e1 + 1, 0, e2) * 1000 + digit_at(s, e1 + 1, 1, e2) * 100 + digit_at(
            s,
            e1 + 1,
            2,
            e2,
        ) * 10 + digit_at(s, e1 + 1, 3, e2)
    } else {
        0
    };
    let v: u64 = ip * 10000 + f4;
    if v > limit as u64 {
        return true;
    }
    if v < limit as u64 {
        return false;
    }
    if !has_dot || e2 - (e1 + 1) <= 4 {
        return false;
    }
    has_nonzero(s, e1 + 5, e2)
}

/// Whether `s[from..to]` holds a digit other than zero.
fn has_nonzero(s: &Vec<char>, from: usize, to: usize) -> (r: bool)
    requires
        to <= s@.len(),
    ensures
        r == exists|q: int| from <= q < to && s@[q] != '0',
{
    let mut m: usize = from;
    while m < to
        invariant
            from <= m,
            to <= s@.len(),
            forall|q: int| from <= q < m ==> s@[q] == '0',
        decreases to - m,
    {
        if s[m] != '0' {
            return true;
        }
        m = m + 1;
    }
    false
}

/// Moves every Y word of a line that goes beyond the limit to the bed axis, by
/// re-lettering it; all else, comments included, is kept as it is.
pub fn translate_line(line: &str, cfg: &MotionConfig) -> (r: String)
    ensures
        r@ == translate_line_spec(line@, *cfg),
{
    let s = chars_of(line);
    let n = s.len();
    let mut out = String::new();
    let mut paren = false;
    let mut semi = false;
    let bed = bed_char(cfg.bed_axis);
    let mut i: usize = 0;
    while i < n
        invariant
            i <= n,
            n == s@.len(),
            s@ == line@,
            (paren, semi) == comment_before(s@, i as int),
            bed == bed_letter(cfg.bed_axis),
            out@ =~= translate_line_spec(s@, *cfg).take(i as int),
        decreases n - i,
    {
        let c = s[i];
        let code = !paren && !semi && c != '(' && c != ';';
        let rw = (c == 'Y' || c == 'y') && code && exceeds(&s, i + 1, cfg.y_limit);
        assert(rw == rewrite_at(s@, i as int, *cfg));
        let ghost before = out@;
        if rw {
            push_char(&mut out, bed);
        } else {
            push_char(&mut out, c);
        }
        assert(out@ =~= before.push(translate_line_spec(s@, *cfg)[i as int]));
        assert(translate_line_spec(s@, *cfg).take(i + 1) =~= translate_line_spec(s@, *cfg).take(
            i as int,
        ).push(translate_line_spec(s@, *cfg)[i as int]));
        if semi {
        } else if paren {
            paren = c != ')';
        } else if c == '(' {
            paren = true;
        } else if c == ';' {
            semi = true;
        }
        i = i + 1;
    }
    assert(translate_line_spec(s@, *cfg).take(n as int) =~= translate_line_spec(s@, *cfg));
    out
}

pub open spec fn translate_lines_spec(lines: Seq<String>, cfg: MotionConfig) -> Seq<Seq<char>> {
    lines.map_values(|l: String| translate_line_spec(l@, cfg))
}

/// Translates each line of a program, keeping their number and order.
pub fn translate_lines(lines: &Vec<String>, cfg: &MotionConfig) -> (r: Vec<String>)
    ensures
        r@.len() == lines@.len(),
        forall|i: int| 0 <= i < r@.len() ==> r@[i]@ == translate_line_spec(lines@[i]@, *cfg),
{
    let mut r: Vec<String> = Vec::new();
    let mut i: usize = 0;
    while i < lines.len()
        invariant
            i <= lines@.len(),
            r@.len() == i,
            forall|j: int| 0 <= j < i ==> r@[j]@ == translate_line_spec(lines@[j]@, *cfg),
        decreases lines@.len() - i,
    {
        r.push(translate_line(lines[i].as_str(), cfg));
        i = i + 1;
    }
    r
}

/// A line within the limit is left as it is.
pub proof fn lemma_within_limit_unchanged(s: Seq<char>, cfg: MotionConfig)
    requires
        within_limit(s, cfg),
    ensures
        translate_line_spec(s, cfg) == s,
{
    assert(translate_line_spec(s, cfg) =~= s);
}

/// On lines that do not go beyond the Y limit, translating twice gives what
/// translating once gives.
pub proof fn lemma_translate_idempotent(lines: Seq<Seq<char>>, cfg: MotionConfig)
    requires
        forall|i: int| 0 <= i < lines.len() ==> within_limit(#[trigger] lines[i], cfg),
    ensures
        forall|i: int|
            0 <= i < lines.len() ==> translate_line_spec(translate_line_spec(#[trigger] lines[i], cfg), cfg)
                == translate_line_spec(lines[i], cfg),
{
    assert forall|i: int| 0 <= i < lines.len() implies translate_line_spec(
        translate_line_spec(#[trigger] lines[i], cfg),
        cfg,
    ) == translate_line_spec(lines[i], cfg) by {
        lemma_within_limit_unchanged(lines[i], cfg);
    }
}

/// Translation keeps the number of lines, and each line with no Y word at its
/// place, unchanged.
pub proof fn lemma_translate_keeps_lines(lines: Seq<String>, cfg: MotionConfig)
    ensures
        translate_lines_spec(lines, cfg).len() == lines.len(),
        forall|i: int|
            0 <= i < lines.len() && is_non_motion(#[trigger] lines[i]@) ==> translate_lines_spec(
                lines,
                cfg,
            )[i] == lines[i]@,
{
    assert forall|i: int|
        0 <= i < lines.len() && is_non_motion(#[trigger] lines[i]@) implies translate_lines_spec(
        lines,
        cfg,
    )[i] == lines[i]@ by {
        assert(translate_line_spec(lines[i]@, cfg) =~= lines[i]@);
    }
}

} // verus!
