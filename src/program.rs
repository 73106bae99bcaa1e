use vstd::prelude::*;
use crate::motion::{translate_line_spec, translate_lines, MotionConfig};
use crate::text::{chars_of, push_char};

verus! {

/// Index of the first LF in `s`, or its length when there is none.
pub open spec fn find_lf(s: Seq<char>) -> nat
    decreases s.len(),
{
    if s.len() == 0 {
        0
    } else if s[0] == '\n' {
        0
    } else {
        1 + find_lf(s.drop_first())
    }
}

/// A line that was ended by LF, without a CR just before that LF.
pub open spec fn without_cr(l: Seq<char>) -> Seq<char> {
    if l.len() > 0 && l.last() == '\r' {
        l.drop_last()
    } else {
        l
    }
}

/// The lines of a program text: split at LF or CR LF; the last line needs no
/// terminator, and a text that ends with one has no empty line after it.
pub open spec fn program_lines_spec(s: Seq<char>) -> Seq<Seq<char>>
    decreases s.len(),
{
    if s.len() == 0 {
        Seq::empty()
    } else {
        let f = find_lf(s);
        if f >= s.len() {
            seq![s]
        } else {
            seq![without_cr(s.take(f as int))] + program_lines_spec(s.skip(f + 1int))
        }
    }
}

pub open spec fn string_views(v: Seq<String>) -> Seq<Seq<char>> {
    v.map_values(|x: String| x@)
}

proof fn lemma_find_lf_is(s: Seq<char>, k: nat)
    requires
        k <= s.len(),
        forall|i: int| 0 <= i < k ==> s[i] != '\n',
        k < s.len() ==> s[k as int] == '\n',
    ensures
        find_lf(s) == k,
    decreases s.len(),
{
    if s.len() > 0 && k > 0 {
        assert forall|i: int| 0 <= i < k - 1 implies s.drop_first()[i] != '\n' by {
            assert(s.drop_first()[i] == s[i + 1]);
        }
        lemma_find_lf_is(s.drop_first(), (k - 1) as nat);
    }
}

fn line_without_cr(cur: &Vec<char>) -> (r: String)
    ensures
        r@ == without_cr(cur@),
{
    let n = if cur.len() > 0 && cur[cur.len() - 1] == '\r' {
        cur.len() - 1
    } else {
        cur.len()
    };
    let mut r = String::new();
    let mut i: usize = 0;
    while i < n
        invariant
            i <= n <= cur@.len(),
            r@ =~= cur@.take(i as int),
        decreases n - i,
    {
        push_char(&mut r, cur[i]);
        i = i + 1;
    }
    assert(without_cr(cur@) =~= cur@.take(n as int));
    r
}

fn line_of(cur: &Vec<char>) -> (r: String)
    ensures
        r@ == cur@,
{
    let mut r = String::new();
    let mut i: usize = 0;
    while i < cur.len()
        invariant
            i <= cur@.len(),
            r@ =~= cur@.take(i as int),
        decreases cur@.len() - i,
    {
        push_char(&mut r, cur[i]);
        i = i + 1;
    }
    assert(cur@.take(cur@.len() as int) =~= cur@);
    r
}

/// Splits a program text into its lines.
pub fn program_lines(text: &str) -> (r: Vec<String>)
    ensures
        string_views(r@) == program_lines_spec(text@),
{
    let s = chars_of(text);
    let mut r: Vec<String> = Vec::new();
    let mut cur: Vec<char> = Vec::new();
    let mut i: usize = 0;
    assert(cur@ + s@.skip(0) =~= s@);
    while i < s.len()
        invariant
            i <= s@.len(),
            s@ == text@,
            forall|j: int| 0 <= j < cur@.len() ==> cur@[j] != '\n',
            program_lines_spec(text@) == string_views(r@) + program_lines_spec(
                cur@ + s@.skip(i as int),
            ),
        decreases s@.len() - i,
    {
        let c = s[i];
        if c == '\n' {
            let ghost rest = cur@ + s@.skip(i as int);
            proof {
                lemma_find_lf_is(rest, cur@.len());
                assert(rest.take(cur@.len() as int) =~= cur@);
                assert(rest.skip(cur@.len() + 1int) =~= s@.skip(i + 1));
                assert(Seq::<char>::empty() + s@.skip(i + 1) =~= s@.skip(i + 1));
            }
            let line = line_without_cr(&cur);
            let ghost old_r = r@;
            r.push(line);
            cur = Vec::new();
            assert(string_views(r@) =~= string_views(old_r) + seq![line@]);
        } else {
            proof {
                assert(cur@ + s@.skip(i as int) =~= cur@.push(c) + s@.skip(i + 1));
            }
            cur.push(c);
        }
        i = i + 1;
    }
    assert(cur@ + s@.skip(i as int) =~= cur@);
    if cur.len() > 0 {
        proof {
            lemma_find_lf_is(cur@, cur@.len());
        }
        let line = line_of(&cur);
        let ghost old_r = r@;
        r.push(line);
        assert(string_views(r@) =~= string_views(old_r) + seq![line@]);
    } else {
        assert(string_views(r@) + Seq::<Seq<char>>::empty() =~= string_views(r@));
    }
    r
}

/// The lines to stream for a program text: its lines, each translated under `cfg`.
pub fn prepare_program(text: &str, cfg: &MotionConfig) -> (r: Vec<String>)
    ensures
        r@.len() == program_lines_spec(text@).len(),
        forall|i: int|
            0 <= i < r@.len() ==> r@[i]@ == translate_line_spec(program_lines_spec(text@)[i], *cfg),
{
    let lines = program_lines(text);
    let r = translate_lines(&lines, cfg);
    assert forall|i: int| 0 <= i < r@.len() implies r@[i]@ == translate_line_spec(
        program_lines_spec(text@)[i],
        *cfg,
    ) by {
        assert(string_views(lines@)[i] == lines@[i]@);
    }
    r
}

} // verus!
