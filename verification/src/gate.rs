use vstd::prelude::*;

use crate::chars::chars_of;

verus! {

/// Whitespace ignored at either end of a gate answer.
pub open spec fn is_prompt_ws(c: char) -> bool {
    c == ' ' || c == '\t' || c == '\n' || c == '\r'
}

/// The answer without leading whitespace.
pub open spec fn trim_front(s: Seq<char>) -> Seq<char>
    decreases s.len(),
{
    if s.len() > 0 && is_prompt_ws(s[0]) {
        trim_front(s.drop_first())
    } else {
        s
    }
}

/// The answer without trailing whitespace.
pub open spec fn trim_back(s: Seq<char>) -> Seq<char>
    decreases s.len(),
{
    if s.len() > 0 && is_prompt_ws(s[s.len() - 1]) {
        trim_back(s.drop_last())
    } else {
        s
    }
}

/// The answer without surrounding whitespace.
pub open spec fn trimmed(s: Seq<char>) -> Seq<char> {
    trim_back(trim_front(s))
}

/// Whether a trimmed answer spells yes: `y` or `yes`, in any case.
pub open spec fn is_yes_word(t: Seq<char>) -> bool {
    (t.len() == 1 && (t[0] == 'y' || t[0] == 'Y')) || (t.len() == 3 && (t[0] == 'y' || t[0] == 'Y')
        && (t[1] == 'e' || t[1] == 'E') && (t[2] == 's' || t[2] == 'S'))
}

/// The default-yes policy: an empty answer counts as yes.
pub open spec fn affirmative_default_yes(line: Seq<char>) -> bool {
    trimmed(line).len() == 0 || is_yes_word(trimmed(line))
}

/// The default-no policy: only an explicit yes counts.
pub open spec fn affirmative_default_no(line: Seq<char>) -> bool {
    is_yes_word(trimmed(line))
}

proof fn lemma_trim_front_at(s: Seq<char>, lo: int)
    requires
        0 <= lo <= s.len(),
        forall|t: int| 0 <= t < lo ==> is_prompt_ws(#[trigger] s[t]),
        lo == s.len() || !is_prompt_ws(s[lo]),
    ensures
        trim_front(s) == s.subrange(lo, s.len() as int),
    decreases lo,
{
    if lo == 0 {
        assert(s.subrange(0, s.len() as int) =~= s);
    } else {
        let d = s.drop_first();
        assert(d =~= s.subrange(1, s.len() as int));
        lemma_trim_front_at(d, lo - 1);
        assert(d.subrange(lo - 1, d.len() as int) =~= s.subrange(lo, s.len() as int));
    }
}

proof fn lemma_trim_back_at(s: Seq<char>, hi: int)
    requires
        0 <= hi <= s.len(),
        forall|t: int| hi <= t < s.len() ==> is_prompt_ws(#[trigger] s[t]),
        hi == 0 || !is_prompt_ws(s[hi - 1]),
    ensures
        trim_back(s) == s.subrange(0, hi),
    decreases s.len(),
{
    if hi == s.len() {
        assert(s.subrange(0, hi) =~= s);
    } else {
        let d = s.drop_last();
        assert(d =~= s.subrange(0, s.len() - 1));
        lemma_trim_back_at(d, hi);
        assert(d.subrange(0, hi) =~= s.subrange(0, hi));
    }
}

/// The trimmed answer, as a character vector, with its bounds.
fn trim_exec(line: &str) -> (r: Vec<char>)
    ensures
        r@ == trimmed(line@),
{
    let cs = chars_of(line);
    let n = cs.len();
    let mut lo: usize = 0;
    while lo < n && (cs[lo] == ' ' || cs[lo] == '\t' || cs[lo] == '\n' || cs[lo] == '\r')
        invariant
            n == cs.len(),
            cs@ == line@,
            lo <= n,
            forall|t: int| 0 <= t < lo ==> is_prompt_ws(#[trigger] cs@[t]),
        decreases n - lo,
    {
        lo = lo + 1;
    }
    let mut hi: usize = n;
    while hi > lo && (cs[hi - 1] == ' ' || cs[hi - 1] == '\t' || cs[hi - 1] == '\n' || cs[hi - 1]
        == '\r')
        invariant
            n == cs.len(),
            cs@ == line@,
            lo <= hi <= n,
            forall|t: int| hi <= t < n ==> is_prompt_ws(#[trigger] cs@[t]),
        decreases hi,
    {
        hi = hi - 1;
    }
    proof {
        lemma_trim_front_at(line@, lo as int);
        let f = line@.subrange(lo as int, n as int);
        if hi == lo {
            lemma_trim_back_at(f, 0);
        } else {
            assert(forall|t: int|
                hi - lo <= t < f.len() ==> is_prompt_ws(#[trigger] f[t]));
            assert(!is_prompt_ws(f[hi - lo - 1]));
            lemma_trim_back_at(f, hi - lo);
        }
        assert(f.subrange(0, hi - lo) =~= line@.subrange(lo as int, hi as int));
    }
    crate::chars::sub_chars(&cs, lo, hi)
}

/// Classifies an answer line under the default-yes policy: empty,
/// `y` or `yes` (case-insensitive, surrounding whitespace ignored)
/// is affirmative; anything else is negative.
pub fn classify_default_yes(line: &str) -> (b: bool)
    ensures
        b == affirmative_default_yes(line@),
{
    let t = trim_exec(line);
    t.len() == 0 || is_yes_exec(&t)
}

/// Classifies an answer line under the default-no policy: only `y`
/// or `yes` (case-insensitive, surrounding whitespace ignored) is
/// affirmative; anything else, the empty answer included, is
/// negative.
pub fn classify_default_no(line: &str) -> (b: bool)
    ensures
        b == affirmative_default_no(line@),
{
    let t = trim_exec(line);
    is_yes_exec(&t)
}

fn is_yes_exec(t: &Vec<char>) -> (b: bool)
    ensures
        b == is_yes_word(t@),
{
    if t.len() == 1 {
        t[0] == 'y' || t[0] == 'Y'
    } else if t.len() == 3 {
        (t[0] == 'y' || t[0] == 'Y') && (t[1] == 'e' || t[1] == 'E') && (t[2] == 's' || t[2]
            == 'S')
    } else {
        false
    }
}

} // verus!
