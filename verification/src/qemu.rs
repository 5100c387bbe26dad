use vstd::prelude::*;

use crate::chars::{chars_of, chars_to_string, sub_chars};

verus! {

pub open spec fn is_ascii_digit(c: char) -> bool {
    '0' <= c && c <= '9'
}

/// The first position at or after `i` that holds no digit, or the
/// end of the text.
pub open spec fn digit_run_end(s: Seq<char>, i: int) -> int
    decreases s.len() - i,
{
    if i < 0 {
        -1
    } else if i >= s.len() {
        s.len() as int
    } else if !is_ascii_digit(s[i]) {
        i
    } else {
        digit_run_end(s, i + 1)
    }
}

proof fn lemma_digit_run_end(s: Seq<char>, i: int, j: int)
    requires
        0 <= i <= j <= s.len(),
        forall|t: int| i <= t < j ==> is_ascii_digit(#[trigger] s[t]),
        j == s.len() || !is_ascii_digit(s[j]),
    ensures
        digit_run_end(s, i) == j,
    decreases j - i,
{
    if i < j {
        lemma_digit_run_end(s, i + 1, j);
    }
}

/// The version a report names at position `i`, if the marker word
/// stands there followed by three dot-separated digit runs: the
/// three runs with their dots, each run maximal.
pub open spec fn version_at(s: Seq<char>, i: int) -> Option<Seq<char>> {
    if 0 <= i && i + 8 <= s.len() && s.subrange(i, i + 8) == "version "@ {
        let a = i + 8;
        let e1 = digit_run_end(s, a);
        if e1 > a && e1 < s.len() && s[e1] == '.' {
            let e2 = digit_run_end(s, e1 + 1);
            if e2 > e1 + 1 && e2 < s.len() && s[e2] == '.' {
                let e3 = digit_run_end(s, e2 + 1);
                if e3 > e2 + 1 {
                    Some(s.subrange(a, e3))
                } else {
                    None
                }
            } else {
                None
            }
        } else {
            None
        }
    } else {
        None
    }
}

/// The leftmost version in the text from `i` on.
pub open spec fn first_version_from(s: Seq<char>, i: int) -> Option<Seq<char>>
    decreases s.len() - i,
{
    if i < 0 || i >= s.len() {
        None
    } else if version_at(s, i) is Some {
        version_at(s, i)
    } else {
        first_version_from(s, i + 1)
    }
}

/// The version a tool's report names: the leftmost occurrence of
/// the marker word followed by `digits.digits.digits`, captured
/// without the marker.
pub open spec fn version_capture_spec(s: Seq<char>) -> Option<Seq<char>> {
    first_version_from(s, 0)
}

fn matches_at(cs: &Vec<char>, i: usize, lit: &str) -> (b: bool)
    ensures
        b == (i + lit@.len() <= cs@.len() && cs@.subrange(i as int, i + lit@.len()) == lit@),
{
    let m = lit.unicode_len();
    let n = cs.len();
    if i > n || m > n - i {
        return false;
    }
    let mut k: usize = 0;
    while k < m
        invariant
            m == lit@.len(),
            n == cs@.len(),
            i + m <= n,
            k <= m,
            forall|t: int| 0 <= t < k ==> cs@[i + t] == lit@[t],
        decreases m - k,
    {
        if cs[i + k] != lit.get_char(k) {
            proof {
                assert(cs@.subrange(i as int, i + m) != lit@) by {
                    assert(cs@.subrange(i as int, i + m)[k as int] == cs@[i + k]);
                }
            }
            return false;
        }
        k = k + 1;
    }
    proof {
        assert(cs@.subrange(i as int, i + m) =~= lit@);
    }
    true
}

fn digit_run_end_exec(cs: &Vec<char>, i: usize) -> (j: usize)
    requires
        i <= cs@.len(),
    ensures
        j == digit_run_end(cs@, i as int),
        i <= j <= cs@.len(),
{
    let n = cs.len();
    let mut j: usize = i;
    while j < n && cs[j] >= '0' && cs[j] <= '9'
        invariant
            n == cs@.len(),
            i <= j <= n,
            forall|t: int| i <= t < j ==> is_ascii_digit(#[trigger] cs@[t]),
        decreases n - j,
    {
        j = j + 1;
    }
    proof {
        lemma_digit_run_end(cs@, i as int, j as int);
    }
    j
}

/// The version named in a tool's report, as `version_capture_spec`
/// says: `None` when no marker-and-numbers pattern occurs.
pub fn parse_qemu_version(output: &str) -> (r: Option<String>)
    ensures
        match r {
            Some(v) => version_capture_spec(output@) == Some(v@),
            None => version_capture_spec(output@) is None,
        },
{
    let cs = chars_of(output);
    let n = cs.len();
    let mut i: usize = 0;
    while i < n
        invariant
            n == cs@.len(),
            cs@ == output@,
            i <= n,
            first_version_from(output@, 0) == first_version_from(output@, i as int),
        decreases n - i,
    {
        proof {
            reveal_strlit("version ");
        }
        if matches_at(&cs, i, "version ") {
            let a = i + 8;
            let e1 = digit_run_end_exec(&cs, a);
            if e1 > a && e1 < n && cs[e1] == '.' {
                let e2 = digit_run_end_exec(&cs, e1 + 1);
                if e2 > e1 + 1 && e2 < n && cs[e2] == '.' {
                    let e3 = digit_run_end_exec(&cs, e2 + 1);
                    if e3 > e2 + 1 {
                        let capture = sub_chars(&cs, a, e3);
                        proof {
                            assert(version_at(output@, i as int) == Some(
                                output@.subrange(a as int, e3 as int),
                            ));
                        }
                        return Some(chars_to_string(&capture));
                    }
                }
            }
        }
        proof {
            assert(version_at(output@, i as int) is None);
        }
        i = i + 1;
    }
    proof {
        assert(first_version_from(output@, n as int) is None);
    }
    None
}

} // verus!
