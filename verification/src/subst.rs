use vstd::prelude::*;

use crate::chars::{append_chars, chars_of, chars_to_string, sub_chars};
use crate::store::Store;

verus! {

/// The least position of `c` in `s` at or after `i`, or `-1`.
pub open spec fn find_from(s: Seq<char>, c: char, i: int) -> int
    decreases s.len() - i,
{
    if i < 0 || i >= s.len() {
        -1
    } else if s[i] == c {
        i
    } else {
        find_from(s, c, i + 1)
    }
}

/// What `find_from` returns: the first position of `c` from `i` on,
/// or `-1` when there is none.
pub proof fn lemma_find_from(s: Seq<char>, c: char, i: int)
    requires
        0 <= i,
    ensures
        find_from(s, c, i) == -1 ==> forall|t: int| i <= t < s.len() ==> s[t] != c,
        find_from(s, c, i) != -1 ==> i <= find_from(s, c, i) < s.len() && s[find_from(s, c, i)]
            == c && forall|t: int| i <= t < find_from(s, c, i) ==> s[t] != c,
    decreases s.len() - i,
{
    if i < s.len() && s[i] != c {
        lemma_find_from(s, c, i + 1);
    }
}

/// A position that holds `c`, with none before it, is what
/// `find_from` returns.
pub proof fn lemma_find_from_is(s: Seq<char>, c: char, i: int, j: int)
    requires
        0 <= i <= j < s.len(),
        s[j] == c,
        forall|t: int| i <= t < j ==> s[t] != c,
    ensures
        find_from(s, c, i) == j,
    decreases j - i,
{
    if i < j {
        lemma_find_from_is(s, c, i + 1, j);
    }
}

/// The substitution of one argument string from position `i` on:
/// at `${`, the text up to the first `}` names a variable, which is
/// replaced by its value when set and kept verbatim when not; with
/// no closing `}` the rest is kept as it stands; every other
/// character stands for itself.
pub open spec fn subst_from(s: Seq<char>, i: int, env: Map<Seq<char>, Seq<char>>) -> Seq<char>
    decreases s.len() - i,
{
    if i < 0 || i >= s.len() {
        Seq::empty()
    } else if i + 1 < s.len() && s[i] == '$' && s[i + 1] == '{' {
        let j = find_from(s, '}', i + 2);
        if j < i + 2 || j >= s.len() {
            s.subrange(i, s.len() as int)
        } else {
            let name = s.subrange(i + 2, j);
            let expansion = if env.contains_key(name) {
                env[name]
            } else {
                s.subrange(i, j + 1)
            };
            expansion + subst_from(s, j + 1, env)
        }
    } else {
        seq![s[i]] + subst_from(s, i + 1, env)
    }
}

/// The substitution of a whole argument string.
pub open spec fn subst_spec(s: Seq<char>, env: Map<Seq<char>, Seq<char>>) -> Seq<char> {
    subst_from(s, 0, env)
}

/// The substitution of an argument vector, element by element.
pub open spec fn subst_all(args: Seq<Seq<char>>, env: Map<Seq<char>, Seq<char>>) -> Seq<
    Seq<char>,
> {
    Seq::new(args.len(), |k: int| subst_spec(args[k], env))
}

proof fn lemma_subst_from_no_placeholder(s: Seq<char>, i: int, env: Map<Seq<char>, Seq<char>>)
    requires
        0 <= i <= s.len(),
        forall|t: int| 0 <= t && t + 1 < s.len() ==> !(#[trigger] s[t] == '$' && s[t + 1] == '{'),
    ensures
        subst_from(s, i, env) == s.subrange(i, s.len() as int),
    decreases s.len() - i,
{
    if i >= s.len() {
        assert(s.subrange(i, s.len() as int) =~= Seq::<char>::empty());
    } else {
        lemma_subst_from_no_placeholder(s, i + 1, env);
        assert(seq![s[i]] + s.subrange(i + 1, s.len() as int) =~= s.subrange(i, s.len() as int));
    }
}

/// A string without the opening delimiter pair `${` is left
/// unchanged: substitution touches nothing but placeholders.
pub proof fn lemma_subst_no_placeholder(s: Seq<char>, env: Map<Seq<char>, Seq<char>>)
    requires
        forall|t: int| 0 <= t && t + 1 < s.len() ==> !(#[trigger] s[t] == '$' && s[t + 1] == '{'),
    ensures
        subst_spec(s, env) == s,
{
    lemma_subst_from_no_placeholder(s, 0, env);
    assert(s.subrange(0, s.len() as int) =~= s);
}

/// The substitution of one string, as `subst_spec` says.
fn subst_one(s: &str, env: &Store) -> (r: String)
    requires
        env.wf(),
    ensures
        r@ == subst_spec(s@, env@),
{
    let cs = chars_of(s);
    let n = cs.len();
    let mut out: Vec<char> = Vec::new();
    let mut i: usize = 0;
    while i < n
        invariant
            env.wf(),
            n == cs.len(),
            cs@ == s@,
            i <= n,
            subst_from(s@, 0, env@) == out@ + subst_from(s@, i as int, env@),
        decreases n - i,
    {
        let ghost out0 = out@;
        if cs[i] == '$' && i + 1 < n && cs[i + 1] == '{' {
            let mut j = i + 2;
            while j < n && cs[j] != '}'
                invariant
                    n == cs.len(),
                    cs@ == s@,
                    i + 2 <= j <= n,
                    forall|t: int| i + 2 <= t < j ==> s@[t] != '}',
                decreases n - j,
            {
                j = j + 1;
            }
            if j < n {
                proof {
                    lemma_find_from_is(s@, '}', i + 2, j as int);
                }
                let name = sub_chars(&cs, i + 2, j);
                let name_s = chars_to_string(&name);
                match env.get(&name_s) {
                    Some(val) => {
                        append_chars(&mut out, val.as_str());
                    },
                    None => {
                        let verbatim = sub_chars(&cs, i, j + 1);
                        let mut t: usize = 0;
                        while t < verbatim.len()
                            invariant
                                t <= verbatim@.len(),
                                out@ == out0 + verbatim@.subrange(0, t as int),
                            decreases verbatim@.len() - t,
                        {
                            out.push(verbatim[t]);
                            t = t + 1;
                            proof {
                                assert(out@ =~= out0 + verbatim@.subrange(0, t as int));
                            }
                        }
                        proof {
                            assert(verbatim@.subrange(0, verbatim@.len() as int) =~= verbatim@);
                        }
                    },
                }
                proof {
                    assert(out0 + (subst_from(s@, i as int, env@)) =~= out@ + subst_from(
                        s@,
                        j + 1,
                        env@,
                    ));
                }
                i = j + 1;
            } else {
                proof {
                    lemma_find_from(s@, '}', i + 2);
                    assert(find_from(s@, '}', i + 2) == -1) by {
                        if find_from(s@, '}', i + 2) != -1 {
                            assert(s@[find_from(s@, '}', i + 2)] == '}');
                        }
                    }
                    assert(subst_from(s@, i as int, env@) == s@.subrange(i as int, n as int));
                }
                let rest = sub_chars(&cs, i, n);
                let mut t: usize = 0;
                while t < rest.len()
                    invariant
                        t <= rest@.len(),
                        out@ == out0 + rest@.subrange(0, t as int),
                    decreases rest@.len() - t,
                {
                    out.push(rest[t]);
                    t = t + 1;
                    proof {
                        assert(out@ =~= out0 + rest@.subrange(0, t as int));
                    }
                }
                proof {
                    assert(rest@.subrange(0, rest@.len() as int) =~= rest@);
                    assert(subst_from(s@, n as int, env@) == Seq::<char>::empty());
                    assert(out@ + Seq::<char>::empty() =~= out@);
                }
                i = n;
            }
        } else {
            out.push(cs[i]);
            proof {
                assert(out0 + (seq![s@[i as int]] + subst_from(s@, i as int + 1, env@)) =~= out@
                    + subst_from(s@, i as int + 1, env@));
            }
            i = i + 1;
        }
    }
    proof {
        assert(subst_from(s@, n as int, env@) == Seq::<char>::empty());
        assert(out@ + Seq::<char>::empty() =~= out@);
    }
    chars_to_string(&out)
}

/// Expands every `${NAME}` placeholder in each argument against the
/// given environment; arguments without placeholders, and
/// placeholders of unset variables, are kept verbatim. The result
/// has one string per argument, in order.
pub fn substitute_params(args: &Vec<String>, env: &Store) -> (r: Vec<String>)
    requires
        env.wf(),
    ensures
        r@.len() == args@.len(),
        forall|k: int| 0 <= k < args@.len() ==> #[trigger] r@[k]@ == subst_spec(args@[k]@, env@),
        r.deep_view() == subst_all(args.deep_view(), env@),
{
    let mut r: Vec<String> = Vec::new();
    let n = args.len();
    let mut i: usize = 0;
    while i < n
        invariant
            env.wf(),
            n == args.len(),
            i <= n,
            r@.len() == i,
            forall|k: int| 0 <= k < i ==> #[trigger] r@[k]@ == subst_spec(args@[k]@, env@),
        decreases n - i,
    {
        let s = subst_one(args[i].as_str(), env);
        r.push(s);
        i = i + 1;
    }
    proof {
        assert forall|k: int| 0 <= k < args.deep_view().len() implies r.deep_view()[k] == subst_all(
            args.deep_view(),
            env@,
        )[k] by {
            assert(r.deep_view()[k] == r@[k].deep_view());
            assert(args.deep_view()[k] == args@[k].deep_view());
            assert(r@[k]@ == subst_spec(args@[k]@, env@));
        }
        assert(r.deep_view() =~= subst_all(args.deep_view(), env@));
    }
    r
}

} // verus!
