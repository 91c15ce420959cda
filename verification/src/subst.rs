//! Template substitution: every literal occurrence of the placeholder `{i}`
//! (for `i` from 1 to the number of captured groups) in a template is replaced
//! by the text of group `i`. Placeholders whose index exceeds the number of
//! groups are left in the output as literal text.

use vstd::prelude::*;
use crate::chars::{char_vec_to_string, decimal_chars, spec_decimal, str_to_char_vec};

verus! {

/// Replacement of every non-overlapping occurrence of `from` in `s` by `to`,
/// scanning left to right. An empty `from` replaces nothing.
pub open spec fn spec_replace(s: Seq<char>, from: Seq<char>, to: Seq<char>) -> Seq<char>
    decreases s.len(),
{
    if from.len() == 0 || s.len() < from.len() {
        s
    } else if s.subrange(0, from.len() as int) == from {
        to + spec_replace(s.skip(from.len() as int), from, to)
    } else {
        seq![s[0]] + spec_replace(s.skip(1), from, to)
    }
}

/// Whether `sub` occurs as a contiguous subsequence of `s`.
pub open spec fn occurs_in(s: Seq<char>, sub: Seq<char>) -> bool {
    exists|k: int|
        0 <= k && k + sub.len() <= s.len() && #[trigger] s.subrange(k, k + sub.len() as int) == sub
}

/// Whether `from` stands at position `i` of `s`.
fn matches_at(s: &Vec<char>, i: usize, from: &Vec<char>) -> (b: bool)
    requires
        i <= s.len(),
    ensures
        b <==> (i + from@.len() <= s@.len() && s@.subrange(i as int, i as int + from@.len() as int)
            == from@),
{
    if s.len() - i < from.len() {
        return false;
    }
    let slen = s.len();
    let mut j: usize = 0;
    while j < from.len()
        invariant
            i + from@.len() <= s@.len(),
            s@.len() == slen,
            j <= from.len(),
            forall|k: int| 0 <= k < j ==> s@[i + k] == from@[k],
        decreases from.len() - j,
    {
        proof {
            assert(i + j < s@.len());
        }
        if s[i + j] != from[j] {
            proof {
                let sub = s@.subrange(i as int, i as int + from@.len() as int);
                assert(sub[j as int] != from@[j as int]);
            }
            return false;
        }
        j = j + 1;
    }
    proof {
        assert(s@.subrange(i as int, i as int + from@.len() as int) =~= from@);
    }
    true
}

/// Replaces every non-overlapping occurrence of `from` in `s` by `to`,
/// scanning left to right.
pub fn replace_all(s: &Vec<char>, from: &Vec<char>, to: &Vec<char>) -> (r: Vec<char>)
    requires
        from.len() >= 1,
    ensures
        r@ == spec_replace(s@, from@, to@),
{
    let mut out: Vec<char> = Vec::new();
    let mut i: usize = 0;
    proof {
        assert(s@.skip(0) =~= s@);
        assert(Seq::<char>::empty() + spec_replace(s@, from@, to@) =~= spec_replace(
            s@,
            from@,
            to@,
        ));
    }
    while i < s.len()
        invariant
            i <= s.len(),
            from.len() >= 1,
            spec_replace(s@, from@, to@) == out@ + spec_replace(s@.skip(i as int), from@, to@),
        decreases s.len() - i,
    {
        if matches_at(s, i, from) {
            proof {
                let rest = s@.skip(i as int);
                assert(rest.subrange(0, from@.len() as int) =~= s@.subrange(
                    i as int,
                    i as int + from@.len() as int,
                ));
                assert(rest.skip(from@.len() as int) =~= s@.skip(i as int + from@.len() as int));
            }
            let mut j: usize = 0;
            let ghost out_before = out@;
            while j < to.len()
                invariant
                    j <= to.len(),
                    out@ == out_before + to@.take(j as int),
                decreases to.len() - j,
            {
                out.push(to[j]);
                j = j + 1;
                proof {
                    assert(out@ =~= out_before + to@.take(j as int));
                }
            }
            proof {
                assert(to@.take(to.len() as int) =~= to@);
                assert(out@ + spec_replace(s@.skip(i as int + from@.len() as int), from@, to@)
                    =~= out_before + spec_replace(s@.skip(i as int), from@, to@));
            }
            i = i + from.len();
        } else {
            proof {
                let rest = s@.skip(i as int);
                if rest.len() >= from@.len() {
                    assert(rest.subrange(0, from@.len() as int) =~= s@.subrange(
                        i as int,
                        i as int + from@.len() as int,
                    ));
                }
                assert(rest.skip(1) =~= s@.skip(i as int + 1));
                assert(seq![s@[i as int]] + spec_replace(s@.skip(i as int + 1), from@, to@)
                    == spec_replace(rest, from@, to@));
            }
            out.push(s[i]);
            i = i + 1;
            proof {
                assert(out@ + spec_replace(s@.skip(i as int), from@, to@) =~= out@.drop_last()
                    + spec_replace(s@.skip(i as int - 1), from@, to@));
            }
        }
    }
    proof {
        assert(s@.skip(s@.len() as int) =~= Seq::<char>::empty());
        assert(out@ + spec_replace(Seq::<char>::empty(), from@, to@) =~= out@);
    }
    out
}

/// The placeholder text `{n}`.
pub open spec fn spec_placeholder(n: nat) -> Seq<char> {
    seq!['{'] + spec_decimal(n) + seq!['}']
}

/// The characters of the placeholder `{n}`.
pub fn placeholder_chars(n: usize) -> (r: Vec<char>)
    ensures
        r@ == spec_placeholder(n as nat),
{
    let mut v: Vec<char> = Vec::new();
    v.push('{');
    let mut digits = decimal_chars(n);
    v.append(&mut digits);
    v.push('}');
    proof {
        assert(v@ =~= spec_placeholder(n as nat));
    }
    v
}

/// The template after substituting groups `1` to `n`: group texts are
/// substituted for their placeholders in index order.
pub open spec fn spec_substitute_upto(template: Seq<char>, groups: Seq<Seq<char>>, n: int) -> Seq<
    char,
>
    decreases n,
{
    if n <= 0 {
        template
    } else {
        spec_replace(
            spec_substitute_upto(template, groups, n - 1),
            spec_placeholder(n as nat),
            groups[n - 1],
        )
    }
}

/// The template after substituting every group for its placeholder: for each
/// `i` from 1 to the number of groups, every occurrence of `{i}` is replaced
/// by the text of group `i`.
pub open spec fn spec_substitute(template: Seq<char>, groups: Seq<Seq<char>>) -> Seq<char> {
    spec_substitute_upto(template, groups, groups.len() as int)
}

/// Replacement of a needle that occurs nowhere in the text changes nothing.
pub proof fn lemma_replace_absent(s: Seq<char>, from: Seq<char>, to: Seq<char>)
    requires
        from.len() > 0,
        !occurs_in(s, from),
    ensures
        spec_replace(s, from, to) == s,
    decreases s.len(),
{
    if s.len() < from.len() {
    } else {
        assert(s.subrange(0, from.len() as int) != from) by {
            if s.subrange(0int, 0int + from.len() as int) == from {
                assert(occurs_in(s, from));
            }
        }
        assert(!occurs_in(s.skip(1), from)) by {
            if occurs_in(s.skip(1), from) {
                let k = choose|k: int|
                    0 <= k && k + from.len() <= s.skip(1).len() && #[trigger] s.skip(1).subrange(
                        k,
                        k + from.len() as int,
                    ) == from;
                assert(s.subrange(k + 1, (k + 1) + from.len() as int) =~= s.skip(1).subrange(
                    k,
                    k + from.len() as int,
                ));
                assert(occurs_in(s, from));
            }
        }
        lemma_replace_absent(s.skip(1), from, to);
        assert(seq![s[0]] + s.skip(1) =~= s);
    }
}

proof fn lemma_substitute_upto_unresolved(template: Seq<char>, groups: Seq<Seq<char>>, n: int)
    requires
        n <= groups.len(),
        forall|i: int| 1 <= i <= n ==> !occurs_in(template, #[trigger] spec_placeholder(i as nat)),
    ensures
        spec_substitute_upto(template, groups, n) == template,
    decreases n,
{
    if n <= 0 {
    } else {
        lemma_substitute_upto_unresolved(template, groups, n - 1);
        assert(spec_placeholder(n as nat).len() > 0);
        lemma_replace_absent(template, spec_placeholder(n as nat), groups[n - 1]);
    }
}

/// Unresolved placeholders are left as literal text: a template in which no
/// placeholder `{i}` with `i` between 1 and the number of groups occurs is
/// returned by substitution exactly as it is.
pub proof fn lemma_substitute_unresolved(template: Seq<char>, groups: Seq<Seq<char>>)
    requires
        forall|i: int|
            1 <= i <= groups.len() ==> !occurs_in(template, #[trigger] spec_placeholder(i as nat)),
    ensures
        spec_substitute(template, groups) == template,
{
    lemma_substitute_upto_unresolved(template, groups, groups.len() as int);
}

/// Substitutes the group texts for their `{n}` placeholders in the template:
/// every occurrence of `{1}` is replaced by the first group, then `{2}` by the
/// second, and so on. Placeholders beyond the number of groups stay as they
/// are.
pub fn substitute(template: &str, groups: &Vec<String>) -> (r: String)
    ensures
        r@ == spec_substitute(template@, groups@.map_values(|g: String| g@)),
{
    let ghost gviews = groups@.map_values(|g: String| g@);
    let mut t = str_to_char_vec(template);
    let mut k: usize = 0;
    while k < groups.len()
        invariant
            k <= groups.len(),
            gviews == groups@.map_values(|g: String| g@),
            gviews.len() == groups@.len(),
            t@ == spec_substitute_upto(template@, gviews, k as int),
        decreases groups.len() - k,
    {
        let ph = placeholder_chars(k + 1);
        let g = str_to_char_vec(groups[k].as_str());
        proof {
            assert(spec_placeholder((k + 1) as nat).len() >= 3);
            assert(gviews[k as int] == groups@[k as int]@);
        }
        t = replace_all(&t, &ph, &g);
        k = k + 1;
    }
    char_vec_to_string(&t)
}

} // verus!
