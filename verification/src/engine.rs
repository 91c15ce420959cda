//! The rewrite engine: rules are tried in order against the host, each
//! pattern anchored to the whole host string; the first match wins, its
//! absent groups are dropped, and the remaining group texts are substituted
//! into the rule's template.

use vstd::prelude::*;
use crate::chars::{char_vec_to_string, str_to_char_vec};
use crate::regex_link::{captures_of, groups_view, regex_captures, regex_new, valid_regex};
use crate::subst::{spec_substitute, substitute};

verus! {

/// One rewrite rule: a regex pattern, implicitly anchored to the whole host,
/// and a template with positional `{n}` placeholders.
pub struct Rule {
    pub pattern: String,
    pub template: String,
}

/// The fatal configuration error: a rule's pattern does not compile as a
/// regular expression. It names the offending pattern.
#[derive(Debug, PartialEq, Eq)]
pub struct InvalidPattern {
    pub pattern: String,
}

/// The pattern as it is compiled: wrapped in a non-capturing group between
/// `^` and `$`, so that the whole pattern — a top-level alternation included —
/// must match the whole host.
pub open spec fn spec_anchored(p: Seq<char>) -> Seq<char> {
    seq!['^', '(', '?', ':'] + p + seq![')', '$']
}

/// What matching a rule's pattern, anchored, against a host captures.
pub open spec fn spec_rule_captures(p: Seq<char>, h: Seq<char>) -> Option<Seq<Option<Seq<char>>>> {
    captures_of(spec_anchored(p), h)
}

/// The participating groups in order of appearance: absent groups are
/// dropped, so that placeholder indices refer only to groups that captured.
pub open spec fn participating(gs: Seq<Option<Seq<char>>>) -> Seq<Seq<char>>
    decreases gs.len(),
{
    if gs.len() == 0 {
        Seq::empty()
    } else {
        let rest = participating(gs.drop_first());
        match gs[0] {
            Some(g) => seq![g] + rest,
            None => rest,
        }
    }
}

/// The search outcome over a rule sequence: the index of the first rule
/// whose anchored pattern matches the host, with the groups it captured (the
/// whole match excluded), or no match after the whole sequence; or the first
/// pattern reached on the way that is invalid either as provided or in its
/// anchored form.
pub open spec fn spec_search(rules: Seq<Rule>, h: Seq<char>) -> Result<
    Option<(int, Seq<Option<Seq<char>>>)>,
    Seq<char>,
>
    decreases rules.len(),
{
    if rules.len() == 0 {
        Ok(None)
    } else if !valid_regex(rules[0].pattern@) || !valid_regex(spec_anchored(rules[0].pattern@)) {
        Err(rules[0].pattern@)
    } else {
        match spec_rule_captures(rules[0].pattern@, h) {
            Some(gs) => Ok(Some((0int, gs.drop_first()))),
            None => match spec_search(rules.drop_first(), h) {
                Ok(Some((i, gs))) => Ok(Some((i + 1, gs))),
                Ok(None) => Ok(None),
                Err(p) => Err(p),
            },
        }
    }
}

/// The rewrite outcome: the matched rule's template with the participating
/// group texts substituted for their placeholders; no match when no rule
/// matches; or the first invalid pattern reached.
pub open spec fn spec_rewrite(rules: Seq<Rule>, h: Seq<char>) -> Result<
    Option<Seq<char>>,
    Seq<char>,
> {
    match spec_search(rules, h) {
        Ok(None) => Ok(None),
        Ok(Some((i, gs))) => Ok(Some(spec_substitute(rules[i].template@, participating(gs)))),
        Err(p) => Err(p),
    }
}

/// The view of an executable search result.
pub open spec fn search_view(r: Result<Option<(usize, Vec<Option<String>>)>, InvalidPattern>)
    -> Result<Option<(int, Seq<Option<Seq<char>>>)>, Seq<char>> {
    match r {
        Ok(None) => Ok(None),
        Ok(Some((i, gs))) => Ok(Some((i as int, groups_view(gs@)))),
        Err(e) => Err(e.pattern@),
    }
}

/// The view of an executable rewrite result.
pub open spec fn rewrite_view(r: Result<Option<String>, InvalidPattern>) -> Result<
    Option<Seq<char>>,
    Seq<char>,
> {
    match r {
        Ok(None) => Ok(None),
        Ok(Some(s)) => Ok(Some(s@)),
        Err(e) => Err(e.pattern@),
    }
}

/// Matches one rule's pattern, anchored, against the host. On a match,
/// returns the captured groups in declaration order, the whole match
/// excluded, each either the captured text or absent. Fails exactly when the
/// pattern as provided, or its anchored form, is not a valid regex, naming
/// the pattern: an unbalanced pattern must not be accepted merely because
/// its parentheses re-balance around the anchoring wrapper, since such a
/// pattern's branches could escape the anchors.
pub fn match_rule(pattern: &str, host: &str) -> (r: Result<
    Option<Vec<Option<String>>>,
    InvalidPattern,
>)
    ensures
        r is Err <==> !valid_regex(pattern@) || !valid_regex(spec_anchored(pattern@)),
        r is Err ==> r->Err_0.pattern@ == pattern@,
        r is Ok ==> match spec_rule_captures(pattern@, host@) {
            Some(gs) => r->Ok_0 is Some && groups_view(r->Ok_0->Some_0@) == gs.drop_first(),
            None => r->Ok_0 is None,
        },
{
    if regex_new(pattern).is_none() {
        return Err(InvalidPattern { pattern: pattern.to_owned() });
    }
    let mut av: Vec<char> = Vec::new();
    av.push('^');
    av.push('(');
    av.push('?');
    av.push(':');
    let mut pv = str_to_char_vec(pattern);
    av.append(&mut pv);
    av.push(')');
    av.push('$');
    proof {
        assert(av@ =~= spec_anchored(pattern@));
    }
    let anchored = char_vec_to_string(&av);
    match regex_new(anchored.as_str()) {
        None => Err(InvalidPattern { pattern: pattern.to_owned() }),
        Some(re) => match regex_captures(&re, host) {
            None => Ok(None),
            Some(caps) => {
                let ghost gs = spec_rule_captures(pattern@, host@)->Some_0;
                let mut groups: Vec<Option<String>> = Vec::new();
                let mut i: usize = 1;
                proof {
                    assert(groups_view(groups@) =~= groups_view(caps@).subrange(1, 1));
                }
                while i < caps.len()
                    invariant
                        1 <= i <= caps.len(),
                        groups_view(groups@) == groups_view(caps@).subrange(1, i as int),
                    decreases caps.len() - i,
                {
                    let entry: Option<String> = match &caps[i] {
                        Some(s) => Some(s.clone()),
                        None => None,
                    };
                    let ghost before = groups@;
                    groups.push(entry);
                    i = i + 1;
                    proof {
                        let gvnew = groups_view(groups@);
                        let target = groups_view(caps@).subrange(1, i as int);
                        assert(groups_view(before).len() == before.len());
                        assert(groups_view(caps@).len() == caps@.len());
                        assert(gvnew.len() == target.len());
                        assert forall|k: int| 0 <= k < gvnew.len() implies gvnew[k]
                            == target[k] by {
                            if k < gvnew.len() - 1 {
                                assert(groups@[k] == before[k]);
                                assert(gvnew[k] == groups_view(before)[k]);
                                assert(target[k] == groups_view(caps@)[k + 1]);
                            } else {
                                assert(groups@[k] == entry);
                                assert(target[k] == groups_view(caps@)[i as int - 1]);
                            }
                        }
                        assert(gvnew =~= target);
                    }
                }
                proof {
                    assert(groups_view(caps@).subrange(1, caps@.len() as int) =~= groups_view(
                        caps@,
                    ).drop_first());
                    assert(groups_view(groups@) == gs.drop_first());
                }
                Ok(Some(groups))
            },
        },
    }
}

/// Shifts a search result's rule index by `d`.
spec fn shift_idx(
    r: Result<Option<(int, Seq<Option<Seq<char>>>)>, Seq<char>>,
    d: int,
) -> Result<Option<(int, Seq<Option<Seq<char>>>)>, Seq<char>> {
    match r {
        Ok(Some((i, gs))) => Ok(Some((i + d, gs))),
        Ok(None) => Ok(None),
        Err(p) => Err(p),
    }
}

/// Finds the first rule, in configured order, whose anchored pattern matches
/// the host, together with the groups it captured; the rules after it are
/// not consulted. Fails exactly where the search reaches a rule whose
/// pattern is invalid before any rule matched.
pub fn find_match(host: &str, rules: &Vec<Rule>) -> (r: Result<
    Option<(usize, Vec<Option<String>>)>,
    InvalidPattern,
>)
    ensures
        search_view(r) == spec_search(rules@, host@),
        r matches Ok(Some((i, gs))) ==> i < rules@.len(),
{
    let mut idx: usize = 0;
    proof {
        assert(rules@.skip(0) =~= rules@);
        assert(shift_idx(spec_search(rules@, host@), 0) == spec_search(rules@, host@));
    }
    while idx < rules.len()
        invariant
            idx <= rules.len(),
            spec_search(rules@, host@) == shift_idx(
                spec_search(rules@.skip(idx as int), host@),
                idx as int,
            ),
        decreases rules.len() - idx,
    {
        let ghost tail = rules@.skip(idx as int);
        proof {
            assert(tail[0] == rules@[idx as int]);
            assert(tail.drop_first() =~= rules@.skip(idx as int + 1));
        }
        match match_rule(rules[idx].pattern.as_str(), host) {
            Err(e) => {
                return Err(e);
            },
            Ok(Some(groups)) => {
                return Ok(Some((idx, groups)));
            },
            Ok(None) => {
                proof {
                    assert(spec_search(tail, host@) == shift_idx(
                        spec_search(rules@.skip(idx as int + 1), host@),
                        1,
                    ));
                    assert(shift_idx(
                        shift_idx(spec_search(rules@.skip(idx as int + 1), host@), 1),
                        idx as int,
                    ) == shift_idx(spec_search(rules@.skip(idx as int + 1), host@), idx as int + 1));
                }
                idx = idx + 1;
            },
        }
    }
    proof {
        assert(rules@.skip(rules@.len() as int) =~= Seq::<Rule>::empty());
    }
    Ok(None)
}

/// Rewrites the host by the first matching rule: its absent groups are
/// dropped, and the participating group texts are substituted for the `{n}`
/// placeholders of its template. Returns no value when no rule matches (the
/// caller keeps the original host), and fails exactly where the search
/// reaches an invalid pattern, naming that pattern.
pub fn rewrite(host: &str, rules: &Vec<Rule>) -> (r: Result<Option<String>, InvalidPattern>)
    ensures
        rewrite_view(r) == spec_rewrite(rules@, host@),
{
    match find_match(host, rules) {
        Err(e) => Err(e),
        Ok(None) => Ok(None),
        Ok(Some((i, groups))) => {
            let parts = filter_participating(&groups);
            let out = substitute(rules[i].template.as_str(), &parts);
            Ok(Some(out))
        },
    }
}

/// Drops the absent groups, keeping the captured texts in order of
/// appearance.
pub fn filter_participating(groups: &Vec<Option<String>>) -> (r: Vec<String>)
    ensures
        r@.map_values(|s: String| s@) == participating(groups_view(groups@)),
{
    let ghost gv = groups_view(groups@);
    let mut out: Vec<String> = Vec::new();
    let mut i: usize = 0;
    proof {
        assert(gv.skip(0) =~= gv);
        assert(out@.map_values(|s: String| s@) + participating(gv) =~= participating(gv));
    }
    while i < groups.len()
        invariant
            i <= groups.len(),
            gv == groups_view(groups@),
            gv.len() == groups@.len(),
            participating(gv) == out@.map_values(|s: String| s@) + participating(
                gv.skip(i as int),
            ),
        decreases groups.len() - i,
    {
        proof {
            assert(gv.skip(i as int)[0] == gv[i as int]);
            assert(gv.skip(i as int).drop_first() =~= gv.skip(i as int + 1));
        }
        let ghost out_before = out@;
        match &groups[i] {
            Some(s) => {
                let c = s.clone();
                out.push(c);
                proof {
                    assert(out@.map_values(|s: String| s@) =~= out_before.map_values(
                        |s: String| s@,
                    ).push(c@));
                    assert(gv[i as int] == Some(c@));
                    assert(out_before.map_values(|s: String| s@) + (seq![c@] + participating(
                        gv.skip(i as int + 1),
                    )) =~= out@.map_values(|s: String| s@) + participating(gv.skip(i as int + 1)));
                }
            },
            None => {
                proof {
                    assert(gv[i as int] is None);
                }
            },
        }
        i = i + 1;
    }
    proof {
        assert(gv.skip(gv.len() as int) =~= Seq::<Option<Seq<char>>>::empty());
        assert(out@.map_values(|s: String| s@) + participating(Seq::<Option<Seq<char>>>::empty())
            =~= out@.map_values(|s: String| s@));
    }
    out
}

/// An empty rule sequence never rewrites: the outcome is "no match", and the
/// caller keeps the original host.
pub proof fn lemma_rewrite_empty(h: Seq<char>)
    ensures
        spec_rewrite(Seq::<Rule>::empty(), h) == Ok::<Option<Seq<char>>, Seq<char>>(
            None::<Seq<char>>,
        ),
{
}

/// First match wins: when the first rule's anchored pattern is valid and
/// matches the host, the outcome is that rule's substitution, and the rules
/// after it play no part in it.
pub proof fn lemma_first_match_wins(rules: Seq<Rule>, h: Seq<char>)
    requires
        rules.len() > 0,
        valid_regex(rules[0].pattern@),
        valid_regex(spec_anchored(rules[0].pattern@)),
        spec_rule_captures(rules[0].pattern@, h) is Some,
    ensures
        spec_rewrite(rules, h) == Ok::<Option<Seq<char>>, Seq<char>>(
            Some(
                spec_substitute(
                    rules[0].template@,
                    participating(spec_rule_captures(rules[0].pattern@, h)->Some_0.drop_first()),
                ),
            ),
        ),
{
}

/// A first rule that matches without capturing anything — one whose pattern
/// declares no capture groups, a literal pattern in particular — rewrites the
/// host to its template exactly as written, and later rules play no part:
/// with no groups there is nothing to substitute.
pub proof fn lemma_capture_free_match_yields_template(rules: Seq<Rule>, h: Seq<char>)
    requires
        rules.len() > 0,
        valid_regex(rules[0].pattern@),
        valid_regex(spec_anchored(rules[0].pattern@)),
        spec_rule_captures(rules[0].pattern@, h) is Some,
        spec_rule_captures(rules[0].pattern@, h)->Some_0.len() == 1,
    ensures
        spec_rewrite(rules, h) == Ok::<Option<Seq<char>>, Seq<char>>(Some(rules[0].template@)),
{
    let gs = spec_rule_captures(rules[0].pattern@, h)->Some_0;
    assert(gs.drop_first() =~= Seq::<Option<Seq<char>>>::empty());
    assert(participating(gs.drop_first()) == Seq::<Seq<char>>::empty());
}

/// Absent groups are dropped before indexing: removing a group that did not
/// participate leaves the participating sequence, and with it every
/// placeholder binding, unchanged.
pub proof fn lemma_absent_group_dropped(gs: Seq<Option<Seq<char>>>, j: int)
    requires
        0 <= j < gs.len(),
        gs[j] is None,
    ensures
        participating(gs) == participating(gs.remove(j)),
    decreases j,
{
    if j == 0 {
        assert(gs.remove(0) =~= gs.drop_first());
    } else {
        lemma_absent_group_dropped(gs.drop_first(), j - 1);
        assert(gs.drop_first()[j - 1] == gs[j]);
        assert(gs.remove(j).drop_first() =~= gs.drop_first().remove(j - 1));
        assert(gs.remove(j)[0] == gs[0]);
    }
}

} // verus!
