//! Include/exclude glob filtering of repository lists. A `*` matches any
//! substring; the literal segments between stars are matched left to right,
//! each at its first occurrence; a pattern that does not end in a star
//! requires the text to end where its last segment ends. A repository is
//! matched against both its bare name and its qualified `owner/name` form.

use crate::models::{spec_full_name, Repo, RepoModel};
use crate::strutil::str_eq;
use vstd::prelude::*;

verus! {

/// The length of the leading star-free run of a pattern.
pub open spec fn upto_star(p: Seq<char>) -> nat
    decreases p.len(),
{
    if p.len() == 0 || p[0] == '*' {
        0
    } else {
        1 + upto_star(p.skip(1))
    }
}

proof fn lemma_upto_star_le(p: Seq<char>)
    ensures
        upto_star(p) <= p.len(),
    decreases p.len(),
{
    if p.len() == 0 || p[0] == '*' {
    } else {
        lemma_upto_star_le(p.skip(1));
    }
}

proof fn lemma_upto_star_at(p: Seq<char>, k: int)
    requires
        0 <= k <= p.len(),
        forall|m: int| 0 <= m < k ==> (#[trigger] p[m]) != '*',
        k < p.len() ==> p[k] == '*',
    ensures
        upto_star(p) == k,
    decreases k,
{
    if k == 0 {
    } else {
        assert(p[0] != '*');
        assert forall|m: int| 0 <= m < k - 1 implies (#[trigger] p.skip(1)[m]) != '*' by {
            assert(p.skip(1)[m] == p[m + 1]);
        }
        assert(k - 1 < p.skip(1).len() ==> p.skip(1)[k - 1] == '*');
        lemma_upto_star_at(p.skip(1), k - 1);
    }
}

/// The pattern split on stars, empty segments kept.
pub open spec fn split_star(p: Seq<char>) -> Seq<Seq<char>>
    decreases p.len(),
    via split_star_decreases
{
    let u = upto_star(p) as int;
    if u == p.len() {
        seq![p]
    } else {
        seq![p.take(u)] + split_star(p.skip(u + 1))
    }
}

#[via_fn]
proof fn split_star_decreases(p: Seq<char>) {
    lemma_upto_star_le(p);
}

/// The first position at or after `from` where `part` occurs in `text`.
pub open spec fn first_match_at(text: Seq<char>, part: Seq<char>, from: int) -> Option<int>
    decreases text.len() - from,
{
    if from + part.len() > text.len() {
        None
    } else if part.len() == 0 {
        Some(from)
    } else if text.subrange(from, from + part.len()) == part {
        Some(from)
    } else {
        first_match_at(text, part, from + 1)
    }
}

/// The greedy walk over the segments, from segment `i` at position `pos`:
/// each non-empty segment is located at its first occurrence, the first
/// segment anchored at the start; the result is the position after the
/// last located segment.
pub open spec fn glob_walk(parts: Seq<Seq<char>>, text: Seq<char>, pos: int, i: int) -> Option<
    int,
>
    decreases parts.len() - i,
{
    if i < 0 || i >= parts.len() {
        Some(pos)
    } else if parts[i].len() == 0 {
        glob_walk(parts, text, pos, i + 1)
    } else {
        match first_match_at(text, parts[i], pos) {
            Some(at) => if i == 0 && at != 0 {
                None
            } else {
                glob_walk(parts, text, at + parts[i].len(), i + 1)
            },
            None => None,
        }
    }
}

/// Whether the pattern matches the text: a starless pattern matches
/// exactly itself; otherwise the greedy walk must succeed, and a pattern
/// not ending in a star must account for the whole text.
pub open spec fn spec_glob_match(pattern: Seq<char>, text: Seq<char>) -> bool {
    let parts = split_star(pattern);
    if parts.len() == 1 {
        pattern == text
    } else {
        match glob_walk(parts, text, 0, 0) {
            Some(endpos) => pattern.len() > 0 && pattern.last() == '*' || endpos == text.len(),
            None => false,
        }
    }
}

/// Splits a pattern on stars.
fn split_pattern(pattern: &str) -> (parts: Vec<String>)
    ensures
        parts@.map_values(|s: String| s@) == split_star(pattern@),
        parts@.len() >= 1,
{
    let pm = pattern;
    let ghost whole = pattern@;
    let n = pattern.unicode_len();
    let mut parts: Vec<String> = Vec::new();
    let mut buf = String::new();
    let mut start: usize = 0;
    let mut i: usize = 0;
    proof {
        assert(whole.skip(0) =~= whole);
        assert(parts@.map_values(|s: String| s@) =~= Seq::<Seq<char>>::empty());
    }
    while i < n
        invariant
            0 <= start <= i <= n,
            n == whole.len(),
            whole == pm@,
            buf@ == whole.subrange(start as int, i as int),
            forall|m: int| start <= m < i ==> (#[trigger] whole[m]) != '*',
            split_star(whole) == parts@.map_values(|s: String| s@) + split_star(
                whole.skip(start as int),
            ),
        decreases n - i,
    {
        let c = pm.get_char(i);
        if c == '*' {
            let ghost rest = whole.skip(start as int);
            proof {
                assert forall|m: int| 0 <= m < i - start implies (#[trigger] rest[m]) != '*' by {
                    assert(rest[m] == whole[m + start]);
                }
                assert(rest[i - start] == whole[i as int]);
                lemma_upto_star_at(rest, i - start);
                assert(rest.take(i - start) =~= whole.subrange(start as int, i as int));
                assert(rest.skip(i - start + 1) =~= whole.skip(i + 1));
                assert(split_star(rest) == seq![buf@] + split_star(whole.skip(i + 1)));
            }
            let ghost partsm = parts@.map_values(|s: String| s@);
            parts.push(buf);
            proof {
                assert(parts@.map_values(|s: String| s@) =~= partsm.push(buf@));
                assert(partsm.push(buf@) =~= partsm + seq![buf@]);
            }
            buf = String::new();
            start = i + 1;
            proof {
                assert(buf@ =~= whole.subrange(start as int, start as int));
            }
        } else {
            buf.push(c);
            proof {
                assert(buf@ =~= whole.subrange(start as int, i + 1));
            }
        }
        i = i + 1;
    }
    let ghost rest = whole.skip(start as int);
    proof {
        assert forall|m: int| 0 <= m < n - start implies (#[trigger] rest[m]) != '*' by {
            assert(rest[m] == whole[m + start]);
        }
        lemma_upto_star_at(rest, n - start as int);
        assert(rest.take(n - start as int) =~= rest);
        assert(split_star(rest) == seq![rest]);
        assert(buf@ =~= rest);
    }
    let ghost partsm = parts@.map_values(|s: String| s@);
    parts.push(buf);
    proof {
        assert(parts@.map_values(|s: String| s@) =~= partsm.push(rest));
        assert(partsm.push(rest) =~= partsm + seq![rest]);
    }
    parts
}

/// Finds the first occurrence of a non-empty segment at or after `from`.
fn find_part(text: &str, part: &str, from: usize) -> (r: Option<usize>)
    requires
        part@.len() >= 1,
        from <= text@.len(),
    ensures
        match r {
            Some(at) => first_match_at(text@, part@, from as int) == Some(at as int) && from <= at,
            None => first_match_at(text@, part@, from as int) is None,
        },
{
    let n = text.unicode_len();
    let m = part.unicode_len();
    let mut cur: usize = from;
    loop
        invariant
            from <= cur,
            cur <= n + 1,
            n == text@.len(),
            m == part@.len(),
            m >= 1,
            first_match_at(text@, part@, from as int) == first_match_at(
                text@,
                part@,
                cur as int,
            ),
        ensures
            first_match_at(text@, part@, from as int) == first_match_at(
                text@,
                part@,
                cur as int,
            ),
            from <= cur,
            (cur + m <= n && text@.subrange(cur as int, cur + m) == part@) || cur + m > n,
        decreases n + 1 - cur,
    {
        if m > n || cur > n - m {
            break ;
        }
        let mut j: usize = 0;
        let mut matches = true;
        while j < m
            invariant
                j <= m,
                cur + m <= n,
                n == text@.len(),
                m == part@.len(),
                matches ==> forall|k: int| 0 <= k < j ==> text@[cur + k] == part@[k],
                !matches ==> text@.subrange(cur as int, cur + m) != part@,
            decreases m - j,
        {
            if !(text.get_char(cur + j) == part.get_char(j)) {
                proof {
                    assert(text@.subrange(cur as int, cur + m)[j as int] == text@[cur + j]);
                }
                matches = false;
                j = m;
            } else {
                j = j + 1;
            }
        }
        if matches {
            proof {
                assert(text@.subrange(cur as int, cur + m) =~= part@);
            }
            break ;
        }
        proof {
            assert(first_match_at(text@, part@, cur as int) == first_match_at(
                text@,
                part@,
                cur + 1,
            ));
        }
        cur = cur + 1;
    }
    if m <= n && cur <= n - m {
        proof {
            assert(first_match_at(text@, part@, cur as int) == Some(cur as int));
        }
        Some(cur)
    } else {
        proof {
            assert(first_match_at(text@, part@, cur as int) is None);
        }
        None
    }
}

/// Whether a glob pattern matches a text.
pub fn glob_match(pattern: &str, text: &str) -> (r: bool)
    ensures
        r == spec_glob_match(pattern@, text@),
{
    let parts = split_pattern(pattern);
    let ghost partsm = parts@.map_values(|s: String| s@);
    if parts.len() == 1 {
        return str_eq(pattern, text);
    }
    let n = text.unicode_len();
    let mut pos: usize = 0;
    let mut i: usize = 0;
    while i < parts.len()
        invariant
            i <= parts.len(),
            pos <= n,
            n == text@.len(),
            partsm == parts@.map_values(|s: String| s@),
            partsm == split_star(pattern@),
            partsm.len() >= 2,
            glob_walk(partsm, text@, 0, 0) == glob_walk(partsm, text@, pos as int, i as int),
        decreases parts.len() - i,
    {
        let ghost pm = partsm[i as int];
        proof {
            assert(pm == parts@[i as int]@);
        }
        if parts[i].as_str().is_empty() {
            i = i + 1;
            continue ;
        }
        match find_part(text, parts[i].as_str(), pos) {
            Some(at) => {
                if i == 0 && at != 0 {
                    proof {
                        assert(glob_walk(partsm, text@, 0, 0) is None);
                        assert(!spec_glob_match(pattern@, text@));
                    }
                    return false;
                }
                proof {
                    assert(first_match_at(text@, pm, pos as int) == Some(at as int));
                    assert(at + pm.len() <= n) by {
                        lemma_first_match_in_range(text@, pm, pos as int);
                    }
                }
                pos = at + parts[i].as_str().unicode_len();
                i = i + 1;
            },
            None => {
                proof {
                    assert(glob_walk(partsm, text@, 0, 0) is None);
                    assert(!spec_glob_match(pattern@, text@));
                }
                return false;
            },
        }
    }
    proof {
        assert(glob_walk(partsm, text@, 0, 0) == Some(pos as int));
    }
    // a pattern with stars has at least one character
    let plen = pattern.unicode_len();
    proof {
        if pattern@.len() == 0 {
            assert(upto_star(pattern@) == 0);
            assert(split_star(pattern@).len() == 1);
        }
        assert(plen >= 1);
    }
    let last = pattern.get_char(plen - 1);
    if last == '*' {
        proof {
            assert(spec_glob_match(pattern@, text@));
        }
        true
    } else {
        proof {
            assert(spec_glob_match(pattern@, text@) == (pos == n));
        }
        pos == n
    }
}

/// A located occurrence lies within the text.
proof fn lemma_first_match_in_range(text: Seq<char>, part: Seq<char>, from: int)
    requires
        0 <= from,
    ensures
        first_match_at(text, part, from) matches Some(at) ==> from <= at && at + part.len()
            <= text.len(),
    decreases text.len() - from,
{
    if from + part.len() > text.len() {
    } else if part.len() == 0 {
    } else if text.subrange(from, from + part.len()) == part {
    } else {
        lemma_first_match_in_range(text, part, from + 1);
    }
}

/// Whether the repository passes the configured include and exclude
/// patterns, matched against both its bare and qualified names.
pub open spec fn repo_passes(rm: RepoModel, inc: Seq<Seq<char>>, exc: Seq<Seq<char>>) -> bool {
    let full = spec_full_name(rm.owner, rm.name);
    let included = inc.len() == 0 || exists|k: int|
        0 <= k < inc.len() && (spec_glob_match(#[trigger] inc[k], full) || spec_glob_match(
            inc[k],
            rm.name,
        ));
    let excluded = exists|k: int|
        0 <= k < exc.len() && (spec_glob_match(#[trigger] exc[k], full) || spec_glob_match(
            exc[k],
            rm.name,
        ));
    included && !excluded
}

/// Whether any pattern matches the repository's qualified or bare name.
fn any_pattern_matches(
    patterns: &[String],
    full: &str,
    name: &str,
    Ghost(pm): Ghost<Seq<Seq<char>>>,
) -> (r: bool)
    requires
        pm == patterns@.map_values(|s: String| s@),
    ensures
        r == exists|k: int|
            0 <= k < pm.len() && (spec_glob_match(#[trigger] pm[k], full@) || spec_glob_match(
                pm[k],
                name@,
            )),
{
    let mut k: usize = 0;
    while k < patterns.len()
        invariant
            k <= patterns@.len(),
            pm == patterns@.map_values(|s: String| s@),
            forall|m: int|
                0 <= m < k ==> !(spec_glob_match(#[trigger] pm[m], full@) || spec_glob_match(
                    pm[m],
                    name@,
                )),
        decreases patterns.len() - k,
    {
        proof {
            assert(pm[k as int] == patterns@[k as int]@);
        }
        if glob_match(patterns[k].as_str(), full) || glob_match(patterns[k].as_str(), name) {
            return true;
        }
        k = k + 1;
    }
    false
}

/// Keeps the repositories that pass the include/exclude patterns, in
/// order.
pub fn filter_repos(
    repos: Vec<Repo>,
    include_patterns: &[String],
    exclude_patterns: &[String],
) -> (r: Vec<Repo>)
    ensures
        r@.map_values(|x: Repo| x@) == repos@.map_values(|x: Repo| x@).filter(
            |rm: RepoModel|
                repo_passes(
                    rm,
                    include_patterns@.map_values(|s: String| s@),
                    exclude_patterns@.map_values(|s: String| s@),
                ),
        ),
{
    let ghost inm = repos@.map_values(|x: Repo| x@);
    let ghost incm = include_patterns@.map_values(|s: String| s@);
    let ghost excm = exclude_patterns@.map_values(|s: String| s@);
    let ghost pred = |rm: RepoModel| repo_passes(rm, incm, excm);
    let mut r: Vec<Repo> = Vec::new();
    let mut i: usize = 0;
    proof {
        reveal(Seq::filter);
        assert(inm.take(0).filter(pred) =~= Seq::<RepoModel>::empty());
        assert(r@.map_values(|x: Repo| x@) =~= Seq::<RepoModel>::empty());
    }
    while i < repos.len()
        invariant
            i <= repos.len(),
            inm == repos@.map_values(|x: Repo| x@),
            incm == include_patterns@.map_values(|s: String| s@),
            excm == exclude_patterns@.map_values(|s: String| s@),
            pred == (|rm: RepoModel| repo_passes(rm, incm, excm)),
            r@.map_values(|x: Repo| x@) == inm.take(i as int).filter(pred),
        decreases repos.len() - i,
    {
        let ghost rme = r@.map_values(|x: Repo| x@);
        proof {
            assert(inm[i as int] == repos@[i as int]@);
            crate::sequtil::lemma_filter_take_step(inm, pred, i as int);
        }
        let full = repos[i].full_name();
        let passes_include = include_patterns.len() == 0 || any_pattern_matches(
            include_patterns,
            full.as_str(),
            repos[i].name.as_str(),
            Ghost(incm),
        );
        let hits_exclude = any_pattern_matches(
            exclude_patterns,
            full.as_str(),
            repos[i].name.as_str(),
            Ghost(excm),
        );
        proof {
            assert(full@ == spec_full_name(inm[i as int].owner, inm[i as int].name));
            assert(repos@[i as int]@.name == inm[i as int].name);
            assert((passes_include && !hits_exclude) == repo_passes(inm[i as int], incm, excm));
        }
        if passes_include && !hits_exclude {
            r.push(repos[i].clone());
            proof {
                assert(r@.map_values(|x: Repo| x@) =~= rme.push(inm[i as int]));
                assert(r@.map_values(|x: Repo| x@) == inm.take(i + 1).filter(pred));
            }
        } else {
            proof {
                assert(r@.map_values(|x: Repo| x@) == inm.take(i + 1).filter(pred));
            }
        }
        i = i + 1;
    }
    proof {
        assert(inm.take(repos@.len() as int) =~= inm);
    }
    r
}

} // verus!
