//! The pass runner and file driver: one rule drives the engine across
//! the whole text until no match is left; the rule list runs in order,
//! each pass consuming the previous pass's output.

use vstd::prelude::*;
use vstd::string::*;
use crate::engine::FileTransformer;
use crate::engine::cat;
use crate::engine::extend_bytes;
use crate::errors::ConfigError;
use crate::errors::RunError;
use crate::modifiers::apply_modifier;
use crate::modifiers::apply_modifier_spec;
use crate::re::CompiledRegex;
use crate::re::MatchCaps;
use crate::re::escape_of;
use crate::re::groups_view;
use crate::re::regex_captures;
use crate::re::regex_escape;
use crate::re::regex_new;
use crate::re::regex_ok;
use crate::re::regex_search;
use crate::template::PartV;
use crate::template::ReplacePart;
use crate::template::TmplErr;
use crate::template::parse_replace;
use crate::template::plan_view;
use crate::template::tmpl_spec;

verus! {

/// A rule: a compiled search pattern and a compiled replacement plan.
/// Immutable once built, shared read-only by every text it runs over.
#[derive(Debug)]
pub struct SearchReplace {
    pub search: CompiledRegex,
    pub replace: Vec<ReplacePart>,
}

/// The mathematical form of a rule.
pub struct RuleV {
    pub pat: Seq<char>,
    pub plan: Seq<PartV>,
}

impl View for SearchReplace {
    type V = RuleV;

    open spec fn view(&self) -> RuleV {
        RuleV { pat: self.search.pat(), plan: plan_view(self.replace@) }
    }
}

/// The mathematical form of a rule list.
pub open spec fn rules_view(rules: Seq<SearchReplace>) -> Seq<RuleV> {
    Seq::new(rules.len(), |i: int| rules[i]@)
}

/// What expanding a plan against one match's capture groups yields:
/// literals verbatim, each back-reference the (optionally transformed)
/// text of its group; `None` when a back-reference names a group the
/// match did not provide.
pub open spec fn expand_spec(plan: Seq<PartV>, groups: Seq<Option<Seq<u8>>>) -> Option<Seq<u8>>
    decreases plan.len(),
{
    if plan.len() == 0 {
        Some(Seq::empty())
    } else {
        let rest = expand_spec(plan.drop_first(), groups);
        match plan[0] {
            PartV::Str(s) => match rest {
                Some(r) => Some(s + r),
                None => None,
            },
            PartV::Match(id, m) => if id < groups.len() {
                match groups[id as int] {
                    Some(g) => {
                        let piece = match m {
                            Some(mm) => apply_modifier_spec(mm, g),
                            None => g,
                        };
                        match rest {
                            Some(r) => Some(piece + r),
                            None => None,
                        }
                    },
                    None => None,
                }
            } else {
                None
            },
        }
    }
}

/// Expand a compiled plan against the capture groups of one match.
pub fn expand(plan: &Vec<ReplacePart>, caps: &MatchCaps) -> (r: Result<Vec<u8>, RunError>)
    ensures
        match r {
            Ok(out) => expand_spec(plan_view(plan@), groups_view(caps.groups@)) == Some(out@),
            Err(_) => expand_spec(plan_view(plan@), groups_view(caps.groups@)) is None,
        },
{
    let ghost pv = plan_view(plan@);
    let ghost gv = groups_view(caps.groups@);
    let mut out: Vec<u8> = Vec::new();
    let mut k: usize = 0;
    proof {
        assert(pv.skip(0) =~= pv);
        match expand_spec(pv, gv) {
            Some(rest) => {
                assert(Seq::<u8>::empty() + rest =~= rest);
            },
            None => {},
        }
    }
    while k < plan.len()
        invariant
            pv == plan_view(plan@),
            gv == groups_view(caps.groups@),
            k <= plan@.len(),
            match expand_spec(pv.skip(k as int), gv) {
                Some(rest) => expand_spec(pv, gv) == Some(out@ + rest),
                None => expand_spec(pv, gv) is None,
            },
        decreases plan@.len() - k,
    {
        proof {
            assert(pv.skip(k as int).drop_first() =~= pv.skip(k + 1));
            assert(pv.skip(k as int)[0] == pv[k as int]);
        }
        let ghost out0 = out@;
        match &plan[k] {
            ReplacePart::Str(v) => {
                extend_bytes(&mut out, v.as_slice());
                proof {
                    match expand_spec(pv.skip(k + 1), gv) {
                        Some(rest) => {
                            assert(out0 + (v@ + rest) =~= (out0 + v@) + rest);
                        },
                        None => {},
                    }
                }
            },
            ReplacePart::Match(g) => {
                if g.id < caps.groups.len() {
                    match &caps.groups[g.id] {
                        Some(bytes) => {
                            let ghost piece = match g.transform {
                                Some(mm) => apply_modifier_spec(mm, bytes@),
                                None => bytes@,
                            };
                            match g.transform {
                                Some(m) => {
                                    let transformed = apply_modifier(m, bytes.as_slice());
                                    extend_bytes(&mut out, transformed.as_slice());
                                },
                                None => {
                                    extend_bytes(&mut out, bytes.as_slice());
                                },
                            }
                            proof {
                                assert(gv[g.id as int] == Some(bytes@));
                                match expand_spec(pv.skip(k + 1), gv) {
                                    Some(rest) => {
                                        assert(out0 + (piece + rest) =~= (out0 + piece) + rest);
                                    },
                                    None => {},
                                }
                            }
                        },
                        None => {
                            proof {
                                assert(gv[g.id as int] is None);
                                assert(expand_spec(pv.skip(k as int), gv) is None);
                            }
                            return Err(RunError::MissingGroup(g.id));
                        },
                    }
                } else {
                    proof {
                        assert(gv.len() == caps.groups@.len());
                        assert(expand_spec(pv.skip(k as int), gv) is None);
                    }
                    return Err(RunError::MissingGroup(g.id));
                }
            },
        }
        k = k + 1;
    }
    proof {
        assert(pv.skip(plan@.len() as int) =~= Seq::<PartV>::empty());
        assert(out@ + Seq::<u8>::empty() =~= out@);
    }
    Ok(out)
}

/// Whether the rule's pattern compiles from these inputs, and what it
/// compiles to.
pub open spec fn rule_from_inputs(rv: RuleV, search: Seq<char>, template: Seq<u8>, escape: bool) -> bool {
    if escape {
        rv.pat == escape_of(search) && rv.plan == seq![PartV::Str(template)]
    } else {
        rv.pat == search && tmpl_spec(template, 0) == Ok::<Seq<PartV>, TmplErr>(rv.plan)
    }
}

/// Compile one search pattern and one replacement template into a
/// rule.  The pattern is compiled first; then the template.
pub fn parse(search: &str, replace: &str) -> (r: Result<SearchReplace, ConfigError>)
    ensures
        match r {
            Ok(sr) => regex_ok(search@) && rule_from_inputs(sr@, search@, replace.spec_bytes(), false),
            Err(ConfigError::BadRegex(_)) => !regex_ok(search@),
            Err(ConfigError::UnknownModifier(n)) => regex_ok(search@) && tmpl_spec(
                replace.spec_bytes(),
                0,
            ) == Err::<Seq<PartV>, TmplErr>(TmplErr::UnknownModifier(n@)),
            Err(ConfigError::GroupTooBig) => regex_ok(search@) && tmpl_spec(
                replace.spec_bytes(),
                0,
            ) == Err::<Seq<PartV>, TmplErr>(TmplErr::GroupTooBig),
            Err(ConfigError::EmptyGroupNumber) => regex_ok(search@) && tmpl_spec(
                replace.spec_bytes(),
                0,
            ) == Err::<Seq<PartV>, TmplErr>(TmplErr::EmptyGroupNumber),
            Err(ConfigError::UnequalCounts) => false,
        },
{
    let compiled = match regex_new(search) {
        Ok(c) => c,
        Err(e) => {
            return Err(ConfigError::BadRegex(e));
        },
    };
    let plan = match parse_replace(replace.as_bytes()) {
        Ok(p) => p,
        Err(e) => {
            return Err(e);
        },
    };
    Ok(SearchReplace { search: compiled, replace: plan })
}

/// Compile one rule in escape mode: the search string is matched
/// literally and the replacement is a single literal fragment, so no
/// capture expansion is possible.
pub fn parse_escaped(search: &str, replace: &str) -> (r: Result<SearchReplace, ConfigError>)
    ensures
        match r {
            Ok(sr) => regex_ok(escape_of(search@)) && rule_from_inputs(
                sr@,
                search@,
                replace.spec_bytes(),
                true,
            ),
            Err(ConfigError::BadRegex(_)) => !regex_ok(escape_of(search@)),
            Err(_) => false,
        },
{
    let escaped = regex_escape(search);
    let compiled = match regex_new(escaped.as_str()) {
        Ok(c) => c,
        Err(e) => {
            return Err(ConfigError::BadRegex(e));
        },
    };
    let lit = replace.as_bytes_vec();
    let mut plan: Vec<ReplacePart> = Vec::new();
    plan.push(ReplacePart::Str(lit));
    proof {
        assert(plan_view(plan@) =~= seq![PartV::Str(replace.spec_bytes())]);
    }
    Ok(SearchReplace { search: compiled, replace: plan })
}

/// Whether a pattern matches anywhere in a text.
pub open spec fn pass_matches(pat: Seq<char>, text: Seq<u8>) -> bool {
    regex_search(pat, text) is Some
}

/// The text one pass produces from `head` on: the gap before the
/// match is kept, the matched span is dropped and the expanded plan
/// inserted, and after a zero-width match one extra unit is kept so
/// the head always advances.  `None` when a replacement names a
/// capture group the match did not provide.
pub open spec fn pass_from(pat: Seq<char>, plan: Seq<PartV>, text: Seq<u8>, head: int) -> Option<
    Seq<u8>,
>
    decreases text.len() - head,
    when 0 <= head <= text.len()
{
    let rem = text.subrange(head, text.len() as int);
    match regex_search(pat, rem) {
        None => Some(rem),
        Some(m) => {
            if 0 <= m.0 && m.0 <= m.1 && m.1 <= rem.len() {
                match expand_spec(plan, m.2) {
                    None => None,
                    Some(rep) => {
                        if m.1 > m.0 {
                            match pass_from(pat, plan, text, head + m.1) {
                                None => None,
                                Some(rest) => Some(rem.subrange(0, m.0) + rep + rest),
                            }
                        } else {
                            if head + m.1 < text.len() {
                                match pass_from(pat, plan, text, head + m.1 + 1) {
                                    None => None,
                                    Some(rest) => Some(
                                        rem.subrange(0, m.0) + rep + seq![text[head + m.1]] + rest,
                                    ),
                                }
                            } else {
                                Some(rem.subrange(0, m.0) + rep)
                            }
                        }
                    },
                }
            } else {
                Some(rem)
            }
        },
    }
}

/// The final text and changed flag after the rules run in order, each
/// pass consuming the previous pass's output.  The changed flag says
/// whether any rule matched anywhere.  `None` when some pass's
/// replacement names a missing capture group.
pub open spec fn apply_rules(rules: Seq<RuleV>, text: Seq<u8>) -> Option<(Seq<u8>, bool)>
    decreases rules.len(),
{
    if rules.len() == 0 {
        Some((text, false))
    } else {
        match pass_from(rules[0].pat, rules[0].plan, text, 0) {
            None => None,
            Some(t1) => match apply_rules(rules.drop_first(), t1) {
                None => None,
                Some(p) => Some((p.0, p.1 || pass_matches(rules[0].pat, text))),
            },
        }
    }
}

/// Run one rule over the engine's current text: one full pass.
///
/// The loop's `decreases` clause is the termination guarantee: the
/// read head advances by at least one unit after every match, also
/// after a zero-width one, so no pattern can stall the pass.
#[verifier::rlimit(60)]
pub fn run_pass(sr: &SearchReplace, ft: &mut FileTransformer) -> (r: Result<(), RunError>)
    requires
        old(ft).wf(),
        old(ft).head() == 0,
        old(ft).frags() == Seq::<Seq<u8>>::empty(),
    ensures
        match r {
            Ok(_) => {
                &&& final(ft).wf()
                &&& final(ft).head() == 0
                &&& final(ft).frags() == Seq::<Seq<u8>>::empty()
                &&& Some(final(ft).text()) == pass_from(sr@.pat, sr@.plan, old(ft).text(), 0)
                &&& final(ft).is_modified() == (old(ft).is_modified() || pass_matches(
                    sr@.pat,
                    old(ft).text(),
                ))
            },
            Err(_) => pass_from(sr@.pat, sr@.plan, old(ft).text(), 0) is None,
        },
{
    let ghost text0 = old(ft).text();
    let ghost patv = sr@.pat;
    let ghost planv = sr@.plan;
    let ghost mod0 = old(ft).is_modified();
    let ghost mut matched = false;
    loop
        invariant_except_break
            match pass_from(patv, planv, text0, ft.head()) {
                Some(rest) => pass_from(patv, planv, text0, 0) == Some(cat(ft.frags()) + rest),
                None => pass_from(patv, planv, text0, 0) is None,
            },
        invariant
            sr@.pat == patv,
            sr@.plan == planv,
            text0 == old(ft).text(),
            mod0 == old(ft).is_modified(),
            ft.wf(),
            ft.text() == text0,
            0 <= ft.head() <= text0.len(),
            ft.is_modified() == (mod0 || matched),
            matched ==> pass_matches(patv, text0),
            !matched ==> ft.head() == 0 && ft.frags() == Seq::<Seq<u8>>::empty(),
        ensures
            pass_from(patv, planv, text0, 0) == Some(
                cat(ft.frags()) + text0.subrange(ft.head(), text0.len() as int),
            ),
            !matched ==> !pass_matches(patv, text0),
        decreases text0.len() - ft.head(),
    {
        let ghost h0 = ft.head();
        let ghost frags0 = ft.frags();
        let rem = ft.get_reader();
        let rem_len = rem.len();
        let caps_opt = regex_captures(&sr.search, rem);
        match caps_opt {
            None => {
                proof {
                    if !matched {
                        assert(text0.subrange(0, text0.len() as int) =~= text0);
                    }
                }
                break;
            },
            Some(m) => {
                proof {
                    if !matched {
                        assert(text0.subrange(0, text0.len() as int) =~= text0);
                    }
                    matched = true;
                }
                let ghost gap = text0.subrange(h0, h0 + m.start as int);
                ft.reader_push(m.start);
                ft.reader_skip(m.end - m.start);
                let rep = match expand(&sr.replace, &m) {
                    Ok(rep) => rep,
                    Err(e) => {
                        proof {
                            assert(pass_from(patv, planv, text0, h0) is None);
                        }
                        return Err(e);
                    },
                };
                let ghost repv = rep@;
                let ghost s = m.start as int;
                let ghost e = m.end as int;
                ft.push(rep);
                proof {
                    crate::engine::lemma_cat_push(frags0, gap);
                    crate::engine::lemma_cat_push(frags0.push(gap), repv);
                    assert(gap =~= rem@.subrange(0, s));
                }
                if m.end == m.start {
                    if m.end < rem_len {
                        let ghost frags1 = ft.frags();
                        let ghost unit = text0.subrange(h0 + e, h0 + e + 1);
                        ft.reader_push(1);
                        proof {
                            crate::engine::lemma_cat_push(frags1, unit);
                            assert(unit =~= seq![text0[h0 + e]]);
                            match pass_from(patv, planv, text0, h0 + e + 1) {
                                Some(rest) => {
                                    assert(pass_from(patv, planv, text0, h0) == Some(
                                        rem@.subrange(0, s) + repv + seq![text0[h0 + e]] + rest,
                                    ));
                                    assert(cat(frags0) + (rem@.subrange(0, s) + repv + seq![
                                        text0[h0 + e],
                                    ] + rest) =~= cat(ft.frags()) + rest);
                                },
                                None => {},
                            }
                        }
                    } else {
                        proof {
                            assert(h0 + e == text0.len());
                            assert(pass_from(patv, planv, text0, h0) == Some(
                                rem@.subrange(0, s) + repv,
                            ));
                            assert(cat(frags0) + (rem@.subrange(0, s) + repv) =~= cat(
                                ft.frags(),
                            ));
                            assert(text0.subrange(ft.head(), text0.len() as int) =~= Seq::<
                                u8,
                            >::empty());
                            assert(cat(ft.frags()) + Seq::<u8>::empty() =~= cat(ft.frags()));
                        }
                        break;
                    }
                } else {
                    proof {
                        match pass_from(patv, planv, text0, h0 + e) {
                            Some(rest) => {
                                assert(pass_from(patv, planv, text0, h0) == Some(
                                    rem@.subrange(0, s) + repv + rest,
                                ));
                                assert(cat(frags0) + (rem@.subrange(0, s) + repv + rest) =~= cat(
                                    ft.frags(),
                                ) + rest);
                            },
                            None => {},
                        }
                    }
                }
            },
        }
    }
    ft.reset_reader();
    Ok(())
}

/// Run every rule, in order, over a text: the pass runner's driver.
///
/// On success the result is the final text and whether any rule
/// matched anywhere; a text with zero matches across all rules comes
/// back unchanged and unflagged, so its file is never rewritten.
pub fn sr_text(search_replace: &Vec<SearchReplace>, text: Vec<u8>) -> (r: Result<
    (Vec<u8>, bool),
    RunError,
>)
    ensures
        match r {
            Ok(p) => apply_rules(rules_view(search_replace@), text@) == Some((p.0@, p.1)),
            Err(_) => apply_rules(rules_view(search_replace@), text@) is None,
        },
{
    let ghost text0 = text@;
    let ghost rv = rules_view(search_replace@);
    let mut ft = FileTransformer::new(text);
    let mut k: usize = 0;
    proof {
        assert(rv.skip(0) =~= rv);
    }
    while k < search_replace.len()
        invariant
            rv == rules_view(search_replace@),
            text0 == text@,
            k <= search_replace@.len(),
            ft.wf(),
            ft.head() == 0,
            ft.frags() == Seq::<Seq<u8>>::empty(),
            match apply_rules(rv.skip(k as int), ft.text()) {
                Some(p) => apply_rules(rv, text0) == Some((p.0, ft.is_modified() || p.1)),
                None => apply_rules(rv, text0) is None,
            },
        decreases search_replace@.len() - k,
    {
        proof {
            assert(rv.skip(k as int)[0] == rv[k as int]);
            assert(rv.skip(k as int).drop_first() =~= rv.skip(k + 1));
            assert(rv[k as int] == search_replace@[k as int]@);
        }
        let rule = &search_replace[k];
        match run_pass(rule, &mut ft) {
            Ok(_) => {},
            Err(e) => {
                return Err(e);
            },
        }
        k = k + 1;
    }
    proof {
        assert(rv.skip(rv.len() as int) =~= Seq::<RuleV>::empty());
    }
    let out = ft.into_parts();
    Ok(out)
}

/// The pattern a search string stands for: itself, or its escaped
/// form when escape mode treats it as a literal.
pub open spec fn pattern_of(search: Seq<char>, escape: bool) -> Seq<char> {
    if escape {
        escape_of(search)
    } else {
        search
    }
}

/// Compile the full rule list, in command-line order: one replacement
/// template per search pattern, everything compiled before any file
/// is read.
pub fn compile_rules(search: &Vec<String>, replace: &Vec<String>, escape: bool) -> (r: Result<
    Vec<SearchReplace>,
    ConfigError,
>)
    ensures
        match r {
            Ok(rules) => {
                &&& search@.len() == replace@.len()
                &&& rules@.len() == search@.len()
                &&& forall|i: int|
                    0 <= i < rules@.len() ==> rule_from_inputs(
                        (#[trigger] rules@[i])@,
                        search@[i]@,
                        vstd::utf8::encode_utf8(replace@[i]@),
                        escape,
                    )
            },
            Err(ConfigError::UnequalCounts) => search@.len() != replace@.len(),
            Err(ConfigError::BadRegex(_)) => search@.len() == replace@.len() && (exists|i: int|
                0 <= i < search@.len() && !regex_ok(pattern_of(search@[i]@, escape))),
            Err(ConfigError::UnknownModifier(n)) => !escape && (exists|i: int|
                0 <= i < replace@.len() && tmpl_spec(vstd::utf8::encode_utf8(replace@[i]@), 0)
                    == Err::<Seq<PartV>, TmplErr>(TmplErr::UnknownModifier(n@))),
            Err(ConfigError::GroupTooBig) => !escape && (exists|i: int|
                0 <= i < replace@.len() && tmpl_spec(vstd::utf8::encode_utf8(replace@[i]@), 0)
                    == Err::<Seq<PartV>, TmplErr>(TmplErr::GroupTooBig)),
            Err(ConfigError::EmptyGroupNumber) => !escape && (exists|i: int|
                0 <= i < replace@.len() && tmpl_spec(vstd::utf8::encode_utf8(replace@[i]@), 0)
                    == Err::<Seq<PartV>, TmplErr>(TmplErr::EmptyGroupNumber)),
        },
{
    if search.len() != replace.len() {
        return Err(ConfigError::UnequalCounts);
    }
    let mut rules: Vec<SearchReplace> = Vec::new();
    let mut k: usize = 0;
    while k < search.len()
        invariant
            search@.len() == replace@.len(),
            k <= search@.len(),
            rules@.len() == k,
            forall|i: int|
                0 <= i < k ==> rule_from_inputs(
                    (#[trigger] rules@[i])@,
                    search@[i]@,
                    vstd::utf8::encode_utf8(replace@[i]@),
                    escape,
                ),
        decreases search@.len() - k,
    {
        let s = &search[k];
        let t = &replace[k];
        let rule = if escape {
            match parse_escaped(s.as_str(), t.as_str()) {
                Ok(rule) => rule,
                Err(e) => {
                    return Err(e);
                },
            }
        } else {
            match parse(s.as_str(), t.as_str()) {
                Ok(rule) => rule,
                Err(e) => {
                    return Err(e);
                },
            }
        };
        rules.push(rule);
        k = k + 1;
    }
    Ok(rules)
}

/// Chaining law: running rule list `a` and then rule list `b` over a
/// text gives exactly what one run of the combined list `a + b`
/// gives, changed flag included — passes compose left to right over
/// the text, freshly inserted content included.
pub proof fn lemma_rules_compose(a: Seq<RuleV>, b: Seq<RuleV>, text: Seq<u8>)
    ensures
        apply_rules(a + b, text) == (match apply_rules(a, text) {
            None => None::<(Seq<u8>, bool)>,
            Some((t1, c1)) => match apply_rules(b, t1) {
                None => None::<(Seq<u8>, bool)>,
                Some((t2, c2)) => Some((t2, c1 || c2)),
            },
        }),
    decreases a.len(),
{
    if a.len() == 0 {
        assert(a + b =~= b);
    } else {
        assert((a + b)[0] == a[0]);
        assert((a + b).drop_first() =~= a.drop_first() + b);
        match pass_from(a[0].pat, a[0].plan, text, 0) {
            None => {},
            Some(t1) => {
                lemma_rules_compose(a.drop_first(), b, t1);
            },
        }
    }
}

/// No-op law: a text that no rule's pattern matches anywhere comes
/// back unchanged, with the changed flag false — such a file is never
/// rewritten.
pub proof fn lemma_no_match_no_change(rules: Seq<RuleV>, text: Seq<u8>)
    requires
        forall|i: int| 0 <= i < rules.len() ==> !pass_matches((#[trigger] rules[i]).pat, text),
    ensures
        apply_rules(rules, text) == Some((text, false)),
    decreases rules.len(),
{
    if rules.len() > 0 {
        assert(text.subrange(0, text.len() as int) =~= text);
        assert(!pass_matches(rules[0].pat, text));
        assert(pass_from(rules[0].pat, rules[0].plan, text, 0) == Some(
            text.subrange(0, text.len() as int),
        ));
        assert forall|i: int| 0 <= i < rules.drop_first().len() implies !pass_matches(
            (#[trigger] rules.drop_first()[i]).pat,
            text,
        ) by {
            assert(rules.drop_first()[i] == rules[i + 1]);
        }
        lemma_no_match_no_change(rules.drop_first(), text);
    }
}

} // verus!
