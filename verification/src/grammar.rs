//! Grammar checks for conversion candidates.
//!
//! Nine rules on a sequence of (surface, part of speech) tokens:
//! 1. a particle must follow a noun, adverb or interjection;
//! 2. no two particles in a row;
//! 3. two nouns in a row without a particle (warning);
//! 4. a verb should end the sentence, unless an auxiliary or punctuation follows (warning);
//! 5. a sentence of three or more tokens with a verb but no が/は (warning);
//! 6. a sentence of four or more tokens with a verb but no を (warning);
//! 7. no 、 right after を;
//! 8. 、 only after particles, nouns, adverbs, conjunctions, interjections or adjectives;
//! 9. 。 only after verbs and auxiliaries.
//!
//! The numeric score derived from the issues lives with the caller.
use vstd::prelude::*;
use crate::dictionary::PartOfSpeech;
use crate::text::{chars_eq, chars_of};

verus! {

#[derive(Debug, Clone, Copy, PartialEq, Eq, Structural)]
pub enum Severity {
    Error,
    Warning,
}

#[derive(Debug, Clone, Copy, PartialEq, Eq, Structural)]
pub enum GrammarRule {
    /// Particle without preceding noun
    ParticleWithoutNoun,
    /// Consecutive particles
    ConsecutiveParticles,
    /// Consecutive nouns without particle
    ConsecutiveNouns,
    /// Verb not at end of sentence
    VerbNotAtEnd,
    /// Missing subject marker (が)
    MissingSubject,
    /// Missing object marker (を)
    MissingObject,
    /// Touten (、) after を
    ToutenAfterWo,
    /// Touten (、) not after particle
    ToutenNotAfterParticle,
    /// Kuten (。) not after verb
    KutenNotAfterVerb,
}

/// One detected problem: which rule, how serious, and at which token.
#[derive(Debug, Clone, Copy, PartialEq, Eq, Structural)]
pub struct GrammarIssue {
    pub rule: GrammarRule,
    pub severity: Severity,
    pub position: usize,
}

/// Token for grammar analysis: a word with its part of speech.
#[derive(Debug, Clone)]
pub struct GrammarToken {
    pub surface: String,
    pub pos: PartOfSpeech,
}

pub struct GrammarEngine {}

// ---------------------------------------------------------------------------
// Word classes
// ---------------------------------------------------------------------------

/// Parts of speech that may precede a particle.
pub open spec fn can_precede_particle(pos: PartOfSpeech) -> bool {
    pos == PartOfSpeech::Noun || pos == PartOfSpeech::Adverb || pos == PartOfSpeech::Interjection
}

/// Parts of speech that may precede 、.
pub open spec fn can_precede_touten(pos: PartOfSpeech) -> bool {
    pos == PartOfSpeech::Noun || pos == PartOfSpeech::Adverb || pos == PartOfSpeech::Conjunction
        || pos == PartOfSpeech::Interjection || pos == PartOfSpeech::Adjective
}

pub open spec fn is_subject_particle(s: Seq<char>) -> bool {
    s == seq!['が'] || s == seq!['は']
}

pub open spec fn is_object_particle(s: Seq<char>) -> bool {
    s == seq!['を']
}

pub open spec fn is_touten(s: Seq<char>) -> bool {
    s == seq!['、'] || s == seq![',']
}

pub open spec fn is_kuten(s: Seq<char>) -> bool {
    s == seq!['。'] || s == seq!['.']
}

pub open spec fn is_punctuation(s: Seq<char>) -> bool {
    is_touten(s) || is_kuten(s) || s == seq!['！'] || s == seq!['？']
}

// ---------------------------------------------------------------------------
// The rules
// ---------------------------------------------------------------------------

pub open spec fn issue(rule: GrammarRule, severity: Severity, position: int) -> GrammarIssue {
    GrammarIssue { rule, severity, position: position as usize }
}

/// The issue that a token-position rule reports at token `i`, if any.
/// (Rules 5 and 6 look at the whole sentence and report nothing here.)
pub open spec fn issue_at(t: Seq<GrammarToken>, rule: GrammarRule, i: int) -> Option<GrammarIssue> {
    let n = t.len() as int;
    match rule {
        GrammarRule::ParticleWithoutNoun =>
            if t[i].pos == PartOfSpeech::Particle && (i == 0 || !can_precede_particle(t[i - 1].pos)) {
                Some(issue(rule, Severity::Error, i))
            } else { None },
        GrammarRule::ConsecutiveParticles =>
            if i >= 1 && t[i].pos == PartOfSpeech::Particle && t[i - 1].pos == PartOfSpeech::Particle {
                Some(issue(rule, Severity::Error, i))
            } else { None },
        GrammarRule::ConsecutiveNouns =>
            if i >= 1 && t[i].pos == PartOfSpeech::Noun && t[i - 1].pos == PartOfSpeech::Noun {
                Some(issue(rule, Severity::Warning, i))
            } else { None },
        GrammarRule::VerbNotAtEnd =>
            if t[i].pos == PartOfSpeech::Verb && i < n - 1 && t[i + 1].pos != PartOfSpeech::Auxiliary
                && !is_punctuation(t[i + 1].surface@) {
                Some(issue(rule, Severity::Warning, i))
            } else { None },
        GrammarRule::ToutenAfterWo =>
            if i >= 1 && is_touten(t[i].surface@) && t[i - 1].pos == PartOfSpeech::Particle
                && is_object_particle(t[i - 1].surface@) {
                Some(issue(rule, Severity::Error, i))
            } else { None },
        GrammarRule::ToutenNotAfterParticle =>
            if i >= 1 && is_touten(t[i].surface@) && t[i - 1].pos != PartOfSpeech::Particle
                && !can_precede_touten(t[i - 1].pos) {
                Some(issue(rule, Severity::Error, i))
            } else { None },
        GrammarRule::KutenNotAfterVerb =>
            if i >= 1 && is_kuten(t[i].surface@) && t[i - 1].pos != PartOfSpeech::Verb
                && t[i - 1].pos != PartOfSpeech::Auxiliary {
                Some(issue(rule, Severity::Error, i))
            } else { None },
        _ => None,
    }
}

/// The issues a token-position rule reports at tokens `0..n`, in order.
pub open spec fn rule_issues(t: Seq<GrammarToken>, rule: GrammarRule, n: int) -> Seq<GrammarIssue>
    decreases n,
{
    if n <= 0 {
        Seq::empty()
    } else {
        let prev = rule_issues(t, rule, n - 1);
        match issue_at(t, rule, n - 1) {
            Some(x) => prev.push(x),
            None => prev,
        }
    }
}

pub open spec fn has_verb(t: Seq<GrammarToken>) -> bool {
    exists|i: int| 0 <= i < t.len() && (#[trigger] t[i]).pos == PartOfSpeech::Verb
}

pub open spec fn has_marker(t: Seq<GrammarToken>, object: bool) -> bool {
    exists|i: int| 0 <= i < t.len() && (#[trigger] t[i]).pos == PartOfSpeech::Particle
        && (if object { is_object_particle(t[i].surface@) } else { is_subject_particle(t[i].surface@) })
}

/// Rule 5 (`object == false`, from 3 tokens) or rule 6 (`object == true`,
/// from 4 tokens): a verb without the marker.
pub open spec fn missing_marker(t: Seq<GrammarToken>, object: bool) -> Seq<GrammarIssue> {
    if has_verb(t) && !has_marker(t, object) && t.len() >= (if object { 4int } else { 3int }) {
        seq![issue(if object { GrammarRule::MissingObject } else { GrammarRule::MissingSubject }, Severity::Warning, 0)]
    } else {
        Seq::empty()
    }
}

/// All issues of a token sequence, rule by rule in rule order.
pub open spec fn all_issues(t: Seq<GrammarToken>) -> Seq<GrammarIssue> {
    let n = t.len() as int;
    rule_issues(t, GrammarRule::ParticleWithoutNoun, n)
        + rule_issues(t, GrammarRule::ConsecutiveParticles, n)
        + rule_issues(t, GrammarRule::ConsecutiveNouns, n)
        + rule_issues(t, GrammarRule::VerbNotAtEnd, n)
        + missing_marker(t, false)
        + missing_marker(t, true)
        + rule_issues(t, GrammarRule::ToutenAfterWo, n)
        + rule_issues(t, GrammarRule::ToutenNotAfterParticle, n)
        + rule_issues(t, GrammarRule::KutenNotAfterVerb, n)
}

// ---------------------------------------------------------------------------
// Checking
// ---------------------------------------------------------------------------

fn surface_is(tok: &GrammarToken, w: &Vec<char>) -> (r: bool)
    ensures
        r == (tok.surface@ == w@),
{
    let s = chars_of(tok.surface.as_str());
    chars_eq(&s, w)
}

fn touten(tok: &GrammarToken) -> (r: bool)
    ensures
        r == is_touten(tok.surface@),
{
    let a = vec!['、'];
    let b = vec![','];
    assert(a@ =~= seq!['、'] && b@ =~= seq![',']);
    surface_is(tok, &a) || surface_is(tok, &b)
}

fn kuten(tok: &GrammarToken) -> (r: bool)
    ensures
        r == is_kuten(tok.surface@),
{
    let a = vec!['。'];
    let b = vec!['.'];
    assert(a@ =~= seq!['。'] && b@ =~= seq!['.']);
    surface_is(tok, &a) || surface_is(tok, &b)
}

fn punctuation(tok: &GrammarToken) -> (r: bool)
    ensures
        r == is_punctuation(tok.surface@),
{
    let a = vec!['！'];
    let b = vec!['？'];
    assert(a@ =~= seq!['！'] && b@ =~= seq!['？']);
    touten(tok) || kuten(tok) || surface_is(tok, &a) || surface_is(tok, &b)
}

fn precedes_particle(pos: PartOfSpeech) -> (r: bool)
    ensures
        r == can_precede_particle(pos),
{
    match pos {
        PartOfSpeech::Noun | PartOfSpeech::Adverb | PartOfSpeech::Interjection => true,
        _ => false,
    }
}

fn precedes_touten(pos: PartOfSpeech) -> (r: bool)
    ensures
        r == can_precede_touten(pos),
{
    match pos {
        PartOfSpeech::Noun | PartOfSpeech::Adverb | PartOfSpeech::Conjunction | PartOfSpeech::Interjection
        | PartOfSpeech::Adjective => true,
        _ => false,
    }
}

fn object_particle(tok: &GrammarToken) -> (r: bool)
    ensures
        r == is_object_particle(tok.surface@),
{
    let a = vec!['を'];
    assert(a@ =~= seq!['を']);
    surface_is(tok, &a)
}

fn subject_particle(tok: &GrammarToken) -> (r: bool)
    ensures
        r == is_subject_particle(tok.surface@),
{
    let a = vec!['が'];
    let b = vec!['は'];
    assert(a@ =~= seq!['が'] && b@ =~= seq!['は']);
    surface_is(tok, &a) || surface_is(tok, &b)
}

fn check_at(t: &Vec<GrammarToken>, rule: GrammarRule, i: usize) -> (r: Option<GrammarIssue>)
    requires
        i < t@.len(),
        rule != GrammarRule::MissingSubject,
        rule != GrammarRule::MissingObject,
    ensures
        r == issue_at(t@, rule, i as int),
{
    let n = t.len();
    let found = match rule {
        GrammarRule::ParticleWithoutNoun =>
            t[i].pos == PartOfSpeech::Particle && (i == 0 || !precedes_particle(t[i - 1].pos)),
        GrammarRule::ConsecutiveParticles =>
            i >= 1 && t[i].pos == PartOfSpeech::Particle && t[i - 1].pos == PartOfSpeech::Particle,
        GrammarRule::ConsecutiveNouns =>
            i >= 1 && t[i].pos == PartOfSpeech::Noun && t[i - 1].pos == PartOfSpeech::Noun,
        GrammarRule::VerbNotAtEnd =>
            t[i].pos == PartOfSpeech::Verb && i + 1 < n && t[i + 1].pos != PartOfSpeech::Auxiliary
                && !punctuation(&t[i + 1]),
        GrammarRule::ToutenAfterWo =>
            i >= 1 && touten(&t[i]) && t[i - 1].pos == PartOfSpeech::Particle && object_particle(&t[i - 1]),
        GrammarRule::ToutenNotAfterParticle =>
            i >= 1 && touten(&t[i]) && t[i - 1].pos != PartOfSpeech::Particle && !precedes_touten(t[i - 1].pos),
        _ =>
            i >= 1 && kuten(&t[i]) && t[i - 1].pos != PartOfSpeech::Verb && t[i - 1].pos != PartOfSpeech::Auxiliary,
    };
    if found {
        let severity = match rule {
            GrammarRule::ConsecutiveNouns | GrammarRule::VerbNotAtEnd => Severity::Warning,
            _ => Severity::Error,
        };
        Some(GrammarIssue { rule, severity, position: i })
    } else {
        None
    }
}

/// Appends the issues of one token-position rule.
fn check_rule(t: &Vec<GrammarToken>, rule: GrammarRule, issues: &mut Vec<GrammarIssue>)
    requires
        rule != GrammarRule::MissingSubject,
        rule != GrammarRule::MissingObject,
    ensures
        final(issues)@ == old(issues)@ + rule_issues(t@, rule, t@.len() as int),
{
    let mut i: usize = 0;
    while i < t.len()
        invariant
            rule != GrammarRule::MissingSubject,
            rule != GrammarRule::MissingObject,
            i <= t@.len(),
            issues@ == old(issues)@ + rule_issues(t@, rule, i as int),
        decreases t.len() - i,
    {
        match check_at(t, rule, i) {
            Some(x) => {
                issues.push(x);
            },
            None => {},
        }
        i += 1;
        assert(issues@ =~= old(issues)@ + rule_issues(t@, rule, i as int));
    }
}

/// Appends the issue of rule 5 or rule 6.
fn check_marker(t: &Vec<GrammarToken>, object: bool, issues: &mut Vec<GrammarIssue>)
    ensures
        final(issues)@ == old(issues)@ + missing_marker(t@, object),
{
    let mut verb = false;
    let mut marker = false;
    let mut i: usize = 0;
    while i < t.len()
        invariant
            i <= t@.len(),
            verb == exists|j: int| 0 <= j < i && (#[trigger] t@[j]).pos == PartOfSpeech::Verb,
            marker == exists|j: int| 0 <= j < i && (#[trigger] t@[j]).pos == PartOfSpeech::Particle
                && (if object { is_object_particle(t@[j].surface@) } else { is_subject_particle(t@[j].surface@) }),
        decreases t.len() - i,
    {
        if t[i].pos == PartOfSpeech::Verb {
            verb = true;
        }
        if t[i].pos == PartOfSpeech::Particle {
            let hit = if object { object_particle(&t[i]) } else { subject_particle(&t[i]) };
            if hit {
                marker = true;
            }
        }
        i += 1;
    }
    let least: usize = if object { 4 } else { 3 };
    if verb && !marker && t.len() >= least {
        let rule = if object { GrammarRule::MissingObject } else { GrammarRule::MissingSubject };
        issues.push(GrammarIssue { rule, severity: Severity::Warning, position: 0 });
        assert(issues@ =~= old(issues)@ + missing_marker(t@, object));
    } else {
        assert(issues@ =~= old(issues)@ + missing_marker(t@, object));
    }
}

impl GrammarEngine {
    pub fn new() -> (r: Self) {
        GrammarEngine {}
    }

    /// All issues of the token sequence, rule by rule in rule order; an
    /// empty sequence has none.
    pub fn issues(&self, tokens: &Vec<GrammarToken>) -> (r: Vec<GrammarIssue>)
        ensures
            r@ == all_issues(tokens@),
    {
        let mut issues: Vec<GrammarIssue> = Vec::new();
        check_rule(tokens, GrammarRule::ParticleWithoutNoun, &mut issues);
        check_rule(tokens, GrammarRule::ConsecutiveParticles, &mut issues);
        check_rule(tokens, GrammarRule::ConsecutiveNouns, &mut issues);
        check_rule(tokens, GrammarRule::VerbNotAtEnd, &mut issues);
        check_marker(tokens, false, &mut issues);
        check_marker(tokens, true, &mut issues);
        check_rule(tokens, GrammarRule::ToutenAfterWo, &mut issues);
        check_rule(tokens, GrammarRule::ToutenNotAfterParticle, &mut issues);
        check_rule(tokens, GrammarRule::KutenNotAfterVerb, &mut issues);
        assert(issues@ =~= all_issues(tokens@));
        issues
    }
}

/// Every issue names a token of the sentence.
pub proof fn lemma_issue_positions(t: Seq<GrammarToken>, rule: GrammarRule, n: int)
    requires
        0 <= n <= t.len(),
        t.len() <= usize::MAX,
    ensures
        forall|k: int| 0 <= k < rule_issues(t, rule, n).len() ==> (#[trigger] rule_issues(t, rule, n)[k]).position < n
            && rule_issues(t, rule, n)[k].rule == rule,
    decreases n,
{
    if n > 0 {
        lemma_issue_positions(t, rule, n - 1);
        let prev = rule_issues(t, rule, n - 1);
        if let Some(x) = issue_at(t, rule, n - 1) {
            assert forall|k: int| 0 <= k < prev.len() + 1 implies (#[trigger] prev.push(x)[k]).position < n
                && prev.push(x)[k].rule == rule by {
                if k < prev.len() {
                    assert(prev.push(x)[k] == prev[k]);
                }
            }
        }
    }
}


/// Each issue of a token-position rule is the one that rule reports at some
/// token before `n`.
proof fn lemma_issue_origin(t: Seq<GrammarToken>, rule: GrammarRule, n: int)
    ensures
        forall|k: int| 0 <= k < rule_issues(t, rule, n).len() ==> exists|p: int|
            0 <= p < n && issue_at(t, rule, p) == Some(#[trigger] rule_issues(t, rule, n)[k]),
    decreases n,
{
    if n > 0 {
        lemma_issue_origin(t, rule, n - 1);
        let prev = rule_issues(t, rule, n - 1);
        let r = rule_issues(t, rule, n);
        assert forall|k: int| 0 <= k < r.len() implies exists|p: int|
            0 <= p < n && issue_at(t, rule, p) == Some(#[trigger] r[k]) by {
            if k < prev.len() {
                assert(r[k] == prev[k]);
                let p = choose|p: int| 0 <= p < n - 1 && issue_at(t, rule, p) == Some(#[trigger] prev[k]);
                assert(issue_at(t, rule, p) == Some(r[k]));
            } else {
                assert(issue_at(t, rule, n - 1) == Some(r[k]));
            }
        }
    }
}

/// Law: a verb followed by a punctuation token (、 , 。 . ！ or ？) is never
/// reported as a verb that does not end the sentence.
pub proof fn lemma_verb_before_punctuation(t: Seq<GrammarToken>, i: int)
    requires
        t.len() <= usize::MAX,
        0 <= i,
        i + 1 < t.len(),
        t[i].pos == PartOfSpeech::Verb,
        t[i + 1].surface@ == seq!['、'] || t[i + 1].surface@ == seq![','] || t[i + 1].surface@ == seq!['。']
            || t[i + 1].surface@ == seq!['.'] || t[i + 1].surface@ == seq!['！'] || t[i + 1].surface@ == seq!['？'],
    ensures
        forall|k: int| 0 <= k < all_issues(t).len() ==>
            !((#[trigger] all_issues(t)[k]).rule == GrammarRule::VerbNotAtEnd && all_issues(t)[k].position == i),
{
    let n = t.len() as int;
    assert(issue_at(t, GrammarRule::VerbNotAtEnd, i) is None);
    let rules = seq![
        GrammarRule::ParticleWithoutNoun, GrammarRule::ConsecutiveParticles, GrammarRule::ConsecutiveNouns,
        GrammarRule::VerbNotAtEnd, GrammarRule::ToutenAfterWo, GrammarRule::ToutenNotAfterParticle,
        GrammarRule::KutenNotAfterVerb,
    ];
    assert forall|r: int, k: int| 0 <= r < 7 && 0 <= k < rule_issues(t, rules[r], n).len() implies
        !((#[trigger] rule_issues(t, rules[r], n)[k]).rule == GrammarRule::VerbNotAtEnd
            && rule_issues(t, rules[r], n)[k].position == i) by {
        let rule = rules[r];
        lemma_issue_positions(t, rule, n);
        lemma_issue_origin(t, rule, n);
        let x = rule_issues(t, rule, n)[k];
        if rule == GrammarRule::VerbNotAtEnd && x.position == i {
            let p = choose|p: int| 0 <= p < n && issue_at(t, rule, p) == Some(x);
            assert(x.position == p);
        }
    }
    let a0 = rule_issues(t, rules[0], n);
    let a1 = rule_issues(t, rules[1], n);
    let a2 = rule_issues(t, rules[2], n);
    let a3 = rule_issues(t, rules[3], n);
    let m5 = missing_marker(t, false);
    let m6 = missing_marker(t, true);
    let a4 = rule_issues(t, rules[4], n);
    let a5 = rule_issues(t, rules[5], n);
    let a6 = rule_issues(t, rules[6], n);
    let all = all_issues(t);
    assert(all == a0 + a1 + a2 + a3 + m5 + m6 + a4 + a5 + a6);
    assert forall|k: int| 0 <= k < all.len() implies
        !((#[trigger] all[k]).rule == GrammarRule::VerbNotAtEnd && all[k].position == i) by {
        if k < a0.len() {
            assert(all[k] == a0[k]);
        } else if k < a0.len() + a1.len() {
            assert(all[k] == a1[k - a0.len()]);
        } else if k < a0.len() + a1.len() + a2.len() {
            assert(all[k] == a2[k - a0.len() - a1.len()]);
        } else if k < a0.len() + a1.len() + a2.len() + a3.len() {
            assert(all[k] == a3[k - a0.len() - a1.len() - a2.len()]);
        } else if k < a0.len() + a1.len() + a2.len() + a3.len() + m5.len() {
            assert(all[k] == m5[k - a0.len() - a1.len() - a2.len() - a3.len()]);
        } else if k < a0.len() + a1.len() + a2.len() + a3.len() + m5.len() + m6.len() {
            assert(all[k] == m6[k - a0.len() - a1.len() - a2.len() - a3.len() - m5.len()]);
        } else if k < a0.len() + a1.len() + a2.len() + a3.len() + m5.len() + m6.len() + a4.len() {
            assert(all[k] == a4[k - a0.len() - a1.len() - a2.len() - a3.len() - m5.len() - m6.len()]);
        } else if k < a0.len() + a1.len() + a2.len() + a3.len() + m5.len() + m6.len() + a4.len() + a5.len() {
            assert(all[k] == a5[k - a0.len() - a1.len() - a2.len() - a3.len() - m5.len() - m6.len() - a4.len()]);
        } else {
            assert(all[k] == a6[k - a0.len() - a1.len() - a2.len() - a3.len() - m5.len() - m6.len() - a4.len() - a5.len()]);
        }
    }
}

} // verus!
