use jaim::dictionary::PartOfSpeech;
use jaim::grammar::{GrammarEngine, GrammarIssue, GrammarRule, GrammarToken, Severity};

fn token(surface: &str, pos: PartOfSpeech) -> GrammarToken {
    GrammarToken { surface: surface.to_string(), pos }
}
fn n(s: &str) -> GrammarToken {
    token(s, PartOfSpeech::Noun)
}
fn p(s: &str) -> GrammarToken {
    token(s, PartOfSpeech::Particle)
}
fn v(s: &str) -> GrammarToken {
    token(s, PartOfSpeech::Verb)
}
fn aux(s: &str) -> GrammarToken {
    token(s, PartOfSpeech::Auxiliary)
}

/// The score as the engine's caller derives it from the issues.
fn score(issues: &[GrammarIssue]) -> f64 {
    let mut score: f64 = 1.0;
    for issue in issues {
        match issue.severity {
            Severity::Error => score -= 0.2,
            Severity::Warning => score -= 0.05,
        }
    }
    score.max(0.0)
}

#[test]
fn perfect_sentence() {
    let engine = GrammarEngine::new();
    let tokens = vec![n("私"), p("が"), n("本"), p("を"), v("読む")];
    let issues = engine.issues(&tokens);
    assert_eq!(score(&issues), 1.0);
    assert!(issues.is_empty());
}

#[test]
fn particle_without_noun() {
    let engine = GrammarEngine::new();
    let tokens = vec![p("が"), n("本"), p("を"), v("読む")];
    let issues = engine.issues(&tokens);
    assert!(score(&issues) < 1.0);
    assert!(issues.iter().any(|i| i.rule == GrammarRule::ParticleWithoutNoun));
}

#[test]
fn consecutive_particles() {
    let engine = GrammarEngine::new();
    let tokens = vec![n("私"), p("が"), p("を"), v("読む")];
    let issues = engine.issues(&tokens);
    assert!(issues.iter().any(|i| i.rule == GrammarRule::ConsecutiveParticles));
}

#[test]
fn consecutive_nouns_warning() {
    let engine = GrammarEngine::new();
    let tokens = vec![n("私"), n("本"), p("を"), v("読む")];
    let issues = engine.issues(&tokens);
    let noun_issue = issues.iter().find(|i| i.rule == GrammarRule::ConsecutiveNouns);
    assert!(noun_issue.is_some());
    assert_eq!(noun_issue.unwrap().severity, Severity::Warning);
}

#[test]
fn verb_not_at_end() {
    let engine = GrammarEngine::new();
    let tokens = vec![v("読む"), n("私"), p("が"), n("本"), p("を")];
    let issues = engine.issues(&tokens);
    assert!(issues.iter().any(|i| i.rule == GrammarRule::VerbNotAtEnd));
}

#[test]
fn verb_before_auxiliary_ok() {
    let engine = GrammarEngine::new();
    let tokens = vec![n("ご飯"), p("を"), v("食べる"), aux("ます")];
    let issues = engine.issues(&tokens);
    assert!(!issues.iter().any(|i| i.rule == GrammarRule::VerbNotAtEnd));
}

#[test]
fn missing_subject_warning() {
    let engine = GrammarEngine::new();
    let tokens = vec![n("本"), p("を"), v("読む")];
    let issues = engine.issues(&tokens);
    assert!(issues.iter().any(|i| i.rule == GrammarRule::MissingSubject));
}

#[test]
fn touten_after_wo_error() {
    let engine = GrammarEngine::new();
    let tokens = vec![n("本"), p("を"), token("、", PartOfSpeech::Other), v("読む")];
    let issues = engine.issues(&tokens);
    assert!(issues.iter().any(|i| i.rule == GrammarRule::ToutenAfterWo));
}

#[test]
fn kuten_after_verb_ok() {
    let engine = GrammarEngine::new();
    let tokens = vec![v("読む"), token("。", PartOfSpeech::Other)];
    let issues = engine.issues(&tokens);
    assert!(!issues.iter().any(|i| i.rule == GrammarRule::KutenNotAfterVerb));
}

#[test]
fn kuten_after_noun_error() {
    let engine = GrammarEngine::new();
    let tokens = vec![n("本"), token("。", PartOfSpeech::Other)];
    let issues = engine.issues(&tokens);
    assert!(issues.iter().any(|i| i.rule == GrammarRule::KutenNotAfterVerb));
}

#[test]
fn empty_tokens() {
    let engine = GrammarEngine::new();
    let issues = engine.issues(&Vec::new());
    assert_eq!(score(&issues), 1.0);
}

#[test]
fn score_degrades_with_errors() {
    let engine = GrammarEngine::new();
    let tokens = vec![p("が"), p("を"), v("読む")];
    let issues = engine.issues(&tokens);
    assert!(score(&issues) < 0.8);
}

#[test]
fn touten_after_noun_vocative_ok() {
    let engine = GrammarEngine::new();
    let tokens = vec![
        n("田中さん"),
        token("、", PartOfSpeech::Other),
        token("大丈夫", PartOfSpeech::Adjective),
        aux("です"),
        p("か"),
    ];
    let issues = engine.issues(&tokens);
    assert!(!issues.iter().any(|i| i.rule == GrammarRule::ToutenNotAfterParticle));
}

#[test]
fn touten_after_conjunction_ok() {
    let engine = GrammarEngine::new();
    let tokens = vec![
        token("しかし", PartOfSpeech::Conjunction),
        token("、", PartOfSpeech::Other),
        n("それ"),
        p("は"),
        v("違う"),
    ];
    let issues = engine.issues(&tokens);
    assert!(!issues.iter().any(|i| i.rule == GrammarRule::ToutenNotAfterParticle));
}

#[test]
fn complex_valid_sentence() {
    let engine = GrammarEngine::new();
    let tokens = vec![
        n("今日"),
        p("は"),
        n("天気"),
        p("が"),
        token("いい", PartOfSpeech::Adjective),
        aux("です"),
    ];
    let issues = engine.issues(&tokens);
    assert!(score(&issues) >= 0.9);
}

// ---- further cases ----

#[test]
fn issues_come_in_rule_order_with_positions() {
    let engine = GrammarEngine::new();
    // が at the start (rule 1), が を (rule 2), verb with no が/は and no を markers
    // among 4 tokens? は/が present: が is a particle, so subject marker present.
    let tokens = vec![p("が"), p("を"), n("本"), v("読む")];
    let issues = engine.issues(&tokens);
    let expected = vec![
        GrammarIssue { rule: GrammarRule::ParticleWithoutNoun, severity: Severity::Error, position: 0 },
        GrammarIssue { rule: GrammarRule::ParticleWithoutNoun, severity: Severity::Error, position: 1 },
        GrammarIssue { rule: GrammarRule::ConsecutiveParticles, severity: Severity::Error, position: 1 },
    ];
    assert_eq!(issues, expected);
}

#[test]
fn missing_object_needs_four_tokens() {
    let engine = GrammarEngine::new();
    let three = vec![n("私"), p("が"), v("走る")];
    assert!(!engine.issues(&three).iter().any(|i| i.rule == GrammarRule::MissingObject));
    let four = vec![n("私"), p("は"), n("家"), v("帰る")];
    let issues = engine.issues(&four);
    assert!(issues.iter().any(|i| i.rule == GrammarRule::MissingObject && i.position == 0));
}

#[test]
fn ascii_punctuation_counts() {
    let engine = GrammarEngine::new();
    let tokens = vec![n("本"), token(".", PartOfSpeech::Other)];
    assert!(engine.issues(&tokens).iter().any(|i| i.rule == GrammarRule::KutenNotAfterVerb));
    let tokens = vec![v("読む"), token(",", PartOfSpeech::Other)];
    let issues = engine.issues(&tokens);
    assert!(issues.iter().any(|i| i.rule == GrammarRule::ToutenNotAfterParticle && i.position == 1));
    assert!(!issues.iter().any(|i| i.rule == GrammarRule::VerbNotAtEnd));
}
