use amcli::chain::{ChainStep, LocalProvider, LyricsManager, LyricsProvider, ProviderOutcome};
use amcli::fetch::{FetchKey, FetchOrchestrator, FetchState};
use amcli::lrc::parse_lrc;

fn key(s: &str) -> Option<FetchKey> {
    Some(FetchKey { lookup: s.to_string(), qualifier: String::new(), variant: 0 })
}

#[test]
fn switching_identity_drops_late_result() {
    let mut o: FetchOrchestrator<u32> = FetchOrchestrator::new();
    let p = o.tick(key("A"));
    let (a, _) = p.start.unwrap();
    assert_eq!(o.state(), FetchState::Loading);
    let p = o.tick(key("B"));
    assert_eq!(p.cancel, Some(a));
    let (b, k) = p.start.unwrap();
    assert_eq!(k.lookup, "B");
    assert_ne!(a, b);
    assert!(!o.complete(a, Some(1)));
    assert_eq!(o.state(), FetchState::Loading);
    assert!(o.artifact().is_none());
    assert!(o.complete(b, Some(2)));
    assert_eq!(o.state(), FetchState::Ready);
    assert_eq!(o.artifact(), Some(&2));
}

#[test]
fn same_identity_starts_nothing() {
    let mut o: FetchOrchestrator<u32> = FetchOrchestrator::new();
    o.tick(key("A"));
    let p = o.tick(key("A"));
    assert!(p.cancel.is_none() && p.start.is_none());
}

#[test]
fn failure_clears_artifact_and_absent_identity_idles() {
    let mut o: FetchOrchestrator<u32> = FetchOrchestrator::new();
    let (a, _) = o.tick(key("A")).start.unwrap();
    assert!(o.complete(a, Some(1)));
    let (b, _) = o.tick(key("B")).start.unwrap();
    assert!(o.artifact().is_none());
    assert!(o.complete(b, None));
    assert_eq!(o.state(), FetchState::Failed);
    assert!(o.artifact().is_none());
    let p = o.tick(None);
    assert!(p.start.is_none());
    assert_eq!(o.state(), FetchState::Idle);
}

#[test]
fn theme_variant_forces_refetch() {
    let mut o: FetchOrchestrator<u32> = FetchOrchestrator::new();
    o.tick(Some(FetchKey { lookup: "u".into(), qualifier: String::new(), variant: 0 }));
    let p = o.tick(Some(FetchKey { lookup: "u".into(), qualifier: String::new(), variant: 1 }));
    assert!(p.start.is_some());
}

#[test]
fn chain_tries_priority_one_first_and_stops() {
    let mut m = LyricsManager::new(20);
    m.add_provider("five".to_string(), 5);
    m.add_provider("one".to_string(), 1);
    m.add_provider("ten".to_string(), 10);
    assert_eq!(m.attempt_order(), vec![1, 0, 2]);
    let (mut lookup, step) = m.start_lookup();
    let mut attempted = Vec::new();
    let mut step = step;
    let found = loop {
        match step {
            ChainStep::Attempt(i) => {
                attempted.push(i);
                let outcome = if i == 1 {
                    ProviderOutcome::Found(parse_lrc("[00:01.00]hit").unwrap())
                } else {
                    ProviderOutcome::NotFound
                };
                step = lookup.on_outcome(outcome);
            }
            ChainStep::Finished(d) => break d,
        }
    };
    assert_eq!(attempted, vec![1]);
    assert_eq!(found.unwrap().lines[0].text, "hit");
}

#[test]
fn chain_skips_failures_and_empty_documents() {
    let mut m = LyricsManager::new(20);
    m.add_provider("a".to_string(), 3);
    m.add_provider("b".to_string(), 3);
    m.add_provider("c".to_string(), 0);
    let (mut lookup, step) = m.start_lookup();
    assert!(matches!(step, ChainStep::Attempt(2)));
    let step = lookup.on_outcome(ProviderOutcome::Failed);
    assert!(matches!(step, ChainStep::Attempt(0)));
    let step = lookup.on_outcome(ProviderOutcome::Found(parse_lrc("").unwrap()));
    assert!(matches!(step, ChainStep::Attempt(1)));
    let step = lookup.on_outcome(ProviderOutcome::NotFound);
    assert!(matches!(step, ChainStep::Finished(None)));
}

#[test]
fn empty_chain_finishes_with_nothing() {
    let m = LyricsManager::new(1);
    let (_, step) = m.start_lookup();
    assert!(matches!(step, ChainStep::Finished(None)));
    let local = LocalProvider::new("/x".to_string());
    assert_eq!(local.dir(), "/x");
    assert_eq!(local.priority(), 0);
    assert_eq!(local.name(), "local");
}
