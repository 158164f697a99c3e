use dkdc::dispatch::{effective_concurrency, report_line, Dispatch, Outcome};
use dkdc::links::{alias_or_link_to_uri, Config, ResolveError};

fn config() -> Config {
    let mut config = Config::new();
    config.things.insert("good".to_string(), "https://good.example".to_string());
    config.things.insert("good2".to_string(), "https://good2.example".to_string());
    config
}

fn tokens(names: &[&str]) -> Vec<String> {
    names.iter().map(|s| s.to_string()).collect()
}

/// Runs a batch to the end, opening every resolved URI successfully, and
/// returns the largest number of tokens seen in flight at once.
fn run(d: &mut Dispatch, config: &Config, opened: &mut Vec<String>) -> usize {
    let mut running: Vec<(usize, String)> = Vec::new();
    let mut peak = 0;
    while !d.is_finished() {
        while let Some(started) = d.next_token() {
            running.push(started);
        }
        peak = peak.max(d.in_flight());
        assert!(d.in_flight() <= d.limit());
        let (index, token) = running.remove(0);
        let outcome = match alias_or_link_to_uri(&token, config) {
            Ok(uri) => {
                opened.push(uri.clone());
                Outcome::Opened(uri)
            }
            Err(e) => Outcome::ResolutionFailed(e),
        };
        assert!(d.complete(index, outcome));
    }
    peak
}

#[test]
fn zero_workers_means_all_available() {
    assert_eq!(effective_concurrency(0, 8), 8);
    assert_eq!(effective_concurrency(0, 1), 1);
}

#[test]
fn too_many_workers_are_clamped() {
    assert_eq!(effective_concurrency(16, 8), 8);
    assert_eq!(effective_concurrency(2, 8), 2);
    assert_eq!(effective_concurrency(8, 8), 8);
}

#[test]
fn new_batch_has_a_usable_limit() {
    let d = Dispatch::new(tokens(&["a"]), 0);
    assert!(d.limit() >= 1);
    let d = Dispatch::new(tokens(&["a"]), 1);
    assert_eq!(d.limit(), 1);
}

#[test]
fn failure_of_one_token_does_not_stop_the_others() {
    let config = config();
    let mut d = Dispatch::with_parallelism(tokens(&["good", "bad", "good2"]), 1, 4);
    let mut opened = Vec::new();
    run(&mut d, &config, &mut opened);
    assert_eq!(d.outcome(0), Some(&Outcome::Opened("https://good.example".to_string())));
    assert_eq!(
        d.outcome(1),
        Some(&Outcome::ResolutionFailed(ResolveError::NotFound("bad".to_string())))
    );
    assert_eq!(d.outcome(2), Some(&Outcome::Opened("https://good2.example".to_string())));
    assert_eq!(opened, vec!["https://good.example", "https://good2.example"]);
}

#[test]
fn no_more_than_the_ceiling_is_in_flight() {
    let config = config();
    let mut d = Dispatch::with_parallelism(tokens(&["good"; 5]), 2, 8);
    let mut opened = Vec::new();
    let peak = run(&mut d, &config, &mut opened);
    assert_eq!(peak, 2);
    assert_eq!(opened.len(), 5);
}

#[test]
fn every_token_gets_exactly_one_outcome() {
    let config = config();
    let mut d = Dispatch::with_parallelism(tokens(&["good", "good", "x", "good2"]), 3, 3);
    let mut opened = Vec::new();
    run(&mut d, &config, &mut opened);
    assert_eq!(d.started(), 4);
    assert_eq!(d.in_flight(), 0);
    for i in 0..d.len() {
        assert!(d.outcome(i).is_some());
    }
    assert!(!d.complete(0, Outcome::OpenFailed("again".to_string())));
}

#[test]
fn slots_are_released_on_failure() {
    let mut d = Dispatch::with_parallelism(tokens(&["a", "b"]), 1, 4);
    let (i, _) = d.next_token().unwrap();
    assert!(d.next_token().is_none());
    assert!(d.complete(i, Outcome::OpenFailed("no handler".to_string())));
    assert_eq!(d.next_token().map(|(i, t)| (i, t)), Some((1, "b".to_string())));
    assert!(!d.complete(5, Outcome::OpenFailed("x".to_string())));
}

#[test]
fn empty_batch_is_finished_at_once() {
    let mut d = Dispatch::with_parallelism(Vec::new(), 2, 4);
    assert!(d.is_finished());
    assert!(d.next_token().is_none());
}

#[test]
fn report_lines_name_the_token() {
    assert_eq!(
        report_line("g", &Outcome::Opened("https://x".to_string())),
        "opening https://x..."
    );
    assert_eq!(
        report_line("bad", &Outcome::ResolutionFailed(ResolveError::NotFound("bad".to_string()))),
        "[dkdc] skipping bad: 'bad' not found in [things] or [aliases]"
    );
    assert_eq!(
        report_line("g", &Outcome::OpenFailed("failed to open https://x".to_string())),
        "[dkdc] failed to open g: failed to open https://x"
    );
}
