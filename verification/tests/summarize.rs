use repoharbor::summarize::{pass_model, SummarizeOutcome, SummarizePass};

#[test]
fn a_pass_needs_ai_and_a_model() {
    assert_eq!(pass_model(false, Some("m".into())), Err(SummarizeOutcome::Unavailable("AI is disabled".into())));
    assert_eq!(pass_model(true, None), Err(SummarizeOutcome::Unavailable("No AI model available".into())));
    assert_eq!(pass_model(true, Some("m".into())), Ok("m".to_string()));
}

#[test]
fn outcomes_follow_attempts_and_stored_summaries() {
    let p = SummarizePass::new();
    assert_eq!(p.outcome(), SummarizeOutcome::UpToDate);

    let mut p = SummarizePass::new();
    assert_eq!(p.record(Err("down".into())), None);
    assert_eq!(p.record(Ok("   ".into())), None);
    assert_eq!(p.outcome(), SummarizeOutcome::Unavailable("Couldn't generate summaries".into()));

    assert_eq!(p.record(Ok("  A dashboard. \n".into())).as_deref(), Some("A dashboard."));
    assert_eq!((p.attempted, p.done), (3, 1));
    assert_eq!(p.outcome(), SummarizeOutcome::Updated(1));
}
