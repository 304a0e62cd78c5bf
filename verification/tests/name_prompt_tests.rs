use std::cell::RefCell;

use ez_workspaces::browser::selector::{ActionResult, InteractiveSelector, SelectItem, StageOutcome};
use ez_workspaces::error::EzError;
use ez_workspaces::session::name_builder::{
    choose_name_mode, prompt_full_name_once, prompt_github_pr_once, prompt_jira_url_once, prompt_stage_once,
    staged_start, NameBuilderMode, NamePromptResult, NameStage, PrNameStep, StageKind, StagedStep,
};

/// A selector that replays scripted answers and records the prompts.
struct Script {
    picks: RefCell<Vec<Option<usize>>>,
    answers: RefCell<Vec<StageOutcome>>,
    prompts: RefCell<Vec<String>>,
}

fn script(picks: Vec<Option<usize>>, answers: Vec<StageOutcome>) -> Script {
    Script { picks: RefCell::new(picks), answers: RefCell::new(answers), prompts: RefCell::new(Vec::new()) }
}

impl InteractiveSelector for Script {
    fn select_one(&self, _items: &[SelectItem], prompt: &str, _preview: Option<&str>) -> Result<Option<usize>, EzError> {
        self.prompts.borrow_mut().push(prompt.to_string());
        Ok(self.picks.borrow_mut().remove(0))
    }
    fn select_many(&self, _items: &[SelectItem], _prompt: &str) -> Result<Vec<usize>, EzError> {
        Ok(Vec::new())
    }
    fn input(&self, _prompt: &str, _default: Option<&str>) -> Result<String, EzError> {
        Ok(String::new())
    }
    fn confirm(&self, _prompt: &str, default: bool) -> Result<bool, EzError> {
        Ok(default)
    }
    fn select_with_back(&self, prompt: &str, _items: &[SelectItem], _allow_back: bool) -> Result<StageOutcome, EzError> {
        self.prompts.borrow_mut().push(prompt.to_string());
        Ok(self.answers.borrow_mut().remove(0))
    }
    fn input_with_back(&self, prompt: &str, _default: Option<&str>, _allow_back: bool) -> Result<StageOutcome, EzError> {
        self.prompts.borrow_mut().push(prompt.to_string());
        Ok(self.answers.borrow_mut().remove(0))
    }
    fn select_with_actions(
        &self,
        _items: &[SelectItem],
        _prompt: &str,
        _preview: Option<&str>,
        _keys: &[String],
        _header: Option<&str>,
    ) -> Result<ActionResult, EzError> {
        Ok(ActionResult::Cancel)
    }
}

fn picked(s: &str) -> StageOutcome {
    StageOutcome::Picked(s.to_string())
}

#[test]
fn mode_choice_asks_only_among_several() {
    let s = script(vec![], vec![]);
    assert!(matches!(choose_name_mode(&s, &vec![]), Ok(None)));
    assert!(matches!(choose_name_mode(&s, &vec![NameBuilderMode::JiraUrl]), Ok(Some(NameBuilderMode::JiraUrl))));
    assert!(s.prompts.borrow().is_empty());
    let s = script(vec![Some(1), None, Some(7)], vec![]);
    let modes = vec![NameBuilderMode::FullName, NameBuilderMode::GitHubPr];
    assert!(matches!(choose_name_mode(&s, &modes), Ok(Some(NameBuilderMode::GitHubPr))));
    assert!(matches!(choose_name_mode(&s, &modes), Ok(None)));
    assert!(matches!(choose_name_mode(&s, &modes), Ok(None)));
    assert_eq!(s.prompts.borrow()[0], "naming mode");
}

#[test]
fn full_name_and_pr_rounds() {
    let s = script(vec![], vec![picked("  feat  "), picked("  "), StageOutcome::Back]);
    assert!(matches!(prompt_full_name_once(&s), Ok(Some(NamePromptResult::Done(n))) if n == "feat"));
    assert!(matches!(prompt_full_name_once(&s), Ok(None)));
    assert!(matches!(prompt_full_name_once(&s), Ok(Some(NamePromptResult::Cancelled))));
    assert_eq!(s.prompts.borrow()[0], "session name");
    let s = script(vec![], vec![picked(" https://github.com/o/r/pull/17 "), picked("nope"), StageOutcome::Cancel]);
    match prompt_github_pr_once(&s).unwrap() {
        PrNameStep::Candidate { url, candidate } => {
            assert_eq!(url, "https://github.com/o/r/pull/17");
            assert_eq!(candidate, "pr17");
        }
        other => panic!("unexpected {other:?}"),
    }
    assert!(matches!(prompt_github_pr_once(&s), Ok(PrNameStep::Again)));
    assert!(matches!(prompt_github_pr_once(&s), Ok(PrNameStep::Cancelled)));
}

#[test]
fn jira_rounds() {
    let s = script(vec![], vec![picked("https://x.atlassian.net/browse/ABC-12"), picked(" fix login "), picked("x/browse/none"), picked("")]);
    assert!(matches!(prompt_jira_url_once(&s), Ok(Some(NamePromptResult::Done(n))) if n == "ABC-12-fix login"));
    assert!(matches!(prompt_jira_url_once(&s), Ok(None)));
    assert!(matches!(prompt_jira_url_once(&s), Ok(Some(NamePromptResult::Cancelled))));
    assert_eq!(s.prompts.borrow()[1], "name");
}

#[test]
fn staged_rounds_build_the_name() {
    let stages = vec![
        NameStage { name: "prefix".into(), kind: StageKind::Choice, choices: vec!["feat".into(), "fix".into()] },
        NameStage { name: "ticket".into(), kind: StageKind::Text, choices: vec![] },
    ];
    let s = script(vec![], vec![picked("fix"), picked(""), picked("login")]);
    let mut state = staged_start(stages.len());
    assert!(matches!(prompt_stage_once(&s, &stages, &mut state), Ok(StagedStep::Next)));
    assert!(matches!(prompt_stage_once(&s, &stages, &mut state), Ok(StagedStep::Next)));
    assert!(matches!(prompt_stage_once(&s, &stages, &mut state), Ok(StagedStep::Done(n)) if n == "fix-login"));
    assert_eq!(*s.prompts.borrow(), vec!["prefix".to_string(), "ticket".to_string(), "name".to_string()]);
}
