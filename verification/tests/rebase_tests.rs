use terra_git::domain::RebaseStep;
use terra_git::rebase::{author_argument, rebase_todo, validate_rebase_steps};

fn step(action: &str, id: &str, message: Option<&str>, author: Option<&str>) -> RebaseStep {
    RebaseStep {
        action: action.to_string(),
        commit_id: id.to_string(),
        message: message.map(|m| m.to_string()),
        author: author.map(|a| a.to_string()),
    }
}

fn id(c: char) -> String {
    std::iter::repeat(c).take(40).collect()
}

#[test]
fn todo_lists_every_commit_once_with_amends() {
    let range = vec![id('a'), id('b'), id('c')];
    let steps = vec![
        step("pick", &id('a'), None, None),
        step("reword", &id('b').to_uppercase(), Some("New subject\n\nbody"), None),
        step("pick", &id('c'), None, Some("Ann <ann@example.org>")),
    ];
    let plan = rebase_todo(&steps, &range).unwrap();
    let expected = format!(
        "pick {}\npick {}\nexec git commit --amend -F \"$(git rev-parse --git-path rebase-merge/terra-msg-1.txt)\"\npick {}\nexec git commit --amend --no-edit --author='Ann <ann@example.org>'\n",
        id('a'),
        id('b'),
        id('c')
    );
    assert_eq!(plan.todo, expected);
    assert_eq!(
        plan.messages,
        vec![("terra-msg-1.txt".to_string(), "New subject\n\nbody".to_string())]
    );
}

#[test]
fn todo_refuses_gaps_doubles_and_foreign_commits() {
    let range = vec![id('a'), id('b')];
    let e = rebase_todo(&[step("pick", &id('a'), None, None)], &range).unwrap_err();
    assert_eq!(
        e.message(),
        "The plan does not cover exactly all commits of the range (data-loss protection)."
    );
    let e = rebase_todo(
        &[step("pick", &id('a'), None, None), step("squash", &id('a'), None, None)],
        &range,
    )
    .unwrap_err();
    assert_eq!(e.message(), "A commit appears twice in the plan");
    // An abbreviated id is padded with zeros, so it names another commit.
    let e = rebase_todo(&[step("pick", "aaaaaaaaaa", None, None)], &range).unwrap_err();
    assert_eq!(e.message(), "Commit aaaaaaaa is not in the rebase range");
    let e = rebase_todo(&[step("pick", "xyz", None, None)], &range).unwrap_err();
    assert_eq!(e.code(), "git_error");
    let e = rebase_todo(
        &[step("pick", &id('a'), None, None), step("squash", &id('b'), None, Some("A <a@b>"))],
        &range,
    )
    .unwrap_err();
    assert_eq!(e.message(), "Author is only allowed with pick/reword");
}

#[test]
fn plans_and_authors_are_checked() {
    assert_eq!(validate_rebase_steps(&[]).unwrap_err().message(), "Empty rebase plan");
    assert_eq!(
        validate_rebase_steps(&[step("edit", "a", None, None)]).unwrap_err().message(),
        "Unknown rebase action: edit"
    );
    assert_eq!(
        validate_rebase_steps(&[step("reword", "a", Some("  "), None)]).unwrap_err().message(),
        "Reword needs a new commit message."
    );
    assert!(validate_rebase_steps(&[step("drop", "a", None, None), step("fixup", "b", None, None)])
        .is_err());
    assert!(validate_rebase_steps(&[step("drop", "a", None, None), step("pick", "b", None, None)])
        .is_ok());
    assert_eq!(author_argument(None).unwrap(), "");
    assert_eq!(author_argument(Some("A <a@b>")).unwrap(), " --author='A <a@b>'");
    assert_eq!(
        author_argument(Some("A <a@b>'; x")).unwrap_err().message(),
        "Invalid author (quotes / leading '-' / control characters)"
    );
    assert_eq!(
        author_argument(Some("A <>")).unwrap_err().message(),
        "Invalid author: expected \"Name <email>\""
    );
}
