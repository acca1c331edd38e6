use aruaru_search::archive::{
    changed_files, check_read, clone_args, failure_message, probe_args, repo_setting, safe_commit,
    safe_rel, scratch_dir, show_args, start_push, top_dirs, Action, ArchiveError, Publish, Pushed,
    Stage, Task,
};

fn strings(v: &[&str]) -> Vec<String> {
    v.iter().map(|s| s.to_string()).collect()
}

fn git(a: Action) -> Vec<String> {
    match a {
        Action::Git(args) => args,
        _ => panic!("no command of git"),
    }
}

fn done(a: Action) -> Pushed {
    match a {
        Action::Done(p) => p,
        _ => panic!("not done"),
    }
}

fn failed(a: Action) -> String {
    match a {
        Action::Failed(e) => e,
        _ => panic!("not failed"),
    }
}

fn ok(s: &str) -> Result<String, String> {
    Ok(s.to_string())
}

fn publish() -> Publish {
    start_push(&strings(&["search/b.json", "daily/a.csv", "search/a.json"]), "update").unwrap_or_else(|_| panic!())
}

/// Runs a saving up to the command that says what has changed.
fn up_to_status(p: &mut Publish) {
    assert_eq!(
        git(p.step(ok(""))),
        strings(&["sparse-checkout", "set", "--cone", "daily", "search"])
    );
    assert_eq!(git(p.step(ok(""))), strings(&["checkout", "--quiet"]));
    assert!(matches!(p.step(ok("")), Action::WriteFiles));
    assert_eq!(git(p.step(ok(""))), strings(&["add", "-A"]));
    assert_eq!(git(p.step(ok(""))), strings(&["status", "--porcelain"]));
}

#[test]
fn rejects_unsafe_paths_and_commits() {
    for bad in [
        "",
        "/etc/passwd",
        "../x",
        "a/../b",
        "a//b",
        "a\\b",
        "c:x",
        "./a",
    ] {
        assert!(!safe_rel(bad), "{bad}");
    }
    assert!(safe_rel("daily/2026/daily_jp_20260901.csv"));
    assert!(safe_commit("a1b2c3d4") && !safe_commit("zz") && !safe_commit("abc; rm -rf /"));
}

#[test]
fn commit_ids_have_four_to_sixty_four_digits() {
    assert!(!safe_commit("abc"));
    assert!(safe_commit("abcd"));
    assert!(safe_commit(&"F".repeat(64)));
    assert!(!safe_commit(&"f".repeat(65)));
    assert!(!safe_commit("あいう"));
}

#[test]
fn top_directories_are_listed_once_in_order() {
    assert_eq!(
        top_dirs(&strings(&["search/b", "daily/a", "search/a", "README.md", "daily/x/y"])),
        strings(&["README.md", "daily", "search"])
    );
    assert_eq!(top_dirs(&Vec::new()), Vec::<String>::new());
}

#[test]
fn the_repository_is_a_setting() {
    assert_eq!(repo_setting(None), None);
    assert_eq!(repo_setting(Some("  \n")), None);
    assert_eq!(
        repo_setting(Some(" https://example.com/r.git\n")).as_deref(),
        Some("https://example.com/r.git")
    );
}

#[test]
fn commands_fetch_as_little_as_possible() {
    assert_eq!(
        clone_args("r", "/tmp/x", true),
        strings(&[
            "clone",
            "--quiet",
            "--filter=blob:none",
            "--no-checkout",
            "--depth",
            "1",
            "r",
            "/tmp/x"
        ])
    );
    assert_eq!(
        clone_args("r", "/tmp/x", false),
        strings(&["clone", "--quiet", "--filter=blob:none", "--no-checkout", "r", "/tmp/x"])
    );
    assert_eq!(show_args("HEAD", "a/b.json"), strings(&["show", "HEAD:a/b.json"]));
    assert_eq!(probe_args("r"), strings(&["ls-remote", "--exit-code", "r", "HEAD"]));
    assert_eq!(scratch_dir(12, 1790000000, 3), "rrd-archive-12-1790000000-3");
}

#[test]
fn failures_of_git_are_reported_with_its_words() {
    assert_eq!(
        failure_message(Task::Command, &strings(&["push", "--quiet"]), " denied\n"),
        "git push に失敗: denied"
    );
    assert_eq!(failure_message(Task::Command, &Vec::new(), "x"), "git  に失敗: x");
    assert_eq!(
        failure_message(Task::Fetch, &Vec::new(), "no\n"),
        "保管庫を取得できません: no"
    );
    assert_eq!(
        failure_message(Task::Probe, &Vec::new(), "no\n"),
        "保管庫に接続できません: no"
    );
}

#[test]
fn nothing_is_saved_without_files_or_outside_the_repository() {
    let none = start_push(&Vec::new(), "m").err().unwrap();
    assert_eq!(none, ArchiveError::NoFiles);
    assert_eq!(none.message(), "保存するファイルがありません");
    let out = start_push(&strings(&["a", "../x", "/y"]), "m").err().unwrap();
    assert_eq!(out, ArchiveError::UnsafePath("../x".into()));
    assert_eq!(out.message(), "保管庫へのパスが正しくありません: ../x");
}

#[test]
fn reading_needs_a_commit_and_safe_paths() {
    assert_eq!(check_read("HEAD", &strings(&["a/b"])), Ok(()));
    assert_eq!(check_read("a1b2", &strings(&["a/b"])), Ok(()));
    let bad = check_read("abc; rm", &strings(&["a"])).unwrap_err();
    assert_eq!(bad, ArchiveError::UnsafeCommit);
    assert_eq!(bad.message(), "コミット ID の形式が正しくありません");
    assert_eq!(
        check_read("HEAD", &strings(&["a", "b/../c"])),
        Err(ArchiveError::UnsafePath("b/../c".into()))
    );
}

#[test]
fn changed_files_are_the_lines_of_the_status() {
    assert_eq!(changed_files(""), 0);
    assert_eq!(changed_files("\n \r\n\n"), 0);
    assert_eq!(changed_files(" M a\r\n?? b\n"), 2);
}

#[test]
fn changed_files_are_committed_and_pushed() {
    let mut p = publish();
    assert_eq!(p.stage, Stage::Fetch);
    up_to_status(&mut p);
    assert_eq!(
        git(p.step(ok("A  search/a.json\nA  search/b.json\n"))),
        strings(&[
            "-c",
            "user.name=aruaru-search",
            "-c",
            "user.email=noreply@aruaru-search",
            "commit",
            "--quiet",
            "-m",
            "update"
        ])
    );
    assert_eq!(git(p.step(ok(""))), strings(&["push", "--quiet", "origin", "HEAD"]));
    assert_eq!(git(p.step(ok(""))), strings(&["rev-parse", "HEAD"]));
    assert_eq!(
        done(p.step(ok("a1b2c3\n"))),
        Pushed {
            changed: 2,
            commit: "a1b2c3".into()
        }
    );
}

#[test]
fn unchanged_files_are_neither_committed_nor_pushed() {
    let mut p = publish();
    up_to_status(&mut p);
    assert_eq!(git(p.step(ok("\n"))), strings(&["rev-parse", "HEAD"]));
    assert_eq!(
        done(p.step(ok(" abcd \n"))),
        Pushed {
            changed: 0,
            commit: "abcd".into()
        }
    );
}

#[test]
fn a_refused_push_is_tried_once_more() {
    let mut p = publish();
    up_to_status(&mut p);
    p.step(ok("A  x\n"));
    p.step(ok(""));
    assert_eq!(
        git(p.step(Err("rejected".into()))),
        strings(&["pull", "--quiet", "--rebase", "origin", "HEAD"])
    );
    assert_eq!(git(p.step(ok(""))), strings(&["push", "--quiet", "origin", "HEAD"]));
    assert_eq!(p.stage, Stage::PushAgain);
    assert_eq!(failed(p.step(Err("rejected again".into()))), "rejected again");
}

#[test]
fn a_failed_pull_says_that_the_push_was_refused() {
    let mut p = publish();
    up_to_status(&mut p);
    p.step(ok("A  x\n"));
    p.step(ok(""));
    p.step(Err("rejected".into()));
    assert_eq!(
        failed(p.step(Err("conflict".into()))),
        "push が拒否され、取り込みにも失敗しました: conflict"
    );
}

#[test]
fn any_other_failure_ends_the_saving() {
    let mut p = publish();
    assert_eq!(failed(p.step(Err("no network".into()))), "no network");
    assert_eq!(p.stage, Stage::Fetch);
}
