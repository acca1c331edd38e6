//! A private git repository as the place where settings and history are kept.
//!
//! Whatever is saved becomes a commit, and the history of the repository is the history of what was
//! saved. As the repository grows it is never fetched whole: to write, only the newest commit and the
//! directories that are written to; to read, the commits without the contents of files, and then the
//! contents of the files that are asked for.

use vstd::prelude::*;

use crate::text::{
    self, append_chars, append_str, chars_of, cut_before, decimal_of, hex_digit, less, same,
    same_chars, split_on, string_of, trimmed,
};

verus! {

// ---------------------------------------------------------------------------
// Safe names
// ---------------------------------------------------------------------------

/// Whether a part of a path names something in the directory before it.
pub open spec fn plain_part(part: Seq<char>) -> bool {
    part.len() > 0 && part != "."@ && part != ".."@
}

/// Whether a path is relative and never leaves the repository.
pub open spec fn is_safe_rel(p: Seq<char>) -> bool {
    &&& p.len() > 0
    &&& p[0] != '/'
    &&& !p.contains('\\')
    &&& !p.contains(':')
    &&& forall|i: int| 0 <= i < text::split(p, '/').len() ==> plain_part(#[trigger] text::split(p, '/')[i])
}

fn has_char(s: &Vec<char>, c: char) -> (r: bool)
    ensures
        r == s@.contains(c),
{
    for i in 0..s.len()
        invariant
            forall|k: int| 0 <= k < i ==> s@[k] != c,
    {
        if s[i] == c {
            assert(s@[i as int] == c);
            return true;
        }
    }
    false
}

/// Whether a path may be used inside the repository: relative, and never leading out of it.
pub fn safe_rel(p: &str) -> (r: bool)
    ensures
        r == is_safe_rel(p@),
{
    let chars = chars_of(p);
    if chars.len() == 0 || chars[0] == '/' || has_char(&chars, '\\') || has_char(&chars, ':') {
        return false;
    }
    let parts = split_on(&chars, '/');
    let ghost all = text::split(p@, '/');
    let dot = chars_of(".");
    let dots = chars_of("..");
    for i in 0..parts.len()
        invariant
            all == text::split(p@, '/'),
            text::pieces(parts@) == all,
            dot@ == "."@,
            dots@ == ".."@,
            forall|k: int| 0 <= k < i ==> plain_part(#[trigger] all[k]),
    {
        assert(all[i as int] == parts@[i as int]@);
        if parts[i].len() == 0 || same_chars(&parts[i], &dot) || same_chars(&parts[i], &dots) {
            assert(!plain_part(all[i as int]));
            return false;
        }
    }
    true
}

/// Whether a text has the form of a commit id: 4 to 64 hexadecimal digits.
pub open spec fn is_safe_commit(id: Seq<char>) -> bool {
    &&& 4 <= id.len() <= 64
    &&& forall|i: int| 0 <= i < id.len() ==> text::is_hex_digit(#[trigger] id[i])
}

/// Whether a text may be used as a commit id.
pub fn safe_commit(id: &str) -> (r: bool)
    ensures
        r == is_safe_commit(id@),
{
    let chars = chars_of(id);
    if chars.len() < 4 || chars.len() > 64 {
        return false;
    }
    for i in 0..chars.len()
        invariant
            chars@ == id@,
            forall|k: int| 0 <= k < i ==> text::is_hex_digit(#[trigger] id@[k]),
    {
        if !hex_digit(chars[i]) {
            assert(!text::is_hex_digit(id@[i as int]));
            return false;
        }
    }
    true
}

/// The address of the repository that a setting gives: without the white space around it, and none
/// where nothing else is left.
pub open spec fn repo_of(value: Option<Seq<char>>) -> Option<Seq<char>> {
    match value {
        Some(s) => if text::trim(s).len() == 0 {
            None
        } else {
            Some(text::trim(s))
        },
        None => None,
    }
}

/// The address of the repository that a setting gives.
pub fn repo_setting(value: Option<&str>) -> (r: Option<String>)
    ensures
        (match r {
            Some(s) => Some(s@),
            None => None,
        }) == repo_of(
            match value {
                Some(s) => Some(s@),
                None => None,
            },
        ),
{
    match value {
        Some(s) => {
            let t = trimmed(&chars_of(s));
            if t.len() == 0 {
                None
            } else {
                Some(string_of(&t))
            }
        },
        None => None,
    }
}

// ---------------------------------------------------------------------------
// The directories that are written to
// ---------------------------------------------------------------------------

/// Whether texts stand in order, none of them twice.
pub open spec fn ascending(v: Seq<Seq<char>>) -> bool {
    forall|i: int, j: int| 0 <= i < j < v.len() ==> text::text_less(#[trigger] v[i], #[trigger] v[j])
}

/// The first parts of some paths.
pub open spec fn first_parts(paths: Seq<Seq<char>>) -> Seq<Seq<char>> {
    paths.map_values(|p: Seq<char>| text::before(p, '/'))
}

/// Whether `top` lists the first parts of the paths, each once, in order.
pub open spec fn lists_top(top: Seq<Seq<char>>, paths: Seq<Seq<char>>) -> bool {
    &&& ascending(top)
    &&& forall|d: Seq<char>| #[trigger] top.contains(d) <==> first_parts(paths).contains(d)
}

/// The place of a text among others that stand in order: how many of them come before it.
fn place_of(v: &Vec<Vec<char>>, d: &Vec<char>) -> (r: usize)
    requires
        ascending(text::pieces(v@)),
    ensures
        r <= v@.len(),
        forall|k: int| 0 <= k < r ==> text::text_less(#[trigger] text::pieces(v@)[k], d@),
        forall|k: int| r <= k < v@.len() ==> !text::text_less(#[trigger] text::pieces(v@)[k], d@),
{
    let ghost all = text::pieces(v@);
    let mut i: usize = 0;
    while i < v.len() && less(&v[i], d)
        invariant
            i <= v@.len(),
            all == text::pieces(v@),
            forall|k: int| 0 <= k < i ==> text::text_less(#[trigger] all[k], d@),
        decreases v@.len() - i,
    {
        assert(all[i as int] == v@[i as int]@);
        i += 1;
    }
    assert forall|k: int| i <= k < v@.len() implies !text::text_less(#[trigger] all[k], d@) by {
        assert(all[i as int] == v@[i as int]@);
        assert(!text::text_less(all[i as int], d@));
        if k > i && text::text_less(all[k], d@) {
            assert(text::text_less(all[i as int], all[k]));
            text::lemma_less_transitive(all[i as int], all[k], d@);
        }
    }
    i
}

/// The directories at the top of the repository that some paths lead into.
pub fn top_dirs(paths: &Vec<String>) -> (r: Vec<String>)
    ensures
        lists_top(text::texts(r@), text::texts(paths@)),
{
    let mut top: Vec<Vec<char>> = Vec::new();
    let ghost firsts = first_parts(text::texts(paths@));
    for i in 0..paths.len()
        invariant
            firsts == first_parts(text::texts(paths@)),
            lists_top(text::pieces(top@), text::texts(paths@).take(i as int)),
    {
        let d = cut_before(&chars_of(paths[i].as_str()), '/');
        let ghost seen = text::texts(paths@).take(i as int);
        let ghost seen_next = text::texts(paths@).take(i + 1);
        let ghost before = text::pieces(top@);
        assert(firsts[i as int] == d@);
        assert(first_parts(seen_next) == first_parts(seen).push(d@));
        let at: usize = place_of(&top, &d);
        let known: bool = at < top.len() && same_chars(&top[at], &d);
        let ghost dir = d@;
        assert(at < top@.len() ==> before[at as int] == top@[at as int]@);
        if !known {
            top.insert(at, d);
            let ghost after = text::pieces(top@);
            assert(after =~= before.insert(at as int, dir));
            proof {
                assert forall|a: int, b: int| 0 <= a < b < after.len() implies text::text_less(
                    #[trigger] after[a],
                    #[trigger] after[b],
                ) by {
                    if a == at {
                        assert(after[b] == before[b - 1]);
                        assert(!text::text_less(before[b - 1], dir));
                        if b - 1 > at {
                            assert(text::text_less(before[at as int], before[b - 1]));
                            text::lemma_less_total(before[at as int], dir);
                            if text::text_less(dir, before[at as int]) {
                                text::lemma_less_transitive(
                                    dir,
                                    before[at as int],
                                    before[b - 1],
                                );
                            }
                        } else {
                            text::lemma_less_total(before[b - 1], dir);
                        }
                    } else if b == at {
                        assert(after[a] == before[a]);
                    } else {
                        let a0 = if a < at {
                            a
                        } else {
                            a - 1
                        };
                        let b0 = if b < at {
                            b
                        } else {
                            b - 1
                        };
                        assert(after[a] == before[a0] && after[b] == before[b0]);
                    }
                }
                assert forall|x: Seq<char>| #[trigger] after.contains(x) <==> first_parts(
                    seen_next,
                ).contains(x) by {
                    lemma_insert_contains(before, at as int, dir, x);
                    lemma_push_contains(first_parts(seen), dir, x);
                    assert(before.contains(x) <==> first_parts(seen).contains(x));
                }
            }
        } else {
            proof {
                assert(before.contains(dir));
                assert forall|x: Seq<char>| #[trigger] before.contains(x) <==> first_parts(
                    seen_next,
                ).contains(x) by {
                    lemma_push_contains(first_parts(seen), dir, x);
                    assert(before.contains(x) <==> first_parts(seen).contains(x));
                    assert(before.contains(dir) <==> first_parts(seen).contains(dir));
                }
            }
        }
    }
    assert(text::texts(paths@).take(paths@.len() as int) == text::texts(paths@));
    let mut out: Vec<String> = Vec::new();
    for i in 0..top.len()
        invariant
            out@.len() == i,
            forall|k: int| 0 <= k < i ==> (#[trigger] out@[k])@ == top@[k]@,
    {
        out.push(string_of(&top[i]));
    }
    assert(text::texts(out@) =~= text::pieces(top@));
    out
}

proof fn lemma_insert_contains(v: Seq<Seq<char>>, at: int, d: Seq<char>, x: Seq<char>)
    requires
        0 <= at <= v.len(),
    ensures
        v.insert(at, d).contains(x) <==> v.contains(x) || x == d,
{
    let w = v.insert(at, d);
    if v.contains(x) {
        let k = choose|k: int| 0 <= k < v.len() && v[k] == x;
        assert(w[if k < at {
            k
        } else {
            k + 1
        }] == x);
    }
    assert(w[at] == d);
    if w.contains(x) {
        let k = choose|k: int| 0 <= k < w.len() && w[k] == x;
        if k < at {
            assert(v[k] == x);
        } else if k > at {
            assert(v[k - 1] == x);
        }
    }
}

proof fn lemma_push_contains(v: Seq<Seq<char>>, d: Seq<char>, x: Seq<char>)
    ensures
        v.push(d).contains(x) <==> v.contains(x) || x == d,
{
    assert(v.push(d) =~= v.insert(v.len() as int, d));
    lemma_insert_contains(v, v.len() as int, d, x);
}

// ---------------------------------------------------------------------------
// The commands of git
// ---------------------------------------------------------------------------

pub open spec fn str_texts(v: Seq<&str>) -> Seq<Seq<char>> {
    v.map_values(|s: &str| s@)
}

fn strings<const N: usize>(a: [&str; N]) -> (r: Vec<String>)
    ensures
        text::texts(r@) == str_texts(a@),
{
    let mut out: Vec<String> = Vec::new();
    for i in 0..N
        invariant
            out@.len() == i,
            forall|k: int| 0 <= k < i ==> (#[trigger] out@[k])@ == a@[k]@,
    {
        out.push(a[i].to_string());
    }
    assert(text::texts(out@) =~= str_texts(a@));
    out
}

/// What `git` is given to fetch the repository into a directory: without the contents of files, and
/// without its history where that is not needed.
pub open spec fn clone_command(repo: Seq<char>, dir: Seq<char>, shallow: bool) -> Seq<Seq<char>> {
    let head = seq!["clone"@, "--quiet"@, "--filter=blob:none"@, "--no-checkout"@];
    if shallow {
        head + seq!["--depth"@, "1"@, repo, dir]
    } else {
        head + seq![repo, dir]
    }
}

pub fn clone_args(repo: &str, dir: &str, shallow: bool) -> (r: Vec<String>)
    ensures
        text::texts(r@) == clone_command(repo@, dir@, shallow),
{
    let r = if shallow {
        strings(
            [
                "clone",
                "--quiet",
                "--filter=blob:none",
                "--no-checkout",
                "--depth",
                "1",
                repo,
                dir,
            ],
        )
    } else {
        strings(["clone", "--quiet", "--filter=blob:none", "--no-checkout", repo, dir])
    };
    assert(text::texts(r@) =~= clone_command(repo@, dir@, shallow));
    r
}

/// What `git` is given to show the contents of a file as a commit has it.
pub open spec fn show_command(rev: Seq<char>, path: Seq<char>) -> Seq<Seq<char>> {
    seq!["show"@, rev + ":"@ + path]
}

pub fn show_args(rev: &str, path: &str) -> (r: Vec<String>)
    ensures
        text::texts(r@) == show_command(rev@, path@),
{
    let object = rev.to_string().concat(":").concat(path);
    let r = strings(["show", object.as_str()]);
    assert(text::texts(r@) =~= show_command(rev@, path@));
    r
}

/// What `git` is given to see whether the repository answers.
pub open spec fn probe_command(repo: Seq<char>) -> Seq<Seq<char>> {
    seq!["ls-remote"@, "--exit-code"@, repo, "HEAD"@]
}

pub fn probe_args(repo: &str) -> (r: Vec<String>)
    ensures
        text::texts(r@) == probe_command(repo@),
{
    let r = strings(["ls-remote", "--exit-code", repo, "HEAD"]);
    assert(text::texts(r@) =~= probe_command(repo@));
    r
}

/// The name of a directory that is used once: by process, time and count.
pub open spec fn scratch_name(pid: nat, now: nat, n: nat) -> Seq<char> {
    "rrd-archive-"@ + text::decimal(pid) + "-"@ + text::decimal(now) + "-"@ + text::decimal(n)
}

pub fn scratch_dir(pid: u32, now: u64, n: u64) -> (r: String)
    ensures
        r@ == scratch_name(pid as nat, now as nat, n as nat),
{
    let mut out = chars_of("rrd-archive-");
    append_chars(&mut out, &decimal_of(pid as u64));
    append_str(&mut out, "-");
    append_chars(&mut out, &decimal_of(now));
    append_str(&mut out, "-");
    append_chars(&mut out, &decimal_of(n));
    string_of(&out)
}

/// What `git` was asked to do when it failed.
#[derive(Clone, Copy, Debug, PartialEq, Eq, Structural)]
pub enum Task {
    /// To fetch the repository.
    Fetch,
    /// To see whether it answers.
    Probe,
    /// A command in a fetched repository.
    Command,
}

/// How a failure of `git` is reported: with what it wrote to its error output.
pub open spec fn failure_text(task: Task, args: Seq<Seq<char>>, stderr: Seq<char>) -> Seq<char> {
    match task {
        Task::Fetch => "保管庫を取得できません: "@ + text::trim(stderr),
        Task::Probe => "保管庫に接続できません: "@ + text::trim(stderr),
        Task::Command => "git "@ + (if args.len() > 0 {
            args[0]
        } else {
            Seq::empty()
        }) + " に失敗: "@ + text::trim(stderr),
    }
}

pub fn failure_message(task: Task, args: &Vec<String>, stderr: &str) -> (r: String)
    ensures
        r@ == failure_text(task, text::texts(args@), stderr@),
{
    let mut out: Vec<char> = match task {
        Task::Fetch => chars_of("保管庫を取得できません: "),
        Task::Probe => chars_of("保管庫に接続できません: "),
        Task::Command => {
            let mut head = chars_of("git ");
            if args.len() > 0 {
                append_str(&mut head, args[0].as_str());
            }
            append_str(&mut head, " に失敗: ");
            head
        },
    };
    append_chars(&mut out, &trimmed(&chars_of(stderr)));
    assert("git "@ + Seq::<char>::empty() =~= "git "@);
    string_of(&out)
}

// ---------------------------------------------------------------------------
// Saving files
// ---------------------------------------------------------------------------

/// What came of saving.
#[derive(Clone, Debug, PartialEq, Eq)]
pub struct Pushed {
    /// How many files changed; none where all of them were saved before as they are.
    pub changed: usize,
    /// The commit that holds them.
    pub commit: String,
}

/// Where the saving of files stands: what was asked last.
#[derive(Clone, Copy, Debug, PartialEq, Eq, Structural)]
pub enum Stage {
    /// To fetch the newest commit.
    Fetch,
    /// To choose the directories that are needed.
    Choose,
    /// To lay out their files.
    Layout,
    /// To write the files.
    Write,
    /// To take them up for the next commit.
    Add,
    /// To say what has changed.
    Status,
    Commit,
    Push,
    /// To take over what someone else has pushed in between.
    Pull,
    PushAgain,
    /// To name the newest commit.
    Head,
}

/// The saving of files, between two commands.
pub struct Publish {
    pub stage: Stage,
    pub top: Vec<String>,
    pub message: String,
    /// How many files have changed, once that is known.
    pub changed: usize,
}

pub struct PublishView {
    pub stage: Stage,
    pub top: Seq<Seq<char>>,
    pub message: Seq<char>,
    pub changed: nat,
}

impl View for Publish {
    type V = PublishView;

    open spec fn view(&self) -> PublishView {
        PublishView {
            stage: self.stage,
            top: text::texts(self.top@),
            message: self.message@,
            changed: self.changed as nat,
        }
    }
}

/// What is to be done next.
pub enum Action {
    /// To run `git` in the fetched repository with these arguments.
    Git(Vec<String>),
    /// To write the files.
    WriteFiles,
    /// Nothing: the files are saved.
    Done(Pushed),
    /// Nothing: they could not be saved, for the reason given.
    Failed(String),
}

pub enum ActionView {
    Git(Seq<Seq<char>>),
    WriteFiles,
    Done(nat, Seq<char>),
    Failed(Seq<char>),
}

impl View for Action {
    type V = ActionView;

    open spec fn view(&self) -> ActionView {
        match *self {
            Action::Git(args) => ActionView::Git(text::texts(args@)),
            Action::WriteFiles => ActionView::WriteFiles,
            Action::Done(p) => ActionView::Done(p.changed as nat, p.commit@),
            Action::Failed(e) => ActionView::Failed(e@),
        }
    }
}

/// Why files are not saved, or not read.
#[derive(Clone, Debug, PartialEq, Eq)]
pub enum ArchiveError {
    NoFiles,
    /// The path leads out of the repository.
    UnsafePath(String),
    /// The commit id is none.
    UnsafeCommit,
}

pub enum ArchiveFault {
    NoFiles,
    UnsafePath(Seq<char>),
    UnsafeCommit,
}

impl View for ArchiveError {
    type V = ArchiveFault;

    open spec fn view(&self) -> ArchiveFault {
        match *self {
            ArchiveError::NoFiles => ArchiveFault::NoFiles,
            ArchiveError::UnsafePath(p) => ArchiveFault::UnsafePath(p@),
            ArchiveError::UnsafeCommit => ArchiveFault::UnsafeCommit,
        }
    }
}

pub open spec fn archive_fault_text(f: ArchiveFault) -> Seq<char> {
    match f {
        ArchiveFault::NoFiles => "保存するファイルがありません"@,
        ArchiveFault::UnsafePath(p) => "保管庫へのパスが正しくありません: "@ + p,
        ArchiveFault::UnsafeCommit => "コミット ID の形式が正しくありません"@,
    }
}

impl ArchiveError {
    /// The error in words.
    pub fn message(&self) -> (r: String)
        ensures
            r@ == archive_fault_text(self@),
    {
        match self {
            ArchiveError::NoFiles => "保存するファイルがありません".to_string(),
            ArchiveError::UnsafePath(p) => {
                let s = "保管庫へのパスが正しくありません: ".to_string();
                s.concat(p.as_str())
            },
            ArchiveError::UnsafeCommit => "コミット ID の形式が正しくありません".to_string(),
        }
    }
}

/// The first path that leads out of the repository.
pub open spec fn first_unsafe(paths: Seq<Seq<char>>) -> Option<Seq<char>>
    decreases paths.len(),
{
    if paths.len() == 0 {
        None
    } else if !is_safe_rel(paths[0]) {
        Some(paths[0])
    } else {
        first_unsafe(paths.skip(1))
    }
}

fn find_unsafe(paths: &Vec<String>) -> (r: Option<String>)
    ensures
        (match r {
            Some(p) => Some(p@),
            None => None,
        }) == first_unsafe(text::texts(paths@)),
{
    let ghost all = text::texts(paths@);
    assert(all.skip(0) == all);
    for i in 0..paths.len()
        invariant
            all == text::texts(paths@),
            first_unsafe(all) == first_unsafe(all.skip(i as int)),
    {
        let ghost rest = all.skip(i as int);
        assert(rest[0] == paths@[i as int]@);
        assert(rest.skip(1) == all.skip(i + 1));
        if !safe_rel(paths[i].as_str()) {
            return Some(paths[i].clone());
        }
    }
    None
}

/// Why these paths are not written to.
pub open spec fn push_fault(paths: Seq<Seq<char>>) -> Option<ArchiveFault> {
    if paths.len() == 0 {
        Some(ArchiveFault::NoFiles)
    } else {
        match first_unsafe(paths) {
            Some(p) => Some(ArchiveFault::UnsafePath(p)),
            None => None,
        }
    }
}

/// Begins to save files under these paths. The first thing to do is to fetch the repository without
/// its history.
pub fn start_push(paths: &Vec<String>, message: &str) -> (r: Result<Publish, ArchiveError>)
    ensures
        match r {
            Ok(p) => {
                &&& push_fault(text::texts(paths@)) is None
                &&& p@.stage == Stage::Fetch
                &&& p@.message == message@
                &&& p@.changed == 0
                &&& lists_top(p@.top, text::texts(paths@))
            },
            Err(e) => push_fault(text::texts(paths@)) == Some(e@),
        },
{
    if paths.len() == 0 {
        return Err(ArchiveError::NoFiles);
    }
    match find_unsafe(paths) {
        Some(p) => Err(ArchiveError::UnsafePath(p)),
        None => Ok(
            Publish {
                stage: Stage::Fetch,
                top: top_dirs(paths),
                message: message.to_string(),
                changed: 0,
            },
        ),
    }
}

/// How many lines hold more than white space.
pub open spec fn lines_filled(lines: Seq<Seq<char>>) -> nat
    decreases lines.len(),
{
    if lines.len() == 0 {
        0
    } else {
        lines_filled(lines.skip(1)) + if text::trim(lines[0]).len() > 0 {
            1nat
        } else {
            0nat
        }
    }
}

/// How many files `git status --porcelain` lists: one in each line that is not blank.
pub open spec fn files_listed(status: Seq<char>) -> nat {
    lines_filled(text::split(status, '\n'))
}

pub fn changed_files(status: &str) -> (r: usize)
    ensures
        r == files_listed(status@),
{
    let lines = split_on(&chars_of(status), '\n');
    let ghost all = text::pieces(lines@);
    let mut n: usize = 0;
    assert(all.skip(0) == all);
    for i in 0..lines.len()
        invariant
            all == text::pieces(lines@),
            n <= i,
            lines_filled(all) == n + lines_filled(all.skip(i as int)),
    {
        let ghost rest = all.skip(i as int);
        assert(rest[0] == lines@[i as int]@);
        assert(rest.skip(1) == all.skip(i + 1));
        if trimmed(&lines[i]).len() > 0 {
            n += 1;
        }
    }
    assert(all.skip(lines@.len() as int).len() == 0);
    n
}

pub open spec fn sparse_command(top: Seq<Seq<char>>) -> Seq<Seq<char>> {
    seq!["sparse-checkout"@, "set"@, "--cone"@] + top
}

pub open spec fn commit_command(message: Seq<char>) -> Seq<Seq<char>> {
    seq![
        "-c"@,
        "user.name=aruaru-search"@,
        "-c"@,
        "user.email=noreply@aruaru-search"@,
        "commit"@,
        "--quiet"@,
        "-m"@,
        message,
    ]
}

pub open spec fn push_command() -> Seq<Seq<char>> {
    seq!["push"@, "--quiet"@, "origin"@, "HEAD"@]
}

pub open spec fn pull_command() -> Seq<Seq<char>> {
    seq!["pull"@, "--quiet"@, "--rebase"@, "origin"@, "HEAD"@]
}

pub open spec fn head_command() -> Seq<Seq<char>> {
    seq!["rev-parse"@, "HEAD"@]
}

/// What `git` is given at a stage; nothing where it is not run in the repository.
pub open spec fn stage_command(p: PublishView) -> Seq<Seq<char>> {
    match p.stage {
        Stage::Fetch | Stage::Write => Seq::empty(),
        Stage::Choose => sparse_command(p.top),
        Stage::Layout => seq!["checkout"@, "--quiet"@],
        Stage::Add => seq!["add"@, "-A"@],
        Stage::Status => seq!["status"@, "--porcelain"@],
        Stage::Commit => commit_command(p.message),
        Stage::Push | Stage::PushAgain => push_command(),
        Stage::Pull => pull_command(),
        Stage::Head => head_command(),
    }
}

/// The stage after one that went well.
pub open spec fn stage_after(stage: Stage, changed: nat) -> Stage {
    match stage {
        Stage::Fetch => Stage::Choose,
        Stage::Choose => Stage::Layout,
        Stage::Layout => Stage::Write,
        Stage::Write => Stage::Add,
        Stage::Add => Stage::Status,
        Stage::Status => if changed == 0 {
            Stage::Head
        } else {
            Stage::Commit
        },
        Stage::Commit => Stage::Push,
        Stage::Push => Stage::Head,
        Stage::Pull => Stage::PushAgain,
        Stage::PushAgain => Stage::Head,
        Stage::Head => Stage::Head,
    }
}

/// The saving of files after the last thing asked for came out this way: with its output, or with
/// the error in words. A push that is refused is tried once more, after what was pushed in between has
/// been taken over. Nothing is committed where nothing has changed.
pub open spec fn publish_next(p: PublishView, outcome: Result<Seq<char>, Seq<char>>) -> (
    PublishView,
    ActionView,
) {
    match outcome {
        Err(e) => if p.stage == Stage::Push {
            let q = PublishView { stage: Stage::Pull, ..p };
            (q, ActionView::Git(stage_command(q)))
        } else if p.stage == Stage::Pull {
            (
                p,
                ActionView::Failed(
                    "push が拒否され、取り込みにも失敗しました: "@ + e,
                ),
            )
        } else {
            (p, ActionView::Failed(e))
        },
        Ok(out) => if p.stage == Stage::Head {
            (p, ActionView::Done(p.changed, text::trim(out)))
        } else {
            let changed = if p.stage == Stage::Status {
                files_listed(out)
            } else {
                p.changed
            };
            let q = PublishView { stage: stage_after(p.stage, changed), changed, ..p };
            if q.stage == Stage::Write {
                (q, ActionView::WriteFiles)
            } else {
                (q, ActionView::Git(stage_command(q)))
            }
        },
    }
}

pub open spec fn outcome_view(r: Result<String, String>) -> Result<Seq<char>, Seq<char>> {
    match r {
        Ok(s) => Ok(s@),
        Err(e) => Err(e@),
    }
}

impl Publish {
    fn command(&self) -> (r: Vec<String>)
        ensures
            text::texts(r@) == stage_command(self@),
    {
        let r: Vec<String> = match self.stage {
            Stage::Fetch => Vec::new(),
            Stage::Write => Vec::new(),
            Stage::Choose => {
                let mut args = strings(["sparse-checkout", "set", "--cone"]);
                let ghost head = text::texts(args@);
                assert(head =~= seq!["sparse-checkout"@, "set"@, "--cone"@]);
                for i in 0..self.top.len()
                    invariant
                        text::texts(args@) =~= head + text::texts(self.top@).take(i as int),
                {
                    let ghost prev = text::texts(args@);
                    args.push(self.top[i].clone());
                    assert(text::texts(args@) =~= prev.push(self.top@[i as int]@));
                    assert(text::texts(self.top@).take(i + 1) =~= text::texts(self.top@).take(
                        i as int,
                    ).push(self.top@[i as int]@));
                }
                assert(text::texts(self.top@).take(self.top@.len() as int) =~= text::texts(
                    self.top@,
                ));
                args
            },
            Stage::Layout => strings(["checkout", "--quiet"]),
            Stage::Add => strings(["add", "-A"]),
            Stage::Status => strings(["status", "--porcelain"]),
            Stage::Commit => strings(
                [
                    "-c",
                    "user.name=aruaru-search",
                    "-c",
                    "user.email=noreply@aruaru-search",
                    "commit",
                    "--quiet",
                    "-m",
                    self.message.as_str(),
                ],
            ),
            Stage::Push => strings(["push", "--quiet", "origin", "HEAD"]),
            Stage::PushAgain => strings(["push", "--quiet", "origin", "HEAD"]),
            Stage::Pull => strings(["pull", "--quiet", "--rebase", "origin", "HEAD"]),
            Stage::Head => strings(["rev-parse", "HEAD"]),
        };
        assert(text::texts(r@) =~= stage_command(self@));
        r
    }

    /// Takes in how the last thing asked for came out, and says what is to be done next.
    pub fn step(&mut self, outcome: Result<String, String>) -> (r: Action)
        ensures
            (final(self)@, r@) == publish_next(old(self)@, outcome_view(outcome)),
    {
        match outcome {
            Err(e) => {
                if self.stage == Stage::Push {
                    self.stage = Stage::Pull;
                    Action::Git(self.command())
                } else if self.stage == Stage::Pull {
                    let s = "push が拒否され、取り込みにも失敗しました: ".to_string();
                    Action::Failed(s.concat(e.as_str()))
                } else {
                    Action::Failed(e)
                }
            },
            Ok(out) => {
                if self.stage == Stage::Head {
                    let commit = string_of(&trimmed(&chars_of(out.as_str())));
                    return Action::Done(Pushed { changed: self.changed, commit });
                }
                if self.stage == Stage::Status {
                    self.changed = changed_files(out.as_str());
                }
                self.stage = match self.stage {
                    Stage::Fetch => Stage::Choose,
                    Stage::Choose => Stage::Layout,
                    Stage::Layout => Stage::Write,
                    Stage::Write => Stage::Add,
                    Stage::Add => Stage::Status,
                    Stage::Status => if self.changed == 0 {
                        Stage::Head
                    } else {
                        Stage::Commit
                    },
                    Stage::Commit => Stage::Push,
                    Stage::Push => Stage::Head,
                    Stage::Pull => Stage::PushAgain,
                    Stage::PushAgain => Stage::Head,
                    Stage::Head => Stage::Head,
                };
                if self.stage == Stage::Write {
                    Action::WriteFiles
                } else {
                    Action::Git(self.command())
                }
            },
        }
    }
}

// ---------------------------------------------------------------------------
// Reading files
// ---------------------------------------------------------------------------

/// Why files are not read from a commit.
pub open spec fn read_fault(rev: Seq<char>, paths: Seq<Seq<char>>) -> Option<ArchiveFault> {
    if rev != "HEAD"@ && !is_safe_commit(rev) {
        Some(ArchiveFault::UnsafeCommit)
    } else {
        match first_unsafe(paths) {
            Some(p) => Some(ArchiveFault::UnsafePath(p)),
            None => None,
        }
    }
}

/// Whether files may be read from a commit: the newest one, or one named by its id.
pub fn check_read(rev: &str, paths: &Vec<String>) -> (r: Result<(), ArchiveError>)
    ensures
        (match r {
            Ok(_) => None,
            Err(e) => Some(e@),
        }) == read_fault(rev@, text::texts(paths@)),
{
    if !same(rev, "HEAD") && !safe_commit(rev) {
        return Err(ArchiveError::UnsafeCommit);
    }
    match find_unsafe(paths) {
        Some(p) => Err(ArchiveError::UnsafePath(p)),
        None => Ok(()),
    }
}

// ---------------------------------------------------------------------------
// Laws
// ---------------------------------------------------------------------------

/// How many things are still to be done, at most, from a stage on.
pub open spec fn steps_left(stage: Stage) -> nat {
    match stage {
        Stage::Fetch => 11,
        Stage::Choose => 10,
        Stage::Layout => 9,
        Stage::Write => 8,
        Stage::Add => 7,
        Stage::Status => 6,
        Stage::Commit => 5,
        Stage::Push => 4,
        Stage::Pull => 3,
        Stage::PushAgain => 2,
        Stage::Head => 1,
    }
}

/// Whatever comes of each command, saving files comes to an end: each step leads to a later stage, or
/// is the last one.
pub proof fn law_saving_ends(p: PublishView, outcome: Result<Seq<char>, Seq<char>>)
    ensures
        ({
            let (q, action) = publish_next(p, outcome);
            action is Done || action is Failed || steps_left(q.stage) < steps_left(p.stage)
        }),
{
}

/// Where git lists no changed file, nothing is committed and nothing pushed: the newest commit is
/// named, and that is all.
pub proof fn law_unchanged_files_are_not_committed(
    p: PublishView,
    status: Seq<char>,
    head: Seq<char>,
)
    requires
        p.stage == Stage::Status,
        files_listed(status) == 0,
    ensures
        publish_next(p, Ok(status)).1 == ActionView::Git(head_command()),
        publish_next(publish_next(p, Ok(status)).0, Ok(head)).1 == ActionView::Done(
            0,
            text::trim(head),
        ),
{
}

/// A push that is refused is tried again, once, after what others have pushed has been taken over;
/// what is reported then is how many files git listed as changed.
pub proof fn law_refused_push_is_tried_once_more(
    p: PublishView,
    refusal: Seq<char>,
    pulled: Seq<char>,
    pushed: Seq<char>,
    head: Seq<char>,
)
    requires
        p.stage == Stage::Push,
    ensures
        ({
            let (q, pull) = publish_next(p, Err(refusal));
            let (s, again) = publish_next(q, Ok(pulled));
            let (t, name) = publish_next(s, Ok(pushed));
            &&& pull == ActionView::Git(pull_command())
            &&& again == ActionView::Git(push_command())
            &&& name == ActionView::Git(head_command())
            &&& publish_next(t, Ok(head)).1 == ActionView::Done(p.changed, text::trim(head))
            &&& publish_next(s, Err(refusal)).1 == ActionView::Failed(refusal)
        }),
{
}

/// How far below the repository the first `k` parts of a path lead.
pub open spec fn level(parts: Seq<Seq<char>>, k: int) -> int
    decreases k,
{
    if k <= 0 {
        0
    } else {
        level(parts, k - 1) + if parts[k - 1] == ".."@ {
            -1
        } else if parts[k - 1] == "."@ || parts[k - 1].len() == 0 {
            0int
        } else {
            1
        }
    }
}

/// A path that may be used leads one directory down with each of its parts, and so never out of the
/// repository.
pub proof fn law_safe_paths_stay_inside(p: Seq<char>, k: int)
    requires
        is_safe_rel(p),
        0 <= k <= text::split(p, '/').len(),
    ensures
        level(text::split(p, '/'), k) == k,
    decreases k,
{
    if k > 0 {
        law_safe_paths_stay_inside(p, k - 1);
        assert(plain_part(text::split(p, '/')[k - 1]));
    }
}

/// A path is safe exactly where it is names with a `/` between each two: none empty, `.` or `..`, and none
/// with a backslash or a colon.
pub proof fn law_paths_of_plain_names_are_safe(names: Seq<Seq<char>>)
    requires
        names.len() > 0,
        forall|i: int| 0 <= i < names.len() ==> !(#[trigger] names[i]).contains('/'),
    ensures
        is_safe_rel(text::join(names, seq!['/'])) <==> forall|i: int|
            0 <= i < names.len() ==> {
                &&& (#[trigger] names[i]).len() > 0
                &&& names[i] != "."@
                &&& names[i] != ".."@
                &&& !names[i].contains('\\')
                &&& !names[i].contains(':')
            },
{
    let p = text::join(names, seq!['/']);
    text::law_joined_pieces_are_split_again(names, '/');
    lemma_join_contains(names, '/', '\\');
    lemma_join_contains(names, '/', ':');
    if forall|i: int| 0 <= i < names.len() ==> plain_part(#[trigger] names[i]) {
        assert(plain_part(names[0]));
        lemma_join_start(names, '/');
        assert(names[0].contains(names[0][0]));
    }
    if is_safe_rel(p) {
        assert forall|i: int| 0 <= i < names.len() implies {
            &&& (#[trigger] names[i]).len() > 0
            &&& names[i] != "."@
            &&& names[i] != ".."@
            &&& !names[i].contains('\\')
            &&& !names[i].contains(':')
        } by {
            assert(plain_part(text::split(p, '/')[i]));
        }
    }
}

proof fn lemma_join_contains(parts: Seq<Seq<char>>, sep: char, c: char)
    requires
        sep != c,
    ensures
        text::join(parts, seq![sep]).contains(c) <==> exists|i: int|
            0 <= i < parts.len() && (#[trigger] parts[i]).contains(c),
    decreases parts.len(),
{
    let s = text::join(parts, seq![sep]);
    if parts.len() == 1 {
        assert(s == parts[0]);
    } else if parts.len() > 1 {
        let prev = parts.drop_last();
        lemma_join_contains(prev, sep, c);
        let head = text::join(prev, seq![sep]);
        assert(s == head + seq![sep] + parts.last());
        if s.contains(c) {
            let k = choose|k: int| 0 <= k < s.len() && s[k] == c;
            if k < head.len() {
                assert(head[k] == c);
                let i = choose|i: int| 0 <= i < prev.len() && (#[trigger] prev[i]).contains(c);
                assert(parts[i].contains(c));
            } else {
                assert(k > head.len());
                assert(parts.last()[k - head.len() - 1] == c);
                assert(parts[parts.len() - 1].contains(c));
            }
        }
        if exists|i: int| 0 <= i < parts.len() && (#[trigger] parts[i]).contains(c) {
            let i = choose|i: int| 0 <= i < parts.len() && (#[trigger] parts[i]).contains(c);
            if i < prev.len() {
                assert(prev[i].contains(c));
                let k = choose|k: int| 0 <= k < head.len() && head[k] == c;
                assert(s[k] == c);
            } else {
                let k = choose|k: int| 0 <= k < parts[i].len() && parts[i][k] == c;
                assert(s[head.len() + 1 + k] == c);
            }
        }
    }
}

proof fn lemma_join_start(parts: Seq<Seq<char>>, sep: char)
    requires
        parts.len() > 0,
        parts[0].len() > 0,
    ensures
        text::join(parts, seq![sep]).len() > 0,
        text::join(parts, seq![sep])[0] == parts[0][0],
    decreases parts.len(),
{
    if parts.len() > 1 {
        lemma_join_start(parts.drop_last(), sep);
    }
}

/// Files are saved exactly where there are some and every path is safe, and files are read exactly where
/// every path is safe and the commit is `HEAD` or 4 to 64 hexadecimal digits; of the paths that are not
/// safe the first is named.
pub proof fn law_only_safe_paths_are_used(paths: Seq<Seq<char>>, rev: Seq<char>)
    ensures
        push_fault(paths) is None <==> paths.len() > 0 && forall|i: int|
            0 <= i < paths.len() ==> is_safe_rel(#[trigger] paths[i]),
        read_fault(rev, paths) is None <==> {
            &&& rev == "HEAD"@ || (4 <= rev.len() <= 64 && forall|i: int|
                0 <= i < rev.len() ==> text::is_hex_digit(#[trigger] rev[i]))
            &&& forall|i: int| 0 <= i < paths.len() ==> is_safe_rel(#[trigger] paths[i])
        },
        first_unsafe(paths) matches Some(p) ==> exists|i: int|
            0 <= i < paths.len() && #[trigger] paths[i] == p && !is_safe_rel(p) && forall|k: int|
                0 <= k < i ==> is_safe_rel(#[trigger] paths[k]),
{
    lemma_first_unsafe(paths);
}

proof fn lemma_first_unsafe(paths: Seq<Seq<char>>)
    ensures
        first_unsafe(paths) is None <==> forall|i: int|
            0 <= i < paths.len() ==> is_safe_rel(#[trigger] paths[i]),
        first_unsafe(paths) matches Some(p) ==> exists|i: int|
            0 <= i < paths.len() && #[trigger] paths[i] == p && !is_safe_rel(p) && forall|k: int|
                0 <= k < i ==> is_safe_rel(#[trigger] paths[k]),
    decreases paths.len(),
{
    if paths.len() > 0 {
        let rest = paths.skip(1);
        lemma_first_unsafe(rest);
        if !is_safe_rel(paths[0]) {
            assert(paths[0] == first_unsafe(paths)->Some_0);
        } else {
            match first_unsafe(rest) {
                Some(p) => {
                    let i = choose|i: int|
                        0 <= i < rest.len() && #[trigger] rest[i] == p && !is_safe_rel(p)
                            && forall|k: int| 0 <= k < i ==> is_safe_rel(#[trigger] rest[k]);
                    assert(paths[i + 1] == p);
                    assert forall|k: int| 0 <= k < i + 1 implies is_safe_rel(#[trigger] paths[k]) by {
                        if k > 0 {
                            assert(is_safe_rel(rest[k - 1]));
                        }
                    }
                },
                None => {
                    assert forall|i: int| 0 <= i < paths.len() implies is_safe_rel(
                        #[trigger] paths[i],
                    ) by {
                        if i > 0 {
                            assert(is_safe_rel(rest[i - 1]));
                        }
                    }
                },
            }
        }
    }
}

/// The directories that are fetched are those that the paths lead into: for a path `d/..` it is `d`, and
/// none else is among them.
pub proof fn law_written_directories_are_fetched(
    top: Seq<Seq<char>>,
    paths: Seq<Seq<char>>,
    d: Seq<char>,
)
    requires
        lists_top(top, paths),
        !d.contains('/'),
    ensures
        top.contains(d) <==> exists|i: int|
            0 <= i < paths.len() && (#[trigger] paths[i] == d || (paths[i].len() > d.len()
                && paths[i][d.len() as int] == '/' && paths[i].take(d.len() as int) == d)),
{
    let firsts = first_parts(paths);
    if firsts.contains(d) {
        let i = choose|i: int| 0 <= i < firsts.len() && firsts[i] == d;
        text::law_before_the_first(paths[i], '/');
        assert(text::before(paths[i], '/') == d);
        if paths[i].contains('/') {
            assert(paths[i].take(d.len() as int) =~= d);
        }
        assert(paths[i] == d || paths[i].len() > d.len());
    }
    if exists|i: int|
        0 <= i < paths.len() && (#[trigger] paths[i] == d || (paths[i].len() > d.len()
            && paths[i][d.len() as int] == '/' && paths[i].take(d.len() as int) == d)) {
        let i = choose|i: int|
            0 <= i < paths.len() && (#[trigger] paths[i] == d || (paths[i].len() > d.len()
                && paths[i][d.len() as int] == '/' && paths[i].take(d.len() as int) == d));
        let p = paths[i];
        assert forall|k: int| 0 <= k < d.len() implies p[k] != '/' by {
            assert(d.contains(d[k]));
            if p != d {
                assert(p.take(d.len() as int)[k] == p[k]);
            }
        }
        text::lemma_find_is(p, '/', d.len() as int);
        assert(text::before(p, '/') =~= d);
        assert(firsts[i] == d);
        assert(firsts.contains(d));
    }
}

/// Every line that is not blank is a changed file: lines in a row are counted one by one.
pub proof fn law_every_line_is_a_changed_file(lines: Seq<Seq<char>>)
    requires
        lines.len() > 0,
        forall|i: int| 0 <= i < lines.len() ==> !(#[trigger] lines[i]).contains('\n'),
    ensures
        files_listed(text::join(lines, seq!['\n'])) == lines.filter(
            |l: Seq<char>| text::says_something(l),
        ).len(),
{
    text::law_joined_pieces_are_split_again(lines, '\n');
    lemma_lines_filled(lines);
}

proof fn lemma_lines_filled(lines: Seq<Seq<char>>)
    ensures
        lines_filled(lines) == lines.filter(|l: Seq<char>| text::says_something(l)).len(),
    decreases lines.len(),
{
    reveal(Seq::filter);
    let pred = |l: Seq<char>| text::says_something(l);
    if lines.len() > 0 {
        let one = seq![lines[0]];
        let rest = lines.skip(1);
        lemma_lines_filled(rest);
        assert(lines =~= one + rest);
        Seq::filter_distributes_over_add(one, rest, pred);
        assert(one.drop_last() =~= Seq::<Seq<char>>::empty());
        assert(one.last() == lines[0]);
        lemma_trimmed_says(lines[0]);
        assert(one.drop_last().filter(pred).len() == 0);
        assert(one.filter(pred).len() == if text::says_something(lines[0]) {
            1int
        } else {
            0
        });
    }
}

proof fn lemma_trimmed_says(s: Seq<char>)
    ensures
        text::trim(s).len() > 0 <==> text::says_something(s),
{
    let (a, b) = text::law_trimming_takes_white_space_only(s);
    let t = text::trim(s);
    if t.len() > 0 {
        assert(s[a.len() as int] == t[0]);
        assert(!text::is_white(s[a.len() as int]));
    }
    if text::says_something(s) && t.len() == 0 {
        let i = choose|i: int| 0 <= i < s.len() && !text::is_white(#[trigger] s[i]);
        if i < a.len() {
            assert(s[i] == a[i]);
        } else {
            assert(s[i] == b[i - a.len()]);
        }
    }
}

/// Where nothing goes wrong, files are saved by these commands one after the other: the directories are
/// chosen and laid out, the files are written and taken up, and, where git lists changes, they are
/// committed with the whole message and pushed. What is reported is the number of changes that were listed
/// and the newest commit.
pub proof fn law_files_are_saved_step_by_step(
    p: PublishView,
    status: Seq<char>,
    head: Seq<char>,
    said: Seq<char>,
)
    requires
        p.stage == Stage::Fetch,
        files_listed(status) > 0,
    ensures
        ({
            let (p1, a1) = publish_next(p, Ok(said));
            let (p2, a2) = publish_next(p1, Ok(said));
            let (p3, a3) = publish_next(p2, Ok(said));
            let (p4, a4) = publish_next(p3, Ok(said));
            let (p5, a5) = publish_next(p4, Ok(said));
            let (p6, a6) = publish_next(p5, Ok(status));
            let (p7, a7) = publish_next(p6, Ok(said));
            let (p8, a8) = publish_next(p7, Ok(said));
            let (p9, a9) = publish_next(p8, Ok(head));
            &&& a1 == ActionView::Git(seq!["sparse-checkout"@, "set"@, "--cone"@] + p.top)
            &&& a2 == ActionView::Git(seq!["checkout"@, "--quiet"@])
            &&& a3 == ActionView::WriteFiles
            &&& a4 == ActionView::Git(seq!["add"@, "-A"@])
            &&& a5 == ActionView::Git(seq!["status"@, "--porcelain"@])
            &&& a6 matches ActionView::Git(args) && args.len() == 8 && args[4] == "commit"@ && args[6]
                == "-m"@ && args[7] == p.message
            &&& a7 == ActionView::Git(seq!["push"@, "--quiet"@, "origin"@, "HEAD"@])
            &&& a8 == ActionView::Git(seq!["rev-parse"@, "HEAD"@])
            &&& a9 == ActionView::Done(files_listed(status), text::trim(head))
        }),
{
}

/// Any command that fails, but for the first push, is where saving ends, with what was said of it.
pub proof fn law_failures_end_the_saving(p: PublishView, why: Seq<char>)
    ensures
        p.stage != Stage::Push ==> (publish_next(p, Err(why)).1 matches ActionView::Failed(e)
            && text::ends_with(e, why)),
        p.stage != Stage::Push && p.stage != Stage::Pull ==> publish_next(p, Err(why)).1
            == ActionView::Failed(why),
{
    text::law_occurring(Seq::empty(), why, Seq::empty());
    assert(Seq::<char>::empty() + why =~= why);
    text::law_occurring(
        "push が拒否され、取り込みにも失敗しました: "@,
        why,
        Seq::empty(),
    );
}

/// A file is read by its whole path from the commit that is named, and a repository is fetched from its
/// whole address into the directory that is named.
pub proof fn law_commands_name_what_they_are_about(
    rev: Seq<char>,
    path: Seq<char>,
    repo: Seq<char>,
    dir: Seq<char>,
    shallow: bool,
)
    ensures
        show_command(rev, path) == seq!["show"@, rev + ":"@ + path],
        clone_command(repo, dir, shallow).len() > 2,
        clone_command(repo, dir, shallow)[0] == "clone"@,
        clone_command(repo, dir, shallow)[clone_command(repo, dir, shallow).len() - 2] == repo,
        clone_command(repo, dir, shallow).last() == dir,
        clone_command(repo, dir, shallow).len() == if shallow {
            8int
        } else {
            6
        },
        shallow ==> clone_command(repo, dir, shallow)[4] == "--depth"@ && clone_command(
            repo,
            dir,
            shallow,
        )[5] == "1"@,
        probe_command(repo) == seq!["ls-remote"@, "--exit-code"@, repo, "HEAD"@],
        repo_of(Some(repo)) == if text::trim(repo).len() == 0 {
            None
        } else {
            Some(text::trim(repo))
        },
        repo_of(None) is None,
{
}

/// What is said of a failure holds all that git wrote, without the white space around it, and what is said
/// of a path the whole path.
pub proof fn law_failures_are_told_whole(
    task: Task,
    args: Seq<Seq<char>>,
    stderr: Seq<char>,
    path: Seq<char>,
)
    ensures
        text::ends_with(failure_text(task, args, stderr), text::trim(stderr)),
        text::ends_with(archive_fault_text(ArchiveFault::UnsafePath(path)), path),
{
    let t = text::trim(stderr);
    let head = match task {
        Task::Fetch => "保管庫を取得できません: "@,
        Task::Probe => "保管庫に接続できません: "@,
        Task::Command => "git "@ + (if args.len() > 0 {
            args[0]
        } else {
            Seq::empty()
        }) + " に失敗: "@,
    };
    text::law_occurring(head, t, Seq::empty());
    text::law_occurring("保管庫へのパスが正しくありません: "@, path, Seq::empty());
}

proof fn lemma_no_dash(n: u64)
    ensures
        !text::decimal(n as nat).contains('-'),
{
    text::lemma_decimal_digits(n as nat);
    let d = text::decimal(n as nat);
    if d.contains('-') {
        let k = choose|k: int| 0 <= k < d.len() && d[k] == '-';
        assert(text::is_digit(d[k]));
    }
}

/// Directories that are used once never have the same name: another process, another second or another
/// count makes another name.
pub proof fn law_scratch_directories_are_apart(
    pid1: u32,
    now1: u64,
    n1: u64,
    pid2: u32,
    now2: u64,
    n2: u64,
)
    requires
        scratch_name(pid1 as nat, now1 as nat, n1 as nat) == scratch_name(
            pid2 as nat,
            now2 as nat,
            n2 as nat,
        ),
    ensures
        pid1 == pid2,
        now1 == now2,
        n1 == n2,
{
    reveal_strlit("-");
    let h = "rrd-archive-"@;
    assert("-"@ =~= seq!['-']);
    let (p1, t1, c1) = (
        text::decimal(pid1 as nat),
        text::decimal(now1 as nat),
        text::decimal(n1 as nat),
    );
    let (p2, t2, c2) = (
        text::decimal(pid2 as nat),
        text::decimal(now2 as nat),
        text::decimal(n2 as nat),
    );
    let a = seq![p1, t1, c1];
    let b = seq![p2, t2, c2];
    let ja = text::join(a, seq!['-']);
    let jb = text::join(b, seq!['-']);
    text::law_joining_in_parts(seq![p1, t1], seq![c1], seq!['-']);
    text::law_joining_in_parts(seq![p1], seq![t1], seq!['-']);
    text::law_joining_in_parts(seq![c1], seq![c1], seq!['-']);
    text::law_joining_in_parts(seq![t1], seq![t1], seq!['-']);
    text::law_joining_in_parts(seq![p2, t2], seq![c2], seq!['-']);
    text::law_joining_in_parts(seq![p2], seq![t2], seq!['-']);
    text::law_joining_in_parts(seq![c2], seq![c2], seq!['-']);
    text::law_joining_in_parts(seq![t2], seq![t2], seq!['-']);
    assert(seq![p1] + seq![t1] =~= seq![p1, t1]);
    assert(seq![p2] + seq![t2] =~= seq![p2, t2]);
    assert(seq![p1, t1] + seq![c1] =~= a);
    assert(seq![p2, t2] + seq![c2] =~= b);
    assert(ja == p1 + seq!['-'] + t1 + seq!['-'] + c1);
    assert(jb == p2 + seq!['-'] + t2 + seq!['-'] + c2);
    assert(h + p1 + seq!['-'] + t1 + seq!['-'] + c1 =~= h + ja);
    assert(h + p2 + seq!['-'] + t2 + seq!['-'] + c2 =~= h + jb);
    assert(ja =~= (h + ja).skip(h.len() as int));
    assert(jb =~= (h + jb).skip(h.len() as int));
    lemma_no_dash(pid1 as u64);
    lemma_no_dash(now1);
    lemma_no_dash(n1);
    lemma_no_dash(pid2 as u64);
    lemma_no_dash(now2);
    lemma_no_dash(n2);
    text::law_joined_pieces_are_split_again(a, '-');
    text::law_joined_pieces_are_split_again(b, '-');
    assert(a[0] == b[0] && a[1] == b[1] && a[2] == b[2]);
    text::law_numbers_are_read_back(pid1 as u64);
    text::law_numbers_are_read_back(pid2 as u64);
    text::law_numbers_are_read_back(now1);
    text::law_numbers_are_read_back(now2);
    text::law_numbers_are_read_back(n1);
    text::law_numbers_are_read_back(n2);
}

/// Contracts speak of the whole of a saving, of what is to be done, and of an error; and the directories
/// that are fetched are named once each.
pub proof fn law_savings_are_seen_whole(
    p: Publish,
    a: Action,
    e: ArchiveError,
    r: Result<String, String>,
    top: Seq<Seq<char>>,
    paths: Seq<Seq<char>>,
)
    ensures
        p@.stage == p.stage && p@.top == text::texts(p.top@) && p@.message == p.message@ && p@.changed
            == p.changed,
        a matches Action::Git(args) ==> a@ == ActionView::Git(text::texts(args@)),
        a is WriteFiles <==> a@ is WriteFiles,
        a matches Action::Done(x) ==> a@ == ActionView::Done(x.changed as nat, x.commit@),
        a matches Action::Failed(x) ==> a@ == ActionView::Failed(x@),
        e is NoFiles <==> e@ is NoFiles,
        e matches ArchiveError::UnsafePath(x) ==> e@ == ArchiveFault::UnsafePath(x@),
        e is UnsafeCommit <==> e@ is UnsafeCommit,
        r matches Ok(s) ==> outcome_view(r) == Ok::<Seq<char>, Seq<char>>(s@),
        r matches Err(s) ==> outcome_view(r) == Err::<Seq<char>, Seq<char>>(s@),
        lists_top(top, paths) ==> top.no_duplicates(),
{
    if lists_top(top, paths) {
        assert forall|i: int, j: int| 0 <= i < top.len() && 0 <= j < top.len() && i != j implies top[i]
            != top[j] by {
            text::lemma_less_total(top[i], top[j]);
            if i < j {
                assert(text::text_less(top[i], top[j]));
            } else {
                assert(text::text_less(top[j], top[i]));
            }
        }
    }
}

} // verus!
