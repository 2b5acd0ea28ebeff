//! Asking `git`: the command lines, and what is made of its answers.

use vstd::prelude::*;
use vstd::string::*;

use crate::flow::graph::Text;
use crate::parse::{
    after_bytes, byte_len, filled, from_byte, is_digit, keep_filled, law_decimals_read_back, law_separated_pieces_read_back,
    law_the_rest_follows_its_front, law_words_read_back, lemma_all_filled, lines, lines_of, parse_whole, split_at, split_str, whole_number,
    words, words_of,
};
use crate::text::{
    chars_of, decimal, decimal_u64, is_whitespace, join, join2, join3, joined, law_joined_pieces_split_back, opt_text, split, split_char,
    string_of, texts, trim, trimmed,
};

verus! {

// ---- one call ----

/// How a call of `git` went.
pub enum GitOutcome {
    TimedOut,
    /// It could not be run.
    Failed(String),
    Exited { success: bool, stdout: String, stderr: String, status: String },
}

/// What a call that went wrong is reported as: what `git` itself said, where it said anything.
pub open spec fn git_error(args: Seq<Text>, outcome: GitOutcome) -> Text {
    match outcome {
        GitOutcome::TimedOut => "git "@ + joined(args, " "@) + " timed out"@,
        GitOutcome::Failed(e) => e@,
        GitOutcome::Exited { stderr, status, .. } => if trimmed(stderr@).len() == 0 {
            ("git "@ + joined(args, " "@) + " exited with "@) + status@
        } else {
            trimmed(stderr@)
        },
    }
}

/// What a call of `git` comes to: all that it printed, or what went wrong.
pub fn git_result(args: &Vec<String>, outcome: GitOutcome) -> (r: Result<String, String>)
    ensures
        match r {
            Ok(out) => (outcome matches GitOutcome::Exited { success, stdout, .. } && success && out@ == stdout@),
            Err(e) => !(outcome matches GitOutcome::Exited { success, .. } && success) && e@ == git_error(texts(args@), outcome),
        },
{
    match outcome {
        GitOutcome::TimedOut => {
            let line = join(args, " ");
            Err(join3("git ", &line, " timed out"))
        },
        GitOutcome::Failed(e) => Err(e),
        GitOutcome::Exited { success, stdout, stderr, status } => {
            if success {
                return Ok(stdout);
            }
            let said = trim(&stderr);
            if said.unicode_len() == 0 {
                let line = join(args, " ");
                let head = join3("git ", &line, " exited with ");
                Err(join2(&head, &status))
            } else {
                Err(said)
            }
        },
    }
}

// ---- the state of a checkout ----

/// What a line of the short status says of a file.
#[derive(PartialEq, Eq, Structural, Clone, Copy, Debug)]
pub enum Change {
    Added,
    Deleted,
    Modified,
}

/// A new file goes before a deleted one, a deleted one before anything else.
pub open spec fn change_of(line: Text) -> Change {
    if line.len() > 0 && (line[0] == '?' || line[0] == 'A') {
        Change::Added
    } else if (line.len() > 0 && line[0] == 'D') || (line.len() > 1 && line[1] == 'D') {
        Change::Deleted
    } else {
        Change::Modified
    }
}

/// How many of the lines say `change`.
pub open spec fn count_of(v: Seq<Text>, change: Change) -> nat
    decreases v.len(),
{
    if v.len() == 0 {
        0
    } else {
        count_of(v.drop_last(), change) + if change_of(v.last()) == change { 1nat } else { 0nat }
    }
}

fn read_change(line: &str) -> (r: Change)
    ensures
        r == change_of(line@),
{
    let a = chars_of(line);
    if a.len() > 0 && (a[0] == '?' || a[0] == 'A') {
        Change::Added
    } else if (a.len() > 0 && a[0] == 'D') || (a.len() > 1 && a[1] == 'D') {
        Change::Deleted
    } else {
        Change::Modified
    }
}

/// A checkout that is one.
pub struct Info {
    pub branch: String,
    pub added: u64,
    pub modified: u64,
    pub deleted: u64,
    pub ahead: i64,
    pub behind: i64,
}

/// The number at place `i` of a line of numbers; nought where there is none.
pub open spec fn number_at(line: Option<Text>, i: int) -> int {
    match line {
        Some(s) => if i < words(s).len() && whole_number(words(s)[i]) is Some {
            whole_number(words(s)[i])->0
        } else {
            0
        },
        None => 0,
    }
}

fn word_number(v: &Vec<String>, i: usize) -> (r: i64)
    ensures
        r == if i < v@.len() && whole_number(v@[i as int]@) is Some { whole_number(v@[i as int]@)->0 } else { 0 },
{
    if i < v.len() {
        match parse_whole(&v[i]) {
            Some(n) => n,
            None => 0,
        }
    } else {
        0
    }
}

/// The state of a checkout, from the branch's name, the short status and how far it is from its
/// upstream, where it has one. None where there is no checkout.
pub fn info(branch: Result<String, String>, status: Result<String, String>, distance: Result<String, String>) -> (r: Option<Info>)
    ensures
        r is Some <==> branch is Ok && status is Ok,
        r matches Some(x) ==> {
            let seen = lines(status->Ok_0@);
            let away = match distance {
                Ok(d) => Some(d@),
                Err(_) => None,
            };
            &&& x.branch@ == trimmed(branch->Ok_0@)
            &&& x.added == count_of(seen, Change::Added)
            &&& x.modified == count_of(seen, Change::Modified)
            &&& x.deleted == count_of(seen, Change::Deleted)
            &&& x.behind == number_at(away, 0)
            &&& x.ahead == number_at(away, 1)
        },
{
    let name = match branch {
        Ok(b) => trim(&b),
        Err(_) => return None,
    };
    let text = match status {
        Ok(s) => s,
        Err(_) => return None,
    };
    let seen = lines_of(&text);
    let ghost all = texts(seen@);
    let n: usize = seen.len();
    let mut added: u64 = 0;
    let mut modified: u64 = 0;
    let mut deleted: u64 = 0;
    let mut i: usize = 0;
    assert(all.take(0) =~= Seq::<Text>::empty());
    while i < n
        invariant
            i <= n,
            n == seen@.len(),
            all == texts(seen@),
            added == count_of(all.take(i as int), Change::Added),
            modified == count_of(all.take(i as int), Change::Modified),
            deleted == count_of(all.take(i as int), Change::Deleted),
            added + modified + deleted == i,
        decreases n - i,
    {
        assert(all.take(i + 1).drop_last() =~= all.take(i as int));
        assert(all.take(i + 1).last() == seen@[i as int]@);
        match read_change(&seen[i]) {
            Change::Added => {
                added += 1;
            },
            Change::Deleted => {
                deleted += 1;
            },
            Change::Modified => {
                modified += 1;
            },
        }
        i += 1;
    }
    assert(all.take(n as int) =~= all);
    let (behind, ahead) = match distance {
        Ok(d) => {
            let parts = words_of(&d);
            assert(texts(parts@).len() == parts@.len());
            assert(parts@.len() > 0 ==> texts(parts@)[0] == parts@[0]@);
            assert(parts@.len() > 1 ==> texts(parts@)[1] == parts@[1]@);
            (word_number(&parts, 0), word_number(&parts, 1))
        },
        Err(_) => (0, 0),
    };
    Some(Info { branch: name, added, modified, deleted, ahead, behind })
}

/// Every line of the short status is counted once.
pub proof fn law_every_change_is_counted_once(v: Seq<Text>)
    ensures
        count_of(v, Change::Added) + count_of(v, Change::Modified) + count_of(v, Change::Deleted) == v.len(),
    decreases v.len(),
{
    if v.len() > 0 {
        law_every_change_is_counted_once(v.drop_last());
    }
}

/// The branches, one a line.
pub fn branches(out: &str) -> (r: Vec<String>)
    ensures
        texts(r@) == lines(out@),
{
    lines_of(out)
}

/// A file of the short status: its two marks and its path.
pub struct StatusFile {
    pub x: String,
    pub y: String,
    pub path: String,
}

#[verifier::ext_equal]
pub struct StatusFileView {
    pub x: Text,
    pub y: Text,
    pub path: Text,
}

impl View for StatusFile {
    type V = StatusFileView;

    open spec fn view(&self) -> StatusFileView {
        StatusFileView { x: self.x@, y: self.y@, path: self.path@ }
    }
}

/// The character at `i` as a string; empty where there is none.
pub open spec fn mark_at(line: Text, i: int) -> Text {
    if i < line.len() {
        seq![line[i]]
    } else {
        Seq::empty()
    }
}

/// The two marks, and the path after them and one blank.
pub open spec fn status_line(line: Text) -> StatusFileView {
    StatusFileView { x: mark_at(line, 0), y: mark_at(line, 1), path: from_byte(line, 3) }
}

fn mark(a: &Vec<char>, i: usize) -> (r: String)
    ensures
        r@ == mark_at(a@, i as int),
{
    if i < a.len() {
        assert(a@.subrange(i as int, i + 1) =~= seq![a@[i as int]]);
        string_of(a, i, i + 1)
    } else {
        String::new()
    }
}

pub open spec fn status_views(v: Seq<StatusFile>) -> Seq<StatusFileView> {
    v.map_values(|f: StatusFile| f@)
}

/// The files of the short status.
pub fn status(out: &str) -> (r: Vec<StatusFile>)
    ensures
        status_views(r@) == lines(out@).map_values(|l: Text| status_line(l)),
{
    let seen = lines_of(out);
    let mut files: Vec<StatusFile> = Vec::new();
    let mut i: usize = 0;
    while i < seen.len()
        invariant
            i <= seen@.len(),
            files@.len() == i,
            forall|j: int| 0 <= j < i ==> (#[trigger] files@[j])@ == status_line(seen@[j]@),
        decreases seen@.len() - i,
    {
        let a = chars_of(&seen[i]);
        let f = StatusFile { x: mark(&a, 0), y: mark(&a, 1), path: after_bytes(&seen[i], 3) };
        assert(f@ =~= status_line(seen@[i as int]@));
        files.push(f);
        i += 1;
    }
    assert(status_views(files@) =~= lines(out@).map_values(|l: Text| status_line(l))) by {
        assert(texts(seen@) == lines(out@));
        assert forall|j: int| 0 <= j < files@.len() implies status_views(files@)[j] == lines(out@).map_values(|l: Text| status_line(l))[j] by {
            assert(lines(out@)[j] == seen@[j]@);
        }
    }
    files
}

// ---- history ----

/// One commit of the log.
pub struct LogEntry {
    pub hash: String,
    pub short: String,
    pub author: String,
    pub date: String,
    pub refs: Vec<String>,
    pub subject: String,
}

#[verifier::ext_equal]
pub struct LogEntryView {
    pub hash: Text,
    pub short: Text,
    pub author: Text,
    pub date: Text,
    pub refs: Seq<Text>,
    pub subject: Text,
}

impl View for LogEntry {
    type V = LogEntryView;

    open spec fn view(&self) -> LogEntryView {
        LogEntryView {
            hash: self.hash@,
            short: self.short@,
            author: self.author@,
            date: self.date@,
            refs: texts(self.refs@),
            subject: self.subject@,
        }
    }
}

/// The piece at `i`; empty where there is none.
pub open spec fn piece_at(v: Seq<Text>, i: int) -> Text {
    if i < v.len() {
        v[i]
    } else {
        Seq::empty()
    }
}

/// A line of the log: six fields with a unit separator between each two, the names of the commit
/// in one of them.
pub open spec fn log_line(line: Text) -> LogEntryView {
    let p = split(line, '\u{1f}');
    LogEntryView {
        hash: piece_at(p, 0),
        short: piece_at(p, 1),
        author: piece_at(p, 2),
        date: piece_at(p, 3),
        refs: filled(split_at(piece_at(p, 4), seq![',', ' '])),
        subject: piece_at(p, 5),
    }
}

fn piece(v: &Vec<String>, i: usize) -> (r: String)
    ensures
        r@ == piece_at(texts(v@), i as int),
{
    if i < v.len() {
        v[i].clone()
    } else {
        String::new()
    }
}

pub open spec fn log_views(v: Seq<LogEntry>) -> Seq<LogEntryView> {
    v.map_values(|e: LogEntry| e@)
}

/// The commits of the log.
pub fn log(out: &str) -> (r: Vec<LogEntry>)
    ensures
        log_views(r@) == lines(out@).map_values(|l: Text| log_line(l)),
{
    let seen = lines_of(out);
    let mut list: Vec<LogEntry> = Vec::new();
    let mut i: usize = 0;
    proof {
        reveal_strlit(", ");
        assert(", "@ =~= seq![',', ' ']);
    }
    while i < seen.len()
        invariant
            i <= seen@.len(),
            list@.len() == i,
            ", "@ == seq![',', ' '],
            forall|j: int| 0 <= j < i ==> (#[trigger] list@[j])@ == log_line(seen@[j]@),
        decreases seen@.len() - i,
    {
        let p = split_char(&seen[i], '\u{1f}');
        let names = piece(&p, 4);
        let all = split_str(&names, ", ");
        let e = LogEntry {
            hash: piece(&p, 0),
            short: piece(&p, 1),
            author: piece(&p, 2),
            date: piece(&p, 3),
            refs: keep_filled(&all),
            subject: piece(&p, 5),
        };
        assert(e@ =~= log_line(seen@[i as int]@));
        list.push(e);
        i += 1;
    }
    assert(log_views(list@) =~= lines(out@).map_values(|l: Text| log_line(l))) by {
        assert forall|j: int| 0 <= j < list@.len() implies log_views(list@)[j] == lines(out@).map_values(|l: Text| log_line(l))[j] by {
            assert(lines(out@)[j] == seen@[j]@);
        }
    }
    list
}

/// A file of a commit: what happened to it, and where it is now.
pub struct CommitFile {
    pub status: String,
    pub path: String,
}

#[verifier::ext_equal]
pub struct CommitFileView {
    pub status: Text,
    pub path: Text,
}

impl View for CommitFile {
    type V = CommitFileView;

    open spec fn view(&self) -> CommitFileView {
        CommitFileView { status: self.status@, path: self.path@ }
    }
}

/// The first letter of the first field, and the last field: of a file that was moved, the place
/// that it was moved to.
pub open spec fn commit_line(line: Text) -> CommitFileView {
    let p = split(line, '\t');
    CommitFileView { status: mark_at(p[0], 0), path: p.last() }
}

pub open spec fn commit_views(v: Seq<CommitFile>) -> Seq<CommitFileView> {
    v.map_values(|f: CommitFile| f@)
}

/// The files of a commit.
pub fn commit_files(raw: &str) -> (r: Vec<CommitFile>)
    ensures
        commit_views(r@) == lines(raw@).map_values(|l: Text| commit_line(l)),
{
    let seen = lines_of(raw);
    let mut files: Vec<CommitFile> = Vec::new();
    let mut i: usize = 0;
    while i < seen.len()
        invariant
            i <= seen@.len(),
            files@.len() == i,
            forall|j: int| 0 <= j < i ==> (#[trigger] files@[j])@ == commit_line(seen@[j]@),
        decreases seen@.len() - i,
    {
        let p = split_char(&seen[i], '\t');
        let n: usize = p.len();
        let first = chars_of(&p[0]);
        let f = CommitFile { status: mark(&first, 0), path: p[n - 1].clone() };
        proof {
            let parts = split(seen@[i as int]@, '\t');
            assert(texts(p@)[0] == p@[0]@);
            assert(parts.last() == p@[n - 1]@);
            assert(f@ =~= commit_line(seen@[i as int]@));
        }
        files.push(f);
        i += 1;
    }
    assert(commit_views(files@) =~= lines(raw@).map_values(|l: Text| commit_line(l))) by {
        assert forall|j: int| 0 <= j < files@.len() implies commit_views(files@)[j] == lines(raw@).map_values(|l: Text| commit_line(l))[j] by {
            assert(lines(raw@)[j] == seen@[j]@);
        }
    }
    files
}

// ---- command lines ----

/// A question to `git`.
pub enum GitCall {
    Branch,
    Status,
    Distance,
    Branches,
    Checkout { branch: String, create: bool },
    Log { limit: Option<u32> },
    Message { hash: String },
    Files { hash: String },
    /// The files of a commit that has no parent.
    RootFiles { hash: String },
    Diff { hash: String, file: String },
    /// The changes of a commit that has no parent.
    RootDiff { hash: String, file: String },
    Stage { paths: Option<Vec<String>> },
    Commit { message: String },
    Head,
    Push,
}

pub enum GitCallView {
    Branch,
    Status,
    Distance,
    Branches,
    Checkout { branch: Text, create: bool },
    Log { limit: Option<u32> },
    Message { hash: Text },
    Files { hash: Text },
    RootFiles { hash: Text },
    Diff { hash: Text, file: Text },
    RootDiff { hash: Text, file: Text },
    Stage { paths: Option<Seq<Text>> },
    Commit { message: Text },
    Head,
    Push,
}

impl View for GitCall {
    type V = GitCallView;

    open spec fn view(&self) -> GitCallView {
        match self {
            GitCall::Branch => GitCallView::Branch,
            GitCall::Status => GitCallView::Status,
            GitCall::Distance => GitCallView::Distance,
            GitCall::Branches => GitCallView::Branches,
            GitCall::Checkout { branch, create } => GitCallView::Checkout { branch: branch@, create: *create },
            GitCall::Log { limit } => GitCallView::Log { limit: *limit },
            GitCall::Message { hash } => GitCallView::Message { hash: hash@ },
            GitCall::Files { hash } => GitCallView::Files { hash: hash@ },
            GitCall::RootFiles { hash } => GitCallView::RootFiles { hash: hash@ },
            GitCall::Diff { hash, file } => GitCallView::Diff { hash: hash@, file: file@ },
            GitCall::RootDiff { hash, file } => GitCallView::RootDiff { hash: hash@, file: file@ },
            GitCall::Stage { paths } => GitCallView::Stage {
                paths: match paths {
                    Some(p) => Some(texts(p@)),
                    None => None,
                },
            },
            GitCall::Commit { message } => GitCallView::Commit { message: message@ },
            GitCall::Head => GitCallView::Head,
            GitCall::Push => GitCallView::Push,
        }
    }
}

/// The most commits that are asked for; nought counts as no number at all.
pub open spec fn log_limit(limit: Option<u32>) -> nat {
    match limit {
        Some(n) => if n == 0 {
            250
        } else {
            n as nat
        },
        None => 250,
    }
}

pub open spec fn git_args(call: GitCallView) -> Seq<Text> {
    match call {
        GitCallView::Branch => seq!["rev-parse"@, "--abbrev-ref"@, "HEAD"@],
        GitCallView::Status => seq!["status"@, "--porcelain"@],
        GitCallView::Distance => seq!["rev-list"@, "--left-right"@, "--count"@, "@{u}...HEAD"@],
        GitCallView::Branches => seq!["branch"@, "--sort=-committerdate"@, "--format=%(refname:short)"@],
        GitCallView::Checkout { branch, create } => if create {
            seq!["checkout"@, "-b"@, branch]
        } else {
            seq!["checkout"@, branch]
        },
        GitCallView::Log { limit } => seq![
            "log"@,
            "-"@ + decimal(log_limit(limit)),
            "--date=format-local:%Y-%m-%d %H:%M"@,
            "--pretty=format:%H\u{1f}%h\u{1f}%an\u{1f}%ad\u{1f}%D\u{1f}%s"@,
        ],
        GitCallView::Message { hash } => seq!["show"@, "-s"@, "--format=%B"@, hash],
        GitCallView::Files { hash } => seq!["diff"@, "--name-status"@, "-M"@, hash + "^"@, hash],
        GitCallView::RootFiles { hash } => seq!["diff-tree"@, "--no-commit-id"@, "--name-status"@, "-r"@, "-M"@, "--root"@, hash],
        GitCallView::Diff { hash, file } => seq!["diff"@, hash + "^"@, hash, "--"@, file],
        GitCallView::RootDiff { hash, file } => seq!["show"@, "--format="@, hash, "--"@, file],
        GitCallView::Stage { paths } => match paths {
            Some(p) => if p.len() > 0 {
                seq!["add"@, "--"@] + p
            } else {
                seq!["add"@, "-A"@]
            },
            None => seq!["add"@, "-A"@],
        },
        GitCallView::Commit { message } => seq!["commit"@, "-m"@, message],
        GitCallView::Head => seq!["rev-parse"@, "HEAD"@],
        GitCallView::Push => seq!["push"@],
    }
}

fn owned3(a: &str, b: &str, c: &str) -> (r: Vec<String>)
    ensures
        texts(r@) == seq![a@, b@, c@],
{
    let v = vec![a.to_owned(), b.to_owned(), c.to_owned()];
    assert(texts(v@) =~= seq![a@, b@, c@]);
    v
}

fn owned2(a: &str, b: &str) -> (r: Vec<String>)
    ensures
        texts(r@) == seq![a@, b@],
{
    let v = vec![a.to_owned(), b.to_owned()];
    assert(texts(v@) =~= seq![a@, b@]);
    v
}

fn more(v: Vec<String>, s: &str) -> (r: Vec<String>)
    ensures
        texts(r@) == texts(v@).push(s@),
{
    let ghost before = texts(v@);
    let mut out = v;
    out.push(s.to_owned());
    assert(texts(out@) =~= before.push(s@));
    out
}

/// The command line of a question, after `git -C` and the folder.
pub fn args_for(call: &GitCall) -> (r: Vec<String>)
    ensures
        texts(r@) == git_args(call@),
{
    match call {
        GitCall::Branch => owned3("rev-parse", "--abbrev-ref", "HEAD"),
        GitCall::Status => owned2("status", "--porcelain"),
        GitCall::Distance => {
            let v = more(owned3("rev-list", "--left-right", "--count"), "@{u}...HEAD");
            assert(texts(v@) =~= git_args(call@));
            v
        },
        GitCall::Branches => owned3("branch", "--sort=-committerdate", "--format=%(refname:short)"),
        GitCall::Checkout { branch, create } => if *create {
            owned3("checkout", "-b", branch)
        } else {
            owned2("checkout", branch)
        },
        GitCall::Log { limit } => {
            let n: u32 = match limit {
                Some(k) => if *k == 0 {
                    250
                } else {
                    *k
                },
                None => 250,
            };
            let count = join2("-", &decimal_u64(n as u64));
            let v = more(
                owned3("log", &count, "--date=format-local:%Y-%m-%d %H:%M"),
                "--pretty=format:%H\u{1f}%h\u{1f}%an\u{1f}%ad\u{1f}%D\u{1f}%s",
            );
            assert(texts(v@) =~= git_args(call@));
            v
        },
        GitCall::Message { hash } => {
            let v = more(owned3("show", "-s", "--format=%B"), hash);
            assert(texts(v@) =~= git_args(call@));
            v
        },
        GitCall::Files { hash } => {
            let parent = join2(hash, "^");
            let v = more(more(owned3("diff", "--name-status", "-M"), &parent), hash);
            assert(texts(v@) =~= git_args(call@));
            v
        },
        GitCall::RootFiles { hash } => {
            let v = more(more(more(more(owned3("diff-tree", "--no-commit-id", "--name-status"), "-r"), "-M"), "--root"), hash);
            assert(texts(v@) =~= git_args(call@));
            v
        },
        GitCall::Diff { hash, file } => {
            let parent = join2(hash, "^");
            let v = more(more(owned3("diff", &parent, hash), "--"), file);
            assert(texts(v@) =~= git_args(call@));
            v
        },
        GitCall::RootDiff { hash, file } => {
            let v = more(more(owned3("show", "--format=", hash), "--"), file);
            assert(texts(v@) =~= git_args(call@));
            v
        },
        GitCall::Stage { paths } => match paths {
            Some(p) => {
                if p.len() == 0 {
                    return owned2("add", "-A");
                }
                let mut v = owned2("add", "--");
                let ghost head = texts(v@);
                let mut i: usize = 0;
                assert(head + texts(p@).take(0) =~= head);
                while i < p.len()
                    invariant
                        i <= p@.len(),
                        texts(v@) == head + texts(p@).take(i as int),
                    decreases p@.len() - i,
                {
                    v = more(v, &p[i]);
                    assert(texts(p@).take(i + 1) =~= texts(p@).take(i as int).push(p@[i as int]@));
                    assert(head + texts(p@).take(i + 1) =~= (head + texts(p@).take(i as int)).push(p@[i as int]@));
                    i += 1;
                }
                assert(texts(p@).take(p@.len() as int) =~= texts(p@));
                v
            },
            None => owned2("add", "-A"),
        },
        GitCall::Commit { message } => owned3("commit", "-m", message),
        GitCall::Head => owned2("rev-parse", "HEAD"),
        GitCall::Push => {
            let v = vec!["push".to_owned()];
            assert(texts(v@) =~= seq!["push"@]);
            v
        },
    }
}

/// Files that were handed in stand behind a `--`, where `git` never reads one as an option.
pub proof fn law_files_follow_the_dashes(call: GitCallView)
    ensures
        call matches GitCallView::Diff { file, .. } ==> git_args(call)[3] == "--"@ && git_args(call)[4] == file && git_args(call).len() == 5,
        call matches GitCallView::RootDiff { file, .. } ==> git_args(call)[3] == "--"@ && git_args(call)[4] == file && git_args(call).len() == 5,
        call matches GitCallView::Stage { paths: Some(p) } ==> p.len() > 0 ==> git_args(call)[1] == "--"@ && git_args(call).skip(2) == p,
{
    if let GitCallView::Stage { paths: Some(p) } = call {
        if p.len() > 0 {
            assert(git_args(call).skip(2) =~= p);
        }
    }
}

// ---- one request, call by call ----

/// How a call went, where it was made.
pub open spec fn asked(o: Option<Result<String, String>>) -> Option<Result<Text, Text>> {
    match o {
        None => None,
        Some(Ok(out)) => Some(Ok(out@)),
        Some(Err(e)) => Some(Err(e@)),
    }
}

/// The answer to something that either works or does not.
pub struct GitReply {
    pub ok: bool,
    pub error: Option<String>,
    pub hash: Option<String>,
}

pub struct GitReplyView {
    pub ok: bool,
    pub error: Option<Text>,
    pub hash: Option<Text>,
}

impl View for GitReply {
    type V = GitReplyView;

    open spec fn view(&self) -> GitReplyView {
        GitReplyView { ok: self.ok, error: opt_text(self.error), hash: opt_text(self.hash) }
    }
}

/// A call to make, or the answer.
pub enum GitStep {
    Run(GitCall),
    Reply(GitReply),
}

pub enum GitStepView {
    Run(GitCallView),
    Reply(GitReplyView),
}

impl View for GitStep {
    type V = GitStepView;

    open spec fn view(&self) -> GitStepView {
        match self {
            GitStep::Run(c) => GitStepView::Run(c@),
            GitStep::Reply(r) => GitStepView::Reply(r@),
        }
    }
}

/// What went wrong is answered, not thrown.
pub open spec fn refusal(e: Text) -> GitStepView {
    GitStepView::Reply(GitReplyView { ok: false, error: Some(e), hash: None })
}

/// One call, and whether it worked.
pub open spec fn one_call(call: GitCallView, went: Option<Result<Text, Text>>) -> GitStepView {
    match went {
        None => GitStepView::Run(call),
        Some(Ok(_)) => GitStepView::Reply(GitReplyView { ok: true, error: None, hash: None }),
        Some(Err(e)) => refusal(e),
    }
}

fn try_once(call: GitCall, went: Option<Result<String, String>>) -> (r: GitStep)
    ensures
        r@ == one_call(call@, asked(went)),
{
    match went {
        None => GitStep::Run(call),
        Some(Ok(_)) => GitStep::Reply(GitReply { ok: true, error: None, hash: None }),
        Some(Err(e)) => GitStep::Reply(GitReply { ok: false, error: Some(e), hash: None }),
    }
}

/// Goes to a branch, a new one where `create` says so.
pub fn checkout(branch: &str, create: bool, went: Option<Result<String, String>>) -> (r: GitStep)
    ensures
        r@ == one_call(GitCallView::Checkout { branch: branch@, create }, asked(went)),
{
    try_once(GitCall::Checkout { branch: branch.to_owned(), create }, went)
}

/// Stages these files, or everything where none is named.
pub fn stage(paths: Option<Vec<String>>, went: Option<Result<String, String>>) -> (r: GitStep)
    ensures
        r@ == one_call(
            GitCallView::Stage {
                paths: match paths {
                    Some(p) => Some(texts(p@)),
                    None => None,
                },
            },
            asked(went),
        ),
{
    try_once(GitCall::Stage { paths }, went)
}

pub fn push(went: Option<Result<String, String>>) -> (r: GitStep)
    ensures
        r@ == one_call(GitCallView::Push, asked(went)),
{
    try_once(GitCall::Push, went)
}

/// A commit is made, and then asked for its hash.
pub open spec fn create_next(message: Text, made: Option<Result<Text, Text>>, head: Option<Result<Text, Text>>) -> GitStepView {
    match made {
        None => GitStepView::Run(GitCallView::Commit { message }),
        Some(Err(e)) => refusal(e),
        Some(Ok(_)) => match head {
            None => GitStepView::Run(GitCallView::Head),
            Some(Err(e)) => refusal(e),
            Some(Ok(h)) => GitStepView::Reply(GitReplyView { ok: true, error: None, hash: Some(trimmed(h)) }),
        },
    }
}

/// Commits what is staged: `made` is how that went, `head` how asking for the hash went.
pub fn commit_create(message: &str, made: Option<Result<String, String>>, head: Option<Result<String, String>>) -> (r: GitStep)
    ensures
        r@ == create_next(message@, asked(made), asked(head)),
{
    match made {
        None => GitStep::Run(GitCall::Commit { message: message.to_owned() }),
        Some(Err(e)) => GitStep::Reply(GitReply { ok: false, error: Some(e), hash: None }),
        Some(Ok(_)) => match head {
            None => GitStep::Run(GitCall::Head),
            Some(Err(e)) => GitStep::Reply(GitReply { ok: false, error: Some(e), hash: None }),
            Some(Ok(h)) => GitStep::Reply(GitReply { ok: true, error: None, hash: Some(trim(&h)) }),
        },
    }
}

/// A commit as it is shown: the next call, or its message and its files.
pub enum CommitStep {
    Run(GitCall),
    Done { body: String, files: Vec<CommitFile> },
    Fail(String),
}

pub enum CommitStepView {
    Run(GitCallView),
    Done { body: Text, files: Seq<CommitFileView> },
    Fail(Text),
}

impl View for CommitStep {
    type V = CommitStepView;

    open spec fn view(&self) -> CommitStepView {
        match self {
            CommitStep::Run(c) => CommitStepView::Run(c@),
            CommitStep::Done { body, files } => CommitStepView::Done { body: body@, files: commit_views(files@) },
            CommitStep::Fail(e) => CommitStepView::Fail(e@),
        }
    }
}

/// The files that a listing names.
pub open spec fn listed_files(raw: Text) -> Seq<CommitFileView> {
    lines(raw).map_values(|l: Text| commit_line(l))
}

/// The message comes first; the files are those that changed since the parent, or all of them
/// where there is no parent to compare with.
pub open spec fn commit_next(
    hash: Text,
    message: Option<Result<Text, Text>>,
    changed: Option<Result<Text, Text>>,
    all: Option<Result<Text, Text>>,
) -> CommitStepView {
    match message {
        None => CommitStepView::Run(GitCallView::Message { hash }),
        Some(Err(e)) => CommitStepView::Fail(e),
        Some(Ok(m)) => match changed {
            None => CommitStepView::Run(GitCallView::Files { hash }),
            Some(Ok(raw)) => CommitStepView::Done { body: trimmed(m), files: listed_files(raw) },
            Some(Err(_)) => match all {
                None => CommitStepView::Run(GitCallView::RootFiles { hash }),
                Some(Err(e)) => CommitStepView::Fail(e),
                Some(Ok(raw)) => CommitStepView::Done { body: trimmed(m), files: listed_files(raw) },
            },
        },
    }
}

/// Shows a commit: `message` is how asking for its message went, `changed` how asking for what
/// changed since its parent went, `all` how asking for all of its files went.
pub fn commit(
    hash: &str,
    message: Option<Result<String, String>>,
    changed: Option<Result<String, String>>,
    all: Option<Result<String, String>>,
) -> (r: CommitStep)
    ensures
        r@ == commit_next(hash@, asked(message), asked(changed), asked(all)),
{
    match message {
        None => CommitStep::Run(GitCall::Message { hash: hash.to_owned() }),
        Some(Err(e)) => CommitStep::Fail(e),
        Some(Ok(m)) => match changed {
            None => CommitStep::Run(GitCall::Files { hash: hash.to_owned() }),
            Some(Ok(raw)) => CommitStep::Done { body: trim(&m), files: commit_files(&raw) },
            Some(Err(_)) => match all {
                None => CommitStep::Run(GitCall::RootFiles { hash: hash.to_owned() }),
                Some(Err(e)) => CommitStep::Fail(e),
                Some(Ok(raw)) => CommitStep::Done { body: trim(&m), files: commit_files(&raw) },
            },
        },
    }
}

/// The changes of one file: the next call, or the text.
pub enum DiffStep {
    Run(GitCall),
    Done(String),
    Fail(String),
}

pub enum DiffStepView {
    Run(GitCallView),
    Done(Text),
    Fail(Text),
}

impl View for DiffStep {
    type V = DiffStepView;

    open spec fn view(&self) -> DiffStepView {
        match self {
            DiffStep::Run(c) => DiffStepView::Run(c@),
            DiffStep::Done(t) => DiffStepView::Done(t@),
            DiffStep::Fail(e) => DiffStepView::Fail(e@),
        }
    }
}

pub open spec fn diff_next(hash: Text, file: Text, changed: Option<Result<Text, Text>>, all: Option<Result<Text, Text>>) -> DiffStepView {
    match changed {
        None => DiffStepView::Run(GitCallView::Diff { hash, file }),
        Some(Ok(t)) => DiffStepView::Done(t),
        Some(Err(_)) => match all {
            None => DiffStepView::Run(GitCallView::RootDiff { hash, file }),
            Some(Ok(t)) => DiffStepView::Done(t),
            Some(Err(e)) => DiffStepView::Fail(e),
        },
    }
}

/// Shows what a commit changed in a file: since its parent, or altogether where there is no
/// parent to compare with.
pub fn diff(hash: &str, file: &str, changed: Option<Result<String, String>>, all: Option<Result<String, String>>) -> (r: DiffStep)
    ensures
        r@ == diff_next(hash@, file@, asked(changed), asked(all)),
{
    match changed {
        None => DiffStep::Run(GitCall::Diff { hash: hash.to_owned(), file: file.to_owned() }),
        Some(Ok(t)) => DiffStep::Done(t),
        Some(Err(_)) => match all {
            None => DiffStep::Run(GitCall::RootDiff { hash: hash.to_owned(), file: file.to_owned() }),
            Some(Ok(t)) => DiffStep::Done(t),
            Some(Err(e)) => DiffStep::Fail(e),
        },
    }
}

/// A commit without a parent is shown all the same: where comparing with the parent fails, the
/// whole of the commit is asked for instead, and only a failure of that is one.
pub proof fn law_first_commits_are_shown(hash: Text, file: Text, message: Text, e: Text, raw: Text)
    ensures
        commit_next(hash, Some(Ok(message)), Some(Err(e)), None) == CommitStepView::Run(GitCallView::RootFiles { hash }),
        commit_next(hash, Some(Ok(message)), Some(Err(e)), Some(Ok(raw))) == commit_next(hash, Some(Ok(message)), Some(Ok(raw)), None),
        diff_next(hash, file, Some(Err(e)), None) == DiffStepView::Run(GitCallView::RootDiff { hash, file }),
        diff_next(hash, file, Some(Err(e)), Some(Ok(raw))) == DiffStepView::Done(raw),
{
}

/// The marks of a changed file decide how it counts, whatever its path: new and untracked files were
/// added, a `D` in either column deleted, everything else modified.
pub proof fn law_marks_decide_the_change(x: char, y: char, path: Text)
    ensures
        ({
            let c = change_of(seq![x, y, ' '] + path);
            &&& x == '?' || x == 'A' ==> c is Added
            &&& x == 'D' ==> c is Deleted
            &&& x != '?' && x != 'A' && y == 'D' ==> c is Deleted
            &&& (x == ' ' || x == 'M' || x == 'R') && y != 'D' ==> c is Modified
        }),
{
    let line = seq![x, y, ' '] + path;
    assert(line[0] == x && line[1] == y);
}

/// A line of the status is read back: its two marks, each in its own column, and the path behind
/// them, whatever it holds.
pub proof fn law_status_lines_read_back(x: char, y: char, path: Text)
    requires
        (x as u32) < 128,
        (y as u32) < 128,
    ensures
        ({
            let f = status_line(seq![x, y, ' '] + path);
            &&& f.x == seq![x]
            &&& f.y == seq![y]
            &&& f.path == path
        }),
{
    let front = seq![x, y, ' '];
    let line = front + path;
    assert(line[0] == x && line[1] == y);
    law_the_rest_follows_its_front(front, path);
    assert(byte_len(front) == 3) by {
        reveal_with_fuel(byte_len, 4);
        assert(front.drop_first() =~= seq![y, ' ']);
        assert(seq![y, ' '].drop_first() =~= seq![' ']);
        assert(seq![' '].drop_first() =~= Seq::<char>::empty());
        assert(front[0] == x && seq![y, ' '][0] == y && seq![' '][0] == ' ');
    }
}

/// A line of the log is read back field by field, each from its own place, and the refs one by one.
pub proof fn law_log_lines_read_back(hash: Text, short: Text, author: Text, date: Text, refs: Seq<Text>, subject: Text)
    requires
        !hash.contains('\u{1f}') && !short.contains('\u{1f}') && !author.contains('\u{1f}'),
        !date.contains('\u{1f}') && !subject.contains('\u{1f}'),
        !joined(refs, seq![',', ' ']).contains('\u{1f}'),
        refs.len() > 0,
        forall|k: int| 0 <= k < refs.len() ==> (#[trigger] refs[k]).len() > 0 && !refs[k].contains(','),
    ensures
        log_line(joined(seq![hash, short, author, date, joined(refs, seq![',', ' ']), subject], seq!['\u{1f}'])) == (LogEntryView {
            hash,
            short,
            author,
            date,
            refs,
            subject,
        }),
{
    let v = seq![hash, short, author, date, joined(refs, seq![',', ' ']), subject];
    law_joined_pieces_split_back(v, '\u{1f}');
    law_separated_pieces_read_back(refs, seq![',', ' ']);
    lemma_all_filled(refs);
}

/// A line of a commit's files is read back: the first letter of its mark and its path, the newer one
/// where the file was renamed.
pub proof fn law_commit_lines_read_back(mark: Text, before: Text, path: Text)
    requires
        mark.len() > 0,
        !mark.contains('\t') && !before.contains('\t') && !path.contains('\t'),
    ensures
        commit_line(joined(seq![mark, path], seq!['\t'])) == (CommitFileView { status: seq![mark[0]], path }),
        commit_line(joined(seq![mark, before, path], seq!['\t'])) == (CommitFileView { status: seq![mark[0]], path }),
{
    law_joined_pieces_split_back(seq![mark, path], '\t');
    law_joined_pieces_split_back(seq![mark, before, path], '\t');
}

/// The distance to the upstream is read back: the number of the first column at the first place, the
/// number of the second at the second.
pub proof fn law_distances_read_back(behind: nat, ahead: nat)
    requires
        behind <= i64::MAX,
        ahead <= i64::MAX,
    ensures
        number_at(Some(decimal(behind) + seq!['\t'] + decimal(ahead)), 0) == behind,
        number_at(Some(decimal(behind) + seq!['\t'] + decimal(ahead)), 1) == ahead,
        number_at(None, 0) == 0 && number_at(None, 1) == 0,
{
    let v = seq![decimal(behind), decimal(ahead)];
    law_decimals_read_back(behind);
    law_decimals_read_back(ahead);
    assert forall|k: int, i: int| 0 <= k < v.len() && 0 <= i < v[k].len() implies !is_whitespace(#[trigger] v[k][i]) by {
        if k == 0 {
            assert(is_digit(decimal(behind)[i]));
        } else {
            assert(is_digit(decimal(ahead)[i]));
        }
    }
    law_words_read_back(v, '\t');
    assert(joined(v, seq!['\t']) =~= decimal(behind) + seq!['\t'] + decimal(ahead)) by {
        assert(v.drop_last() =~= seq![decimal(behind)]);
        assert(joined(v.drop_last(), seq!['\t']) == decimal(behind));
    }
}

/// Every call of `git` names what it is about: the branch, the commit, the file, the message and the
/// paths reach it as they were given.
pub proof fn law_calls_name_what_they_are_about(branch: Text, create: bool, hash: Text, file: Text, message: Text, paths: Seq<Text>)
    ensures
        git_args(GitCallView::Checkout { branch, create }).last() == branch,
        git_args(GitCallView::Checkout { branch, create: true }).contains("-b"@),
        git_args(GitCallView::Checkout { branch, create: false }).len() == 2,
        git_args(GitCallView::Message { hash }).last() == hash,
        git_args(GitCallView::Files { hash }).last() == hash,
        git_args(GitCallView::Files { hash }).contains(hash + "^"@),
        git_args(GitCallView::RootFiles { hash }).last() == hash,
        git_args(GitCallView::Diff { hash, file }).last() == file,
        git_args(GitCallView::Diff { hash, file }).contains(hash) && git_args(GitCallView::Diff { hash, file }).contains(hash + "^"@),
        git_args(GitCallView::RootDiff { hash, file }).last() == file,
        git_args(GitCallView::RootDiff { hash, file }).contains(hash),
        git_args(GitCallView::Commit { message }).last() == message,
        paths.len() > 0 ==> git_args(GitCallView::Stage { paths: Some(paths) }).skip(2) == paths,
        git_args(GitCallView::Stage { paths: None }) == git_args(GitCallView::Stage { paths: Some(Seq::<Text>::empty()) }),
        git_args(GitCallView::Stage { paths: None }).last() == "-A"@,
{
    assert(git_args(GitCallView::Checkout { branch, create: true })[1] == "-b"@);
    assert(git_args(GitCallView::Files { hash })[3] == hash + "^"@);
    assert(git_args(GitCallView::Diff { hash, file })[1] == hash + "^"@);
    assert(git_args(GitCallView::Diff { hash, file })[2] == hash);
    assert(git_args(GitCallView::RootDiff { hash, file })[2] == hash);
    if paths.len() > 0 {
        assert(git_args(GitCallView::Stage { paths: Some(paths) }).skip(2) =~= paths);
    }
}

/// The command that is run is the one that was asked for: the first word tells the calls that change
/// something from those that only look.
pub proof fn law_calls_run_their_own_command(call: GitCallView)
    ensures
        git_args(call).len() > 0,
        call is Branch || call is Head ==> git_args(call)[0] == "rev-parse"@ && git_args(call).last() == "HEAD"@,
        call is Branch ==> git_args(call).len() == 3 && git_args(call)[1] == "--abbrev-ref"@,
        call is Head ==> git_args(call).len() == 2,
        call is Status ==> git_args(call)[0] == "status"@,
        call is Distance ==> git_args(call)[0] == "rev-list"@ && git_args(call).last() == "@{u}...HEAD"@,
        call is Branches ==> git_args(call)[0] == "branch"@,
        call is Checkout ==> git_args(call)[0] == "checkout"@,
        call is Log ==> git_args(call)[0] == "log"@,
        call is Stage ==> git_args(call)[0] == "add"@,
        call is Commit ==> git_args(call)[0] == "commit"@ && git_args(call)[1] == "-m"@,
        call is Push ==> git_args(call) == seq!["push"@],
{
}

/// The log is as long as was asked for, and two hundred and fifty entries long where nothing or
/// nought was.
pub proof fn law_logs_are_as_long_as_asked(limit: Option<u32>)
    ensures
        limit is Some && limit->0 > 0 ==> git_args(GitCallView::Log { limit }).contains("-"@ + decimal(limit->0 as nat)),
        limit is None || limit == Some(0u32) ==> git_args(GitCallView::Log { limit }).contains("-"@ + decimal(250)),
{
    assert(git_args(GitCallView::Log { limit })[1] == "-"@ + decimal(log_limit(limit)));
}

/// A command that is one call of `git` runs it once and then answers: well where the call went well,
/// and with the call's own error where it did not.
pub proof fn law_single_calls_answer(call: GitCallView, out: Text, e: Text)
    ensures
        one_call(call, None) == GitStepView::Run(call),
        one_call(call, Some(Ok(out))) is Reply && one_call(call, Some(Ok(out)))->Reply_0.ok && one_call(call, Some(Ok(out)))->Reply_0.error is None,
        one_call(call, Some(Err(e))) is Reply && !one_call(call, Some(Err(e)))->Reply_0.ok && one_call(call, Some(Err(e)))->Reply_0.error
            == Some(e),
{
}

/// A commit is made first and named afterwards: its hash is asked for only once it was made, the
/// answer holds that hash without the blanks around it, and whichever call failed says so.
pub proof fn law_commits_are_made_and_named(message: Text, out: Text, h: Text, e: Text, head: Option<Result<Text, Text>>)
    ensures
        create_next(message, None, head) == GitStepView::Run(GitCallView::Commit { message }),
        create_next(message, Some(Ok(out)), None) is Run && create_next(message, Some(Ok(out)), None)->Run_0 is Head,
        create_next(message, Some(Err(e)), head) is Reply && !create_next(message, Some(Err(e)), head)->Reply_0.ok
            && create_next(message, Some(Err(e)), head)->Reply_0.error == Some(e),
        create_next(message, Some(Ok(out)), Some(Err(e))) is Reply && !create_next(message, Some(Ok(out)), Some(Err(e)))->Reply_0.ok
            && create_next(message, Some(Ok(out)), Some(Err(e)))->Reply_0.error == Some(e),
        create_next(message, Some(Ok(out)), Some(Ok(h))) is Reply && create_next(message, Some(Ok(out)), Some(Ok(h)))->Reply_0.ok
            && create_next(message, Some(Ok(out)), Some(Ok(h)))->Reply_0.hash == Some(trimmed(h)),
{
}

/// A commit is shown with its message, without the blanks around it, and with every file that its
/// listing names, in order.
pub proof fn law_commits_show_message_and_files(hash: Text, m: Text, raw: Text, e: Text, all: Option<Result<Text, Text>>, k: int)
    requires
        0 <= k < lines(raw).len(),
    ensures
        commit_next(hash, None, Some(Ok(raw)), all) == CommitStepView::Run(GitCallView::Message { hash }),
        commit_next(hash, Some(Ok(m)), None, all) == CommitStepView::Run(GitCallView::Files { hash }),
        commit_next(hash, Some(Err(e)), Some(Ok(raw)), all) == CommitStepView::Fail(e),
        commit_next(hash, Some(Ok(m)), Some(Err(e)), None) == CommitStepView::Run(GitCallView::RootFiles { hash }),
        ({
            let shown = commit_next(hash, Some(Ok(m)), Some(Ok(raw)), all);
            &&& shown is Done
            &&& shown->body == trimmed(m)
            &&& shown->files.len() == lines(raw).len()
            &&& shown->files[k] == commit_line(lines(raw)[k])
        }),
{
}

/// A diff is shown as `git` printed it: the file's own change first, and what the first commit holds
/// where that cannot be had.
pub proof fn law_diffs_are_shown_as_printed(hash: Text, file: Text, t: Text, e: Text, all: Option<Result<Text, Text>>)
    ensures
        diff_next(hash, file, None, all) == DiffStepView::Run(GitCallView::Diff { hash, file }),
        diff_next(hash, file, Some(Ok(t)), all) == DiffStepView::Done(t),
        diff_next(hash, file, Some(Err(e)), None) == DiffStepView::Run(GitCallView::RootDiff { hash, file }),
        diff_next(hash, file, Some(Err(e)), Some(Ok(t))) == DiffStepView::Done(t),
{
}

/// A failed call is told in `git`'s own words where it said anything, and else by the call that
/// failed.
pub proof fn law_git_failures_are_told(args: Seq<Text>, outcome: GitOutcome)
    ensures
        outcome matches GitOutcome::Failed(e) ==> git_error(args, outcome) == e@,
        outcome matches GitOutcome::Exited { stderr, .. } ==> (trimmed(stderr@).len() > 0 ==> git_error(args, outcome) == trimmed(stderr@)),
        outcome matches GitOutcome::Exited { stderr, status, .. } ==> (trimmed(stderr@).len() == 0 ==> git_error(args, outcome) == "git "@ + joined(
            args,
            " "@,
        ) + " exited with "@ + status@),
        outcome is TimedOut ==> git_error(args, outcome) == "git "@ + joined(args, " "@) + " timed out"@,
{
}

/// What is handed out of the status, the log and a commit shows what was read, each field under its
/// own name.
pub proof fn law_entries_show_what_was_read(f: StatusFile, e: LogEntry, c: CommitFile, x: char, y: char, path: Text, mark: Text)
    requires
        (x as u32) < 128,
        (y as u32) < 128,
        f@ == status_line(seq![x, y, ' '] + path),
        mark.len() > 0 && !mark.contains('\t') && !path.contains('\t'),
        c@ == commit_line(joined(seq![mark, path], seq!['\t'])),
    ensures
        f.x@ == seq![x],
        f.y@ == seq![y],
        f.path@ == path,
        c.status@ == seq![mark[0]],
        c.path@ == path,
        e@.hash == e.hash@ && e@.short == e.short@ && e@.author == e.author@ && e@.date == e.date@ && e@.subject == e.subject@ && e@.refs
            == texts(e.refs@),
{
    law_status_lines_read_back(x, y, path);
    law_commit_lines_read_back(mark, Seq::empty(), path);
}

}
