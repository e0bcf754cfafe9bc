//! The git commands that the stalker runs, and what it reads from their output. Running
//! them is the caller's: each command is the arguments of one `git` call in a directory.
use crate::text::{trim, trim_str};
use vstd::prelude::*;

verus! {

/// One `git` call: the directory to run it in and its arguments.
pub struct GitCommand {
    pub dir: String,
    pub args: Vec<String>,
}

/// The git repository in which the site files are kept.
pub struct Repo {
    dir: String,
}

/// The author of the commits that the stalker makes.
pub const GIT_COMMIT_AUTHOR: &'static str = "website-stalker/0.26.1 <website-stalker-git-commit@edjopato.de>";

/// The views of a list of arguments.
pub open spec fn arg_views(args: Seq<String>) -> Seq<Seq<char>> {
    args.map_values(|a: String| a@)
}

fn command(dir: &str, args: &[&str]) -> (r: GitCommand)
    ensures
        r.dir@ == dir@,
        arg_views(r.args@) == args@.map_values(|a: &str| a@),
{
    let mut v: Vec<String> = Vec::new();
    let mut i: usize = 0;
    while i < args.len()
        invariant
            i <= args@.len(),
            arg_views(v@) == args@.take(i as int).map_values(|a: &str| a@),
        decreases args@.len() - i,
    {
        let a = args[i].to_string();
        let ghost prev = v@;
        v.push(a);
        assert(v@ == prev.push(a));
        assert(arg_views(v@) =~= arg_views(prev).push(a@));
        assert(args@.take(i + 1) == args@.take(i as int).push(args@[i as int]));
        assert(args@.take(i + 1).map_values(|a: &str| a@) =~= args@.take(i as int).map_values(
            |a: &str| a@,
        ).push(args@[i as int]@));
        i += 1;
    }
    assert(args@.take(args@.len() as int) == args@);
    GitCommand { dir: dir.to_string(), args: v }
}

impl View for Repo {
    type V = Seq<char>;

    closed spec fn view(&self) -> Seq<char> {
        self.dir@
    }
}

impl Repo {
    /// The repository whose top level directory is `dir`.
    pub fn at(dir: &str) -> (r: Repo)
        ensures
            r@ == dir@,
    {
        Repo { dir: dir.to_string() }
    }

    /// The top level directory of the repository.
    pub fn dir(&self) -> (r: &str)
        ensures
            r@ == self@,
    {
        self.dir.as_str()
    }

    /// `git init` in `path`.
    pub fn init(path: &str) -> (r: GitCommand)
        ensures
            r.dir@ == path@,
            arg_views(r.args@) == seq!["init"@],
    {
        let r = command(path, &["init"]);
        assert(seq!["init"].map_values(|a: &str| a@) =~= seq!["init"@]);
        r
    }

    /// `git rev-parse --show-toplevel` in `dir`: the top level directory of the repository
    /// that `dir` is in; the stalker works only there.
    pub fn toplevel(dir: &str) -> (r: GitCommand)
        ensures
            r.dir@ == dir@,
            arg_views(r.args@) == seq!["rev-parse"@, "--show-toplevel"@],
    {
        let r = command(dir, &["rev-parse", "--show-toplevel"]);
        assert(seq!["rev-parse", "--show-toplevel"].map_values(|a: &str| a@) =~= seq![
            "rev-parse"@,
            "--show-toplevel"@,
        ]);
        r
    }

    /// `git add -A`: stage every change.
    pub fn add_all(&self) -> (r: GitCommand)
        ensures
            r.dir@ == self@,
            arg_views(r.args@) == seq!["add"@, "-A"@],
    {
        let r = command(self.dir.as_str(), &["add", "-A"]);
        assert(seq!["add", "-A"].map_values(|a: &str| a@) =~= seq!["add"@, "-A"@]);
        r
    }

    /// `git commit` of what is staged, by the stalker, unsigned, with the message trimmed.
    pub fn commit(&self, message: &str) -> (r: GitCommand)
        ensures
            r.dir@ == self@,
            arg_views(r.args@) == seq![
                "commit"@,
                "--author"@,
                GIT_COMMIT_AUTHOR@,
                "--no-gpg-sign"@,
                "--message"@,
                trim(message@),
            ],
    {
        let m = trim_str(message);
        let mut r = command(
            self.dir.as_str(),
            &["commit", "--author", GIT_COMMIT_AUTHOR, "--no-gpg-sign", "--message"],
        );
        let ghost prev = r.args@;
        r.args.push(m);
        assert(r.args@ == prev.push(m));
        assert(arg_views(r.args@) =~= arg_views(prev).push(m@));
        assert(seq!["commit", "--author", GIT_COMMIT_AUTHOR, "--no-gpg-sign", "--message"].map_values(
            |a: &str| a@,
        ) =~= seq!["commit"@, "--author"@, GIT_COMMIT_AUTHOR@, "--no-gpg-sign"@, "--message"@]);
        r
    }

    /// `git rev-parse HEAD`: the id of the last commit.
    pub fn last_commit_id(&self) -> (r: GitCommand)
        ensures
            r.dir@ == self@,
            arg_views(r.args@) == seq!["rev-parse"@, "HEAD"@],
    {
        let r = command(self.dir.as_str(), &["rev-parse", "HEAD"]);
        assert(seq!["rev-parse", "HEAD"].map_values(|a: &str| a@) =~= seq!["rev-parse"@, "HEAD"@]);
        r
    }

    /// `git status --short`: what is modified.
    pub fn status(&self) -> (r: GitCommand)
        ensures
            r.dir@ == self@,
            arg_views(r.args@) == seq!["status"@, "--short"@],
    {
        let r = command(self.dir.as_str(), &["status", "--short"]);
        assert(seq!["status", "--short"].map_values(|a: &str| a@) =~= seq!["status"@, "--short"@]);
        r
    }

    /// Whether the output of `git status --short` lists anything.
    pub fn is_something_modified(status_output: &str) -> (r: bool)
        ensures
            r == (trim(status_output@).len() > 0),
    {
        let t = trim_str(status_output);
        !t.as_str().is_empty()
    }
}

/// What is read from a successful git call: its standard output trimmed.
pub fn git_output(stdout: &str) -> (r: String)
    ensures
        r@ == trim(stdout@),
{
    trim_str(stdout)
}

} // verus!
