//! Optional GitHub source links for markdown / pr-comment cells.
//!
//! With a repo URL and a commit ref, Function and Location cells are wrapped
//! in `[text](url#Lline)` links; without them the cells stay plain code
//! spans.

use vstd::prelude::*;

use crate::paths::{components, collect_path, has_prefix_components, is_prefix_of, join_path, path_components, strs};
use crate::text::{chars_of, forward_slashes, push_decimal, push_str, replace_backslashes, string_of, decimal};

verus! {

/// `s` without any trailing `c` characters.
pub open spec fn trim_end(s: Seq<char>, c: char) -> Seq<char>
    decreases s.len(),
{
    if s.len() > 0 && s.last() == c {
        trim_end(s.drop_last(), c)
    } else {
        s
    }
}

/// Repo URL + commit ref used to build deep links into the repository.
#[derive(Clone, Debug)]
pub struct SourceLinks {
    repo_url: String,
    commit_ref: String,
}

impl SourceLinks {
    /// The repository URL, without trailing slashes.
    pub closed spec fn repo(&self) -> Seq<char> {
        self.repo_url@
    }

    /// The commit ref links point at.
    pub closed spec fn git_ref(&self) -> Seq<char> {
        self.commit_ref@
    }

    /// Trims trailing `/` off `repo_url` so URL composition produces exactly
    /// one slash between the base and `/blob/...`.
    pub fn new(repo_url: String, commit_ref: String) -> (r: Self)
        ensures
            r.repo() == trim_end(repo_url@, '/'),
            r.git_ref() == commit_ref@,
    {
        let cs = chars_of(repo_url.as_str());
        let mut n: usize = cs.len();
        assert(cs@.take(cs.len() as int) =~= cs@);
        while n > 0 && cs[n - 1] == '/'
            invariant
                n <= cs.len(),
                cs@ == repo_url@,
                trim_end(cs@.take(n as int), '/') == trim_end(repo_url@, '/'),
            decreases n,
        {
            assert(cs@.take(n as int).drop_last() =~= cs@.take(n - 1));
            n = n - 1;
        }
        let mut kept: Vec<char> = Vec::new();
        let mut i: usize = 0;
        while i < n
            invariant
                n <= cs.len(),
                i <= n,
                kept@ == cs@.take(i as int),
            decreases n - i,
        {
            kept.push(cs[i]);
            assert(cs@.take(i + 1) =~= cs@.take(i as int).push(cs@[i as int]));
            i = i + 1;
        }
        assert(kept@ == cs@.take(n as int));
        assert(trim_end(cs@.take(n as int), '/') == cs@.take(n as int));
        SourceLinks { repo_url: string_of(&kept), commit_ref }
    }

    /// Build a deep link to `file` at `line` on the configured ref:
    /// `{repo}/blob/{ref}/{file}#L{line}`, with backslashes in `file` turned
    /// into forward slashes because GitHub URLs need them.
    pub fn url_for(&self, file: &str, line: usize) -> (r: String)
        ensures
            r@ == self.repo() + "/blob/"@ + self.git_ref() + "/"@ + forward_slashes(file@) + "#L"@
                + decimal(line as nat),
    {
        let mut out = String::new();
        push_str(&mut out, self.repo_url.as_str());
        push_str(&mut out, "/blob/");
        push_str(&mut out, self.commit_ref.as_str());
        push_str(&mut out, "/");
        let p = replace_backslashes(file);
        push_str(&mut out, p.as_str());
        push_str(&mut out, "#L");
        push_decimal(&mut out, line);
        assert(out@ =~= self.repo() + "/blob/"@ + self.git_ref() + "/"@ + forward_slashes(file@) + "#L"@
            + decimal(line as nat));
        out
    }
}

/// Whether `s` is a relative path (it does not start at the root).
pub open spec fn is_relative(s: Seq<char>) -> bool {
    !(s.len() > 0 && s[0] == '/')
}

/// The repo-relative path a link for `path` points at, given the current
/// directory (the repository root): a relative path as it is, an absolute
/// path under `cwd` with `cwd` stripped (its remaining components), and
/// nothing otherwise.
pub open spec fn link_target(path: Seq<char>, cwd: Option<Seq<char>>) -> Option<Seq<char>> {
    if is_relative(path) {
        Some(path)
    } else {
        match cwd {
            Some(c) => if is_prefix_of(path_components(c), path_components(path)) {
                Some(join_path(path_components(path).skip(path_components(c).len() as int)))
            } else {
                None
            },
            None => None,
        }
    }
}

/// The components of `path` after the first `n`, collected into a path.
fn strip_components(path: &str, n: usize) -> (r: String)
    requires
        n <= path_components(path@).len(),
    ensures
        r@ == join_path(path_components(path@).skip(n as int)),
{
    let cs = components(path);
    let mut rest: Vec<String> = Vec::new();
    let mut i: usize = n;
    assert(strs(cs@).subrange(n as int, n as int) =~= Seq::<Seq<char>>::empty());
    while i < cs.len()
        invariant
            n <= i <= cs.len(),
            strs(rest@) == strs(cs@).subrange(n as int, i as int),
        decreases cs.len() - i,
    {
        let piece = cs[i].clone();
        let ghost before = rest@;
        rest.push(piece);
        assert(strs(rest@) =~= strs(before).push(cs@[i as int]@));
        assert(strs(rest@) =~= strs(cs@).subrange(n as int, i + 1));
        i = i + 1;
    }
    assert(strs(cs@).subrange(n as int, cs.len() as int) =~= strs(cs@).skip(n as int));
    collect_path(&rest)
}

/// Decide what path to embed into a `/blob/<ref>/...` URL for `path`. The
/// URL prefix is always the repository root, the current directory `cwd`
/// (`None` when it could not be determined); see [`link_target`].
pub fn link_path(path: &str, cwd: Option<&str>) -> (r: Option<String>)
    ensures
        match r {
            Some(p) => link_target(path@, opt_str(cwd)) == Some(p@),
            None => link_target(path@, opt_str(cwd)).is_none(),
        },
{
    let cs = chars_of(path);
    if !(cs.len() > 0 && cs[0] == '/') {
        return Some(string_of(&cs));
    }
    match cwd {
        None => None,
        Some(c) => {
            let pc = components(path);
            let cc = components(c);
            if has_prefix_components(&pc, &cc) {
                Some(strip_components(path, cc.len()))
            } else {
                None
            }
        },
    }
}

/// The view of an optional string slice.
pub open spec fn opt_str(o: Option<&str>) -> Option<Seq<char>> {
    match o {
        Some(s) => Some(s@),
        None => None,
    }
}

/// The markdown link text for `inner` pointing at `url`: `[inner](url)`.
pub open spec fn md_link(inner: Seq<char>, url: Seq<char>) -> Seq<char> {
    "["@ + inner + "]("@ + url + ")"@
}

/// Wrap `inner` (already formatted, e.g. with backticks) in a markdown link
/// when both `links` and a repo-relative target for `file` exist; otherwise
/// return `inner` unchanged.
pub fn linkify(inner: String, links: Option<&SourceLinks>, file: &str, line: usize, cwd: Option<&str>) -> (r: String)
    ensures
        match (links, link_target(file@, opt_str(cwd))) {
            (Some(l), Some(p)) => r@ == md_link(
                inner@,
                l.repo() + "/blob/"@ + l.git_ref() + "/"@ + forward_slashes(p) + "#L"@ + decimal(line as nat),
            ),
            _ => r@ == inner@,
        },
{
    match links {
        None => inner,
        Some(l) => match link_path(file, cwd) {
            None => inner,
            Some(p) => {
                let url = l.url_for(p.as_str(), line);
                let mut out = String::new();
                push_str(&mut out, "[");
                push_str(&mut out, inner.as_str());
                push_str(&mut out, "](");
                push_str(&mut out, url.as_str());
                push_str(&mut out, ")");
                assert(out@ =~= md_link(inner@, url@));
                out
            },
        },
    }
}

/// Trimming leaves no trailing `c`, keeps a prefix of the input, and
/// trimming again changes nothing: a composed URL has exactly one slash
/// before `/blob/`.
pub proof fn lemma_trim_end(s: Seq<char>, c: char)
    ensures
        trim_end(s, c).len() == 0 || trim_end(s, c).last() != c,
        trim_end(s, c).len() <= s.len(),
        s.take(trim_end(s, c).len() as int) == trim_end(s, c),
        trim_end(trim_end(s, c), c) == trim_end(s, c),
    decreases s.len(),
{
    if s.len() > 0 && s.last() == c {
        lemma_trim_end(s.drop_last(), c);
        let t = trim_end(s.drop_last(), c);
        assert(s.take(t.len() as int) =~= s.drop_last().take(t.len() as int));
    } else {
        assert(s.take(s.len() as int) =~= s);
    }
}

/// `s` without any leading `c` characters.
pub open spec fn trim_start(s: Seq<char>, c: char) -> Seq<char>
    decreases s.len(),
{
    if s.len() > 0 && s[0] == c {
        trim_start(s.drop_first(), c)
    } else {
        s
    }
}

/// The repository URL GitHub Actions describes: the server URL and the
/// `owner/repo` name joined by exactly one slash.
pub open spec fn actions_repo_url(server: Seq<char>, repository: Seq<char>) -> Seq<char> {
    trim_end(server, '/') + seq!['/'] + trim_start(repository, '/')
}

/// Build the repository URL from `GITHUB_SERVER_URL` and
/// `GITHUB_REPOSITORY` (see [`actions_repo_url`]).
pub fn repo_url_from(server: &str, repository: &str) -> (r: String)
    ensures
        r@ == actions_repo_url(server@, repository@),
{
    let sc = chars_of(server);
    let mut n: usize = sc.len();
    assert(sc@.take(sc.len() as int) =~= sc@);
    while n > 0 && sc[n - 1] == '/'
        invariant
            n <= sc.len(),
            sc@ == server@,
            trim_end(sc@.take(n as int), '/') == trim_end(server@, '/'),
        decreases n,
    {
        assert(sc@.take(n as int).drop_last() =~= sc@.take(n - 1));
        n = n - 1;
    }
    assert(trim_end(sc@.take(n as int), '/') == sc@.take(n as int));
    let rc = chars_of(repository);
    let mut m: usize = 0;
    assert(rc@.skip(0) =~= rc@);
    while m < rc.len() && rc[m] == '/'
        invariant
            m <= rc.len(),
            rc@ == repository@,
            trim_start(rc@.skip(m as int), '/') == trim_start(repository@, '/'),
        decreases rc.len() - m,
    {
        assert(rc@.skip(m as int).drop_first() =~= rc@.skip(m + 1));
        m = m + 1;
    }
    assert(trim_start(rc@.skip(m as int), '/') == rc@.skip(m as int));
    let mut out: Vec<char> = Vec::new();
    let mut i: usize = 0;
    while i < n
        invariant
            n <= sc.len(),
            i <= n,
            out@ == sc@.take(i as int),
        decreases n - i,
    {
        out.push(sc[i]);
        assert(sc@.take(i + 1) =~= sc@.take(i as int).push(sc@[i as int]));
        i = i + 1;
    }
    out.push('/');
    let ghost head = out@;
    let mut j: usize = m;
    while j < rc.len()
        invariant
            m <= j <= rc.len(),
            out@ == head + rc@.subrange(m as int, j as int),
        decreases rc.len() - j,
    {
        out.push(rc[j]);
        assert(rc@.subrange(m as int, j + 1) =~= rc@.subrange(m as int, j as int).push(rc@[j as int]));
        j = j + 1;
    }
    assert(rc@.subrange(m as int, rc.len() as int) =~= rc@.skip(m as int));
    assert(out@ =~= actions_repo_url(server@, repository@));
    string_of(&out)
}

/// The repository URL links use: the command line's, else the one GitHub
/// Actions describes when both of its variables are set.
pub open spec fn chosen_repo_url(cli: Option<String>, server: Option<String>, repository: Option<String>) -> Option<Seq<char>> {
    match cli {
        Some(u) => Some(u@),
        None => match (server, repository) {
            (Some(s), Some(r)) => Some(actions_repo_url(s@, r@)),
            _ => None,
        },
    }
}

/// Resolve `--repo-url` / `--commit-ref` against the GitHub Actions
/// variables `GITHUB_SERVER_URL`, `GITHUB_REPOSITORY` and `GITHUB_SHA`
/// (`None` when unset): links exist only when both a repository URL and a
/// commit ref are known; the command line wins over the environment.
pub fn resolve_source_links(
    cli_repo_url: Option<String>,
    cli_commit_ref: Option<String>,
    env_server_url: Option<String>,
    env_repository: Option<String>,
    env_sha: Option<String>,
) -> (r: Option<SourceLinks>)
    ensures
        r is Some <==> chosen_repo_url(cli_repo_url, env_server_url, env_repository) is Some && (cli_commit_ref is Some
            || env_sha is Some),
        r matches Some(l) ==> l.repo() == trim_end(chosen_repo_url(cli_repo_url, env_server_url, env_repository)->0, '/')
            && l.git_ref() == (if cli_commit_ref is Some { cli_commit_ref->0@ } else { env_sha->0@ }),
{
    let repo_url = match cli_repo_url {
        Some(u) => u,
        None => match (env_server_url, env_repository) {
            (Some(s), Some(p)) => repo_url_from(s.as_str(), p.as_str()),
            _ => return None,
        },
    };
    let commit_ref = match cli_commit_ref {
        Some(c) => c,
        None => match env_sha {
            Some(c) => c,
            None => return None,
        },
    };
    Some(SourceLinks::new(repo_url, commit_ref))
}


/// Where a Location links: a path that does not start with `/` is its own
/// link target whatever the current directory is; an absolute path has no
/// target without a known current directory; under a known current
/// directory it has one exactly when the directory's components prefix its
/// own, and that target splits into the path's components past the
/// directory's.
pub proof fn lemma_link_target_laws(path: Seq<char>, cwd: Option<Seq<char>>)
    ensures
        path.len() == 0 || path[0] != '/' ==> link_target(path, cwd) == Some(path),
        path.len() > 0 && path[0] == '/' && cwd is None ==> link_target(path, cwd) is None,
        path.len() > 0 && path[0] == '/' && cwd is Some ==> (link_target(path, cwd) is Some <==> is_prefix_of(
            path_components(cwd->0),
            path_components(path),
        )),
        path.len() > 0 && path[0] == '/' && link_target(path, cwd) is Some ==> path_components(
            link_target(path, cwd)->0,
        ) == path_components(path).skip(path_components(cwd->0).len() as int),
{
    if path.len() > 0 && path[0] == '/' && link_target(path, cwd) is Some {
        let c = cwd->0;
        let cs = path_components(path);
        let n = path_components(c).len() as int;
        crate::paths::lemma_components_valid(path);
        if n >= 1 {
            crate::paths::lemma_skip_valid(cs, n);
        } else {
            assert(cs.skip(0) =~= cs);
        }
        crate::paths::lemma_join_components(cs.skip(n));
    }
}

} // verus!
