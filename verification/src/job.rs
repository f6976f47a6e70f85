//! A job workspace as it stands on disk: its two links, the reference
//! directory and the tracked file that they name, and what uploading and
//! showing it take.

use vstd::prelude::*;
use crate::error::Error;
use crate::host::{blue, paint_blue, paint_red, painted, red};
use crate::path::{
    abs_text, is_abs_text, rel_text, segments_of, texts, valid_segment, AbsPath, RelPath,
};
use crate::remote::Remote;
use crate::text::append_text;

verus! {

/// The name of the link to the reference directory.
pub const SYM_REF_DIR: &'static str = ".ref";

/// The name of the link to the tracked file.
pub const SYM_PLAYBOOK: &'static str = ".playbook";

/// The name of the archive.
pub const ARCHIVE: &'static str = "a.tgz";

/// What identifies this client to a remote.
pub const USER_AGENT: &'static str = "hwcli = 0.1.0";

/// A workspace that was found or made.
#[derive(Debug, PartialEq, Eq)]
pub struct Job {
    /// When the workspace was created, in seconds.
    pub timestamp: i64,
    /// The directory of the workspace.
    pub dir: AbsPath,
}

/// A job as a plain value.
pub struct JobView {
    pub timestamp: i64,
    pub dir: Seq<Seq<char>>,
}

impl View for Job {
    type V = JobView;

    open spec fn view(&self) -> JobView {
        JobView { timestamp: self.timestamp, dir: self.dir@ }
    }
}

/// The jobs as plain values.
pub open spec fn job_views(jobs: Seq<Job>) -> Seq<JobView> {
    jobs.map_values(|j: Job| j@)
}

/// What resolving the two links of a workspace gave: the normalized text of
/// each target, or `None` where the link is missing or broken.
#[derive(Clone, Debug, PartialEq, Eq)]
pub struct Links {
    /// The target of the link to the reference directory.
    pub reference: Option<String>,
    /// The target of the link to the tracked file.
    pub playbook: Option<String>,
}

/// The resolved links as plain values.
pub struct LinksView {
    pub reference: Option<Seq<char>>,
    pub playbook: Option<Seq<char>>,
}

impl View for Links {
    type V = LinksView;

    open spec fn view(&self) -> LinksView {
        LinksView {
            reference: match self.reference {
                Some(t) => Some(t@),
                None => None,
            },
            playbook: match self.playbook {
                Some(t) => Some(t@),
                None => None,
            },
        }
    }
}

/// The reference directory that the links name: an error of input and
/// output where the link did not resolve, a path error where its target is
/// no normalized absolute path.
pub open spec fn reference_of(links: LinksView) -> Result<Seq<Seq<char>>, Error> {
    match links.reference {
        None => Err(Error::Io),
        Some(dir) => if is_abs_text(dir) {
            Ok(segments_of(dir))
        } else {
            Err(Error::Path)
        },
    }
}

/// The tracked file that the links name, relative to the reference
/// directory: an error of input and output where one of the links did not
/// resolve, a path error where a target is no normalized absolute path or
/// the file does not lie under the directory.
pub open spec fn tracked_of(links: LinksView) -> Result<Seq<Seq<char>>, Error> {
    match (links.playbook, links.reference) {
        (Some(file), Some(dir)) => if is_abs_text(file) && is_abs_text(dir) && segments_of(
            dir,
        ).is_prefix_of(segments_of(file)) {
            Ok(segments_of(file).skip(segments_of(dir).len() as int))
        } else {
            Err(Error::Path)
        },
        _ => Err(Error::Io),
    }
}

/// An absolute path or an error, as a plain value.
pub open spec fn abs_outcome(r: Result<AbsPath, Error>) -> Result<Seq<Seq<char>>, Error> {
    match r {
        Ok(p) => Ok(p@),
        Err(e) => Err(e),
    }
}

/// A relative path or an error, as a plain value.
pub open spec fn rel_outcome(r: Result<RelPath, Error>) -> Result<Seq<Seq<char>>, Error> {
    match r {
        Ok(p) => Ok(p@),
        Err(e) => Err(e),
    }
}

/// The arguments of the upload of a workspace's archive to `url`, with the
/// tracked file `playbook` as its playbook name.
pub open spec fn upload_args(url: Seq<char>, playbook: Seq<char>) -> Seq<Seq<char>> {
    seq![
        url,
        "--progress-bar"@,
        "--verbose"@,
        "-F"@,
        "job_archive=@"@ + ARCHIVE@,
        "-F"@,
        "playbook_name="@ + playbook,
        "-A"@,
        USER_AGENT@,
    ]
}

/// What `submit` answers for a workspace with these links: a state error
/// where there is no archive, else the error of the tracked file, else the
/// arguments of the upload.
pub open spec fn upload_of(url: Seq<char>, links: LinksView, archived: bool) -> Result<
    Seq<Seq<char>>,
    Error,
> {
    if !archived {
        Err(Error::State)
    } else {
        match tracked_of(links) {
            Ok(relative) => Ok(upload_args(url, rel_text(relative))),
            Err(e) => Err(e),
        }
    }
}

/// The line that shows a job: its directory, `+`, and a mark.
pub open spec fn label_of(dir: Seq<Seq<char>>, mark: Seq<char>) -> Seq<char> {
    abs_text(dir) + seq!['+'] + mark
}

/// `mark` shows the tracked file that the links name in blue, or `?` in red
/// where they name none. Nothing is said of a file whose name holds an
/// escape character.
pub open spec fn marks(links: LinksView, mark: Seq<char>) -> bool {
    match tracked_of(links) {
        Ok(relative) => !rel_text(relative).contains('\x1b') ==> painted(
            blue(),
            rel_text(relative),
            mark,
        ),
        Err(_) => painted(red(), seq!['?'], mark),
    }
}

/// The fixed names inside a workspace are path segments.
pub proof fn lemma_fixed_names()
    ensures
        valid_segment(SYM_REF_DIR@),
        valid_segment(SYM_PLAYBOOK@),
        valid_segment(ARCHIVE@),
{
    reveal_strlit(".ref");
    reveal_strlit(".playbook");
    reveal_strlit("a.tgz");
    assert(SYM_REF_DIR@.len() == 4);
    assert(SYM_PLAYBOOK@.len() == 9);
    assert(ARCHIVE@.len() == 5);
    assert(seq!['.'].len() == 1);
    assert(seq!['.', '.'].len() == 2);
}

impl Job {
    /// The link to the reference directory.
    pub fn ref_link(&self) -> (link: AbsPath)
        ensures
            link@ == self.dir@.push(SYM_REF_DIR@),
    {
        proof {
            lemma_fixed_names();
        }
        self.dir.child(SYM_REF_DIR).unwrap()
    }

    /// The link to the tracked file.
    pub fn playbook_link(&self) -> (link: AbsPath)
        ensures
            link@ == self.dir@.push(SYM_PLAYBOOK@),
    {
        proof {
            lemma_fixed_names();
        }
        self.dir.child(SYM_PLAYBOOK).unwrap()
    }

    /// The archive of the workspace.
    pub fn archive(&self) -> (file: AbsPath)
        ensures
            file@ == self.dir@.push(ARCHIVE@),
    {
        proof {
            lemma_fixed_names();
        }
        self.dir.child(ARCHIVE).unwrap()
    }

    /// The reference directory of the workspace, from what resolving its
    /// links gave.
    pub fn ref_dir(&self, links: &Links) -> (dir: Result<AbsPath, Error>)
        ensures
            abs_outcome(dir) == reference_of(links@),
    {
        match &links.reference {
            None => Err(Error::Io),
            Some(text) => match AbsPath::parse(text.as_str()) {
                Some(dir) => Ok(dir),
                None => Err(Error::Path),
            },
        }
    }

    /// The tracked file of the workspace, relative to its reference
    /// directory, from what resolving its links gave.
    pub fn playbook(&self, links: &Links) -> (file: Result<RelPath, Error>)
        ensures
            rel_outcome(file) == tracked_of(links@),
    {
        let file = match &links.playbook {
            None => {
                return Err(Error::Io);
            },
            Some(text) => AbsPath::parse(text.as_str()),
        };
        let dir = match &links.reference {
            None => {
                return Err(Error::Io);
            },
            Some(text) => AbsPath::parse(text.as_str()),
        };
        match (file, dir) {
            (Some(file), Some(dir)) => match file.strip_prefix(&dir) {
                Some(rest) => Ok(rest),
                None => Err(Error::Path),
            },
            _ => Err(Error::Path),
        }
    }

    /// The arguments of the upload of the workspace's archive to `remote`.
    /// A workspace without archive is not in the state for it.
    pub fn submit(&self, remote: &Remote, links: &Links, archived: bool) -> (args: Result<
        Vec<String>,
        Error,
    >)
        ensures
            match args {
                Ok(a) => upload_of(remote.url@, links@, archived) == Ok::<Seq<Seq<char>>, Error>(
                    texts(a@),
                ),
                Err(e) => upload_of(remote.url@, links@, archived) == Err::<Seq<Seq<char>>, Error>(
                    e,
                ),
            },
    {
        if !archived {
            return Err(Error::State);
        }
        let relative = match self.playbook(links) {
            Ok(relative) => relative,
            Err(e) => {
                return Err(e);
            },
        };
        let mut args: Vec<String> = Vec::new();
        args.push(remote.url.clone());
        args.push("--progress-bar".to_owned());
        args.push("--verbose".to_owned());
        args.push("-F".to_owned());
        args.push(append_text("job_archive=@", ARCHIVE));
        args.push("-F".to_owned());
        args.push(append_text("playbook_name=", relative.to_text().as_str()));
        args.push("-A".to_owned());
        args.push(USER_AGENT.to_owned());
        assert(texts(args@) =~= upload_args(remote.url@, rel_text(relative@)));
        Ok(args)
    }

    /// The line that shows the job with the mark `mark`.
    pub fn compose(&self, mark: &str) -> (line: String)
        ensures
            line@ == label_of(self.dir@, mark@),
    {
        let head = append_text(self.dir.to_text().as_str(), "+");
        proof {
            reveal_strlit("+");
            assert("+"@ =~= seq!['+']);
        }
        append_text(head.as_str(), mark)
    }

    /// The line that shows the job: its directory, `+`, and its tracked file
    /// in blue, or `?` in red where the links name none.
    pub fn label(&self, links: &Links) -> (line: String)
        ensures
            exists|mark: Seq<char>| marks(links@, mark) && line@ == label_of(self.dir@, mark),
    {
        let mark = match self.playbook(links) {
            Ok(relative) => paint_blue(relative.to_text().as_str()),
            Err(_) => {
                proof {
                    reveal_strlit("?");
                    assert("?"@ =~= seq!['?']);
                    assert(!"?"@.contains('\x1b'));
                }
                paint_red("?")
            },
        };
        assert(marks(links@, mark@));
        self.compose(mark.as_str())
    }
}

impl Clone for Job {
    fn clone(&self) -> (copy: Job)
        ensures
            copy@ == self@,
    {
        Job { timestamp: self.timestamp, dir: self.dir.clone() }
    }
}

} // verus!
