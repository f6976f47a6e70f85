//! Making a workspace: its random name and the layout of what stands in it.

use vstd::prelude::*;
use crate::error::Error;
use crate::host::{is_alphanumeric, sample_alphanumeric};
use crate::job::{
    lemma_fixed_names, Job, JobView, Links, LinksView, ARCHIVE, SYM_PLAYBOOK, SYM_REF_DIR,
};
use crate::path::{
    abs_text, place_under, rel_text, text_under, valid_segment, AbsPath, RelPath,
};
use crate::text::{append_text, chars_of, has_prefix, string_of};

verus! {

/// What the name of every workspace begins with.
pub const PREFIX: &'static str = "hotwings-";

/// How many random characters follow the prefix.
pub const SUFFIX_LEN: usize = 6;

/// The name of the workspace with the random part `suffix`.
pub open spec fn workspace_name(suffix: Seq<char>) -> Seq<char> {
    PREFIX@ + suffix
}

/// The random part of a workspace's name: six letters or digits of ASCII.
pub open spec fn is_suffix(suffix: Seq<char>) -> bool {
    &&& suffix.len() == SUFFIX_LEN
    &&& forall|i: int| 0 <= i < suffix.len() ==> is_alphanumeric(suffix[i])
}

/// The layout of a workspace that is to be made: where it stands, what its
/// two links are called and point to, and how its archive is made.
#[derive(Clone, Debug, PartialEq, Eq)]
pub struct Layout {
    /// The directory of the workspace.
    pub dir: AbsPath,
    /// The reference directory.
    pub reference: AbsPath,
    /// The tracked file, relative to the reference directory.
    pub relative: RelPath,
    /// The link to the reference directory.
    pub ref_link: AbsPath,
    /// What that link points to: the reference directory.
    pub ref_target: String,
    /// The link to the tracked file.
    pub playbook_link: AbsPath,
    /// What that link points to: the tracked file, reached through the link
    /// to the reference directory.
    pub playbook_target: String,
    /// The archive of the reference directory.
    pub archive: AbsPath,
    /// The shell command that makes the archive when it runs in the
    /// reference directory. The path of the archive stands in it as it is,
    /// so the staging directory should be free of characters that a shell
    /// reads specially.
    pub archive_command: String,
}

/// A layout as a plain value.
pub struct LayoutView {
    pub dir: Seq<Seq<char>>,
    pub reference: Seq<Seq<char>>,
    pub relative: Seq<Seq<char>>,
    pub ref_link: Seq<Seq<char>>,
    pub ref_target: Seq<char>,
    pub playbook_link: Seq<Seq<char>>,
    pub playbook_target: Seq<char>,
    pub archive: Seq<Seq<char>>,
    pub archive_command: Seq<char>,
}

impl View for Layout {
    type V = LayoutView;

    open spec fn view(&self) -> LayoutView {
        LayoutView {
            dir: self.dir@,
            reference: self.reference@,
            relative: self.relative@,
            ref_link: self.ref_link@,
            ref_target: self.ref_target@,
            playbook_link: self.playbook_link@,
            playbook_target: self.playbook_target@,
            archive: self.archive@,
            archive_command: self.archive_command@,
        }
    }
}

/// The layout of the workspace with the random part `suffix` under
/// `staging`, for the file `playbook` under the reference directory
/// `ref_dir`.
pub open spec fn layout_of(
    staging: Seq<Seq<char>>,
    suffix: Seq<char>,
    ref_dir: Seq<Seq<char>>,
    playbook: Seq<Seq<char>>,
) -> LayoutView {
    let dir = staging.push(workspace_name(suffix));
    let relative = playbook.skip(ref_dir.len() as int);
    LayoutView {
        dir: dir,
        reference: ref_dir,
        relative: relative,
        ref_link: dir.push(SYM_REF_DIR@),
        ref_target: abs_text(ref_dir),
        playbook_link: dir.push(SYM_PLAYBOOK@),
        playbook_target: SYM_REF_DIR@ + seq!['/'] + rel_text(relative),
        archive: dir.push(ARCHIVE@),
        archive_command: "tar czf "@ + abs_text(dir.push(ARCHIVE@)) + " *"@,
    }
}

/// What the links of a workspace with this layout resolve to while the
/// reference directory stays in place: the first to the reference
/// directory, the second through the first to the tracked file.
pub open spec fn resolved(layout: LayoutView) -> LinksView {
    LinksView {
        reference: Some(abs_text(layout.reference)),
        playbook: Some(abs_text(layout.reference + layout.relative)),
    }
}

/// What following the two links gives, read off the texts that they hold:
/// the first link leads to `ref_target`; the second leads through the first
/// where its text begins with the name of the first and a separator, and
/// nowhere otherwise.
pub open spec fn followed(ref_target: Seq<char>, playbook_target: Seq<char>) -> LinksView {
    let through = SYM_REF_DIR@ + seq!['/'];
    LinksView {
        reference: Some(ref_target),
        playbook: if through.is_prefix_of(playbook_target) {
            Some(text_under(ref_target, playbook_target.skip(through.len() as int)))
        } else {
            None
        },
    }
}

/// A name made of the prefix and letters or digits is a path segment.
pub proof fn lemma_workspace_name(suffix: Seq<char>)
    requires
        forall|i: int| 0 <= i < suffix.len() ==> is_alphanumeric(suffix[i]),
    ensures
        valid_segment(workspace_name(suffix)),
        PREFIX@.is_prefix_of(workspace_name(suffix)),
{
    reveal_strlit("hotwings-");
    let name = workspace_name(suffix);
    assert(PREFIX@.len() == 9);
    assert(seq!['.'].len() == 1);
    assert(seq!['.', '.'].len() == 2);
    assert forall|i: int| 0 <= i < name.len() implies name[i] != '/' by {
        if i >= 9 {
            assert(name[i] == suffix[i - 9]);
            assert(is_alphanumeric(suffix[i - 9]));
        }
    }
    assert(PREFIX@ =~= name.subrange(0, 9));
}

impl Links {
    /// What following the two links gives, read off the texts that they
    /// hold, where the target of the first exists.
    pub fn follow(ref_target: &str, playbook_target: &str) -> (links: Links)
        ensures
            links@ == followed(ref_target@, playbook_target@),
    {
        let through = append_text(SYM_REF_DIR, "/");
        proof {
            reveal_strlit("/");
            assert("/"@ =~= seq!['/']);
        }
        let playbook = if has_prefix(playbook_target, through.as_str()) {
            let chars = chars_of(playbook_target);
            let skipped = chars_of(through.as_str()).len();
            let rest = string_of(&chars, skipped, chars.len());
            assert(rest@ =~= playbook_target@.skip(through@.len() as int));
            Some(place_under(ref_target, rest.as_str()))
        } else {
            None
        };
        Links { reference: Some(ref_target.to_owned()), playbook }
    }
}

impl Layout {
    /// What resolving the links of the workspace gives while the reference
    /// directory stays in place.
    pub fn links(&self) -> (links: Links)
        ensures
            links@ == resolved(self@),
    {
        let file = self.reference.join(&self.relative);
        Links { reference: Some(self.reference.to_text()), playbook: Some(file.to_text()) }
    }

    /// The job that the workspace is once it stands; `created` is the time
    /// of creation that its directory reports.
    pub fn job(&self, created: i64) -> (job: Job)
        ensures
            job@ == (JobView { timestamp: created, dir: self.dir@ }),
    {
        Job { timestamp: created, dir: self.dir.clone() }
    }
}

impl Job {
    /// `sz` random letters and digits.
    pub fn rand_string(sz: usize) -> (out: String)
        ensures
            out@.len() == sz,
            forall|i: int| 0 <= i < out@.len() ==> is_alphanumeric(out@[i]),
    {
        let mut out = String::new();
        let mut i: usize = 0;
        while i < sz
            invariant
                i <= sz,
                out@.len() == i,
                forall|k: int| 0 <= k < out@.len() ==> is_alphanumeric(out@[k]),
            decreases sz - i,
        {
            let c = sample_alphanumeric();
            out.push(c);
            i += 1;
        }
        out
    }

    /// The layout of the workspace with the random part `suffix`. The file
    /// has to be the reference directory or lie under it, and the name has to
    /// be a path segment; else a path error is returned.
    pub fn plan(staging: &AbsPath, suffix: &str, ref_dir: &AbsPath, playbook: &AbsPath) -> (layout:
        Result<Layout, Error>)
        ensures
            layout is Ok <==> valid_segment(workspace_name(suffix@)) && ref_dir@.is_prefix_of(
                playbook@,
            ),
            layout matches Ok(l) ==> l@ == layout_of(staging@, suffix@, ref_dir@, playbook@),
            layout matches Err(e) ==> e == Error::Path,
    {
        let name = append_text(PREFIX, suffix);
        let dir = match staging.child(name.as_str()) {
            Some(dir) => dir,
            None => {
                return Err(Error::Path);
            },
        };
        let relative = match playbook.strip_prefix(ref_dir) {
            Some(relative) => relative,
            None => {
                return Err(Error::Path);
            },
        };
        proof {
            lemma_fixed_names();
        }
        let ref_link = dir.child(SYM_REF_DIR).unwrap();
        let playbook_link = dir.child(SYM_PLAYBOOK).unwrap();
        let archive = dir.child(ARCHIVE).unwrap();
        let through = append_text(SYM_REF_DIR, "/");
        proof {
            reveal_strlit("/");
            assert("/"@ =~= seq!['/']);
        }
        let playbook_target = append_text(through.as_str(), relative.to_text().as_str());
        let tar = append_text("tar czf ", archive.to_text().as_str());
        let archive_command = append_text(tar.as_str(), " *");
        Ok(
            Layout {
                dir,
                reference: ref_dir.clone(),
                relative,
                ref_link,
                ref_target: ref_dir.to_text(),
                playbook_link,
                playbook_target,
                archive,
                archive_command,
            },
        )
    }

    /// The layout of a new workspace under `staging` for the file
    /// `playbook` under the reference directory `ref_dir`, with a fresh
    /// random name. A file that is neither the reference directory nor under
    /// it is refused with a path error, whatever the name.
    pub fn create(staging: &AbsPath, ref_dir: &AbsPath, playbook: &AbsPath) -> (layout: Result<
        Layout,
        Error,
    >)
        ensures
            layout is Ok <==> ref_dir@.is_prefix_of(playbook@),
            layout matches Ok(l) ==> exists|suffix: Seq<char>|
                is_suffix(suffix) && l@ == layout_of(staging@, suffix, ref_dir@, playbook@),
            layout matches Err(e) ==> e == Error::Path,
    {
        let suffix = Job::rand_string(SUFFIX_LEN);
        proof {
            lemma_workspace_name(suffix@);
            assert(is_suffix(suffix@));
        }
        Job::plan(staging, suffix.as_str(), ref_dir, playbook)
    }
}

} // verus!
