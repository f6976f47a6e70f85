//! What holds of every workspace, stated over the models that the contracts
//! of this library use.

use vstd::prelude::*;
use crate::error::Error;
use crate::job::{
    abs_outcome, reference_of, rel_outcome, tracked_of, JobView, LinksView, SYM_REF_DIR,
};
use crate::layout::{followed, layout_of, resolved};
use crate::path::{
    abs_text, lemma_segments_of_text, lemma_text_under, rel_text, valid_path, valid_segment,
    AbsPath, RelPath,
};
use crate::registry::{
    is_newest_first, is_workspace_of, job_of, lemma_sorted_by_age, newest, owned_jobs, seen_from,
    sorted_by_age, workspaces_of, EntryView, SightingView,
};

verus! {

/// A workspace that was laid out for a file under a reference directory
/// resolves to that directory, and its tracked file is the file relative to
/// the directory, exactly, however deep the file lies. Put behind the
/// directory, the tracked file gives the file again.
pub proof fn law_tracked_file_round_trip(
    staging: Seq<Seq<char>>,
    suffix: Seq<char>,
    ref_dir: Seq<Seq<char>>,
    file: Seq<Seq<char>>,
)
    requires
        valid_path(ref_dir),
        valid_path(file),
        ref_dir.is_prefix_of(file),
    ensures
        reference_of(resolved(layout_of(staging, suffix, ref_dir, file))) == Ok::<
            Seq<Seq<char>>,
            Error,
        >(ref_dir),
        tracked_of(resolved(layout_of(staging, suffix, ref_dir, file))) == Ok::<
            Seq<Seq<char>>,
            Error,
        >(file.skip(ref_dir.len() as int)),
        ref_dir + file.skip(ref_dir.len() as int) == file,
{
    let rest = file.skip(ref_dir.len() as int);
    assert(ref_dir + rest =~= file);
    lemma_segments_of_text(ref_dir);
    lemma_segments_of_text(file);
}

/// The links of a laid-out workspace lead where the layout says: followed by
/// their texts, the second through the first, they give the reference
/// directory and the file.
pub proof fn law_links_lead_through_reference(
    staging: Seq<Seq<char>>,
    suffix: Seq<char>,
    ref_dir: Seq<Seq<char>>,
    file: Seq<Seq<char>>,
)
    requires
        valid_path(ref_dir),
        valid_path(file),
        ref_dir.is_prefix_of(file),
    ensures
        ({
            let layout = layout_of(staging, suffix, ref_dir, file);
            followed(layout.ref_target, layout.playbook_target) == resolved(layout)
        }),
{
    let layout = layout_of(staging, suffix, ref_dir, file);
    let through = SYM_REF_DIR@ + seq!['/'];
    assert(through =~= layout.playbook_target.subrange(0, through.len() as int));
    assert(layout.playbook_target.skip(through.len() as int) =~= rel_text(layout.relative));
    assert(valid_path(layout.relative)) by {
        assert forall|i: int| 0 <= i < layout.relative.len() implies valid_segment(
            #[trigger] layout.relative[i],
        ) by {
            assert(layout.relative[i] == file[ref_dir.len() + i]);
        }
    }
    lemma_text_under(ref_dir, layout.relative);
    assert(ref_dir + layout.relative =~= file);
}

/// A workspace keeps its tracked file when its reference directory moves:
/// once the first link points to the new place, the second, which leads
/// through the first, names the same file relative to it.
pub proof fn law_relocation(
    staging: Seq<Seq<char>>,
    suffix: Seq<char>,
    ref_dir: Seq<Seq<char>>,
    file: Seq<Seq<char>>,
    new_dir: Seq<Seq<char>>,
)
    requires
        valid_path(ref_dir),
        valid_path(file),
        valid_path(new_dir),
        ref_dir.is_prefix_of(file),
    ensures
        ({
            let layout = layout_of(staging, suffix, ref_dir, file);
            let links = followed(abs_text(new_dir), layout.playbook_target);
            &&& reference_of(links) == Ok::<Seq<Seq<char>>, Error>(new_dir)
            &&& tracked_of(links) == Ok::<Seq<Seq<char>>, Error>(layout.relative)
        }),
{
    let layout = layout_of(staging, suffix, ref_dir, file);
    let through = SYM_REF_DIR@ + seq!['/'];
    let rest = layout.relative;
    assert(through =~= layout.playbook_target.subrange(0, through.len() as int));
    assert(layout.playbook_target.skip(through.len() as int) =~= rel_text(rest));
    assert(valid_path(rest)) by {
        assert forall|i: int| 0 <= i < rest.len() implies valid_segment(#[trigger] rest[i]) by {
            assert(rest[i] == file[ref_dir.len() + i]);
        }
    }
    lemma_text_under(new_dir, rest);
    assert(valid_path(new_dir + rest)) by {
        assert forall|i: int| 0 <= i < (new_dir + rest).len() implies valid_segment(
            #[trigger] (new_dir + rest)[i],
        ) by {
            if i >= new_dir.len() {
                assert((new_dir + rest)[i] == rest[i - new_dir.len()]);
            }
        }
    }
    lemma_segments_of_text(new_dir);
    lemma_segments_of_text(new_dir + rest);
    assert(new_dir =~= (new_dir + rest).subrange(0, new_dir.len() as int));
    assert((new_dir + rest).skip(new_dir.len() as int) =~= rest);
}

/// Resolving the links of a workspace twice, with nothing changed between,
/// gives the same reference directory and the same tracked file, or the
/// same error.
pub proof fn law_resolution_repeats(
    links: LinksView,
    first_dir: Result<AbsPath, Error>,
    second_dir: Result<AbsPath, Error>,
    first_file: Result<RelPath, Error>,
    second_file: Result<RelPath, Error>,
)
    requires
        abs_outcome(first_dir) == reference_of(links),
        abs_outcome(second_dir) == reference_of(links),
        rel_outcome(first_file) == tracked_of(links),
        rel_outcome(second_file) == tracked_of(links),
    ensures
        abs_outcome(first_dir) == abs_outcome(second_dir),
        rel_outcome(first_file) == rel_outcome(second_file),
{
}

/// `job` stands for an entry of `staging` that is a workspace of `uid`.
pub open spec fn stems_from(
    job: JobView,
    staging: Seq<Seq<char>>,
    entries: Seq<EntryView>,
    uid: u32,
) -> bool {
    exists|i: int|
        0 <= i < entries.len() && is_workspace_of(#[trigger] entries[i], uid) && job == job_of(
            staging,
            entries[i],
        )
}

/// The listing of one user holds no workspace of another: every job in it
/// stands for an entry that the user owns, and an entry that another user
/// owns is not among the entries kept.
pub proof fn law_ownership_isolation(
    staging: Seq<Seq<char>>,
    entries: Seq<EntryView>,
    me: u32,
    other: u32,
)
    requires
        me != other,
    ensures
        forall|k: int|
            0 <= k < owned_jobs(staging, entries, me).len() ==> stems_from(
                #[trigger] owned_jobs(staging, entries, me)[k],
                staging,
                entries,
                me,
            ),
        forall|i: int|
            0 <= i < entries.len() && entries[i].owner == Some(other) ==> !entries.filter(
                workspaces_of(me),
            ).contains(#[trigger] entries[i]),
{
    let keep = workspaces_of(me);
    let kept = entries.filter(keep);
    entries.lemma_filter_len(keep);
    assert forall|k: int| 0 <= k < owned_jobs(staging, entries, me).len() implies stems_from(
        #[trigger] owned_jobs(staging, entries, me)[k],
        staging,
        entries,
        me,
    ) by {
        entries.lemma_filter_pred(keep, k);
        assert(keep(kept[k]));
        entries.lemma_filter_contains_rev(keep, kept[k]);
        let i = choose|i: int| 0 <= i < entries.len() && entries[i] == kept[k];
        assert(is_workspace_of(entries[i], me));
        assert(owned_jobs(staging, entries, me)[k] == job_of(staging, entries[i]));
    }
    assert forall|i: int|
        0 <= i < entries.len() && entries[i].owner == Some(other) implies !kept.contains(
        #[trigger] entries[i],
    ) by {
        if kept.contains(entries[i]) {
            let k = choose|k: int| 0 <= k < kept.len() && kept[k] == entries[i];
            entries.lemma_filter_pred(keep, k);
            assert(keep(kept[k]));
        }
    }
}

/// A listing is ordered newest first and holds the given jobs, each as
/// often as it was given; a listing of at most `n` jobs is the beginning of
/// the full listing, `n` jobs long where there are that many.
pub proof fn law_listing_order(jobs: Seq<JobView>, n: int)
    requires
        0 <= n,
    ensures
        is_newest_first(sorted_by_age(jobs)),
        sorted_by_age(jobs).to_multiset() == jobs.to_multiset(),
        newest(jobs, n).is_prefix_of(sorted_by_age(jobs)),
        newest(jobs, n).len() == if n < jobs.len() {
            n
        } else {
            jobs.len() as int
        },
        is_newest_first(newest(jobs, n)),
{
    lemma_sorted_by_age(jobs);
    let all = sorted_by_age(jobs);
    let some = newest(jobs, n);
    assert(some =~= all.subrange(0, some.len() as int));
    assert forall|i: int, j: int| 0 <= i <= j < some.len() implies some[i].timestamp
        >= some[j].timestamp by {
        assert(some[i] == all[i] && some[j] == all[j]);
    }
}

/// A job is seen from a directory exactly when its reference directory is
/// that directory.
pub proof fn law_exact_match(cwd: Seq<Seq<char>>, reference: Seq<Seq<char>>, s: SightingView)
    requires
        valid_path(reference),
        s.links.reference == Some(abs_text(reference)),
    ensures
        seen_from(cwd)(s) <==> reference == cwd,
{
    lemma_segments_of_text(reference);
}

/// A job is not seen from a directory below its reference directory, nor
/// from one above it.
pub proof fn law_no_ancestor_match(
    reference: Seq<Seq<char>>,
    below: Seq<Seq<char>>,
    inner: SightingView,
    outer: SightingView,
)
    requires
        valid_path(reference),
        valid_path(reference + below),
        below.len() > 0,
        outer.links.reference == Some(abs_text(reference)),
        inner.links.reference == Some(abs_text(reference + below)),
    ensures
        !seen_from(reference + below)(outer),
        !seen_from(reference)(inner),
{
    lemma_segments_of_text(reference);
    lemma_segments_of_text(reference + below);
    assert((reference + below).len() != reference.len());
}

} // verus!
