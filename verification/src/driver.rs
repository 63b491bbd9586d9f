//! What one invocation is to do.
//!
//! An invocation names a target, possibly an output root, and says
//! whether it is a live run or a dry run. From that, and from what was
//! found on disk, the plan is made here: the archives to be unpacked, in
//! order, each with its output directory. A live run unpacks them one
//! after another and goes on to the next when one fails; a dry run only
//! shows them. Making the plan touches no file.

use vstd::prelude::*;
use crate::classify::{is_archive, is_archive_filetype};
use crate::error::{opt_error_view, PathError, RZipError, RZipErrorView};
use crate::path::{has_prefix, opt_path_view, paths_view, FsPath, Part};
use crate::resolve::{
    get_out_path_for_archive, lemma_extension_gives_stem, lemma_out_path_cases, out_path_of,
    ConfigView, RZipExtractConfig,
};
use crate::scan::{get_archives_in_dir, scan, DirEntry};

verus! {

/// The parameters of one invocation.
#[derive(Debug, PartialEq, Eq)]
pub struct RZipParams {
    /// The path to unpack: an archive, or a directory to search for
    /// archives.
    pub target_path: FsPath,
    /// Whether to unpack. Without it the run only shows what it would do.
    pub live: bool,
    /// The directory to unpack into. Without one, each archive unpacks
    /// beside itself.
    pub out_dir: Option<FsPath>,
    /// Whether to remove an archive once it is unpacked.
    pub delete_archives: bool,
}

/// The settings that an invocation's parameters stand for.
pub open spec fn config_of(params: RZipParams) -> ConfigView {
    ConfigView {
        target_path: params.target_path@,
        out_dir: opt_path_view(params.out_dir),
        delete_after_extracting: params.delete_archives,
    }
}

impl From<RZipParams> for RZipExtractConfig {
    fn from(value: RZipParams) -> (r: Self) {
        RZipExtractConfig {
            target_path: value.target_path,
            out_dir: value.out_dir,
            delete_after_extracting: value.delete_archives,
        }
    }
}

impl vstd::std_specs::convert::FromSpecImpl<RZipParams> for RZipExtractConfig {
    open spec fn obeys_from_spec() -> bool {
        true
    }

    open spec fn from_spec(value: RZipParams) -> Self {
        RZipExtractConfig {
            target_path: value.target_path,
            out_dir: value.out_dir,
            delete_after_extracting: value.delete_archives,
        }
    }
}

/// One archive to unpack, with the directory that its contents go to.
#[derive(Debug, PartialEq, Eq)]
pub struct Job {
    pub archive: FsPath,
    pub out_path: FsPath,
}

/// The mathematical counterpart of a [`Job`].
pub struct JobView {
    pub archive: Seq<Part>,
    pub out_path: Seq<Part>,
}

impl View for Job {
    type V = JobView;

    open spec fn view(&self) -> JobView {
        JobView { archive: self.archive@, out_path: self.out_path@ }
    }
}

/// The views of a list of jobs.
pub open spec fn jobs_view(jobs: Seq<Job>) -> Seq<JobView> {
    Seq::new(jobs.len(), |i: int| jobs[i]@)
}

/// What an invocation is to do: the jobs, in order, and after them the
/// failure to report, if there is one.
#[derive(Debug, PartialEq, Eq)]
pub struct Plan {
    /// Whether the jobs are to be done, or only shown.
    pub live: bool,
    /// The settings that every job runs under.
    pub config: RZipExtractConfig,
    /// The archives to unpack, in order.
    pub jobs: Vec<Job>,
    /// The failure that ended the planning, if one did.
    pub failure: Option<RZipError>,
}

/// The mathematical counterpart of a [`Plan`].
pub struct PlanView {
    pub live: bool,
    pub config: ConfigView,
    pub jobs: Seq<JobView>,
    pub failure: Option<RZipErrorView>,
}

impl View for Plan {
    type V = PlanView;

    open spec fn view(&self) -> PlanView {
        PlanView {
            live: self.live,
            config: self.config@,
            jobs: jobs_view(self.jobs@),
            failure: opt_error_view(self.failure),
        }
    }
}

/// The jobs for a list of archives: one for each archive, in order, up to
/// the first archive that has no output directory; and the failure of
/// that archive, if there is one.
pub open spec fn jobs_match(
    jobs: Seq<JobView>,
    failure: Option<RZipErrorView>,
    archives: Seq<Seq<Part>>,
    config: ConfigView,
) -> bool {
    &&& jobs.len() <= archives.len()
    &&& forall|i: int|
        0 <= i < jobs.len() ==> (#[trigger] jobs[i]).archive == archives[i] && out_path_of(
            archives[i],
            config,
        ) == Ok::<Seq<Part>, PathError>(jobs[i].out_path)
    &&& if jobs.len() == archives.len() {
        failure is None
    } else {
        out_path_of(archives[jobs.len() as int], config) matches Err(kind) && failure == Some(
            RZipErrorView::Path(kind, archives[jobs.len() as int]),
        )
    }
}

/// The jobs for `archives` under `config`.
fn plan_jobs(archives: Vec<FsPath>, config: &RZipExtractConfig) -> (r: (
    Vec<Job>,
    Option<RZipError>,
))
    ensures
        jobs_match(jobs_view(r.0@), opt_error_view(r.1), paths_view(archives@), config@),
{
    let mut jobs: Vec<Job> = Vec::new();
    let mut i: usize = 0;
    while i < archives.len()
        invariant
            i <= archives.len(),
            jobs.len() == i,
            forall|j: int|
                0 <= j < i ==> (#[trigger] jobs@[j])@.archive == archives@[j]@ && out_path_of(
                    archives@[j]@,
                    config@,
                ) == Ok::<Seq<Part>, PathError>(jobs@[j]@.out_path),
        decreases archives.len() - i,
    {
        match get_out_path_for_archive(&archives[i], config) {
            Ok(out_path) => {
                jobs.push(Job { archive: archives[i].clone(), out_path });
            },
            Err(e) => {
                return (jobs, Some(e));
            },
        }
        i += 1;
    }
    (jobs, None)
}

/// The plan for an invocation whose target is a file.
///
/// A target that is no archive is refused with `UnsupportedArchive`, and
/// nothing is to be done. For an archive there is one job: the target,
/// with the output directory that the settings give it.
pub fn handle_file(params: RZipParams) -> (plan: Plan)
    ensures
        plan@.live == params.live,
        plan@.config == config_of(params),
        !is_archive(params.target_path@, false) ==> plan@.jobs.len() == 0 && plan@.failure
            == Some(RZipErrorView::UnsupportedArchive(params.target_path@)),
        is_archive(params.target_path@, false) ==> plan@.failure is None && plan@.jobs.len() == 1
            && plan@.jobs[0].archive == params.target_path@ && out_path_of(
            params.target_path@,
            config_of(params),
        ) == Ok::<Seq<Part>, PathError>(plan@.jobs[0].out_path),
{
    let live = params.live;
    let ghost target = params.target_path@;
    let ghost settings = config_of(params);
    let config: RZipExtractConfig = RZipExtractConfig::from(params);
    proof {
        lemma_out_path_cases(target, settings);
        if is_archive(target, false) {
            lemma_extension_gives_stem(target);
        }
        assert(target.subrange(0, target.len() as int) =~= target);
    }
    if !is_archive_filetype(&config.target_path, false) {
        let failure = RZipError::UnsupportedArchive(config.target_path.clone());
        let plan = Plan { live, config, jobs: Vec::new(), failure: Some(failure) };
        proof {
            assert(jobs_view(plan.jobs@) =~= Seq::<JobView>::empty());
        }
        return plan;
    }
    match get_out_path_for_archive(&config.target_path, &config) {
        Ok(out_path) => {
            let mut jobs: Vec<Job> = Vec::new();
            jobs.push(Job { archive: config.target_path.clone(), out_path });
            Plan { live, config, jobs, failure: None }
        },
        Err(e) => {
            // An archive has a file name, and the target lies under itself.
            Plan { live, config, jobs: Vec::new(), failure: Some(e) }
        },
    }
}

/// The plan for an invocation whose target is a directory with the
/// listing `entries`.
///
/// Where the listing holds a failure, that failure is reported and
/// nothing is to be done. Else there is one job for each archive under
/// the target, in the order of the walk, with the output directory that
/// the settings give it; every archive under the target has one.
pub fn handle_dir(params: RZipParams, entries: &Vec<DirEntry>) -> (plan: Plan)
    ensures
        plan@.live == params.live,
        plan@.config == config_of(params),
        match scan(params.target_path@, entries@) {
            Err(message) => plan@.jobs.len() == 0 && plan@.failure == Some(
                RZipErrorView::Io(message),
            ),
            Ok(archives) => jobs_match(plan@.jobs, plan@.failure, archives, config_of(params))
                && plan@.failure is None && plan@.jobs.len() == archives.len(),
        },
{
    let live = params.live;
    let ghost settings = config_of(params);
    let config: RZipExtractConfig = RZipExtractConfig::from(params);
    match get_archives_in_dir(&config.target_path, entries) {
        Err(e) => {
            let plan = Plan { live, config, jobs: Vec::new(), failure: Some(e) };
            proof {
                assert(jobs_view(plan.jobs@) =~= Seq::<JobView>::empty());
            }
            plan
        },
        Ok(archives) => {
            let ghost found = paths_view(archives@);
            let (jobs, failure) = plan_jobs(archives, &config);
            proof {
                if jobs@.len() < found.len() {
                    let k = jobs@.len() as int;
                    assert(has_prefix(found[k], settings.target_path) && is_archive(
                        found[k],
                        false,
                    ));
                    lemma_extension_gives_stem(found[k]);
                    lemma_out_path_cases(found[k], settings);
                }
            }
            Plan { live, config, jobs, failure }
        },
    }
}

} // verus!
