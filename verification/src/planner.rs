//! The batch planner.
//!
//! The planner turns a description of the source tree — the visited entries
//! in traversal order, with their raw timestamps — into an ordered plan of
//! renames: for every eligible file it resolves the configured timestamp,
//! builds the candidate destination, resolves collisions against the
//! destinations already assigned in this batch, and appends the pair.
//!
//! Converting an epoch timestamp to local calendar fields depends on the
//! machine's time zone, so [`Sorter::plan`] promises its result to be the
//! plan for *some* sequence of well-formed local stamps, while
//! [`Sorter::plan_with_stamps`], which takes the stamps as an argument, has
//! an exact contract and carries all of the verified planning logic.

use vstd::prelude::*;

use crate::collide::assign_dest;
use crate::collide::assign_onto;
use crate::collide::lemma_assign_all_is_onto;
use crate::collide::lemma_assign_dest_free;
use crate::collide::hits_before;
use crate::collide::lemma_colliding_candidates_numbered;
use crate::collide::lemma_colliding_files_numbered;
use crate::collide::lemma_distinct_candidates_kept;
use crate::collide::separated;
use crate::collide::variant_of;
use crate::collide::path_views;
use crate::collide::resolve_destination;
use crate::destination::candidate_of;
use crate::eligible;
use crate::errors::SortError;
use crate::paths::file_name_of;
use crate::stamp::date_kind_of;
use crate::stamp::local_stamp_of;
use crate::stamp::parse_date_kind;
use crate::stamp::resolve_secs;
use crate::stamp::resolve_secs_spec;
use crate::stamp::stamp_rendered;
use crate::stamp::stamp_wf;
use crate::stamp::DateKind;
use crate::stamp::FsEntry;
use crate::stamp::LocalStamp;
use crate::structs::File;
use crate::type_views;
use crate::Sorter;

verus! {

/// The configuration a planning pass runs under: the view of a [`Sorter`].
pub struct PlanConfig {
    /// The target root.
    pub target: Seq<char>,
    /// The `strftime`-style pattern files are renamed with.
    pub date_format: Seq<char>,
    /// Which timestamp drives sorting.
    pub kind: DateKind,
    /// Whether the old file name is kept inside the new one.
    pub preserve_name: bool,
    /// The extensions excluded from sorting.
    pub exclude: Seq<Seq<char>>,
    /// The extensions exclusively sorted; overrides `exclude` when
    /// non-empty.
    pub only: Seq<Seq<char>>,
}

impl View for Sorter {
    type V = PlanConfig;

    open spec fn view(&self) -> PlanConfig {
        PlanConfig {
            target: self.target@,
            date_format: self.date_format@,
            kind: date_kind_of(self.date_type@),
            preserve_name: self.preserve_name,
            exclude: type_views(self.exclude_type@),
            only: type_views(self.only_type@),
        }
    }
}

/// What one planning pass comes to: the ordered sources and destinations,
/// or the first failure in traversal order.
pub enum PlanOutcome {
    /// Planning finished; `olds` and `news` pair up index-wise.
    Done {
        /// The planned sources, in traversal order.
        olds: Seq<Seq<char>>,
        /// The planned destinations, in the same order.
        news: Seq<Seq<char>>,
    },
    /// A visited entry's metadata could not be read.
    MetadataFail {
        /// The entry's path.
        path: Seq<char>,
    },
    /// An eligible file's timestamp of the requested kind was unavailable,
    /// or could not be represented as a calendar date.
    KindFail {
        /// The file's path.
        path: Seq<char>,
    },
    /// The date format could not be rendered for an eligible file.
    FormatFail {
        /// The file's path.
        path: Seq<char>,
    },
}

/// The stamp at position `i`, `None` when there is none.
pub open spec fn stamp_at(stamps: Seq<Option<LocalStamp>>, i: int) -> Option<LocalStamp> {
    if 0 <= i < stamps.len() {
        stamps[i]
    } else {
        None
    }
}

/// One planning pass over `entries`, consuming one stamp of `stamps` per
/// eligible file, with `olds` and `news` already accumulated.  Entries are
/// processed in order: an entry without metadata aborts the pass; a
/// directory or an ineligible file is skipped; an eligible file needs its
/// timestamp, its stamp and its rendering, and is then appended with its
/// collision-resolved destination.
pub open spec fn plan_rec(
    cfg: PlanConfig,
    entries: Seq<FsEntry>,
    stamps: Seq<Option<LocalStamp>>,
    olds: Seq<Seq<char>>,
    news: Seq<Seq<char>>,
) -> PlanOutcome
    decreases entries.len(),
{
    if entries.len() == 0 {
        PlanOutcome::Done { olds, news }
    } else {
        let e = entries[0];
        match e.times {
            Option::None => PlanOutcome::MetadataFail { path: e.path@ },
            Option::Some(t) => {
                if e.is_dir || !eligible(file_name_of(e.path@), cfg.exclude, cfg.only) {
                    plan_rec(cfg, entries.drop_first(), stamps, olds, news)
                } else {
                    match resolve_secs_spec(t, cfg.kind) {
                        Option::None => PlanOutcome::KindFail { path: e.path@ },
                        Option::Some(secs) => match stamp_at(stamps, 0) {
                            Option::None => PlanOutcome::KindFail { path: e.path@ },
                            Option::Some(st) => match stamp_rendered(st, cfg.date_format) {
                                Option::None => PlanOutcome::FormatFail { path: e.path@ },
                                Option::Some(rendered) => {
                                    let cand = candidate_of(
                                        cfg.target,
                                        st.year as int,
                                        st.month as int,
                                        rendered,
                                        file_name_of(e.path@),
                                        cfg.preserve_name,
                                    );
                                    plan_rec(
                                        cfg,
                                        entries.drop_first(),
                                        stamps.drop_first(),
                                        olds.push(e.path@),
                                        news.push(assign_dest(cand, news)),
                                    )
                                },
                            },
                        },
                    }
                }
            },
        }
    }
}

/// The sorting plan for one batch: the planned sources and destinations,
/// paired up index-wise, and the count of eligible files.
#[derive(Debug)]
pub struct SortPlan {
    /// How many files passed the extension filter.
    pub total_eligible: usize,
    /// The planned sources, in traversal order; `sources[i]` is renamed to
    /// `destinations[i]`.
    pub sources: Vec<File>,
    /// The planned destinations, unique within the plan.
    pub destinations: Vec<File>,
}

/// Whether the exec-level result `r` reports the outcome `o`.
pub open spec fn plan_matches(o: PlanOutcome, r: Result<SortPlan, SortError>) -> bool {
    match o {
        PlanOutcome::Done { olds, news } => match r {
            Result::Ok(p) => {
                &&& path_views(p.sources@) == olds
                &&& path_views(p.destinations@) == news
                &&& p.total_eligible == olds.len()
            },
            Result::Err(_) => false,
        },
        PlanOutcome::MetadataFail { path } => match r {
            Result::Err(SortError::MetadataUnavailable { path: q }) => q@ == path,
            _ => false,
        },
        PlanOutcome::KindFail { path } => match r {
            Result::Err(SortError::TimestampKindUnsupported { path: q }) => q@ == path,
            _ => false,
        },
        PlanOutcome::FormatFail { path } => match r {
            Result::Err(SortError::DateFormatInvalid { path: q }) => q@ == path,
            _ => false,
        },
    }
}

/// The paths of the eligible files among `entries`, in traversal order:
/// the non-directory entries with readable metadata that pass the
/// extension filter.
pub open spec fn eligible_sources(cfg: PlanConfig, entries: Seq<FsEntry>) -> Seq<Seq<char>>
    decreases entries.len(),
{
    if entries.len() == 0 {
        Seq::empty()
    } else {
        let e = entries[0];
        let rest = eligible_sources(cfg, entries.drop_first());
        if e.times is Some && !e.is_dir && eligible(file_name_of(e.path@), cfg.exclude, cfg.only) {
            seq![e.path@] + rest
        } else {
            rest
        }
    }
}

/// Pushing an unassigned destination keeps the assigned ones pairwise
/// distinct.
proof fn lemma_push_free_keeps_distinct(s: Seq<Seq<char>>, d: Seq<char>)
    requires
        s.no_duplicates(),
        !s.contains(d),
    ensures
        s.push(d).no_duplicates(),
{
    let all = s.push(d);
    assert forall|i: int, j: int|
        0 <= i < all.len() && 0 <= j < all.len() && i != j implies all[i] != all[j] by {
        if i < s.len() && j < s.len() {
            assert(all[i] == s[i]);
            assert(all[j] == s[j]);
        } else if j == s.len() {
            assert(all[i] == s[i]);
            if s[i] == d {
                assert(s.contains(d));
            }
        } else {
            assert(all[j] == s[j]);
            if s[j] == d {
                assert(s.contains(d));
            }
        }
    }
}

/// What a finished planning pass holds: as many destinations as sources,
/// pairwise-distinct destinations, and as sources exactly the accumulated
/// ones followed by the eligible files of `entries` in traversal order.
pub proof fn lemma_plan_rec_done(
    cfg: PlanConfig,
    entries: Seq<FsEntry>,
    stamps: Seq<Option<LocalStamp>>,
    olds: Seq<Seq<char>>,
    news: Seq<Seq<char>>,
)
    requires
        olds.len() == news.len(),
        news.no_duplicates(),
    ensures
        plan_rec(cfg, entries, stamps, olds, news) matches PlanOutcome::Done {
            olds: o,
            news: n,
        } ==> o.len() == n.len() && n.no_duplicates() && o == olds + eligible_sources(
            cfg,
            entries,
        ),
    decreases entries.len(),
{
    if entries.len() == 0 {
        assert(olds =~= olds + eligible_sources(cfg, entries));
    } else {
        let e = entries[0];
        let rest = entries.drop_first();
        match e.times {
            Option::None => {},
            Option::Some(t) => {
                if e.is_dir || !eligible(file_name_of(e.path@), cfg.exclude, cfg.only) {
                    lemma_plan_rec_done(cfg, rest, stamps, olds, news);
                } else {
                    match resolve_secs_spec(t, cfg.kind) {
                        Option::None => {},
                        Option::Some(secs) => match stamp_at(stamps, 0) {
                            Option::None => {},
                            Option::Some(st) => match stamp_rendered(st, cfg.date_format) {
                                Option::None => {},
                                Option::Some(rendered) => {
                                    let cand = candidate_of(
                                        cfg.target,
                                        st.year as int,
                                        st.month as int,
                                        rendered,
                                        file_name_of(e.path@),
                                        cfg.preserve_name,
                                    );
                                    let d = assign_dest(cand, news);
                                    lemma_assign_dest_free(cand, news);
                                    lemma_push_free_keeps_distinct(news, d);
                                    lemma_plan_rec_done(
                                        cfg,
                                        rest,
                                        stamps.drop_first(),
                                        olds.push(e.path@),
                                        news.push(d),
                                    );
                                    assert(olds.push(e.path@) + eligible_sources(cfg, rest)
                                        =~= olds + eligible_sources(cfg, entries));
                                },
                            },
                        },
                    }
                }
            },
        }
    }
}

/// The candidate destinations of the eligible files among `entries`, in
/// traversal order, before any collision resolution: what the destination
/// path builder computes from each file's stamp and the configuration.
/// Where the pass fails nothing further is computed.
pub open spec fn plan_candidates(
    cfg: PlanConfig,
    entries: Seq<FsEntry>,
    stamps: Seq<Option<LocalStamp>>,
) -> Seq<Seq<char>>
    decreases entries.len(),
{
    if entries.len() == 0 {
        Seq::empty()
    } else {
        let e = entries[0];
        match e.times {
            Option::None => Seq::empty(),
            Option::Some(t) => {
                if e.is_dir || !eligible(file_name_of(e.path@), cfg.exclude, cfg.only) {
                    plan_candidates(cfg, entries.drop_first(), stamps)
                } else {
                    match resolve_secs_spec(t, cfg.kind) {
                        Option::None => Seq::empty(),
                        Option::Some(secs) => match stamp_at(stamps, 0) {
                            Option::None => Seq::empty(),
                            Option::Some(st) => match stamp_rendered(st, cfg.date_format) {
                                Option::None => Seq::empty(),
                                Option::Some(rendered) => seq![
                                    candidate_of(
                                        cfg.target,
                                        st.year as int,
                                        st.month as int,
                                        rendered,
                                        file_name_of(e.path@),
                                        cfg.preserve_name,
                                    ),
                                ] + plan_candidates(cfg, entries.drop_first(), stamps.drop_first()),
                            },
                        },
                    }
                }
            },
        }
    }
}

/// A finished pass resolves exactly its candidate destinations, front to
/// back, on top of the accumulated ones: the planner runs the collision
/// resolver's fold.
pub proof fn lemma_plan_rec_news(
    cfg: PlanConfig,
    entries: Seq<FsEntry>,
    stamps: Seq<Option<LocalStamp>>,
    olds: Seq<Seq<char>>,
    news: Seq<Seq<char>>,
)
    ensures
        plan_rec(cfg, entries, stamps, olds, news) matches PlanOutcome::Done {
            olds: o,
            news: n,
        } ==> n == assign_onto(news, plan_candidates(cfg, entries, stamps)),
    decreases entries.len(),
{
    if entries.len() > 0 {
        let e = entries[0];
        let rest = entries.drop_first();
        match e.times {
            Option::None => {},
            Option::Some(t) => {
                if e.is_dir || !eligible(file_name_of(e.path@), cfg.exclude, cfg.only) {
                    lemma_plan_rec_news(cfg, rest, stamps, olds, news);
                } else {
                    match resolve_secs_spec(t, cfg.kind) {
                        Option::None => {},
                        Option::Some(secs) => match stamp_at(stamps, 0) {
                            Option::None => {},
                            Option::Some(st) => match stamp_rendered(st, cfg.date_format) {
                                Option::None => {},
                                Option::Some(rendered) => {
                                    let cand = candidate_of(
                                        cfg.target,
                                        st.year as int,
                                        st.month as int,
                                        rendered,
                                        file_name_of(e.path@),
                                        cfg.preserve_name,
                                    );
                                    let tail = plan_candidates(cfg, rest, stamps.drop_first());
                                    let cands = plan_candidates(cfg, entries, stamps);
                                    assert(cands == seq![cand] + tail);
                                    assert(cands[0] == cand);
                                    assert(cands.drop_first() =~= tail);
                                    lemma_plan_rec_news(
                                        cfg,
                                        rest,
                                        stamps.drop_first(),
                                        olds.push(e.path@),
                                        news.push(assign_dest(cand, news)),
                                    );
                                },
                            },
                        },
                    }
                }
            },
        }
    }
}

/// Files with pairwise distinct candidate destinations all keep them: a
/// finished plan renames nothing beyond what the destination path builder
/// computed, so its destination set is exactly its candidate set.
pub proof fn lemma_plan_keeps_distinct_candidates(
    cfg: PlanConfig,
    entries: Seq<FsEntry>,
    stamps: Seq<Option<LocalStamp>>,
    r: Result<SortPlan, SortError>,
)
    requires
        plan_matches(plan_rec(cfg, entries, stamps, Seq::empty(), Seq::empty()), r),
        plan_candidates(cfg, entries, stamps).no_duplicates(),
    ensures
        r matches Result::Ok(p) ==> path_views(p.destinations@) == plan_candidates(
            cfg,
            entries,
            stamps,
        ),
{
    lemma_plan_rec_news(cfg, entries, stamps, Seq::empty(), Seq::empty());
    lemma_assign_all_is_onto(plan_candidates(cfg, entries, stamps));
    lemma_distinct_candidates_kept(plan_candidates(cfg, entries, stamps));
}

/// When every eligible file's candidate destination is one and the same,
/// the finished plan numbers them in traversal order: the first keeps the
/// unsuffixed name, the file at position `i` gets the suffix `i + 1`.
pub proof fn lemma_plan_numbers_colliding_candidates(
    cfg: PlanConfig,
    entries: Seq<FsEntry>,
    stamps: Seq<Option<LocalStamp>>,
    r: Result<SortPlan, SortError>,
)
    requires
        plan_matches(plan_rec(cfg, entries, stamps, Seq::empty(), Seq::empty()), r),
        plan_candidates(cfg, entries, stamps).len() > 0,
        forall|i: int|
            0 <= i < plan_candidates(cfg, entries, stamps).len() ==> #[trigger] plan_candidates(
                cfg,
                entries,
                stamps,
            )[i] == plan_candidates(cfg, entries, stamps)[0],
    ensures
        r matches Result::Ok(p) ==> {
            let cands = plan_candidates(cfg, entries, stamps);
            let news = path_views(p.destinations@);
            &&& news.len() == cands.len()
            &&& news[0] == cands[0]
            &&& forall|i: int|
                1 <= i < cands.len() ==> news[i] == variant_of(cands[0], (i + 1) as nat)
        },
{
    lemma_plan_rec_news(cfg, entries, stamps, Seq::empty(), Seq::empty());
    lemma_assign_all_is_onto(plan_candidates(cfg, entries, stamps));
    lemma_colliding_candidates_numbered(plan_candidates(cfg, entries, stamps));
}

/// The general collision law at the plan level: in a finished plan whose
/// other candidates (with all their numeric variants) stay out of `d`'s
/// namespace, the files whose candidate is `d` are numbered in traversal
/// order — the first keeps `d` itself, the one with `m` such files before
/// it gets the suffix `m + 1` — and no other file's destination falls into
/// `d`'s namespace.  With `N` files colliding on `d` this is exactly the
/// numbering `d`, `d_2`, ..., `d_N` in traversal order, all pairwise
/// distinct.
pub proof fn lemma_plan_numbers_colliding_files(
    cfg: PlanConfig,
    entries: Seq<FsEntry>,
    stamps: Seq<Option<LocalStamp>>,
    r: Result<SortPlan, SortError>,
    d: Seq<char>,
)
    requires
        plan_matches(plan_rec(cfg, entries, stamps, Seq::empty(), Seq::empty()), r),
        forall|i: int|
            0 <= i < plan_candidates(cfg, entries, stamps).len() && #[trigger] plan_candidates(
                cfg,
                entries,
                stamps,
            )[i] != d ==> separated(plan_candidates(cfg, entries, stamps)[i], d),
    ensures
        r matches Result::Ok(p) ==> {
            let cands = plan_candidates(cfg, entries, stamps);
            let news = path_views(p.destinations@);
            &&& news.len() == cands.len()
            &&& forall|i: int|
                0 <= i < cands.len() && #[trigger] cands[i] == d ==> news[i] == (
                if hits_before(cands, d, i) == 0 {
                    d
                } else {
                    variant_of(d, (hits_before(cands, d, i) + 1) as nat)
                })
            &&& forall|i: int|
                0 <= i < cands.len() && #[trigger] cands[i] != d ==> news[i] != d && (forall|
                    k: nat,
                |
                    k >= 2 ==> news[i] != variant_of(d, k))
        },
{
    lemma_plan_rec_news(cfg, entries, stamps, Seq::empty(), Seq::empty());
    lemma_assign_all_is_onto(plan_candidates(cfg, entries, stamps));
    lemma_colliding_files_numbered(plan_candidates(cfg, entries, stamps), d);
}

/// A finished plan merges nothing: its destinations are pairwise distinct,
/// so the set of planned destinations is as large as the list of planned
/// sources, and the sources are exactly the eligible files in traversal
/// order.
pub proof fn lemma_plan_destinations_unique(
    cfg: PlanConfig,
    entries: Seq<FsEntry>,
    stamps: Seq<Option<LocalStamp>>,
    r: Result<SortPlan, SortError>,
)
    requires
        plan_matches(plan_rec(cfg, entries, stamps, Seq::empty(), Seq::empty()), r),
    ensures
        r matches Result::Ok(p) ==> {
            &&& path_views(p.destinations@).no_duplicates()
            &&& path_views(p.sources@) == eligible_sources(cfg, entries)
            &&& p.sources@.len() == p.destinations@.len()
            &&& path_views(p.destinations@).to_set().len() == p.sources@.len()
        },
{
    lemma_plan_rec_done(cfg, entries, stamps, Seq::empty(), Seq::empty());
    match plan_rec(cfg, entries, stamps, Seq::empty(), Seq::empty()) {
        PlanOutcome::Done { olds, news } => {
            assert(Seq::<Seq<char>>::empty() + eligible_sources(cfg, entries)
                =~= eligible_sources(cfg, entries));
            news.unique_seq_to_set();
        },
        _ => {},
    }
}

/// Planning is a function of the tree description, the configuration and
/// the stamps: two plans built from identical inputs hold identical
/// sources, destinations and counts.  In particular a dry run, which
/// mutates nothing, is followed by an identical plan on the unchanged tree.
pub proof fn lemma_replan_identical(
    cfg: PlanConfig,
    entries: Seq<FsEntry>,
    stamps: Seq<Option<LocalStamp>>,
    r1: Result<SortPlan, SortError>,
    r2: Result<SortPlan, SortError>,
)
    requires
        plan_matches(plan_rec(cfg, entries, stamps, Seq::empty(), Seq::empty()), r1),
        plan_matches(plan_rec(cfg, entries, stamps, Seq::empty(), Seq::empty()), r2),
    ensures
        r1 matches Result::Ok(p1) ==> (r2 matches Result::Ok(p2) && path_views(p1.sources@)
            == path_views(p2.sources@) && path_views(p1.destinations@) == path_views(
            p2.destinations@,
        ) && p1.total_eligible == p2.total_eligible),
{
}

impl Sorter {
    /// The sorting plan for the visited `entries`, whose eligible files'
    /// timestamps convert to the local calendar fields in `stamps`, one
    /// stamp per eligible file in traversal order (`None` where the
    /// conversion failed).
    pub fn plan_with_stamps(&self, entries: &Vec<FsEntry>, stamps: &Vec<Option<LocalStamp>>) -> (r:
        Result<SortPlan, SortError>)
        ensures
            plan_matches(
                plan_rec(self@, entries@, stamps@, Seq::empty(), Seq::empty()),
                r,
            ),
            r matches Result::Ok(p) ==> crate::executor::plan_wf(&p),
    {
        proof {
            lemma_plan_rec_done(self@, entries@, stamps@, Seq::empty(), Seq::empty());
        }
        let kind = parse_date_kind(self.date_type.as_str());
        let n = entries.len();
        let mut sources: Vec<File> = Vec::new();
        let mut destinations: Vec<File> = Vec::new();
        let mut i: usize = 0;
        let mut j: usize = 0;
        proof {
            assert(entries@.skip(0) =~= entries@);
            assert(stamps@.skip(0) =~= stamps@);
            assert(path_views(sources@) =~= Seq::<Seq<char>>::empty());
            assert(path_views(destinations@) =~= Seq::<Seq<char>>::empty());
        }
        while i < n
            invariant
                i <= n,
                n == entries@.len(),
                j <= stamps@.len(),
                kind == self@.kind,
                plan_rec(self@, entries@, stamps@, Seq::empty(), Seq::empty()) == plan_rec(
                    self@,
                    entries@.skip(i as int),
                    stamps@.skip(j as int),
                    path_views(sources@),
                    path_views(destinations@),
                ),
            decreases n - i,
        {
            proof {
                assert(entries@.skip(i as int)[0] == entries@[i as int]);
                assert(entries@.skip(i as int).drop_first() =~= entries@.skip(i as int + 1));
                assert(entries@.skip(i as int).len() > 0);
            }
            let e = &entries[i];
            match &e.times {
                Option::None => {
                    return Result::Err(
                        SortError::MetadataUnavailable { path: e.path.to_string() },
                    );
                },
                Option::Some(t) => {
                    if e.is_dir || !self.is_sortable(&e.path) {
                        i = i + 1;
                    } else {
                        match resolve_secs(t, kind) {
                            Option::None => {
                                return Result::Err(
                                    SortError::TimestampKindUnsupported {
                                        path: e.path.to_string(),
                                    },
                                );
                            },
                            Option::Some(_secs) => {
                                let st_opt: Option<LocalStamp> = if j < stamps.len() {
                                    stamps[j]
                                } else {
                                    Option::None
                                };
                                proof {
                                    assert(stamp_at(stamps@.skip(j as int), 0) == st_opt);
                                }
                                match st_opt {
                                    Option::None => {
                                        return Result::Err(
                                            SortError::TimestampKindUnsupported {
                                                path: e.path.to_string(),
                                            },
                                        );
                                    },
                                    Option::Some(st) => {
                                        match self.get_new_date_path(&e.path, &st) {
                                            Result::Err(err) => {
                                                return Result::Err(err);
                                            },
                                            Result::Ok(cand) => {
                                                let source = e.path.copy();
                                                let dest = resolve_destination(
                                                    cand,
                                                    &destinations,
                                                );
                                                proof {
                                                    assert(stamps@.skip(j as int).drop_first()
                                                        =~= stamps@.skip(j as int + 1));
                                                }
                                                let ghost old_sources = sources@;
                                                let ghost old_dests = destinations@;
                                                sources.push(source);
                                                destinations.push(dest);
                                                proof {
                                                    assert(path_views(sources@) =~= path_views(
                                                        old_sources,
                                                    ).push(entries@[i as int].path@));
                                                    assert(path_views(destinations@)
                                                        =~= path_views(old_dests).push(dest@));
                                                }
                                                i = i + 1;
                                                j = j + 1;
                                            },
                                        }
                                    },
                                }
                            },
                        }
                    }
                },
            }
        }
        proof {
            assert(entries@.skip(n as int) =~= Seq::<FsEntry>::empty());
        }
        let total = sources.len();
        Result::Ok(SortPlan { total_eligible: total, sources, destinations })
    }

    /// The sorting plan for the visited `entries`: the plan that
    /// [`Sorter::plan_with_stamps`] builds from some sequence of well-formed
    /// local stamps — which one depends on the machine's time zone.
    pub fn plan(&self, entries: &Vec<FsEntry>) -> (r: Result<SortPlan, SortError>)
        ensures
            exists|stamps: Seq<Option<LocalStamp>>|
                #[trigger] plan_matches(
                    plan_rec(self@, entries@, stamps, Seq::empty(), Seq::empty()),
                    r,
                ) && (forall|k: int|
                    0 <= k < stamps.len() ==> (#[trigger] stamps[k] matches Option::Some(t)
                        ==> stamp_wf(t))),
            r matches Result::Ok(p) ==> crate::executor::plan_wf(&p),
    {
        let kind = parse_date_kind(self.date_type.as_str());
        let n = entries.len();
        let mut stamps: Vec<Option<LocalStamp>> = Vec::new();
        let mut i: usize = 0;
        while i < n
            invariant
                i <= n,
                n == entries@.len(),
                forall|k: int|
                    0 <= k < stamps@.len() ==> (#[trigger] stamps@[k] matches Option::Some(t)
                        ==> stamp_wf(t)),
            decreases n - i,
        {
            let e = &entries[i];
            match &e.times {
                Option::None => {},
                Option::Some(t) => {
                    if !e.is_dir && self.is_sortable(&e.path) {
                        match resolve_secs(t, kind) {
                            Option::Some(secs) => {
                                stamps.push(local_stamp_of(secs));
                            },
                            Option::None => {
                                stamps.push(Option::None);
                            },
                        }
                    }
                },
            }
            i = i + 1;
        }
        let r = self.plan_with_stamps(entries, &stamps);
        proof {
            let ghost w = stamps@;
            assert(plan_matches(plan_rec(self@, entries@, w, Seq::empty(), Seq::empty()), r));
        }
        r
    }
}

} // verus!
