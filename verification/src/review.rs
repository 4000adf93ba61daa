//! The review window's rules: where a recording's labels live, which bytes
//! of the source video answer a player's range request, and what each
//! request from the review page does to the label set.
//!
//! The page is re-rendered from what the label set holds after every change,
//! and every change is written to the label file first, so the window can
//! never drift from what is on disk.
use crate::event::{from_wire_spec, Kind};
use crate::labels::{hand_mark, rulings_of, sort_by_time_spec, tally_spec, Label, LabelSet};
use crate::paths::{path_with_extension, with_extension};
use crate::text::{
    decimal, has_prefix, has_prefix_spec, is_digit, lemma_decimal_digits, parse_u64,
    parse_u64_spec, str_eq, trim, trim_end_index, trim_spec, trim_start_index,
};
use vstd::prelude::*;
use vstd::string::{StrSliceExecFns, StringExecFns};

verus! {

/// The label file beside a video: the video's path with its extension
/// replaced by `labels.json`.
pub fn label_path_for(video: &str) -> (p: String)
    ensures
        p@ == path_with_extension(video@, "labels.json"@),
{
    proof {
        reveal_strlit("labels.json");
    }
    with_extension(video, "labels.json")
}

/// Bytes served per range request: big enough that seeking isn't chatty,
/// small enough that a large recording never lands in memory.
pub const CHUNK: u64 = 4194304;

/// How a range request for the source video is answered.
#[derive(Debug, Clone, Copy, PartialEq, Eq, Structural)]
pub enum RangeReply {
    /// 404: there is nothing to serve.
    NotFound,
    /// 416: the requested start lies past the end of the file.
    NotSatisfiable,
    /// 206: the inclusive byte range `start..=end`.
    Partial { start: u64, end: u64 },
}

/// The first `-` at or after `i`.
pub open spec fn first_dash_from(s: Seq<char>, i: int) -> Option<int>
    decreases s.len() - i,
{
    if i < 0 || i >= s.len() {
        None
    } else if s[i] == '-' {
        Some(i)
    } else {
        first_dash_from(s, i + 1)
    }
}

/// `spec.splitn(2, '-')`: the text before the first dash, and the text after
/// it when there is a dash.
pub open spec fn split_at_dash(spec: Seq<char>) -> (Seq<char>, Option<Seq<char>>) {
    match first_dash_from(spec, 0) {
        Some(k) => (spec.subrange(0, k), Some(spec.subrange(k + 1, spec.len() as int))),
        None => (spec, None),
    }
}

/// The default end of a range that names only its start: one chunk on,
/// wrapping as release-built integer arithmetic does.
pub open spec fn default_end(start: u64) -> u64 {
    ((start as nat + (CHUNK - 1) as nat) % 0x1_0000_0000_0000_0000nat) as u64
}

/// The (start, end) a `Range` header asks for, before clamping to a chunk:
/// `bytes=START-[END]` with unparsable numbers read as 0 (start) or one chunk
/// on (end); an absent or non-`bytes=` header asks for the first chunk.
pub open spec fn requested_range(total: u64, header: Option<Seq<char>>) -> (u64, u64) {
    let last = (total - 1) as u64;
    match header {
        Some(h) => if has_prefix_spec(h, "bytes="@) {
            let spec = h.subrange(6, h.len() as int);
            let (a, b) = split_at_dash(spec);
            let s = match parse_u64_spec(trim_spec(a)) {
                Some(v) => v,
                None => 0,
            };
            let e = match b {
                Some(bt) => match parse_u64_spec(trim_spec(bt)) {
                    Some(v) => v,
                    None => default_end(s),
                },
                None => default_end(s),
            };
            (s, if e < last {
                e
            } else {
                last
            })
        } else {
            (0, if CHUNK - 1 < last {
                (CHUNK - 1) as u64
            } else {
                last
            })
        },
        None => (0, if CHUNK - 1 < last {
            (CHUNK - 1) as u64
        } else {
            last
        }),
    }
}

pub open spec fn min_u64(a: u64, b: u64) -> u64 {
    if a < b {
        a
    } else {
        b
    }
}

/// The reply to a range request against a file of `total` bytes.
pub open spec fn range_reply_spec(total: u64, header: Option<Seq<char>>) -> RangeReply {
    if total == 0 {
        RangeReply::NotFound
    } else {
        let (s, e) = requested_range(total, header);
        if s >= total {
            RangeReply::NotSatisfiable
        } else {
            let e1 = if e > s {
                e
            } else {
                s
            };
            RangeReply::Partial {
                start: s,
                end: min_u64(min_u64(e1, (s + CHUNK - 1) as u64), (total - 1) as u64),
            }
        }
    }
}

pub open spec fn opt_str_view(h: Option<&str>) -> Option<Seq<char>> {
    match h {
        Some(s) => Some(s@),
        None => None,
    }
}

fn first_dash(s: &str) -> (k: Option<usize>)
    ensures
        first_dash_from(s@, 0) == match k {
            Some(i) => Some(i as int),
            None => None::<int>,
        },
        k matches Some(i) ==> i < s@.len(),
{
    let n = s.unicode_len();
    let mut i: usize = 0;
    while i < n && s.get_char(i) != '-'
        invariant
            n == s@.len(),
            0 <= i <= n,
            first_dash_from(s@, 0) == first_dash_from(s@, i as int),
        decreases n - i,
    {
        i = i + 1;
    }
    if i < n {
        Some(i)
    } else {
        None
    }
}

/// Decide how to answer a range request for a file of `total` bytes; reading
/// the bytes is the caller's job.
pub fn plan_range(total: u64, range: Option<&str>) -> (r: RangeReply)
    requires
        total <= u64::MAX - CHUNK,
    ensures
        r == range_reply_spec(total, opt_str_view(range)),
{
    if total == 0 {
        return RangeReply::NotFound;
    }
    let last = total - 1;
    let (start, end): (u64, u64) = match range {
        Some(h) => {
            proof {
                reveal_strlit("bytes=");
            }
            if has_prefix(h, "bytes=") {
                let n = h.unicode_len();
                let spec = h.substring_char(6, n);
                let dash = first_dash(spec);
                let m = spec.unicode_len();
                let cut = match dash {
                    Some(k) => k,
                    None => m,
                };
                let a = spec.substring_char(0, cut);
                let b: Option<&str> = if dash.is_some() {
                    Some(spec.substring_char(cut + 1, m))
                } else {
                    None
                };
                proof {
                    assert("bytes="@.len() == 6);
                    assert(spec@ =~= h@.subrange(6, h@.len() as int));
                    if dash is None {
                        assert(spec@.subrange(0, m as int) =~= spec@);
                        assert(first_dash_from(spec@, 0) is None);
                        assert(a@ == spec@);
                    } else {
                        assert(first_dash_from(spec@, 0) == Some(cut as int));
                        assert(a@ == spec@.subrange(0, cut as int));
                    }
                    assert(a@ == split_at_dash(spec@).0);
                    assert(opt_str_view(b) == split_at_dash(spec@).1);
                }
                let s = match parse_u64(trim(a)) {
                    Some(v) => v,
                    None => 0,
                };
                let w = s.wrapping_add(CHUNK - 1);
                proof {
                    let big = 0x1_0000_0000_0000_0000nat;
                    if s as nat + (CHUNK - 1) as nat >= big {
                        vstd::arithmetic::div_mod::lemma_fundamental_div_mod(
                            (s as nat + (CHUNK - 1) as nat) as int,
                            big as int,
                        );
                    }
                    assert(w == default_end(s));
                }
                let e = match b {
                    Some(bt) => match parse_u64(trim(bt)) {
                        Some(v) => v,
                        None => w,
                    },
                    None => w,
                };
                (s, if e < last {
                    e
                } else {
                    last
                })
            } else {
                (0, if CHUNK - 1 < last {
                    CHUNK - 1
                } else {
                    last
                })
            }
        },
        None => (0, if CHUNK - 1 < last {
            CHUNK - 1
        } else {
            last
        }),
    };
    assert((start, end) == requested_range(total, opt_str_view(range)));
    if start >= total {
        return RangeReply::NotSatisfiable;
    }
    let e1 = if end > start {
        end
    } else {
        start
    };
    let chunk_end = start + (CHUNK - 1);
    let e2 = if e1 < chunk_end {
        e1
    } else {
        chunk_end
    };
    let e3 = if e2 < last {
        e2
    } else {
        last
    };
    RangeReply::Partial { start, end: e3 }
}

/// A request from the review page. Times are microseconds into the video;
/// scores travel in the caller's type.
pub enum ReviewRequest {
    /// The page finished loading and wants the labels.
    Load,
    /// A ruling on the label at `index`.
    Verdict { index: usize, ok: bool },
    /// A hand mark of the kind with wire name `kind`, at `at`.
    Mark { kind: String, at: i64 },
    /// Cut every confirmed event into one highlights clip.
    Export,
    /// The training panel wants the dataset, Python and model status.
    TrainingStatus,
    /// Add this recording's confirmed events to the dataset in `dir`
    /// (empty: the default dataset), recording the game build `build`
    /// (empty: leave it as it is).
    ExportDataset { dir: String, build: String },
    InstallDependencies,
    /// Train on the dataset in `dir` (empty: the default) for build `build`.
    TrainModel { dir: String, build: String },
    CancelTraining,
    /// A command the page is not expected to send.
    Unknown { cmd: String },
}

/// What the window does after a request has been applied to the label set.
#[derive(Debug, PartialEq, Eq)]
pub enum ReviewAction {
    /// Send the page the labels (first render).
    SendReviewData,
    /// The labels changed: write the label file, then re-render the page.
    SaveAndRefresh,
    /// Nothing to do (a ruling on a label that does not exist).
    Nothing,
    /// A hand mark of an unknown kind was refused, not stored as a guess.
    RefuseMark { kind: String },
    /// Build the highlights clip from the confirmed events.
    ExportClips,
    SendTrainingStatus,
    /// Nothing on this recording is confirmed, so there is nothing to add
    /// to the dataset; `save_first`: the recorded build changed and the
    /// label file is to be written first.
    NothingConfirmed { save_first: bool },
    /// Export the confirmed frames to `dir` (`None`: the default dataset).
    ExportDataset { dir: Option<String>, save_first: bool },
    InstallDependencies,
    /// Train on `dir` (`None`: the default dataset) for `build`.
    TrainModel { dir: Option<String>, build: String },
    CancelTraining,
    /// Log and otherwise ignore.
    UnknownCommand { cmd: String },
}

/// An optional directory: empty means "use the default".
pub open spec fn dir_choice(dir: String) -> Option<String> {
    if dir@.len() == 0 {
        None
    } else {
        Some(dir)
    }
}

/// Whether a dataset export records a new game build on the label set.
pub open spec fn build_changes(current: Seq<char>, build: Seq<char>) -> bool {
    build.len() > 0 && current != build
}

impl ReviewRequest {
    /// The request a page message names by its `cmd`, with the message's
    /// other fields.
    pub fn from_message(
        cmd: &str,
        index: usize,
        ok: bool,
        kind: String,
        at: i64,
        dir: String,
        build: String,
    ) -> (r: ReviewRequest)
        ensures
            cmd@ == "load"@ ==> r is Load,
            cmd@ == "verdict"@ ==> r == (ReviewRequest::Verdict { index, ok }),
            cmd@ == "mark"@ ==> r == (ReviewRequest::Mark { kind, at }),
            cmd@ == "export"@ ==> r is Export,
            cmd@ == "trainingStatus"@ ==> r is TrainingStatus,
            cmd@ == "exportDataset"@ ==> r == (ReviewRequest::ExportDataset { dir, build }),
            cmd@ == "installDeps"@ ==> r is InstallDependencies,
            cmd@ == "trainModel"@ ==> r == (ReviewRequest::TrainModel { dir, build }),
            cmd@ == "cancelTraining"@ ==> r is CancelTraining,
            r is Unknown ==> r->cmd@ == cmd@,
            (r is Unknown) == !(cmd@ == "load"@ || cmd@ == "verdict"@ || cmd@ == "mark"@ || cmd@
                == "export"@ || cmd@ == "trainingStatus"@ || cmd@ == "exportDataset"@ || cmd@
                == "installDeps"@ || cmd@ == "trainModel"@ || cmd@ == "cancelTraining"@),
    {
        proof {
            reveal_strlit("load");
            reveal_strlit("verdict");
            reveal_strlit("mark");
            reveal_strlit("export");
            reveal_strlit("trainingStatus");
            reveal_strlit("exportDataset");
            reveal_strlit("installDeps");
            reveal_strlit("trainModel");
            reveal_strlit("cancelTraining");
            assert("load"@.len() == 4 && "mark"@.len() == 4 && "load"@[0] != "mark"@[0]);
            assert("verdict"@.len() == 7 && "export"@.len() == 6);
            assert("trainingStatus"@.len() == 14 && "cancelTraining"@.len() == 14);
            assert("trainingStatus"@[0] != "cancelTraining"@[0]);
            assert("exportDataset"@.len() == 13 && "installDeps"@.len() == 11);
            assert("trainModel"@.len() == 10);
        }
        if str_eq(cmd, "load") {
            ReviewRequest::Load
        } else if str_eq(cmd, "verdict") {
            ReviewRequest::Verdict { index, ok }
        } else if str_eq(cmd, "mark") {
            ReviewRequest::Mark { kind, at }
        } else if str_eq(cmd, "export") {
            ReviewRequest::Export
        } else if str_eq(cmd, "trainingStatus") {
            ReviewRequest::TrainingStatus
        } else if str_eq(cmd, "exportDataset") {
            ReviewRequest::ExportDataset { dir, build }
        } else if str_eq(cmd, "installDeps") {
            ReviewRequest::InstallDependencies
        } else if str_eq(cmd, "trainModel") {
            ReviewRequest::TrainModel { dir, build }
        } else if str_eq(cmd, "cancelTraining") {
            ReviewRequest::CancelTraining
        } else {
            ReviewRequest::Unknown { cmd: cmd.to_string() }
        }
    }
}

fn dir_or_default(dir: String) -> (d: Option<String>)
    ensures
        d == dir_choice(dir),
{
    if dir.unicode_len() == 0 {
        None
    } else {
        Some(dir)
    }
}

/// Applies one request from the review page to the label set and says what
/// the window does next. A hand mark carries `full_score` (full confidence)
/// and must name a kind by its wire name: an unknown kind is refused rather
/// than stored as a guess.
pub fn handle_request<T: Copy>(set: &mut LabelSet<T>, req: ReviewRequest, full_score: T) -> (act:
    ReviewAction)
    ensures
        final(set).video == old(set).video,
        match req {
            ReviewRequest::Verdict { index, ok } => if index < old(set).labels@.len() {
                &&& final(set).labels@ == old(set).labels@.update(
                    index as int,
                    Label { confirmed: Some(ok), ..old(set).labels@[index as int] },
                )
                &&& final(set).game_build == old(set).game_build
                &&& act == ReviewAction::SaveAndRefresh
            } else {
                &&& final(set).labels@ == old(set).labels@
                &&& final(set).game_build == old(set).game_build
                &&& act == ReviewAction::Nothing
            },
            ReviewRequest::Mark { kind, at } => match from_wire_spec(kind@) {
                Some(k) => {
                    &&& final(set).labels@ == sort_by_time_spec(
                        old(set).labels@.push(hand_mark(k, at, full_score)),
                    )
                    &&& final(set).game_build == old(set).game_build
                    &&& act == ReviewAction::SaveAndRefresh
                },
                None => {
                    &&& final(set).labels@ == old(set).labels@
                    &&& final(set).game_build == old(set).game_build
                    &&& act == ReviewAction::RefuseMark { kind }
                },
            },
            ReviewRequest::ExportDataset { dir, build } => {
                let changed = build_changes(old(set).game_build@, build@);
                &&& final(set).labels@ == old(set).labels@
                &&& final(set).game_build@ == (if changed {
                    build@
                } else {
                    old(set).game_build@
                })
                &&& act == (if tally_spec(rulings_of(old(set).labels@)).0 == 0 {
                    ReviewAction::NothingConfirmed { save_first: changed }
                } else {
                    ReviewAction::ExportDataset { dir: dir_choice(dir), save_first: changed }
                })
            },
            _ => {
                &&& final(set).labels@ == old(set).labels@
                &&& final(set).game_build == old(set).game_build
                &&& act == match req {
                    ReviewRequest::Load => ReviewAction::SendReviewData,
                    ReviewRequest::Export => ReviewAction::ExportClips,
                    ReviewRequest::TrainingStatus => ReviewAction::SendTrainingStatus,
                    ReviewRequest::InstallDependencies => ReviewAction::InstallDependencies,
                    ReviewRequest::TrainModel { dir, build } => ReviewAction::TrainModel {
                        dir: dir_choice(dir),
                        build,
                    },
                    ReviewRequest::CancelTraining => ReviewAction::CancelTraining,
                    ReviewRequest::Unknown { cmd } => ReviewAction::UnknownCommand { cmd },
                    _ => ReviewAction::Nothing,
                }
            },
        },
{
    match req {
        ReviewRequest::Load => ReviewAction::SendReviewData,
        ReviewRequest::Verdict { index, ok } => {
            if index < set.labels.len() {
                let l = set.labels[index];
                set.labels.set(
                    index,
                    Label {
                        kind: l.kind,
                        at: l.at,
                        origin: l.origin,
                        confirmed: Some(ok),
                        score: l.score,
                    },
                );
                ReviewAction::SaveAndRefresh
            } else {
                ReviewAction::Nothing
            }
        },
        ReviewRequest::Mark { kind, at } => match Kind::from_wire(kind.as_str()) {
            Some(k) => {
                set.mark(k, at, full_score);
                ReviewAction::SaveAndRefresh
            },
            None => ReviewAction::RefuseMark { kind },
        },
        ReviewRequest::Export => ReviewAction::ExportClips,
        ReviewRequest::TrainingStatus => ReviewAction::SendTrainingStatus,
        ReviewRequest::ExportDataset { dir, build } => {
            let changed = build.unicode_len() > 0 && !str_eq(set.game_build.as_str(), build.as_str());
            if changed {
                set.game_build = build;
            }
            let (confirmed, _, _) = set.tally();
            if confirmed == 0 {
                ReviewAction::NothingConfirmed { save_first: changed }
            } else {
                ReviewAction::ExportDataset { dir: dir_or_default(dir), save_first: changed }
            }
        },
        ReviewRequest::InstallDependencies => ReviewAction::InstallDependencies,
        ReviewRequest::TrainModel { dir, build } => ReviewAction::TrainModel {
            dir: dir_or_default(dir),
            build,
        },
        ReviewRequest::CancelTraining => ReviewAction::CancelTraining,
        ReviewRequest::Unknown { cmd } => ReviewAction::UnknownCommand { cmd },
    }
}

/// The highlights clip cut from a recording: beside it, named after it with
/// `_highlights.mp4` in place of its extension.
pub fn highlights_path(video: &str) -> (p: String)
    ensures
        p@ == path_with_extension(video@, ""@) + "_highlights.mp4"@,
{
    proof {
        reveal_strlit("");
    }
    let mut p = with_extension(video, "");
    p.append("_highlights.mp4");
    p
}

/// A served range is never empty, never reaches past the file, and is at
/// most one chunk long.
pub proof fn law_served_range_is_bounded(total: u64, header: Option<Seq<char>>)
    requires
        total <= u64::MAX - CHUNK,
    ensures
        range_reply_spec(total, header) matches RangeReply::Partial { start, end } ==> {
            &&& start <= end < total
            &&& end - start + 1 <= CHUNK
        },
        total > 0 && header is None ==> range_reply_spec(total, header) == (RangeReply::Partial {
            start: 0,
            end: min_u64((CHUNK - 1) as u64, (total - 1) as u64),
        }),
{
}


/// The `Range` header `bytes=START-END` with both numbers in decimal, or
/// `bytes=START-` when no end is given.
pub open spec fn range_header(start: u64, end: Option<u64>) -> Seq<char> {
    "bytes="@ + decimal(start as nat) + "-"@ + match end {
        Some(e) => decimal(e as nat),
        None => Seq::<char>::empty(),
    }
}

/// A decimal number is its own trim and reads back as itself.
proof fn lemma_decimal_reads_back(n: u64)
    ensures
        trim_spec(decimal(n as nat)) == decimal(n as nat),
        parse_u64_spec(decimal(n as nat)) == Some(n),
        forall|i: int| 0 <= i < decimal(n as nat).len() ==> #[trigger] decimal(n as nat)[i] != '-',
{
    let d = decimal(n as nat);
    lemma_decimal_digits(n as nat);
    assert(is_digit(d[0]));
    assert(is_digit(d[d.len() - 1]));
    assert(trim_start_index(d, 0) == 0);
    assert(trim_end_index(d, 0, d.len() as int) == d.len());
    assert(d.subrange(0, d.len() as int) =~= d);
    assert forall|i: int| 0 <= i < d.len() implies #[trigger] d[i] != '-' by {
        assert(is_digit(d[i]));
    }
}

proof fn lemma_first_dash_at(s: Seq<char>, i: int, k: int)
    requires
        0 <= i <= k < s.len(),
        s[k] == '-',
        forall|j: int| i <= j < k ==> s[j] != '-',
    ensures
        first_dash_from(s, i) == Some(k),
    decreases k - i,
{
    if i < k {
        lemma_first_dash_at(s, i + 1, k);
    }
}

/// For every header `bytes=S-E` or `bytes=S-` with decimal numbers, against
/// a file of `total` bytes: a start past the end is not satisfiable;
/// otherwise the reply serves from `S` to the smallest of the asked end (at
/// least `S`; one chunk on when none is given), the end of the chunk from
/// `S`, and the last byte of the file.
pub proof fn law_range_reply_for_decimal_headers(total: u64, start: u64, end: Option<u64>)
    requires
        0 < total <= u64::MAX - CHUNK,
    ensures
        range_reply_spec(total, Some(range_header(start, end))) == if start >= total {
            RangeReply::NotSatisfiable
        } else {
            let asked = match end {
                Some(e) => e,
                None => (start + CHUNK - 1) as u64,
            };
            RangeReply::Partial {
                start,
                end: min_u64(
                    min_u64(
                        if asked > start {
                            asked
                        } else {
                            start
                        },
                        (start + CHUNK - 1) as u64,
                    ),
                    (total - 1) as u64,
                ),
            }
        },
{
    reveal_strlit("bytes=");
    reveal_strlit("-");
    let h = range_header(start, end);
    let d = decimal(start as nat);
    let t = match end {
        Some(e) => decimal(e as nat),
        None => Seq::<char>::empty(),
    };
    lemma_decimal_reads_back(start);
    assert(h.subrange(0, 6) =~= "bytes="@);
    assert(has_prefix_spec(h, "bytes="@));
    let spec = h.subrange(6, h.len() as int);
    assert(spec =~= d + "-"@ + t);
    lemma_first_dash_at(spec, 0, d.len() as int);
    assert(spec.subrange(0, d.len() as int) =~= d);
    assert(spec.subrange(d.len() as int + 1, spec.len() as int) =~= t);
    match end {
        Some(e) => {
            lemma_decimal_reads_back(e);
        },
        None => {
            assert(trim_start_index(t, 0) == 0);
            assert(trim_spec(t) =~= Seq::<char>::empty());
            if start < total {
                vstd::arithmetic::div_mod::lemma_small_mod(
                    (start as nat + (CHUNK - 1) as nat) as nat,
                    0x1_0000_0000_0000_0000nat,
                );
            }
        },
    }
}

} // verus!
