use lowresourcecapture::classifier::{
    check_training_input, evaluation_counts, label_counts, shuffle, Lcg, TrainInputError,
};
use lowresourcecapture::cli::{analyzer_command, flag_value, has_arg, AnalyzerCommand, AnalyzerMode};
use lowresourcecapture::dataset::{Example, Manifest};
use lowresourcecapture::detect::{gold_pixel_counts, pixel_is_gold};
use lowresourcecapture::event::{Event, Kind};
use lowresourcecapture::labels::{LabelSet, Origin};
use lowresourcecapture::model::{model_is_stale, undertrained_classes};
use lowresourcecapture::profile::{clamp_to_frame, profile_is_stale, region_applies_to};
use lowresourcecapture::review::label_path_for;
use lowresourcecapture::text::str_lt;
use lowresourcecapture::training::{
    enough_to_train, found_python, install_dependencies_command, no_python, python_candidates,
    train_command, DatasetStatus, PythonStatus,
};

fn args(v: &[&str]) -> Vec<String> {
    v.iter().map(|s| s.to_string()).collect()
}

#[test]
fn flag_values() {
    let a = args(&["vod.mp4", "--build", "2026.08.06", "--scan-only"]);
    assert_eq!(flag_value(&a, "--build"), Some("2026.08.06".to_string()));
    assert_eq!(flag_value(&a, "--scan-only"), None, "no value after the last flag");
    assert_eq!(flag_value(&a, "--export-dataset"), None);
    let b = args(&["--build", "--scan-only"]);
    assert_eq!(flag_value(&b, "--build"), None, "an option is not a value");
    let c = args(&["--build", "-x"]);
    assert_eq!(flag_value(&c, "--build"), Some("-x".to_string()));
}

#[test]
fn a_patched_game_makes_a_model_stale() {
    let builds = args(&["2026.08.06"]);
    assert!(model_is_stale(&builds, "2026.08.13"));
    assert!(!model_is_stale(&builds, "2026.08.06"));
    assert!(!model_is_stale(&builds, ""), "missing info must not cry wolf");
    assert!(!model_is_stale(&Vec::new(), "2026.08.13"), "an empty card is never stale");
    let several = args(&["2026.08.06", "2026.08.13"]);
    assert!(!model_is_stale(&several, "2026.08.13"));
    assert!(model_is_stale(&several, "2026.08.20"));
}

#[test]
fn profile_staleness() {
    assert!(profile_is_stale("2026.08.06", "2026.09.01"));
    assert!(!profile_is_stale("2026.08.06", "2026.08.06"));
    assert!(!profile_is_stale("2026.08.06", ""));
    assert!(!profile_is_stale("", "2026.09.01"));
    assert!(region_applies_to(Some(1080), 1080));
    assert!(!region_applies_to(Some(1080), 1440));
    assert!(region_applies_to(None, 1440));
}

#[test]
fn tallies_rulings() {
    let mut s: LabelSet<f64> = LabelSet::new("vod.mp4", "2026.08.06");
    assert_eq!(s.tally(), (0, 0, 0));
    for _ in 0..3 {
        s.fold_detection(Kind::Death, 1_000_000, 0.5, None);
    }
    s.labels[0].confirmed = Some(true);
    s.labels[1].confirmed = Some(false);
    s.mark(Kind::PlayerKill, 5_000_000, 1.0);
    assert_eq!(s.tally(), (2, 1, 1));
    assert_ne!(Origin::Detected, Origin::Manual);
}

#[test]
fn detections_fold_in_unreviewed() {
    let mut s: LabelSet<f64> = LabelSet::new("vod.mp4", "2026.08.06");
    assert!(s.fold_detection(Kind::Death, 100_000_000, 0.9, None));
    assert_eq!(s.tally(), (0, 0, 1));
    assert_eq!(s.labels[0].origin, Origin::Detected);
    assert_eq!(s.video, "vod.mp4");
    assert_eq!(s.game_build, "2026.08.06");
}

#[test]
fn refinding_a_label_adds_nothing_and_keeps_its_ruling() {
    let mut s: LabelSet<f64> = LabelSet::new("vod.mp4", "2026.08.06");
    s.fold_detection(Kind::Death, 100_000_000, 0.9, None);
    s.labels[0].confirmed = Some(true);
    assert!(!s.fold_detection(Kind::Death, 100_400_000, 0.99, Some(0)));
    assert_eq!(s.labels.len(), 1);
    assert_eq!(s.labels[0].confirmed, Some(true));
    assert_eq!(s.labels[0].at, 100_000_000, "a reviewed label stays where it was judged");
    assert_eq!(s.labels[0].score, 0.99, "but the score refreshes");
}

#[test]
fn a_refound_rejection_stays_rejected() {
    let mut s: LabelSet<f64> = LabelSet::new("vod.mp4", "2026.08.06");
    s.fold_detection(Kind::Death, 50_000_000, 0.4, None);
    s.labels[0].confirmed = Some(false);
    s.fold_detection(Kind::Death, 50_000_000, 0.4, Some(0));
    assert_eq!(s.tally(), (0, 1, 0));
}

#[test]
fn an_unreviewed_detection_follows_the_newer_time() {
    let mut s: LabelSet<f64> = LabelSet::new("vod.mp4", "2026.08.06");
    s.fold_detection(Kind::Death, 100_000_000, 0.9, None);
    s.fold_detection(Kind::Death, 101_000_000, 0.8, Some(0));
    assert_eq!(s.labels[0].at, 101_000_000);
    assert_eq!(s.labels[0].score, 0.8);
}

#[test]
fn a_hand_mark_keeps_its_time_when_refound() {
    let mut s: LabelSet<f64> = LabelSet::new("vod.mp4", "2026.08.06");
    s.mark(Kind::PlayerKill, 42_000_000, 1.0);
    s.fold_detection(Kind::PlayerKill, 43_000_000, 0.7, Some(0));
    assert_eq!(s.labels[0].origin, Origin::Manual);
    assert_eq!(s.labels[0].confirmed, Some(true));
    assert_eq!(s.labels[0].at, 42_000_000);
    assert_eq!(s.labels[0].score, 1.0, "a hand mark is never touched");
}

#[test]
fn confirmed_and_pending_split_the_set() {
    let mut s: LabelSet<f64> = LabelSet::new("vod.mp4", "2026.08.06");
    s.fold_detection(Kind::Death, 100_000_000, 0.9, None);
    s.fold_detection(Kind::Death, 300_000_000, 0.8, None);
    s.fold_detection(Kind::MonsterKill, 400_000_000, 0.5, None);
    s.labels[1].confirmed = Some(true);
    s.labels[2].confirmed = Some(false);
    let c: Vec<Event<f64>> = s.confirmed();
    assert_eq!(c.len(), 1);
    assert_eq!(c[0].at, 300_000_000);
    assert_eq!(c[0].score, 0.8);
    assert_eq!(c[0].confirmed, Some(true));
    let p = s.pending();
    assert_eq!(p.len(), 1);
    assert_eq!(p[0].at, 100_000_000);
    assert!(!p[0].reviewed());
    assert!(s.labels[1].reviewed());
    let e = Event::new(Kind::Death, 2_000_000, 0.5);
    assert_eq!(e.confirmed, None);
}

#[test]
fn label_file_sits_beside_the_video() {
    assert_eq!(label_path_for("d/vod.mp4"), "d/vod.labels.json");
    assert_eq!(label_path_for("vod"), "vod.labels.json");
}

#[test]
fn python_commands() {
    let missing = PythonStatus::missing("no python");
    assert!(missing.command.is_none());
    assert_eq!(missing.detail, "no python");
    assert!(install_dependencies_command(&missing).is_none());
    assert!(train_command(&missing, "t.py", "d", "").is_none());

    let py = PythonStatus {
        command: Some("py".into()),
        args: args(&["-3"]),
        version: "Python 3.12".into(),
        deps_ok: true,
        detail: "ready".into(),
    };
    let pip = install_dependencies_command(&py).unwrap();
    assert_eq!(pip.program, "py");
    assert_eq!(
        pip.args,
        args(&[
            "-3", "-m", "pip", "install", "--upgrade", "torch", "torchvision", "pillow",
            "--index-url", "https://download.pytorch.org/whl/cu124"
        ])
    );
    let t = train_command(&py, "train.py", "D:\\ds", "2026.08.06").unwrap();
    assert_eq!(t.args, args(&["-3", "train.py", "--data", "D:\\ds", "--build", "2026.08.06"]));
    let t = train_command(&py, "train.py", "D:\\ds", "").unwrap();
    assert_eq!(t.args, args(&["-3", "train.py", "--data", "D:\\ds"]));
}

#[test]
fn dataset_status() {
    let s = DatasetStatus::empty("dir".into());
    assert!(!s.exists && s.total == 0 && s.per_class.is_empty() && !s.enough_to_train);
    assert!(enough_to_train(2, 50));
    assert!(!enough_to_train(1, 500));
    assert!(!enough_to_train(3, 49));
}

#[test]
fn gold_pixels_are_counted() {
    assert!(pixel_is_gold(200, 165, 60));
    assert!(!pixel_is_gold(40, 42, 48), "dark scene");
    assert!(!pixel_is_gold(60, 180, 200), "teal UI");
    let mut buf = Vec::new();
    for i in 0..10 {
        let px: [u8; 3] = if i < 4 { [200, 165, 60] } else { [40, 42, 48] };
        buf.extend_from_slice(&px);
    }
    assert_eq!(gold_pixel_counts(&buf), (4, 10));
    buf.push(255);
    assert_eq!(gold_pixel_counts(&buf), (4, 10), "a ragged tail is ignored");
    assert_eq!(gold_pixel_counts(&[]), (0, 0));
    assert_eq!(gold_pixel_counts(&[255, 255]), (0, 0));
}

#[test]
fn lcg_is_deterministic() {
    let mut a = Lcg(0);
    let first = a.next_usize(10);
    let expect_state = 0u64.wrapping_mul(6364136223846793005).wrapping_add(1442695040888963407);
    assert_eq!(a.0, expect_state);
    assert_eq!(first, ((expect_state >> 33) as usize) % 10);
    let mut b = Lcg(0);
    assert_eq!(b.next_usize(10), first);
    assert_eq!(Lcg(5).next_usize(0), 0, "n = 0 behaves as 1");
}

fn example(class: &str, build: &str) -> Example<f64> {
    Example {
        file: format!("{class}/x.jpg"),
        class: class.into(),
        source: "v.mp4".into(),
        game_build: build.into(),
        at: 1.0,
        offset: 0.0,
    }
}

fn count_of(counts: &[(String, usize)], class: &str) -> Option<usize> {
    counts.iter().find(|(c, _)| c == class).map(|(_, n)| *n)
}

#[test]
fn manifest_counts_and_builds() {
    let mut m: Manifest<f64> = Manifest::new();
    for (class, build) in [("player", "2026.08.06"), ("player", "2026.08.06"), ("monster", "2026.08.13")] {
        m.examples.push(example(class, build));
    }
    let counts = m.class_counts();
    assert_eq!(count_of(&counts, "player"), Some(2));
    assert_eq!(count_of(&counts, "monster"), Some(1));
    assert_eq!(m.game_builds(), vec!["2026.08.06", "2026.08.13"]);
}

#[test]
fn empty_builds_are_not_recorded() {
    let mut m: Manifest<f64> = Manifest::new();
    m.examples.push(Example {
        file: "a.jpg".into(),
        class: "player".into(),
        source: "v.mp4".into(),
        game_build: String::new(),
        at: 1.0,
        offset: 0.0,
    });
    assert!(m.game_builds().is_empty(), "unknown build must not become a build named \"\"");
}

#[test]
fn class_counts_are_sorted_by_class_and_builds_are_distinct() {
    let mut m: Manifest<f64> = Manifest::new();
    assert_eq!((m.frame_width, m.frame_height), (384, 216));
    for (class, build) in [
        ("player", "2026.08.13"),
        ("none", "2026.08.06"),
        ("monster", ""),
        ("player", "2026.08.06"),
        ("none", "2026.08.13"),
        ("none", "2026.08.06"),
    ] {
        m.examples.push(example(class, build));
    }
    let counts = m.class_counts();
    assert_eq!(
        counts,
        vec![("monster".to_string(), 1), ("none".to_string(), 3), ("player".to_string(), 2)]
    );
    assert_eq!(m.game_builds(), vec!["2026.08.06", "2026.08.13"]);
    let empty: Manifest<f64> = Manifest::new();
    assert!(empty.class_counts().is_empty());
}

#[test]
fn string_order_is_code_point_order() {
    assert!(str_lt("a", "b"));
    assert!(str_lt("ab", "abc"), "a proper prefix sorts first");
    assert!(!str_lt("abc", "abc"));
    assert!(!str_lt("b", "abc"));
    assert!(str_lt("", "a"));
    assert!(!str_lt("", ""));
    assert!(str_lt("Z", "a"));
    assert!(str_lt("z", "é"));
}

#[test]
fn undertrained_classes_are_named_even_when_accuracy_looks_good() {
    let classes = args(&["player", "monster", "none"]);
    let per_class = vec![("player".to_string(), 120), ("monster".to_string(), 8), ("none".to_string(), 200)];
    assert_eq!(undertrained_classes(&classes, &per_class, 30), vec!["monster"], "8 monster examples behind 94% accuracy");
    assert_eq!(undertrained_classes(&classes, &Vec::new(), 1), classes, "an unrecorded class has no examples");
    assert!(undertrained_classes(&classes, &per_class, 0).is_empty());
    assert_eq!(undertrained_classes(&classes, &per_class, 121), vec!["player", "monster"]);
}

fn from_source(source: &str, class: &str) -> Example<f64> {
    Example {
        file: format!("{class}/{source}.jpg"),
        class: class.into(),
        source: source.into(),
        game_build: "2026.08.06".into(),
        at: 1.0,
        offset: 0.0,
    }
}

#[test]
fn a_reexport_replaces_its_recording_and_keeps_the_others() {
    let mut combined: Manifest<f64> = Manifest { frame_width: 1, frame_height: 1, examples: Vec::new() };
    combined.examples.push(from_source("a.mp4", "player"));
    combined.examples.push(from_source("b.mp4", "player"));
    combined.examples.push(from_source("a.mp4", "none"));
    let mut fresh: Manifest<f64> = Manifest::new();
    fresh.examples.push(from_source("a.mp4", "monster"));
    combined.merge_export(&fresh);
    let sources: Vec<(&str, &str)> =
        combined.examples.iter().map(|e| (e.source.as_str(), e.class.as_str())).collect();
    assert_eq!(sources, vec![("b.mp4", "player"), ("a.mp4", "monster")]);
    assert_eq!(combined.sources(), vec!["a.mp4", "b.mp4"]);
    assert_eq!((combined.frame_width, combined.frame_height), (384, 216));
    combined.merge_export(&fresh);
    assert_eq!(combined.examples.len(), 2, "a second export of the same recording does not duplicate");
    combined.merge_export(&Manifest::new());
    assert_eq!(combined.examples.len(), 2, "an empty export changes nothing");
}

#[test]
fn shuffling_is_a_deterministic_permutation() {
    let mut a: Vec<usize> = (0..20).collect();
    let mut b = a.clone();
    let mut ra = Lcg(7);
    let mut rb = Lcg(7);
    shuffle(&mut a, &mut ra);
    shuffle(&mut b, &mut rb);
    assert_eq!(a, b, "same data + seed, same order");
    assert_eq!(ra.0, rb.0);
    let mut sorted = a.clone();
    sorted.sort();
    assert_eq!(sorted, (0..20).collect::<Vec<usize>>());
    assert_ne!(a, (0..20).collect::<Vec<usize>>());

    let mut two = vec![10, 20];
    let mut r = Lcg(3);
    let state = 3u64.wrapping_mul(6364136223846793005).wrapping_add(1442695040888963407);
    let j = ((state >> 33) as usize) % 2;
    shuffle(&mut two, &mut r);
    assert_eq!(r.0, state);
    assert_eq!(two, if j == 0 { vec![20, 10] } else { vec![10, 20] });

    let mut one = vec![5];
    let mut r1 = Lcg(9);
    shuffle(&mut one, &mut r1);
    assert_eq!((one, r1.0), (vec![5], 9), "nothing to shuffle, no draw");
}

#[test]
fn malformed_training_input_is_refused() {
    assert_eq!(check_training_input(&vec![], &vec![], 2), Err(TrainInputError::NoExamples));
    assert_eq!(check_training_input(&vec![3, 3], &vec![0], 2), Err(TrainInputError::LengthMismatch));
    assert_eq!(check_training_input(&vec![3], &vec![0], 0), Err(TrainInputError::NoClasses));
    assert_eq!(check_training_input(&vec![0, 0], &vec![0, 0], 1), Err(TrainInputError::EmptyFeatures));
    assert_eq!(check_training_input(&vec![3, 2], &vec![0, 0], 1), Err(TrainInputError::RaggedFeatures));
    assert_eq!(check_training_input(&vec![3, 3], &vec![0, 5], 2), Err(TrainInputError::LabelOutOfRange));
    assert_eq!(check_training_input(&vec![3, 3], &vec![1, 0], 2), Ok(3));
}

#[test]
fn labels_are_counted_per_class() {
    assert_eq!(label_counts(&vec![0, 2, 2, 0, 2], 4), vec![2, 0, 3, 0]);
    assert_eq!(label_counts(&vec![], 2), vec![0, 0]);
}

#[test]
fn a_region_is_clamped_to_the_frame() {
    let (x, y, w, h) = clamp_to_frame(1728, 972, 960, 540, 1920, 1080);
    assert_eq!((x, y, w, h), (1728, 972, 192, 108));
    assert!(x + w <= 1920 && y + h <= 1080, "never indexes past the frame");
    assert_eq!(clamp_to_frame(960, 540, 480, 108, 1920, 1080), (960, 540, 480, 108));
    assert_eq!(clamp_to_frame(1920, 0, 10, 10, 1920, 1080), (1920, 0, 0, 10));
}

#[test]
fn evaluation_counts_support_and_recall_per_class_name() {
    let classes = args(&["b", "a", "b"]);
    let c = evaluation_counts(&vec![0, 1, 1, 0, 2], &vec![0, 1, 0, 0, 2], &classes);
    assert_eq!(c.correct, 4);
    assert_eq!(c.per_class, vec![("a".to_string(), 1, 1), ("b".to_string(), 3, 4)]);
    let none = evaluation_counts(&Vec::new(), &Vec::new(), &classes);
    assert_eq!((none.correct, none.per_class.len()), (0, 0));
}

#[test]
fn version_wins_over_help_and_everything_else() {
    assert!(matches!(analyzer_command(&args(&["--help", "v.mp4", "-V"])), AnalyzerCommand::Version));
    assert!(matches!(analyzer_command(&args(&["--version"])), AnalyzerCommand::Version));
    assert!(matches!(analyzer_command(&args(&["v.mp4", "-h"])), AnalyzerCommand::Help));
    assert!(matches!(analyzer_command(&args(&["--help"])), AnalyzerCommand::Help));
}

#[test]
fn no_arguments_asks_for_a_recording_and_reviews_it() {
    match analyzer_command(&args(&[])) {
        AnalyzerCommand::Analyze { input, build, mode } => {
            assert_eq!(input, None);
            assert_eq!(build, "");
            assert!(matches!(mode, AnalyzerMode::Review));
        }
        _ => panic!("expected an analysis"),
    }
}

#[test]
fn export_takes_precedence_over_scan_only() {
    let a = args(&["--scan-only", "v.mp4", "--export-dataset", "out", "--build", "14.2"]);
    match analyzer_command(&a) {
        AnalyzerCommand::Analyze { input, build, mode } => {
            assert_eq!(input.as_deref(), Some("v.mp4"));
            assert_eq!(build, "14.2");
            match mode {
                AnalyzerMode::Export(dir) => assert_eq!(dir, "out"),
                _ => panic!("expected an export"),
            }
        }
        _ => panic!("expected an analysis"),
    }
}

#[test]
fn scan_only_without_a_window() {
    match analyzer_command(&args(&["--scan-only", "--build", "--x", "v.mp4"])) {
        AnalyzerCommand::Analyze { input, build, mode } => {
            assert_eq!(input.as_deref(), Some("v.mp4"));
            assert_eq!(build, "");
            assert!(matches!(mode, AnalyzerMode::ScanOnly));
        }
        _ => panic!("expected an analysis"),
    }
    assert!(has_arg(&args(&["a", "--scan-only"]), "--scan-only"));
    assert!(!has_arg(&args(&["a", "--scan-onl"]), "--scan-only"));
}

#[test]
fn pythons_are_probed_launcher_first() {
    let c = python_candidates();
    let seen: Vec<(String, Vec<String>)> = c.into_iter().map(|l| (l.program, l.args)).collect();
    assert_eq!(
        seen,
        vec![
            ("py".to_string(), args(&["-3"])),
            ("python".to_string(), args(&[])),
            ("python3".to_string(), args(&[])),
        ]
    );
}

#[test]
fn a_found_python_reports_its_version_and_readiness() {
    let c = python_candidates();
    let s = found_python(&c[0], "  Python 3.12.1\r\n", "", true);
    assert_eq!(s.command.as_deref(), Some("py"));
    assert_eq!(s.args, args(&["-3"]));
    assert_eq!(s.version, "Python 3.12.1");
    assert!(s.deps_ok);
    assert_eq!(s.detail, "ready");

    // Older interpreters print the version on the error stream.
    let s = found_python(&c[1], " \n", "Python 2.7.18\n", false);
    assert_eq!(s.command.as_deref(), Some("python"));
    assert_eq!(s.version, "Python 2.7.18");
    assert!(!s.deps_ok);
    assert_eq!(s.detail, "Python found, but torch/torchvision/pillow aren't installed.");

    let none = no_python();
    assert!(none.command.is_none());
    assert!(none.detail.starts_with("No Python found. Install Python 3.10+"));
    assert!(none.detail.ends_with("then use Install dependencies here."));
}

const TOL: u64 = 3_000_000;

fn det(kind: Kind, at: i64, score: f64) -> Event<f64> {
    Event::new(kind, at, score)
}

fn fresh() -> LabelSet<f64> {
    LabelSet::new("vod.mp4", "2026.08.06")
}

#[test]
fn detections_arrive_unreviewed() {
    let mut s = fresh();
    assert_eq!(s.merge_detections(&vec![det(Kind::Death, 100_000_000, 0.9)], TOL), 1);
    assert_eq!(s.tally(), (0, 0, 1));
    assert_eq!(s.labels[0].origin, Origin::Detected);
}

#[test]
fn rerunning_detection_does_not_add_duplicates() {
    let mut s = fresh();
    s.merge_detections(&vec![det(Kind::Death, 100_000_000, 0.9)], TOL);
    let added = s.merge_detections(&vec![det(Kind::Death, 100_500_000, 0.95)], TOL);
    assert_eq!(added, 0, "same event re-found, not a new one");
    assert_eq!(s.labels.len(), 1);
}

#[test]
fn rerunning_detection_preserves_a_confirmation() {
    let mut s = fresh();
    s.merge_detections(&vec![det(Kind::Death, 100_000_000, 0.9)], TOL);
    s.labels[0].confirmed = Some(true);
    s.merge_detections(&vec![det(Kind::Death, 100_400_000, 0.99)], TOL);
    assert_eq!(s.labels[0].confirmed, Some(true), "the whole point of the store");
    assert_eq!(s.labels[0].at, 100_000_000, "a reviewed label stays where you judged it");
    assert_eq!(s.labels[0].score, 0.99, "but the score refreshes");
}

#[test]
fn rerunning_detection_preserves_a_rejection() {
    let mut s = fresh();
    s.merge_detections(&vec![det(Kind::Death, 50_000_000, 0.4)], TOL);
    s.labels[0].confirmed = Some(false);
    s.merge_detections(&vec![det(Kind::Death, 50_000_000, 0.4)], TOL);
    assert_eq!(s.tally(), (0, 1, 0), "a known false positive stays rejected");
}

#[test]
fn an_unreviewed_detection_tracks_the_newer_timestamp() {
    let mut s = fresh();
    s.merge_detections(&vec![det(Kind::Death, 100_000_000, 0.9)], TOL);
    s.merge_detections(&vec![det(Kind::Death, 101_000_000, 0.9)], TOL);
    assert_eq!(s.labels[0].at, 101_000_000, "a better-tuned detector may localize better");
}

#[test]
fn manual_marks_survive_a_detector_that_never_finds_them() {
    let mut s = fresh();
    s.mark(Kind::PlayerKill, 42_000_000, 1.0);
    s.merge_detections(&vec![det(Kind::Death, 900_000_000, 0.9)], TOL);
    let manual: Vec<_> = s.labels.iter().filter(|l| l.origin == Origin::Manual).collect();
    assert_eq!(manual.len(), 1);
    assert_eq!(manual[0].confirmed, Some(true));
}

#[test]
fn a_detection_that_refinds_a_hand_mark_leaves_it_exactly() {
    let mut s = fresh();
    s.mark(Kind::PlayerKill, 42_000_000, 1.0);
    assert_eq!(s.merge_detections(&vec![det(Kind::PlayerKill, 43_000_000, 0.3)], TOL), 0);
    assert_eq!(s.labels.len(), 1);
    let l = s.labels[0];
    assert_eq!((l.at, l.score, l.origin, l.confirmed), (42_000_000, 1.0, Origin::Manual, Some(true)));
}

#[test]
fn different_kinds_at_the_same_time_do_not_merge() {
    let mut s = fresh();
    s.merge_detections(&vec![det(Kind::PlayerKill, 100_000_000, 0.9)], TOL);
    let added = s.merge_detections(&vec![det(Kind::Death, 100_000_000, 0.9)], TOL);
    assert_eq!(added, 1, "dying just after a kill is one of the commonest clips");
}

#[test]
fn distant_detections_are_separate_events() {
    let mut s = fresh();
    s.merge_detections(&vec![det(Kind::Death, 100_000_000, 0.9)], TOL);
    assert_eq!(s.merge_detections(&vec![det(Kind::Death, 400_000_000, 0.9)], TOL), 1);
}

#[test]
fn confirmed_returns_only_what_you_approved_in_time_order() {
    let mut s = fresh();
    s.merge_detections(&vec![det(Kind::Death, 300_000_000, 0.9), det(Kind::Death, 100_000_000, 0.9)], TOL);
    s.labels.iter_mut().for_each(|l| l.confirmed = Some(l.at > 200_000_000));
    let c = s.confirmed();
    assert_eq!(c.len(), 1);
    assert_eq!(c[0].at, 300_000_000);
}

#[test]
fn pending_is_the_review_queue() {
    let mut s = fresh();
    s.merge_detections(&vec![det(Kind::Death, 100_000_000, 0.9), det(Kind::Death, 400_000_000, 0.5)], TOL);
    s.labels[0].confirmed = Some(true);
    assert_eq!(s.pending().len(), 1);
    assert_eq!(s.pending()[0].at, 400_000_000);
}

#[test]
fn marks_keep_the_set_in_time_order() {
    let mut s = fresh();
    s.mark(Kind::PlayerKill, 10_000_000, 1.0);
    s.mark(Kind::Death, 5_000_000, 1.0);
    s.mark(Kind::MonsterKill, 10_000_000, 1.0);
    let order: Vec<(i64, Kind)> = s.labels.iter().map(|l| (l.at, l.kind)).collect();
    assert_eq!(
        order,
        vec![(5_000_000, Kind::Death), (10_000_000, Kind::PlayerKill), (10_000_000, Kind::MonsterKill)],
        "sorted by time, equal times in the order marked"
    );
}

#[test]
fn a_detection_refinds_the_nearest_label_in_reach() {
    let mut s = fresh();
    s.merge_detections(&vec![det(Kind::Death, 100_000_000, 0.1), det(Kind::Death, 104_000_000, 0.2)], TOL);
    // 102.5 s is 2.5 s from the first and 1.5 s from the second.
    assert_eq!(s.find_hit(Kind::Death, 102_500_000, TOL), Some(1));
    assert_eq!(s.find_hit(Kind::Death, 102_000_000, TOL), Some(0), "equally near: the first");
    assert_eq!(s.find_hit(Kind::Death, 108_000_000, TOL), None);
    assert_eq!(s.find_hit(Kind::PlayerKill, 100_000_000, TOL), None);
}
