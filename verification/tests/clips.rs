use lowresourcecapture::listing::newest_first;
use lowresourcecapture::clips::{
    clip_command, clip_file_name, clip_filename, edit_file_name, edit_folder, parse_len, ClipCommand,
    EditFolder, LocalTime,
};

fn t() -> LocalTime {
    LocalTime { year: 2026, month: 8, day: 6, hour: 9, minute: 5, second: 3 }
}

#[test]
fn clip_name_has_stamp_and_length() {
    assert_eq!(clip_file_name(&t(), 30), "clip_20260806-090503_30s.mp4");
    let p = clip_filename("out", &t(), 15);
    assert_eq!(p, std::path::Path::new("out").join("clip_20260806-090503_15s.mp4").to_string_lossy());
}

#[test]
fn parse_len_reads_the_length_back() {
    assert_eq!(parse_len("clip_20260806-090503_30s.mp4"), 30);
    assert_eq!(parse_len(&clip_file_name(&t(), 4294967295)), 4294967295);
    assert_eq!(parse_len("clip_x_60s.mp4.mp4"), 60, "every trailing .mp4 is trimmed");
    assert_eq!(parse_len("45s.mp4"), 45, "no underscore: the whole name");
    assert_eq!(parse_len("clip_x_+9s"), 9);
}

#[test]
fn parse_len_is_zero_for_other_names() {
    assert_eq!(parse_len("holiday.mp4"), 0);
    assert_eq!(parse_len("clip_x_30.mp4"), 0);
    assert_eq!(parse_len("clip_x_s.mp4"), 0);
    assert_eq!(parse_len("clip_x_99999999999s.mp4"), 0);
    assert_eq!(parse_len(""), 0);
}

#[test]
fn edit_names_count_up_from_the_plain_one() {
    assert_eq!(edit_file_name("clip_20260806-090503_30s", 1), "clip_20260806-090503_30s-edit.mp4");
    assert_eq!(edit_file_name("a", 0), "a-edit.mp4");
    assert_eq!(edit_file_name("a", 2), "a-edit2.mp4");
    assert_eq!(edit_file_name("a", 17), "a-edit17.mp4");
}

#[test]
fn window_requests_map_to_actions() {
    assert_eq!(clip_command("play", ""), Some(ClipCommand::Play));
    assert_eq!(clip_command("reveal", ""), Some(ClipCommand::Reveal));
    assert_eq!(clip_command("openFolder", ""), Some(ClipCommand::OpenFolder));
    assert_eq!(clip_command("delete", ""), Some(ClipCommand::Delete));
    assert_eq!(clip_command("trimOpen", ""), Some(ClipCommand::TrimOpen));
    assert_eq!(clip_command("playPreview", ""), Some(ClipCommand::PlayPreview));
    assert_eq!(clip_command("openExternal", ""), Some(ClipCommand::OpenExternal));
    assert_eq!(clip_command("assemble", ""), Some(ClipCommand::Assemble));
    assert_eq!(clip_command("close", ""), Some(ClipCommand::Close));
    assert_eq!(clip_command("Close", ""), None);
    assert_eq!(clip_command("explode", ""), None);
}

#[test]
fn a_rename_needs_a_new_path() {
    assert_eq!(clip_command("rename", ""), None);
    assert_eq!(clip_command("rename", "b.mp4"), Some(ClipCommand::Rename));
}

#[test]
fn clips_are_listed_newest_first_keeping_ties_in_found_order() {
    assert_eq!(newest_first(&vec![10, 30, 20, 30, 5]), vec![1, 3, 2, 0, 4]);
    assert_eq!(newest_first(&vec![]), Vec::<usize>::new());
    assert_eq!(newest_first(&vec![7, 7, 7]), vec![0, 1, 2]);
}

#[test]
fn edits_go_to_their_category_and_never_nest() {
    // An edit of an edit stays where it is.
    assert_eq!(edit_folder(true, false, true), EditFolder::Source);
    // A game's clip goes to Edits\<game>.
    assert_eq!(edit_folder(false, false, true), EditFolder::Category);
    // A clip in the root, or in an unnamed folder, goes to Edits.
    assert_eq!(edit_folder(false, true, true), EditFolder::Edits);
    assert_eq!(edit_folder(false, false, false), EditFolder::Edits);
}
