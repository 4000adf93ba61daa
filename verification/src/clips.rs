//! Clip file names: what a saved clip is called, the length its name
//! records and reads back, what an edit of it is saved as, and what the
//! clip library does with each request of its window.
use crate::paths::{joined_path, path_join};
use crate::text::{
    decimal, is_digit, law_decimal_round_trips, lemma_decimal_digits, parse_u32,
    parse_u32_spec, pow10, push_decimal, push_zero_padded, str_eq, zero_pad, law_zero_padded_reads_back,
};
use vstd::prelude::*;
use vstd::string::{StrSliceExecFns, StringExecFns};

verus! {

pub open spec fn ends_with(s: Seq<char>, suffix: Seq<char>) -> bool {
    suffix.len() <= s.len() && s.subrange(s.len() - suffix.len(), s.len() as int) == suffix
}

/// `s` with every trailing repetition of `suffix` removed
/// (`str::trim_end_matches`).
pub open spec fn trim_end_all(s: Seq<char>, suffix: Seq<char>) -> Seq<char>
    decreases s.len(),
{
    if suffix.len() > 0 && ends_with(s, suffix) {
        trim_end_all(s.subrange(0, s.len() - suffix.len()), suffix)
    } else {
        s
    }
}

/// The last position before `end` holding `c`.
pub open spec fn last_index_before(s: Seq<char>, c: char, end: int) -> Option<int>
    decreases end,
{
    if end <= 0 {
        None
    } else if s[end - 1] == c {
        Some(end - 1)
    } else {
        last_index_before(s, c, end - 1)
    }
}

/// The text after the last `c`, or all of `s` when there is none
/// (`s.rsplit(c).next()`).
pub open spec fn after_last(s: Seq<char>, c: char) -> Seq<char> {
    match last_index_before(s, c, s.len() as int) {
        Some(i) => s.subrange(i + 1, s.len() as int),
        None => s,
    }
}

/// The length recorded in `clip_<stamp>_<len>s.mp4`, or 0 when the name does
/// not end in a number of seconds.
pub open spec fn clip_len_spec(name: Seq<char>) -> u32 {
    let tail = after_last(trim_end_all(name, ".mp4"@), '_');
    if tail.len() > 0 && tail.last() == 's' {
        match parse_u32_spec(tail.drop_last()) {
            Some(v) => v,
            None => 0,
        }
    } else {
        0
    }
}

/// Whether the first `n` characters of `s` end with ".mp4".
fn ends_with_mp4(s: &str, n: usize) -> (b: bool)
    requires
        n <= s@.len(),
    ensures
        b == ends_with(s@.subrange(0, n as int), ".mp4"@),
{
    proof {
        reveal_strlit(".mp4");
    }
    if n < 4 {
        return false;
    }
    let r = s.get_char(n - 4) == '.' && s.get_char(n - 3) == 'm' && s.get_char(n - 2) == 'p'
        && s.get_char(n - 1) == '4';
    let ghost p = s@.subrange(0, n as int);
    let ghost t = p.subrange(p.len() - 4, p.len() as int);
    assert(t[0] == s@[n - 4] && t[1] == s@[n - 3] && t[2] == s@[n - 2] && t[3] == s@[n - 1]);
    assert(r ==> t =~= ".mp4"@);
    r
}

/// Parse the length from `clip_<stamp>_<len>s.mp4`.
pub fn parse_len(name: &str) -> (secs: u32)
    ensures
        secs == clip_len_spec(name@),
{
    let ghost full = name@;
    let len = name.unicode_len();
    // Strip every trailing ".mp4".
    let mut n: usize = len;
    assert(full.subrange(0, len as int) =~= full);
    while ends_with_mp4(name, n)
        invariant
            n <= len,
            len == full.len(),
            full == name@,
            trim_end_all(full, ".mp4"@) == trim_end_all(full.subrange(0, n as int), ".mp4"@),
        decreases n,
    {
        proof {
            reveal_strlit(".mp4");
            assert(full.subrange(0, n as int).subrange(0, n - 4) =~= full.subrange(0, n - 4));
        }
        n = n - 4;
    }
    let ghost trimmed = full.subrange(0, n as int);
    assert(trim_end_all(full, ".mp4"@) == trimmed);
    // Find the last '_'.
    let mut k: usize = n;
    while k > 0 && name.get_char(k - 1) != '_'
        invariant
            k <= n <= len,
            len == full.len(),
            full == name@,
            trimmed == full.subrange(0, n as int),
            last_index_before(trimmed, '_', n as int) == last_index_before(
                trimmed,
                '_',
                k as int,
            ),
        decreases k,
    {
        assert(trimmed[k - 1] == full[k - 1]);
        k = k - 1;
    }
    proof {
        if k > 0 {
            assert(trimmed[k - 1] == full[k - 1]);
        }
    }
    // `start` is where the text after the last '_' begins.
    let start = k;
    let ghost tail = trimmed.subrange(start as int, n as int);
    assert(after_last(trimmed, '_') =~= tail);
    if n > start && name.get_char(n - 1) == 's' {
        assert(tail.last() == full[n - 1]);
        let digits = name.substring_char(start, n - 1);
        assert(digits@ =~= tail.drop_last());
        match parse_u32(digits) {
            Some(v) => v,
            None => 0,
        }
    } else {
        proof {
            if n > start {
                assert(tail.last() == full[n - 1]);
            }
        }
        0
    }
}

/// Local wall-clock time a clip was saved at.
pub struct LocalTime {
    pub year: u16,
    pub month: u16,
    pub day: u16,
    pub hour: u16,
    pub minute: u16,
    pub second: u16,
}

/// `yyyymmdd-hhmmss`.
pub open spec fn stamp_spec(t: LocalTime) -> Seq<char> {
    zero_pad(decimal(t.year as nat), 4) + zero_pad(decimal(t.month as nat), 2) + zero_pad(
        decimal(t.day as nat),
        2,
    ) + "-"@ + zero_pad(decimal(t.hour as nat), 2) + zero_pad(decimal(t.minute as nat), 2)
        + zero_pad(decimal(t.second as nat), 2)
}

/// `clip_<yyyymmdd-hhmmss>_<len>s.mp4`.
pub open spec fn clip_name_spec(t: LocalTime, len_secs: u32) -> Seq<char> {
    "clip_"@ + stamp_spec(t) + "_"@ + decimal(len_secs as nat) + "s.mp4"@
}

/// The file name of a clip of `len_secs` seconds saved at `t`:
/// `clip_<yyyymmdd-hhmmss>_<len>s.mp4`. The source is conveyed by the folder
/// it is saved in rather than repeated in the name.
pub fn clip_file_name(t: &LocalTime, len_secs: u32) -> (name: String)
    ensures
        name@ == clip_name_spec(*t, len_secs),
{
    proof {
        reveal_strlit("clip_");
        reveal_strlit("-");
        reveal_strlit("_");
        reveal_strlit("s.mp4");
    }
    let mut out = String::new();
    out.append("clip_");
    push_zero_padded(&mut out, t.year as u32, 4);
    push_zero_padded(&mut out, t.month as u32, 2);
    push_zero_padded(&mut out, t.day as u32, 2);
    out.append("-");
    push_zero_padded(&mut out, t.hour as u32, 2);
    push_zero_padded(&mut out, t.minute as u32, 2);
    push_zero_padded(&mut out, t.second as u32, 2);
    out.append("_");
    push_decimal(&mut out, len_secs);
    out.append("s.mp4");
    assert(out@ =~= clip_name_spec(*t, len_secs));
    out
}

/// The output path of a clip: `clip_file_name` inside `output_dir`.
pub fn clip_filename(output_dir: &str, t: &LocalTime, len_secs: u32) -> (path: String)
    ensures
        path@ == joined_path(output_dir@, clip_name_spec(*t, len_secs)),
{
    let name = clip_file_name(t, len_secs);
    path_join(output_dir, name.as_str())
}

/// With no `c` in `y`, the last `c` in `x + [c] + y` is the one after `x`.
proof fn lemma_last_index_after(x: Seq<char>, y: Seq<char>, c: char, end: int)
    requires
        x.len() < end <= x.len() + 1 + y.len(),
        forall|i: int| 0 <= i < y.len() ==> y[i] != c,
    ensures
        last_index_before(x + seq![c] + y, c, end) == Some(x.len() as int),
    decreases end,
{
    let t = x + seq![c] + y;
    if end - 1 > x.len() {
        assert(t[end - 1] == y[end - 1 - x.len() - 1]);
        lemma_last_index_after(x, y, c, end - 1);
    } else {
        assert(t[end - 1] == c);
    }
}

/// The name of an edited clip: `<stem>-edit.mp4` first, then `<stem>-edit2.mp4`,
/// `<stem>-edit3.mp4`, … for the `n`-th candidate when earlier names are taken.
pub open spec fn edit_name_spec(stem: Seq<char>, n: u32) -> Seq<char> {
    if n < 2 {
        stem + "-edit.mp4"@
    } else {
        stem + "-edit"@ + decimal(n as nat) + ".mp4"@
    }
}

/// The file name an edit of clip `stem` is saved under: `<stem>-edit.mp4` for
/// `n < 2`, else `<stem>-edit<n>.mp4`. The caller tries `n = 1, 2, 3, …` until
/// the name is free in the edit's folder.
pub fn edit_file_name(stem: &str, n: u32) -> (name: String)
    ensures
        name@ == edit_name_spec(stem@, n),
{
    let mut out = stem.to_string();
    if n < 2 {
        out.append("-edit.mp4");
    } else {
        out.append("-edit");
        push_decimal(&mut out, n);
        out.append(".mp4");
    }
    out
}

/// The folder an edit of a clip is saved in.
#[derive(PartialEq, Eq, Structural, Debug, Clone, Copy)]
pub enum EditFolder {
    /// Beside its source: an edit of an edit stays where it is, so edits
    /// never nest inside `Edits` again.
    Source,
    /// `Edits\<category>`, the category being the source's own folder (a
    /// game's subfolder of the clips root).
    Category,
    /// `Edits` itself, for a clip directly in the clips root or in a folder
    /// without a name.
    Edits,
}

/// Where an edit goes, given whether its source already lies under the
/// `Edits` folder, whether the source sits directly in the clips root, and
/// whether the source's folder has a name.
pub fn edit_folder(in_edits: bool, in_root: bool, has_category: bool) -> (f: EditFolder)
    ensures
        in_edits ==> f == EditFolder::Source,
        !in_edits && !in_root && has_category ==> f == EditFolder::Category,
        !in_edits && (in_root || !has_category) ==> f == EditFolder::Edits,
{
    if in_edits {
        EditFolder::Source
    } else if !in_root && has_category {
        EditFolder::Category
    } else {
        EditFolder::Edits
    }
}

/// The stamp in a clip's name reads back as the time it was saved: after
/// `clip_`, the year's four digits, then the month's, day's, hour's,
/// minute's and second's two digits each (a `-` between date and time) parse
/// back to the fields of `t`, so clips saved at different times get
/// different names.
pub proof fn law_clip_stamp_reads_back(t: LocalTime, len_secs: u32)
    requires
        t.year < 10000,
        t.month < 100,
        t.day < 100,
        t.hour < 100,
        t.minute < 100,
        t.second < 100,
    ensures
        ({
            let name = clip_name_spec(t, len_secs);
            &&& name.subrange(0, 5) == "clip_"@
            &&& parse_u32_spec(name.subrange(5, 9)) == Some(t.year as u32)
            &&& parse_u32_spec(name.subrange(9, 11)) == Some(t.month as u32)
            &&& parse_u32_spec(name.subrange(11, 13)) == Some(t.day as u32)
            &&& name[13] == '-'
            &&& parse_u32_spec(name.subrange(14, 16)) == Some(t.hour as u32)
            &&& parse_u32_spec(name.subrange(16, 18)) == Some(t.minute as u32)
            &&& parse_u32_spec(name.subrange(18, 20)) == Some(t.second as u32)
            &&& name[20] == '_'
        }),
{
    reveal_strlit("clip_");
    reveal_strlit("-");
    reveal_strlit("_");
    assert(pow10(2) == 100 && pow10(4) == 10000) by {
        reveal_with_fuel(pow10, 5);
    }
    law_zero_padded_reads_back(t.year as nat, 4);
    law_zero_padded_reads_back(t.month as nat, 2);
    law_zero_padded_reads_back(t.day as nat, 2);
    law_zero_padded_reads_back(t.hour as nat, 2);
    law_zero_padded_reads_back(t.minute as nat, 2);
    law_zero_padded_reads_back(t.second as nat, 2);
    let y = zero_pad(decimal(t.year as nat), 4);
    let mo = zero_pad(decimal(t.month as nat), 2);
    let d = zero_pad(decimal(t.day as nat), 2);
    let h = zero_pad(decimal(t.hour as nat), 2);
    let mi = zero_pad(decimal(t.minute as nat), 2);
    let se = zero_pad(decimal(t.second as nat), 2);
    let name = clip_name_spec(t, len_secs);
    let rest = decimal(len_secs as nat) + "s.mp4"@;
    assert(name =~= "clip_"@ + y + mo + d + "-"@ + h + mi + se + "_"@ + rest);
    assert(name.subrange(0, 5) =~= "clip_"@);
    assert(name.subrange(5, 9) =~= y);
    assert(name.subrange(9, 11) =~= mo);
    assert(name.subrange(11, 13) =~= d);
    assert(name.subrange(14, 16) =~= h);
    assert(name.subrange(16, 18) =~= mi);
    assert(name.subrange(18, 20) =~= se);
}

/// An edit never takes the name of the clip it was cut from
/// (`<stem>.mp4`): saving an edit never overwrites the recording.
pub proof fn law_edit_never_overwrites_its_source(stem: Seq<char>, n: u32)
    ensures
        edit_name_spec(stem, n) != stem + ".mp4"@,
{
    reveal_strlit("-edit.mp4");
    reveal_strlit("-edit");
    reveal_strlit(".mp4");
    if n >= 2 {
        lemma_decimal_digits(n as nat);
    }
    assert(edit_name_spec(stem, n).len() > (stem + ".mp4"@).len());
}

/// The library reads back the length it wrote into a clip's file name.
pub proof fn law_clip_name_round_trips(t: LocalTime, len_secs: u32)
    ensures
        clip_len_spec(clip_name_spec(t, len_secs)) == len_secs,
{
    reveal_strlit("clip_");
    reveal_strlit("_");
    reveal_strlit("s.mp4");
    reveal_strlit(".mp4");
    let x = "clip_"@ + stamp_spec(t);
    let d = decimal(len_secs as nat);
    let y = d + seq!['s'];
    let name = clip_name_spec(t, len_secs);
    let t1 = x + seq!['_'] + y;
    assert(name =~= t1 + ".mp4"@);
    assert(name.subrange(0, name.len() - 4) =~= t1);
    assert(name.subrange(name.len() - 4, name.len() as int) =~= ".mp4"@);
    assert(ends_with(name, ".mp4"@));
    assert(t1.last() == 's');
    assert(!ends_with(t1, ".mp4"@)) by {
        if ends_with(t1, ".mp4"@) {
            assert(t1.subrange(t1.len() - 4, t1.len() as int)[3] == t1.last());
        }
    }
    assert(trim_end_all(t1, ".mp4"@) == t1);
    assert(trim_end_all(name, ".mp4"@) == t1);
    lemma_decimal_digits(len_secs as nat);
    assert forall|i: int| 0 <= i < y.len() implies y[i] != '_' by {
        if i < d.len() {
            assert(is_digit(d[i]));
        }
    }
    lemma_last_index_after(x, y, '_', t1.len() as int);
    assert(after_last(t1, '_') =~= y);
    assert(y.drop_last() =~= d);
    law_decimal_round_trips(len_secs);
}

/// What the clip library window asked for.
#[derive(PartialEq, Eq, Structural, Debug, Clone, Copy)]
pub enum ClipCommand {
    /// Open the clip in the system's default player.
    Play,
    /// Show the clip in its folder.
    Reveal,
    /// Open the clips folder.
    OpenFolder,
    Delete,
    /// Rename the clip to the new path that came with the request.
    Rename,
    /// Build the trim timeline, then a light preview.
    TrimOpen,
    /// Build a preview for the in-app player.
    PlayPreview,
    /// Full-quality playback in the system's default player.
    OpenExternal,
    /// Join the chosen pieces into a new clip.
    Assemble,
    /// Close the window.
    Close,
}

/// The action for a window request: its command word, where a rename also
/// needs a non-empty new path. Anything else is ignored.
pub open spec fn clip_command_spec(cmd: Seq<char>, new_path: Seq<char>) -> Option<ClipCommand> {
    if cmd == "play"@ {
        Some(ClipCommand::Play)
    } else if cmd == "reveal"@ {
        Some(ClipCommand::Reveal)
    } else if cmd == "openFolder"@ {
        Some(ClipCommand::OpenFolder)
    } else if cmd == "delete"@ {
        Some(ClipCommand::Delete)
    } else if cmd == "rename"@ {
        if new_path.len() > 0 {
            Some(ClipCommand::Rename)
        } else {
            None
        }
    } else if cmd == "trimOpen"@ {
        Some(ClipCommand::TrimOpen)
    } else if cmd == "playPreview"@ {
        Some(ClipCommand::PlayPreview)
    } else if cmd == "openExternal"@ {
        Some(ClipCommand::OpenExternal)
    } else if cmd == "assemble"@ {
        Some(ClipCommand::Assemble)
    } else if cmd == "close"@ {
        Some(ClipCommand::Close)
    } else {
        None
    }
}

/// Reads a request of the clip library window; `None` means it is ignored.
/// Only `Close` closes the window.
pub fn clip_command(cmd: &str, new_path: &str) -> (c: Option<ClipCommand>)
    ensures
        c == clip_command_spec(cmd@, new_path@),
{
    if str_eq(cmd, "play") {
        Some(ClipCommand::Play)
    } else if str_eq(cmd, "reveal") {
        Some(ClipCommand::Reveal)
    } else if str_eq(cmd, "openFolder") {
        Some(ClipCommand::OpenFolder)
    } else if str_eq(cmd, "delete") {
        Some(ClipCommand::Delete)
    } else if str_eq(cmd, "rename") {
        if new_path.unicode_len() > 0 {
            Some(ClipCommand::Rename)
        } else {
            None
        }
    } else if str_eq(cmd, "trimOpen") {
        Some(ClipCommand::TrimOpen)
    } else if str_eq(cmd, "playPreview") {
        Some(ClipCommand::PlayPreview)
    } else if str_eq(cmd, "openExternal") {
        Some(ClipCommand::OpenExternal)
    } else if str_eq(cmd, "assemble") {
        Some(ClipCommand::Assemble)
    } else if str_eq(cmd, "close") {
        Some(ClipCommand::Close)
    } else {
        None
    }
}

} // verus!
