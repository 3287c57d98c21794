//! The video downloader: the command line handed to `yt-dlp`, and the
//! state that its output drives (progress, status line, busy flag).

use vstd::prelude::*;
use crate::text::chars_of;
use crate::text::owned;
use crate::text::occurs_in;
use crate::text::contains_text;

verus! {

/// The formats a download can be saved in.
#[derive(Debug, Clone, Copy, PartialEq, Eq, Structural)]
pub enum Format {
    Mp3,
    Mp4,
    Mkv,
}

/// The `yt-dlp` options that select a format.
pub open spec fn format_options(f: Format) -> Seq<Seq<char>> {
    match f {
        Format::Mp3 => seq!["-x"@, "--audio-format"@, "mp3"@],
        Format::Mp4 => seq!["-f"@, "mp4"@],
        Format::Mkv => seq!["-f"@, "bestvideo[ext=mp4]+bestaudio[ext=m4a]/mp4"@],
    }
}

/// The name under which a format is offered.
pub open spec fn format_name(f: Format) -> Seq<char> {
    match f {
        Format::Mp3 => "mp3"@,
        Format::Mp4 => "mp4"@,
        Format::Mkv => "mkv"@,
    }
}

/// The views of a list of text slices.
pub open spec fn str_views(v: Seq<&str>) -> Seq<Seq<char>> {
    v.map_values(|s: &str| s@)
}

/// The views of a list of strings.
pub open spec fn string_views(v: Seq<String>) -> Seq<Seq<char>> {
    v.map_values(|s: String| s@)
}

impl Format {
    /// The `yt-dlp` options that select this format.
    pub fn to_args(&self) -> (r: Vec<&'static str>)
        ensures
            str_views(r@) == format_options(*self),
    {
        let mut v: Vec<&'static str> = Vec::new();
        match self {
            Format::Mp3 => {
                v.push("-x");
                v.push("--audio-format");
                v.push("mp3");
            },
            Format::Mp4 => {
                v.push("-f");
                v.push("mp4");
            },
            Format::Mkv => {
                v.push("-f");
                v.push("bestvideo[ext=mp4]+bestaudio[ext=m4a]/mp4");
            },
        }
        assert(str_views(v@) =~= format_options(*self));
        v
    }

    /// The name under which this format is offered.
    pub fn as_str(&self) -> (r: &'static str)
        ensures
            r@ == format_name(*self),
    {
        match self {
            Format::Mp3 => "mp3",
            Format::Mp4 => "mp4",
            Format::Mkv => "mkv",
        }
    }
}

/// The arguments of `yt-dlp` for one download: the format's options, the
/// address, then `-o` and the file to save to.
pub fn download_args(format: Format, url: &str, save_path: &str) -> (r: Vec<String>)
    ensures
        string_views(r@) == format_options(format) + seq![url@, "-o"@, save_path@],
{
    let opts = format.to_args();
    let mut args: Vec<String> = Vec::new();
    let mut i: usize = 0;
    while i < opts.len()
        invariant
            i <= opts.len(),
            args@.len() == i,
            string_views(args@) == str_views(opts@).take(i as int),
        decreases opts.len() - i,
    {
        let ghost prev = args@;
        let a = owned(opts[i]);
        args.push(a);
        assert forall|k: int| 0 <= k < i + 1 implies #[trigger] string_views(args@)[k] == str_views(
            opts@,
        ).take(i + 1)[k] by {
            if k < i {
                assert(args@[k] == prev[k]);
                assert(string_views(prev)[k] == str_views(opts@).take(i as int)[k]);
            }
        }
        assert(string_views(args@) =~= str_views(opts@).take(i + 1));
        i = i + 1;
    }
    let ghost before = args@;
    args.push(owned(url));
    args.push(owned("-o"));
    args.push(owned(save_path));
    assert(str_views(opts@).take(opts.len() as int) == str_views(opts@));
    assert(string_views(args@) =~= format_options(format) + seq![url@, "-o"@, save_path@]);
    args
}

/// The pattern that finds a percentage such as `45.6%` in a line of
/// `yt-dlp` output; its first group is the number.
pub const PROGRESS_PATTERN: &'static str = r"(\d{1,3}\.\d)%";

/// Whether `regex::Regex::new` accepts `pattern`.
pub uninterp spec fn regex_compiles(pattern: Seq<char>) -> bool;

/// The text of the first capture group of the leftmost match of `pattern`
/// in `text`, as `regex::Regex::captures` finds it; `None` when there is no
/// match or the group takes no part in it.
pub uninterp spec fn regex_first_group(pattern: Seq<char>, text: Seq<char>) -> Option<Seq<char>>;

/// Compiles `pattern` with `regex::Regex::new` and, when that succeeds,
/// returns what `captures(text)` gives for group 1 (`Match::as_str`).
/// Claimed: the outer `None` comes exactly when compiling fails, and the
/// inner value is the named first group. Nothing is claimed about what the
/// group is for given values; that is the regex crate's matching.
#[verifier::external_body]
fn first_capture(pattern: &str, text: &str) -> (r: Option<Option<String>>)
    ensures
        r is Some <==> regex_compiles(pattern@),
        r matches Some(g) ==> match g {
            Some(s) => regex_first_group(pattern@, text@) == Some(s@),
            None => regex_first_group(pattern@, text@) is None,
        },
{
    let re = match regex::Regex::new(pattern) {
        Ok(re) => re,
        Err(_) => return None,
    };
    match re.captures(text) {
        Some(caps) => match caps.get(1) {
            Some(m) => Some(Some(m.as_str().to_string())),
            None => Some(None),
        },
        None => Some(None),
    }
}

/// `c` is one of `0` to `9`.
pub open spec fn is_decimal_digit(c: char) -> bool {
    '0' <= c && c <= '9'
}

/// The number that the decimal digits `s` denote.
pub open spec fn decimal_number(s: Seq<char>) -> int
    decreases s.len(),
{
    if s.len() == 0 {
        0
    } else {
        10 * decimal_number(s.drop_last()) + (s.last() as int - '0' as int)
    }
}

/// A percentage with one decimal, such as `45.6` (one to three digits, a
/// point, one digit), read as a fraction in thousandths: `456`. Any other
/// text gives nothing.
pub open spec fn percent_in_thousandths(t: Seq<char>) -> Option<u32> {
    let n = t.len();
    if 3 <= n <= 5 && t[n - 2] == '.' && is_decimal_digit(t[n - 1]) && (forall|i: int|
        0 <= i < n - 2 ==> #[trigger] is_decimal_digit(t[i])) {
        Some((10 * decimal_number(t.take(n - 2)) + (t[n - 1] as int - '0' as int)) as u32)
    } else {
        None
    }
}

/// Reads a captured percentage such as `45.6` as thousandths of the whole
/// download (`456`).
pub fn progress_from_capture(text: &str) -> (r: Option<u32>)
    ensures
        r == percent_in_thousandths(text@),
        r matches Some(v) ==> v <= 9999,
        r is Some ==> text@.len() >= 3 && text@.len() <= 5 && text@[text@.len() - 2] == '.',
{
    let t = chars_of(text);
    let n = t.len();
    if n < 3 || n > 5 || t[n - 2] != '.' || !('0' <= t[n - 1] && t[n - 1] <= '9') {
        return None;
    }
    let mut value: u32 = 0;
    let mut i: usize = 0;
    while i < n - 2
        invariant
            3 <= n <= 5,
            n == t@.len(),
            t@ == text@,
            i <= n - 2,
            forall|k: int| 0 <= k < i ==> #[trigger] is_decimal_digit(t@[k]),
            value == decimal_number(t@.take(i as int)),
            i <= 3,
            value < (if i == 0 { 1int } else if i == 1 { 10int } else if i == 2 { 100int } else { 1000int }),
        decreases n - 2 - i,
    {
        let c = t[i];
        if !('0' <= c && c <= '9') {
            assert(!is_decimal_digit(t@[i as int]));
            return None;
        }
        assert(t@.take(i + 1).drop_last() == t@.take(i as int));
        value = value * 10 + ((c as u32) - 48);
        i = i + 1;
    }
    let last = (t[n - 1] as u32) - 48;
    Some(value * 10 + last)
}

/// The progress that a line of `yt-dlp` output reports, in thousandths of
/// the whole download: the first percentage in it (see
/// `PROGRESS_PATTERN`), read by `percent_in_thousandths`.
pub open spec fn reported_progress(line: Seq<char>) -> Option<u32> {
    if regex_compiles(PROGRESS_PATTERN@) {
        match regex_first_group(PROGRESS_PATTERN@, line) {
            Some(g) => percent_in_thousandths(g),
            None => None,
        }
    } else {
        None
    }
}

/// Finds the progress a line of `yt-dlp` output reports, such as `456`
/// for `[download]  45.6% of 3.20MiB`.
pub fn parse_progress(line: &str) -> (r: Option<u32>)
    ensures
        r == reported_progress(line@),
{
    match first_capture(PROGRESS_PATTERN, line) {
        Some(Some(group)) => progress_from_capture(group.as_str()),
        _ => None,
    }
}

/// What the status line of the downloader says.
pub enum DownloadStatus {
    /// Nothing yet.
    Idle,
    /// "Starting download...".
    Starting,
    /// "Downloading... N%", for a progress in thousandths of the download.
    Progress(u32),
    /// A `[download]` line of `yt-dlp`, shown as it is.
    Message(String),
    /// "Download complete!".
    Complete,
}

/// The marker of the `yt-dlp` lines that the status line shows.
pub const DOWNLOAD_MARKER: &'static str = "[download]";

/// The state that a running download updates: its progress in thousandths
/// of the whole, whether one is running, and the status line.
pub struct DownloadState {
    pub progress: u32,
    pub is_downloading: bool,
    pub status: DownloadStatus,
}

impl Default for DownloadState {
    fn default() -> (r: Self)
        ensures
            r.progress == 0,
            !r.is_downloading,
            r.status is Idle,
    {
        DownloadState { progress: 0, is_downloading: false, status: DownloadStatus::Idle }
    }
}

impl DownloadState {
    /// A download begins: it is running and says so; the progress keeps
    /// its last value until the first report.
    pub fn start(&mut self)
        ensures
            final(self).is_downloading,
            final(self).status is Starting,
            final(self).progress == old(self).progress,
    {
        self.is_downloading = true;
        self.status = DownloadStatus::Starting;
    }

    /// One line of `yt-dlp` output: a percentage in it becomes the
    /// progress and the status; otherwise a `[download]` line becomes the
    /// status as it is; any other line changes nothing.
    pub fn on_output_line(&mut self, line: &str)
        ensures
            match reported_progress(line@) {
                Some(p) => {
                    &&& final(self).progress == p
                    &&& final(self).status == DownloadStatus::Progress(p)
                    &&& final(self).is_downloading == old(self).is_downloading
                },
                None => if occurs_in(line@, DOWNLOAD_MARKER@) {
                    &&& final(self).status matches DownloadStatus::Message(m)
                    &&& m@ == line@
                    &&& final(self).progress == old(self).progress
                    &&& final(self).is_downloading == old(self).is_downloading
                } else {
                    *final(self) == *old(self)
                },
            },
    {
        match parse_progress(line) {
            Some(p) => {
                self.progress = p;
                self.status = DownloadStatus::Progress(p);
            },
            None => {
                if contains_text(line, DOWNLOAD_MARKER) {
                    self.status = DownloadStatus::Message(owned(line));
                }
            },
        }
    }

    /// The download ended: nothing runs, the progress is full and the
    /// status says the download is complete.
    pub fn finish(&mut self)
        ensures
            !final(self).is_downloading,
            final(self).progress == 1000,
            final(self).status is Complete,
    {
        self.is_downloading = false;
        self.progress = 1000;
        self.status = DownloadStatus::Complete;
    }
}

impl DownloadStatus {
    /// The text of the status line; `None` for a progress report, whose
    /// percentage the shell writes from the progress itself.
    pub fn fixed_text(&self) -> (r: Option<String>)
        ensures
            match self {
                DownloadStatus::Idle => r matches Some(t) && t@ == Seq::<char>::empty(),
                DownloadStatus::Starting => r matches Some(t) && t@ == "Starting download..."@,
                DownloadStatus::Progress(_) => r is None,
                DownloadStatus::Message(m) => r matches Some(t) && t@ == m@,
                DownloadStatus::Complete => r matches Some(t) && t@ == "Download complete!"@,
            },
    {
        match self {
            DownloadStatus::Idle => Some(String::new()),
            DownloadStatus::Starting => Some(owned("Starting download...")),
            DownloadStatus::Progress(_) => None,
            DownloadStatus::Message(m) => Some(m.clone()),
            DownloadStatus::Complete => Some(owned("Download complete!")),
        }
    }
}

/// The downloader tab: the address, the chosen format and where to save.
pub struct DownloaderTab {
    pub url: String,
    pub format: Format,
    pub save_path: Option<String>,
}

impl Default for DownloaderTab {
    fn default() -> (r: Self)
        ensures
            r.url@ == Seq::<char>::empty(),
            r.format == Format::Mp3,
            r.save_path is None,
    {
        DownloaderTab { url: String::new(), format: Format::Mp3, save_path: None }
    }
}

impl DownloaderTab {
    /// "Download": the arguments of `yt-dlp` for the download to start,
    /// or `None` when one is already running or no save location has been
    /// chosen.
    pub fn download_request(&self, downloading: bool) -> (r: Option<Vec<String>>)
        ensures
            downloading ==> r is None,
            !downloading ==> match self.save_path {
                Some(p) => r matches Some(a) && string_views(a@) == format_options(self.format)
                    + seq![self.url@, "-o"@, p@],
                None => r is None,
            },
    {
        if downloading {
            return None;
        }
        match &self.save_path {
            Some(p) => Some(download_args(self.format, self.url.as_str(), p.as_str())),
            None => None,
        }
    }
}

/// A percentage with one decimal is read digit by digit: `a.b` is
/// `10a + b` thousandths, `ab.c` is `100a + 10b + c`, `abc.d` is
/// `1000a + 100b + 10c + d`; a text without the point before its last
/// digit, or with a character that is not an ASCII digit, is none.
pub proof fn lemma_percent_digits(a: char, b: char, c: char, d: char)
    requires
        '0' <= a <= '9',
        '0' <= b <= '9',
        '0' <= c <= '9',
        '0' <= d <= '9',
    ensures
        percent_in_thousandths(seq![a, '.', b]) == Some((10 * (a as int - 48) + (b as int - 48)) as u32),
        percent_in_thousandths(seq![a, b, '.', c]) == Some((100 * (a as int - 48) + 10 * (b as int - 48) + (c as int - 48)) as u32),
        percent_in_thousandths(seq![a, b, c, '.', d]) == Some(
            (1000 * (a as int - 48) + 100 * (b as int - 48) + 10 * (c as int - 48) + (d as int - 48)) as u32,
        ),
        percent_in_thousandths(seq![a, b, c]) is None,
        percent_in_thousandths(seq![a, '.', b, c]) is None,
        percent_in_thousandths(seq!['.', a]) is None,
{
    let e = Seq::<char>::empty();
    let s1 = seq![a];
    let s2 = seq![a, b];
    let s3 = seq![a, b, c];
    assert(s1.drop_last() =~= e);
    assert(s2.drop_last() =~= s1);
    assert(s3.drop_last() =~= s2);
    assert(decimal_number(e) == 0);
    assert(decimal_number(s1.drop_last()) == 0);
    assert(decimal_number(s1) == (a as int - 48));
    assert(decimal_number(s2) == 10 * (a as int - 48) + (b as int - 48));
    assert(decimal_number(s3) == 100 * (a as int - 48) + 10 * (b as int - 48) + (c as int - 48));
    assert(seq![a, '.', b].take(1) =~= s1);
    assert(seq![a, b, '.', c].take(2) =~= s2);
    assert(seq![a, b, c, '.', d].take(3) =~= s3);
    let t = seq![a, b, '.', c];
    assert(forall|i: int| 0 <= i < 2 ==> #[trigger] is_decimal_digit(t[i]));
    let u = seq![a, b, c, '.', d];
    assert(forall|i: int| 0 <= i < 3 ==> #[trigger] is_decimal_digit(u[i]));
    let w = seq![a, '.', b];
    assert(forall|i: int| 0 <= i < 1 ==> #[trigger] is_decimal_digit(w[i]));
    assert(seq![a, '.', b, c][2] == b);
}

} // verus!
