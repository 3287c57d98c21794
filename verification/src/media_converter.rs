//! The media converter: the ffmpeg command lines for converting a media
//! file and an image, and the log that their output fills.

use vstd::prelude::*;
use crate::settings::AppSettings;
use crate::text::owned;

verus! {

/// The output formats offered for media files.
pub open spec fn media_format_names() -> Seq<Seq<char>> {
    seq!["mp4"@, "mp3"@, "wav"@, "avi"@, "mkv"@]
}

/// The output formats offered for images.
pub open spec fn image_format_names() -> Seq<Seq<char>> {
    seq!["png"@, "jpg"@, "jpeg"@, "ico"@, "bmp"@, "tiff"@, "webp"@]
}

/// The views of a list of text slices.
pub open spec fn views_of(v: Seq<&str>) -> Seq<Seq<char>> {
    v.map_values(|s: &str| s@)
}

/// The views of a list of strings.
pub open spec fn string_views_of(v: Seq<String>) -> Seq<Seq<char>> {
    v.map_values(|s: String| s@)
}

/// The output formats offered for media files, in menu order.
pub fn media_formats() -> (r: Vec<&'static str>)
    ensures
        views_of(r@) == media_format_names(),
{
    let mut v: Vec<&'static str> = Vec::new();
    v.push("mp4");
    v.push("mp3");
    v.push("wav");
    v.push("avi");
    v.push("mkv");
    assert(views_of(v@) =~= media_format_names());
    v
}

/// The output formats offered for images, in menu order.
pub fn image_formats() -> (r: Vec<&'static str>)
    ensures
        views_of(r@) == image_format_names(),
{
    let mut v: Vec<&'static str> = Vec::new();
    v.push("png");
    v.push("jpg");
    v.push("jpeg");
    v.push("ico");
    v.push("bmp");
    v.push("tiff");
    v.push("webp");
    assert(views_of(v@) =~= image_format_names());
    v
}

/// The program that converts: the configured ffmpeg, or `ffmpeg` when
/// none is configured.
pub open spec fn ffmpeg_program_of(ffmpeg_path: Seq<char>) -> Seq<char> {
    if ffmpeg_path.len() == 0 {
        "ffmpeg"@
    } else {
        ffmpeg_path
    }
}

/// The program that converts, for the given settings.
pub fn ffmpeg_program(settings: &AppSettings) -> (r: String)
    ensures
        r@ == ffmpeg_program_of(settings.ffmpeg_path@),
        settings.ffmpeg_path@.len() == 0 ==> r@ == "ffmpeg"@,
        settings.ffmpeg_path@.len() > 0 ==> r@ == settings.ffmpeg_path@,
{
    if settings.ffmpeg_path.as_str().is_empty() {
        owned("ffmpeg")
    } else {
        settings.ffmpeg_path.clone()
    }
}

/// The file a conversion writes: `<dir>/<stem>.<format>`.
pub open spec fn output_file_of(dir: Seq<char>, stem: Seq<char>, format: Seq<char>) -> Seq<char> {
    dir + "/"@ + stem + "."@ + format
}

/// The file a conversion writes: `<dir>/<stem>.<format>`.
pub fn output_file(dir: &str, stem: &str, format: &str) -> (r: String)
    ensures
        r@ == output_file_of(dir@, stem@, format@),
        r@ == dir@ + "/"@ + stem@ + "."@ + format@,
{
    proof {
        lemma_output_file_is_joined(dir@, stem@, format@);
    }
    let mut s = owned(dir);
    s.append("/");
    s.append(stem);
    s.append(".");
    s.append(format);
    s
}

/// One run of ffmpeg: the program and its arguments.
pub struct ConvertJob {
    pub program: String,
    pub args: Vec<String>,
}

/// `job` runs the converter of `settings` on `input`, writing the file
/// `<output directory>/<stem>.<format>`: `-i <input> <output>`.
pub open spec fn is_convert_job(
    job: ConvertJob,
    settings: AppSettings,
    input: Seq<char>,
    stem: Seq<char>,
    format: Seq<char>,
) -> bool {
    &&& job.program@ == ffmpeg_program_of(settings.ffmpeg_path@)
    &&& string_views_of(job.args@) == seq![
        "-i"@,
        input,
        output_file_of(settings.output_directory@, stem, format),
    ]
}

fn convert_job(settings: &AppSettings, input: &str, stem: &str, format: &str) -> (r: ConvertJob)
    ensures
        is_convert_job(r, *settings, input@, stem@, format@),
        r.args@.len() == 3,
        r.args@[0]@ == "-i"@,
        r.args@[1]@ == input@,
        r.args@[2]@ == settings.output_directory@ + "/"@ + stem@ + "."@ + format@,
        settings.ffmpeg_path@.len() == 0 ==> r.program@ == "ffmpeg"@,
        settings.ffmpeg_path@.len() > 0 ==> r.program@ == settings.ffmpeg_path@,
{
    let mut args: Vec<String> = Vec::new();
    args.push(owned("-i"));
    args.push(owned(input));
    args.push(output_file(settings.output_directory.as_str(), stem, format));
    assert(string_views_of(args@) =~= seq![
        "-i"@,
        input@,
        output_file_of(settings.output_directory@, stem@, format@),
    ]);
    ConvertJob { program: ffmpeg_program(settings), args }
}

/// The name of the file a media conversion writes, before its extension.
pub const MEDIA_OUTPUT_STEM: &'static str = "output";

/// The name of the file an image conversion writes, before its extension.
pub const IMAGE_OUTPUT_STEM: &'static str = "image_output";

/// The message shown when an image is to be converted with no format
/// chosen.
pub const NO_IMAGE_FORMAT_MESSAGE: &'static str = "Please select an image output format.";

/// The media converter tab.
pub struct MediaConverterTab {
    pub input_path: Option<String>,
    pub output_format: String,
    pub log: String,
    pub image_input_path: Option<String>,
    pub image_output_format: String,
}

impl Default for MediaConverterTab {
    fn default() -> (r: Self)
        ensures
            r.input_path is None,
            r.output_format@ == Seq::<char>::empty(),
            r.log@ == Seq::<char>::empty(),
            r.image_input_path is None,
            r.image_output_format@ == Seq::<char>::empty(),
    {
        MediaConverterTab {
            input_path: None,
            output_format: String::new(),
            log: String::new(),
            image_input_path: None,
            image_output_format: String::new(),
        }
    }
}

impl MediaConverterTab {
    /// An empty media output format takes the default from the settings;
    /// a chosen one stays.
    pub fn fill_default_format(&mut self, settings: &AppSettings)
        ensures
            final(self).output_format@ == (if old(self).output_format@.len() == 0 {
                settings.output_format@
            } else {
                old(self).output_format@
            }),
            final(self).input_path == old(self).input_path,
            final(self).log == old(self).log,
            final(self).image_input_path == old(self).image_input_path,
            final(self).image_output_format == old(self).image_output_format,
    {
        if self.output_format.as_str().is_empty() {
            self.output_format = settings.output_format.clone();
        }
    }

    /// "Convert Media": the ffmpeg run that converts the selected media
    /// file to `<output directory>/output.<format>`, or `None` when no
    /// file is selected.
    pub fn media_job(&self, settings: &AppSettings) -> (r: Option<ConvertJob>)
        ensures
            match self.input_path {
                Some(input) => r matches Some(job) && is_convert_job(
                    job,
                    *settings,
                    input@,
                    MEDIA_OUTPUT_STEM@,
                    self.output_format@,
                ),
                None => r is None,
            },
            r matches Some(job) ==> job.args@.len() == 3 && job.args@[2]@
                == settings.output_directory@ + "/"@ + MEDIA_OUTPUT_STEM@ + "."@ + self.output_format@,
    {
        match &self.input_path {
            Some(input) => Some(
                convert_job(settings, input.as_str(), MEDIA_OUTPUT_STEM, self.output_format.as_str()),
            ),
            None => None,
        }
    }

    /// "Convert Image": the ffmpeg run that converts the selected image to
    /// `<output directory>/image_output.<format>`. With no image selected
    /// nothing happens; with no format chosen the log asks for one and
    /// nothing runs.
    pub fn image_job(&mut self, settings: &AppSettings) -> (r: Option<ConvertJob>)
        ensures
            final(self).input_path == old(self).input_path,
            final(self).output_format == old(self).output_format,
            final(self).image_input_path == old(self).image_input_path,
            final(self).image_output_format == old(self).image_output_format,
            match old(self).image_input_path {
                None => r is None && final(self).log == old(self).log,
                Some(input) => if old(self).image_output_format@.len() == 0 {
                    r is None && final(self).log@ == NO_IMAGE_FORMAT_MESSAGE@
                } else {
                    &&& final(self).log == old(self).log
                    &&& r matches Some(job)
                    &&& is_convert_job(
                        job,
                        *settings,
                        input@,
                        IMAGE_OUTPUT_STEM@,
                        old(self).image_output_format@,
                    )
                },
            },
            r matches Some(job) ==> job.args@.len() == 3 && job.args@[2]@
                == settings.output_directory@ + "/"@ + IMAGE_OUTPUT_STEM@ + "."@
                + old(self).image_output_format@,
    {
        match &self.image_input_path {
            None => None,
            Some(input) => {
                if self.image_output_format.as_str().is_empty() {
                    self.log = owned(NO_IMAGE_FORMAT_MESSAGE);
                    None
                } else {
                    Some(
                        convert_job(
                            settings,
                            input.as_str(),
                            IMAGE_OUTPUT_STEM,
                            self.image_output_format.as_str(),
                        ),
                    )
                }
            },
        }
    }

    /// A run of ffmpeg ended: what it wrote to its error stream becomes the
    /// log; when it could not be started, the log says `Error: ` and why.
    pub fn finish_job(&mut self, outcome: Result<String, String>)
        ensures
            final(self).log@ == match outcome {
                Ok(text) => text@,
                Err(e) => "Error: "@ + e@,
            },
            final(self).input_path == old(self).input_path,
            final(self).output_format == old(self).output_format,
            final(self).image_input_path == old(self).image_input_path,
            final(self).image_output_format == old(self).image_output_format,
    {
        match outcome {
            Ok(text) => {
                self.log = text;
            },
            Err(e) => {
                let mut s = owned("Error: ");
                s.append(e.as_str());
                self.log = s;
            },
        }
    }
}

/// The file a conversion writes is the output directory, a slash, the
/// stem, a dot and the format, joined with nothing added or removed.
pub proof fn lemma_output_file_is_joined(dir: Seq<char>, stem: Seq<char>, format: Seq<char>)
    ensures
        output_file_of(dir, stem, format) == dir + "/"@ + stem + "."@ + format,
        output_file_of(dir, stem, format).len() == dir.len() + stem.len() + format.len() + 2,
{
    reveal_strlit("/");
    reveal_strlit(".");
}

/// The third argument of a conversion run is the output file, the
/// directory, `/`, the stem, `.` and the format joined as they are; the
/// first two are `-i` and the input.
pub proof fn lemma_convert_job_writes_joined_path(
    job: ConvertJob,
    settings: AppSettings,
    input: Seq<char>,
    stem: Seq<char>,
    format: Seq<char>,
)
    requires
        is_convert_job(job, settings, input, stem, format),
    ensures
        job.args@.len() == 3,
        job.args@[0]@ == "-i"@,
        job.args@[1]@ == input,
        job.args@[2]@ == settings.output_directory@ + "/"@ + stem + "."@ + format,
{
    lemma_output_file_is_joined(settings.output_directory@, stem, format);
    let v = string_views_of(job.args@);
    assert(v.len() == 3);
    assert(v[0] == job.args@[0]@);
    assert(v[1] == job.args@[1]@);
    assert(v[2] == job.args@[2]@);
}

/// A conversion runs the configured ffmpeg, or the program named `ffmpeg`
/// when none is configured.
pub proof fn lemma_convert_job_program(
    job: ConvertJob,
    settings: AppSettings,
    input: Seq<char>,
    stem: Seq<char>,
    format: Seq<char>,
)
    requires
        is_convert_job(job, settings, input, stem, format),
    ensures
        settings.ffmpeg_path@.len() == 0 ==> job.program@ == "ffmpeg"@,
        settings.ffmpeg_path@.len() > 0 ==> job.program@ == settings.ffmpeg_path@,
{
}

} // verus!
