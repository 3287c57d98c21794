use adf_utils::media_converter::ffmpeg_program;
use adf_utils::media_converter::image_formats;
use adf_utils::media_converter::media_formats;
use adf_utils::media_converter::output_file;
use adf_utils::media_converter::MediaConverterTab;
use adf_utils::settings::AppSettings;
use adf_utils::settings::SettingsTab;

fn settings(ffmpeg: &str, format: &str, dir: &str) -> AppSettings {
    AppSettings { ffmpeg_path: ffmpeg.to_string(), output_format: format.to_string(), output_directory: dir.to_string() }
}

#[test]
fn format_menus() {
    assert_eq!(media_formats(), vec!["mp4", "mp3", "wav", "avi", "mkv"]);
    assert_eq!(image_formats(), vec!["png", "jpg", "jpeg", "ico", "bmp", "tiff", "webp"]);
}

#[test]
fn ffmpeg_defaults_to_path_lookup() {
    assert_eq!(ffmpeg_program(&settings("", "", "")), "ffmpeg");
    assert_eq!(ffmpeg_program(&settings("/opt/ff/ffmpeg", "", "")), "/opt/ff/ffmpeg");
    assert_eq!(output_file("/out", "output", "mkv"), "/out/output.mkv");
    assert_eq!(output_file("", "image_output", "png"), "/image_output.png");
}

#[test]
fn media_job_builds_ffmpeg_call() {
    let s = settings("", "mp3", "/music");
    let mut tab = MediaConverterTab::default();
    assert!(tab.media_job(&s).is_none());
    tab.fill_default_format(&s);
    assert_eq!(tab.output_format, "mp3");
    tab.output_format = "wav".to_string();
    tab.fill_default_format(&s);
    assert_eq!(tab.output_format, "wav");
    tab.input_path = Some("/in/song.flac".to_string());
    let job = tab.media_job(&s).unwrap();
    assert_eq!(job.program, "ffmpeg");
    assert_eq!(job.args, vec!["-i", "/in/song.flac", "/music/output.wav"]);
}

#[test]
fn image_job_asks_for_a_format() {
    let s = settings("ff", "", "/pics");
    let mut tab = MediaConverterTab::default();
    assert!(tab.image_job(&s).is_none());
    assert_eq!(tab.log, "");
    tab.image_input_path = Some("a.bmp".to_string());
    assert!(tab.image_job(&s).is_none());
    assert_eq!(tab.log, "Please select an image output format.");
    tab.image_output_format = "png".to_string();
    let job = tab.image_job(&s).unwrap();
    assert_eq!(job.program, "ff");
    assert_eq!(job.args, vec!["-i", "a.bmp", "/pics/image_output.png"]);
}

#[test]
fn job_outcome_fills_the_log() {
    let mut tab = MediaConverterTab::default();
    tab.finish_job(Ok("ffmpeg version 6".to_string()));
    assert_eq!(tab.log, "ffmpeg version 6");
    tab.finish_job(Err("No such file or directory (os error 2)".to_string()));
    assert_eq!(tab.log, "Error: No such file or directory (os error 2)");
}

#[test]
fn settings_fall_back_to_defaults() {
    let tab = SettingsTab::from_loaded(None);
    assert_eq!(tab.config.ffmpeg_path, "");
    assert_eq!(tab.config.output_format, "");
    assert_eq!(tab.config.output_directory, "");
    let tab = SettingsTab::from_loaded(Some(settings("f", "mp4", "/o")));
    assert_eq!(tab.config.output_format, "mp4");
}
