//! The settings shared by the tabs: where ffmpeg is, the default output
//! format and the output directory.

use vstd::prelude::*;

verus! {

/// The name under which the settings are stored.
pub const CONFIG_NAME: &'static str = "adfUtils";

/// The user's settings.
#[derive(Clone)]
pub struct AppSettings {
    pub ffmpeg_path: String,
    pub output_format: String,
    pub output_directory: String,
}

impl Default for AppSettings {
    fn default() -> (r: Self)
        ensures
            r.ffmpeg_path@ == Seq::<char>::empty(),
            r.output_format@ == Seq::<char>::empty(),
            r.output_directory@ == Seq::<char>::empty(),
    {
        AppSettings {
            ffmpeg_path: String::new(),
            output_format: String::new(),
            output_directory: String::new(),
        }
    }
}

/// The settings tab, holding the settings being edited.
pub struct SettingsTab {
    pub config: AppSettings,
}

impl Default for SettingsTab {
    fn default() -> (r: Self)
        ensures
            r.config.ffmpeg_path@ == Seq::<char>::empty(),
            r.config.output_format@ == Seq::<char>::empty(),
            r.config.output_directory@ == Seq::<char>::empty(),
    {
        SettingsTab { config: AppSettings::default() }
    }
}

impl SettingsTab {
    /// The tab for what was read from the stored settings: those settings,
    /// or the empty defaults when nothing could be read.
    pub fn from_loaded(loaded: Option<AppSettings>) -> (r: Self)
        ensures
            match loaded {
                Some(c) => r.config == c,
                None => {
                    &&& r.config.ffmpeg_path@ == Seq::<char>::empty()
                    &&& r.config.output_format@ == Seq::<char>::empty()
                    &&& r.config.output_directory@ == Seq::<char>::empty()
                },
            },
    {
        match loaded {
            Some(c) => SettingsTab { config: c },
            None => SettingsTab::default(),
        }
    }
}

} // verus!
