//! User settings and their defaults. Reading and writing the settings file
//! is left to the caller.
use vstd::prelude::*;
use vstd::string::StringExecFns;

verus! {

/// Interface language.
#[derive(Clone, Copy, Debug, PartialEq, Eq, Structural)]
pub enum Language {
    English,
    Japanese,
}

impl Language {
    /// Short code stored in the settings file.
    pub fn as_str(&self) -> (r: &'static str)
        ensures
            r@ == (match self {
                Language::English => seq!['e', 'n'],
                Language::Japanese => seq!['j', 'p'],
            }),
    {
        proof {
            reveal_strlit("en");
            reveal_strlit("jp");
        }
        match self {
            Language::English => "en",
            Language::Japanese => "jp",
        }
    }

    /// The other language.
    pub fn toggle(&self) -> (r: Language)
        ensures
            r == (match self {
                Language::English => Language::Japanese,
                Language::Japanese => Language::English,
            }),
    {
        match self {
            Language::English => Language::Japanese,
            Language::Japanese => Language::English,
        }
    }
}

impl Default for Language {
    fn default() -> (r: Language)
        ensures
            r == Language::English,
    {
        Language::English
    }
}

#[derive(Clone, Debug)]
pub struct GeneralConfig {
    pub language: Language,
}

impl Default for GeneralConfig {
    fn default() -> (r: GeneralConfig)
        ensures
            r.language == Language::English,
    {
        GeneralConfig { language: Language::English }
    }
}

#[derive(Clone, Debug)]
pub struct ArtworkConfig {
    pub enabled: bool,
    pub cache_size: usize,
    pub mode: String,
    pub album: bool,
    pub mosaic: bool,
}

#[derive(Clone, Debug)]
pub struct UIConfig {
    pub color_theme: String,
    pub show_help_on_start: bool,
}

#[derive(Clone, Debug)]
pub struct Config {
    pub artwork: ArtworkConfig,
    pub ui: UIConfig,
    pub general: GeneralConfig,
}

/// Value taken by `album` when the settings file leaves it out.
pub fn default_album() -> (r: bool)
    ensures
        r,
{
    true
}

/// Value taken by `mosaic` when the settings file leaves it out.
pub fn default_mosaic() -> (r: bool)
    ensures
        r,
{
    true
}

impl Default for Config {
    /// Artwork on, a memory cache of 100 images, terminal graphics detected
    /// automatically; the default theme with help shown at start; English.
    fn default() -> (r: Config)
        ensures
            r.artwork.enabled,
            r.artwork.cache_size == 100,
            r.artwork.mode@ == seq!['a', 'u', 't', 'o'],
            r.artwork.album,
            r.artwork.mosaic,
            r.ui.color_theme@ == seq!['d', 'e', 'f', 'a', 'u', 'l', 't'],
            r.ui.show_help_on_start,
            r.general.language == Language::English,
    {
        proof {
            reveal_strlit("auto");
            reveal_strlit("default");
        }
        Config {
            artwork: ArtworkConfig {
                enabled: true,
                cache_size: 100,
                mode: String::from_str("auto"),
                album: default_album(),
                mosaic: default_mosaic(),
            },
            ui: UIConfig {
                color_theme: String::from_str("default"),
                show_help_on_start: true,
            },
            general: GeneralConfig::default(),
        }
    }
}

} // verus!
