//! Configuration groups for the surrounding system, with the documented
//! default for every setting. Reading a configuration file stays with the
//! caller; the defaults and the grouped shapes live here.

use vstd::prelude::*;

use vstd::string::StringExecFns;

verus! {

/// Image-download settings.
pub struct ImageConfig {
    pub download_images: bool,
    pub download_preview_images: bool,
    pub media_center_type: String,
    pub timeout: u64,
}

/// Subtitle-file settings.
pub struct SubtitleConfig {
    pub migrate: bool,
    pub extensions: Vec<String>,
    pub language: String,
}

/// File-naming settings.
pub struct NamingConfig {
    pub template: String,
    pub multi_actor_strategy: String,
    pub capital: bool,
}

pub fn default_maximum_fetch_count() -> (r: usize)
    ensures
        r == 3,
{
    3
}

pub fn default_file_naming_template() -> (r: String)
    ensures
        r@ == "$series$/$title$ ($year$)"@,
{
    let mut s = String::new();
    s.append("$series$/$title$ ($year$)");
    s
}

pub fn default_multi_actor_strategy() -> (r: String)
    ensures
        r@ == "symlink"@,
{
    let mut s = String::new();
    s.append("symlink");
    s
}

pub fn default_subtitle_extensions() -> (r: Vec<String>)
    ensures
        r.deep_view() == seq!["srt"@, "ass"@, "ssa"@, "vtt"@, "sub"@, "idx"@],
{
    let mut v: Vec<String> = Vec::new();
    push_str(&mut v, "srt");
    push_str(&mut v, "ass");
    push_str(&mut v, "ssa");
    push_str(&mut v, "vtt");
    push_str(&mut v, "sub");
    push_str(&mut v, "idx");
    proof {
        assert(v.deep_view() =~= seq!["srt"@, "ass"@, "ssa"@, "vtt"@, "sub"@, "idx"@]);
    }
    v
}

fn push_str(v: &mut Vec<String>, s: &str)
    ensures
        final(v).deep_view() == old(v).deep_view().push(s@),
{
    let mut owned = String::new();
    owned.append(s);
    v.push(owned);
    proof {
        assert(final(v).deep_view() =~= old(v).deep_view().push(s@));
    }
}

pub fn default_subtitle_language() -> (r: String)
    ensures
        r@ == "zh-CN"@,
{
    let mut s = String::new();
    s.append("zh-CN");
    s
}

pub fn default_download_images() -> (r: bool)
    ensures
        r == true,
{
    true
}

pub fn default_download_preview_images() -> (r: bool)
    ensures
        r == false,
{
    false
}

pub fn default_media_center_type() -> (r: String)
    ensures
        r@ == "universal"@,
{
    let mut s = String::new();
    s.append("universal");
    s
}

pub fn default_image_download_timeout() -> (r: u64)
    ensures
        r == 30,
{
    30
}

pub fn default_enable_translation() -> (r: bool)
    ensures
        r == false,
{
    false
}

pub fn default_translation_provider() -> (r: String)
    ensures
        r@ == "openai"@,
{
    let mut s = String::new();
    s.append("openai");
    s
}

pub fn default_translation_api_key() -> (r: Option<String>)
    ensures
        r is None,
{
    None
}

pub fn default_translation_model() -> (r: String)
    ensures
        r@ == "gpt-3.5-turbo"@,
{
    let mut s = String::new();
    s.append("gpt-3.5-turbo");
    s
}

pub fn default_translation_target_language() -> (r: String)
    ensures
        r@ == "Chinese"@,
{
    let mut s = String::new();
    s.append("Chinese");
    s
}

pub fn default_translation_source_language() -> (r: Option<String>)
    ensures
        match r {
            Some(v) => v@ == "Japanese"@,
            None => false,
        },
{
    let mut s = String::new();
    s.append("Japanese");
    Some(s)
}

pub fn default_translation_max_tokens() -> (r: u32)
    ensures
        r == 1000,
{
    1000
}

pub fn default_translation_timeout() -> (r: u64)
    ensures
        r == 30,
{
    30
}

pub fn default_translation_retry_count() -> (r: u32)
    ensures
        r == 3,
{
    3
}

pub fn default_translate_tags() -> (r: bool)
    ensures
        r == true,
{
    true
}

pub fn default_enable_tag_merging() -> (r: bool)
    ensures
        r == true,
{
    true
}

pub fn default_migrate_subtitles() -> (r: bool)
    ensures
        r == true,
{
    true
}

pub fn default_enable_ai_tag_merging() -> (r: bool)
    ensures
        r == false,
{
    false
}

pub fn default_false() -> (r: bool)
    ensures
        r == false,
{
    false
}

impl Default for ImageConfig {
    fn default() -> (r: ImageConfig)
        ensures
            r.download_images == true,
            r.download_preview_images == false,
            r.media_center_type@ == "universal"@,
            r.timeout == 30,
    {
        ImageConfig {
            download_images: default_download_images(),
            download_preview_images: default_download_preview_images(),
            media_center_type: default_media_center_type(),
            timeout: default_image_download_timeout(),
        }
    }
}

impl Default for SubtitleConfig {
    fn default() -> (r: SubtitleConfig)
        ensures
            r.migrate == true,
            r.language@ == "zh-CN"@,
    {
        SubtitleConfig {
            migrate: default_migrate_subtitles(),
            extensions: default_subtitle_extensions(),
            language: default_subtitle_language(),
        }
    }
}

impl Default for NamingConfig {
    fn default() -> (r: NamingConfig)
        ensures
            r.template@ == "$series$/$title$ ($year$)"@,
            r.multi_actor_strategy@ == "symlink"@,
            r.capital == false,
    {
        NamingConfig {
            template: default_file_naming_template(),
            multi_actor_strategy: default_multi_actor_strategy(),
            capital: false,
        }
    }
}

} // verus!
