//! What a recording is encoded with: the choices that take effect for the
//! selected format, how they are described, and the encoder commands made of
//! them.
use vstd::prelude::*;
use crate::number::{nat_text, u64_text};
use crate::settings::{
    avi_codec_options, avi_pixel_format_for, compatibility_options, dnxhr_profile_options,
    encoder_preset_options, h264_profile_for, pixel_format_options, profile_for, AppSettings,
};
use crate::text::{begins_with, contains_text, has_text, same_text, starts_with};

verus! {

/// Why encoding choices cannot be used. The parameter is the kind of text that
/// names the choice.
#[derive(Clone, Debug, PartialEq, Eq)]
pub enum EncodingFault<T> {
    AacBitrate(u32),
    VideoCodec(T),
    AudioCodec(T),
    PixelFormat(T),
    ProfileMismatch { pixel_format: T, profile: T },
    Crf,
    EncoderPreset(T),
    Compatibility(T),
    Ffv1PixelFormat(T),
    HuffYuvPixelFormat(T),
    AviCodec(T),
    AviNativeFormat { codec: T, pixel_format: T },
    DnxhrProfile(T),
}

/// Why the encoding choices of some settings cannot be used.
pub type EncodingError = EncodingFault<String>;

impl EncodingFault<String> {
    /// The fault with what its texts hold.
    pub open spec fn model(&self) -> EncodingFault<Seq<char>> {
        match *self {
            EncodingFault::AacBitrate(v) => EncodingFault::AacBitrate(v),
            EncodingFault::VideoCodec(t) => EncodingFault::VideoCodec(t@),
            EncodingFault::AudioCodec(t) => EncodingFault::AudioCodec(t@),
            EncodingFault::PixelFormat(t) => EncodingFault::PixelFormat(t@),
            EncodingFault::ProfileMismatch { pixel_format, profile } =>
                EncodingFault::ProfileMismatch { pixel_format: pixel_format@, profile: profile@ },
            EncodingFault::Crf => EncodingFault::Crf,
            EncodingFault::EncoderPreset(t) => EncodingFault::EncoderPreset(t@),
            EncodingFault::Compatibility(t) => EncodingFault::Compatibility(t@),
            EncodingFault::Ffv1PixelFormat(t) => EncodingFault::Ffv1PixelFormat(t@),
            EncodingFault::HuffYuvPixelFormat(t) => EncodingFault::HuffYuvPixelFormat(t@),
            EncodingFault::AviCodec(t) => EncodingFault::AviCodec(t@),
            EncodingFault::AviNativeFormat { codec, pixel_format } =>
                EncodingFault::AviNativeFormat { codec: codec@, pixel_format: pixel_format@ },
            EncodingFault::DnxhrProfile(t) => EncodingFault::DnxhrProfile(t@),
        }
    }

    /// The fault in words.
    pub fn message(&self) -> (out: String)
        ensures
            out@ == self.model().words(),
    {
        match self {
            EncodingFault::AacBitrate(value) => {
                let mut out = "unsupported AAC bitrate: ".to_owned();
                out.append(u64_text(*value as u64).as_str());
                out.append(" kbps");
                out
            },
            EncodingFault::VideoCodec(value) => {
                let mut out = "unsupported MP4 video codec: ".to_owned();
                out.append(value.as_str());
                out
            },
            EncodingFault::AudioCodec(value) => {
                let mut out = "unsupported MP4 audio codec: ".to_owned();
                out.append(value.as_str());
                out
            },
            EncodingFault::PixelFormat(value) => {
                let mut out = "unsupported MP4 pixel format: ".to_owned();
                out.append(value.as_str());
                out
            },
            EncodingFault::ProfileMismatch { pixel_format, profile } => {
                let mut out = pixel_format.as_str().to_owned();
                out.append(" requires the ");
                out.append(profile.as_str());
                out.append(" H.264 profile");
                out
            },
            EncodingFault::Crf => {
                "MP4 CRF must be between 0 and 35".to_owned()
            },
            EncodingFault::EncoderPreset(value) => {
                let mut out = "unsupported x264 encoder preset: ".to_owned();
                out.append(value.as_str());
                out
            },
            EncodingFault::Compatibility(value) => {
                let mut out = "unsupported MP4 compatibility preset: ".to_owned();
                out.append(value.as_str());
                out
            },
            EncodingFault::Ffv1PixelFormat(value) => {
                let mut out = "unsupported FFV1 pixel format: ".to_owned();
                out.append(value.as_str());
                out
            },
            EncodingFault::HuffYuvPixelFormat(value) => {
                let mut out = "unsupported HuffYUV pixel format: ".to_owned();
                out.append(value.as_str());
                out
            },
            EncodingFault::AviCodec(value) => {
                let mut out = "unsupported AVI video codec: ".to_owned();
                out.append(value.as_str());
                out
            },
            EncodingFault::AviNativeFormat { codec, pixel_format } => {
                let mut out = codec.as_str().to_owned();
                out.append(" requires the ");
                out.append(pixel_format.as_str());
                out.append(" pixel format");
                out
            },
            EncodingFault::DnxhrProfile(value) => {
                let mut out = "unsupported DNxHR profile: ".to_owned();
                out.append(value.as_str());
                out
            },
        }
    }
}

impl EncodingFault<Seq<char>> {
    /// The fault in words.
    pub open spec fn words(self) -> Seq<char> {
        match self {
            EncodingFault::AacBitrate(value) => {
                "unsupported AAC bitrate: "@
                    + nat_text(value as nat)
                    + " kbps"@
            },
            EncodingFault::VideoCodec(value) => {
                "unsupported MP4 video codec: "@
                    + value
            },
            EncodingFault::AudioCodec(value) => {
                "unsupported MP4 audio codec: "@
                    + value
            },
            EncodingFault::PixelFormat(value) => {
                "unsupported MP4 pixel format: "@
                    + value
            },
            EncodingFault::ProfileMismatch { pixel_format, profile } => {
                pixel_format
                    + " requires the "@
                    + profile
                    + " H.264 profile"@
            },
            EncodingFault::Crf => {
                "MP4 CRF must be between 0 and 35"@
            },
            EncodingFault::EncoderPreset(value) => {
                "unsupported x264 encoder preset: "@
                    + value
            },
            EncodingFault::Compatibility(value) => {
                "unsupported MP4 compatibility preset: "@
                    + value
            },
            EncodingFault::Ffv1PixelFormat(value) => {
                "unsupported FFV1 pixel format: "@
                    + value
            },
            EncodingFault::HuffYuvPixelFormat(value) => {
                "unsupported HuffYUV pixel format: "@
                    + value
            },
            EncodingFault::AviCodec(value) => {
                "unsupported AVI video codec: "@
                    + value
            },
            EncodingFault::AviNativeFormat { codec, pixel_format } => {
                codec
                    + " requires the "@
                    + pixel_format
                    + " pixel format"@
            },
            EncodingFault::DnxhrProfile(value) => {
                "unsupported DNxHR profile: "@
                    + value
            },
        }
    }
}

/// The MP4 encoding that takes effect.
#[derive(Clone, Debug, PartialEq, Eq)]
pub struct EffectiveMp4Encoding<T> {
    pub compatibility: T,
    pub video_codec: T,
    pub pixel_format: T,
    pub h264_profile: T,
    pub ffmpeg_profile: T,
    pub crf: Option<u8>,
    pub encoder_preset: Option<T>,
    pub audio_codec: T,
    pub audio_bitrate_kbps: u32,
    pub custom_hlae_preset: bool,
}

/// The AVI encoding that takes effect.
#[derive(Clone, Debug, PartialEq, Eq)]
pub struct EffectiveAviEncoding<T> {
    pub display_codec: T,
    pub ffmpeg_codec: Option<T>,
    pub pixel_format: T,
    pub custom_hlae_preset: bool,
}

/// The DNxHR encoding that takes effect.
#[derive(Clone, Debug, PartialEq, Eq)]
pub struct EffectiveDnxhrEncoding<T> {
    pub profile: T,
    pub ffmpeg_profile: T,
    pub pixel_format: T,
    pub bit_depth: u8,
}

/// How a command starts that registers an encoder under a name, up to its codec.
#[verifier::opaque]
pub open spec fn encoder_head(name: Seq<char>) -> Seq<char> {
    "mirv_streams settings add ffmpegEx "@ + name + " \"{QUOTE}"@ + "{FFMPEG_PATH}"@ + "{QUOTE}"@
        + " -f rawvideo -pixel_format {PIXEL_FORMAT} -loglevel repeat+level+warning -framerate {FRAMERATE} -video_size {WIDTH}x{HEIGHT} -i pipe:0 -vf setsar=sar=1/1 -c:v "@
}

fn write_head(name: &str) -> (out: String)
    ensures
        out@ == encoder_head(name@),
{
    proof {
        reveal(encoder_head);
    }
    let mut out = "mirv_streams settings add ffmpegEx ".to_owned();
    out.append(name);
    out.append(" \"{QUOTE}");
    out.append("{FFMPEG_PATH}");
    out.append("{QUOTE}");
    out.append(
        " -f rawvideo -pixel_format {PIXEL_FORMAT} -loglevel repeat+level+warning -framerate {FRAMERATE} -video_size {WIDTH}x{HEIGHT} -i pipe:0 -vf setsar=sar=1/1 -c:v ",
    );
    out
}

/// What an optional text holds.
pub open spec fn optional(text: Option<String>) -> Option<Seq<char>> {
    match text {
        Some(t) => Some(t@),
        None => None,
    }
}

impl EffectiveMp4Encoding<Seq<char>> {
    /// The encoding as it is shown to the user.
    pub open spec fn summary_text(self, resolution: Seq<char>, fps: nat) -> Seq<char> {
        let quality = match (self.crf, self.encoder_preset) {
            (Some(crf), Some(preset)) => {
                "Quality: CRF "@
                    + nat_text(crf as nat)
                    + "\nEncoder Preset: "@
                    + preset
            },
            _ => "Quality: Existing HLAE afxFfmpeg preset"@,
        };
        "Video Encoding\n"@
            + self.video_codec
            + " / "@
            + self.h264_profile
            + "\n"@
            + resolution
            + " @ "@
            + nat_text(fps)
            + " FPS\nPixel Format: "@
            + self.pixel_format
            + "\n"@
            + quality
            + "\nAudio: "@
            + self.audio_codec
            + " "@
            + nat_text(self.audio_bitrate_kbps as nat)
            + " kbps\nCompatibility: "@
            + self.compatibility
    }

    /// The encoding as it is logged.
    pub open spec fn diagnostic_text(self) -> Seq<char> {
        let quality = match (self.crf, self.encoder_preset) {
            (Some(crf), Some(preset)) => {
                "[Recording] CRF: "@
                    + nat_text(crf as nat)
                    + "\n[Recording] Preset: "@
                    + preset
            },
            _ => "[Recording] Quality: existing HLAE afxFfmpeg preset"@,
        };
        "[Recording] Encoder: libx264\n[Recording] H.264 Profile: "@
            + self.ffmpeg_profile
            + "\n[Recording] Pixel Format: "@
            + self.pixel_format
            + "\n"@
            + quality
            + "\n[Recording] Audio: AAC "@
            + nat_text(self.audio_bitrate_kbps as nat)
            + "k\n[Recording] Compatibility: "@
            + self.compatibility
    }

    /// The command that registers the encoder, where the stock one is not used.
    pub open spec fn preset_command(self) -> Option<Seq<char>> {
        match (self.crf, self.encoder_preset) {
            (Some(crf), Some(preset)) if self.custom_hlae_preset => Some(
                encoder_head("tf2FragMp4"@) + "libx264 -preset "@
                    + preset
                    + " -crf "@
                    + nat_text(crf as nat)
                    + " -pix_fmt "@
                    + self.pixel_format
                    + " -profile:v "@
                    + self.ffmpeg_profile
                    + " {QUOTE}{AFX_STREAM_PATH}\\\\video.mp4{QUOTE}\""@,
            ),
            _ => None,
        }
    }
}

impl EffectiveMp4Encoding<String> {
    /// The encoding with what its texts hold.
    pub open spec fn model(&self) -> EffectiveMp4Encoding<Seq<char>> {
        EffectiveMp4Encoding {
            compatibility: self.compatibility@,
            video_codec: self.video_codec@,
            pixel_format: self.pixel_format@,
            h264_profile: self.h264_profile@,
            ffmpeg_profile: self.ffmpeg_profile@,
            crf: self.crf,
            encoder_preset: optional(self.encoder_preset),
            audio_codec: self.audio_codec@,
            audio_bitrate_kbps: self.audio_bitrate_kbps,
            custom_hlae_preset: self.custom_hlae_preset,
        }
    }

    /// The encoding as it is shown to the user.
    pub fn summary(&self, resolution: &str, fps: u32) -> (out: String)
        ensures
            out@ == self.model().summary_text(resolution@, fps as nat),
    {
        let quality = match (self.crf, &self.encoder_preset) {
            (Some(crf), Some(preset)) => {
                let mut text = "Quality: CRF ".to_owned();
                text.append(u64_text(crf as u64).as_str());
                text.append("\nEncoder Preset: ");
                text.append(preset.as_str());
                text
            },
            _ => "Quality: Existing HLAE afxFfmpeg preset".to_owned(),
        };
        let mut out = "Video Encoding\n".to_owned();
        out.append(self.video_codec.as_str());
        out.append(" / ");
        out.append(self.h264_profile.as_str());
        out.append("\n");
        out.append(resolution);
        out.append(" @ ");
        out.append(u64_text(fps as u64).as_str());
        out.append(" FPS\nPixel Format: ");
        out.append(self.pixel_format.as_str());
        out.append("\n");
        out.append(quality.as_str());
        out.append("\nAudio: ");
        out.append(self.audio_codec.as_str());
        out.append(" ");
        out.append(u64_text(self.audio_bitrate_kbps as u64).as_str());
        out.append(" kbps\nCompatibility: ");
        out.append(self.compatibility.as_str());
        out
    }

    /// The encoding as it is logged.
    pub fn diagnostic(&self) -> (out: String)
        ensures
            out@ == self.model().diagnostic_text(),
    {
        let quality = match (self.crf, &self.encoder_preset) {
            (Some(crf), Some(preset)) => {
                let mut text = "[Recording] CRF: ".to_owned();
                text.append(u64_text(crf as u64).as_str());
                text.append("\n[Recording] Preset: ");
                text.append(preset.as_str());
                text
            },
            _ => "[Recording] Quality: existing HLAE afxFfmpeg preset".to_owned(),
        };
        let mut out = "[Recording] Encoder: libx264\n[Recording] H.264 Profile: ".to_owned();
        out.append(self.ffmpeg_profile.as_str());
        out.append("\n[Recording] Pixel Format: ");
        out.append(self.pixel_format.as_str());
        out.append("\n");
        out.append(quality.as_str());
        out.append("\n[Recording] Audio: AAC ");
        out.append(u64_text(self.audio_bitrate_kbps as u64).as_str());
        out.append("k\n[Recording] Compatibility: ");
        out.append(self.compatibility.as_str());
        out
    }
}

impl EffectiveAviEncoding<Seq<char>> {
    /// The encoding as it is shown to the user.
    pub open spec fn summary_text(self, resolution: Seq<char>, fps: nat) -> Seq<char> {
        "Video Encoding\nAVI / "@
            + self.display_codec
            + "\n"@
            + resolution
            + " @ "@
            + nat_text(fps)
            + " FPS\nPixel Format: "@
            + self.pixel_format
            + "\nAudio: PCM 16-bit"@
    }

    /// The encoding as it is logged.
    pub open spec fn diagnostic_text(self) -> Seq<char> {
        let codec = match self.ffmpeg_codec {
            Some(codec) => codec,
            None => "existing HLAE afxFfmpegRaw preset"@,
        };
        "[Recording] Container: AVI\n[Recording] Encoder: "@
            + codec
            + "\n[Recording] Pixel Format: "@
            + self.pixel_format
            + "\n[Recording] Audio: PCM s16le"@
    }

    /// The command that registers the encoder, where the stock one is not used.
    pub open spec fn preset_command(self) -> Option<Seq<char>> {
        match self.ffmpeg_codec {
            Some(codec) if self.custom_hlae_preset => {
                let options = if codec == "ffv1"@ {
                    " -level 3 -coder range_tab -context 1 -slicecrc 1"@
                } else {
                    ""@
                };
                Some(
                    encoder_head("tf2FragAvi"@)
                        + codec
                        + options
                        + " -pix_fmt "@
                        + self.pixel_format
                        + " {QUOTE}{AFX_STREAM_PATH}\\\\video.avi{QUOTE}\""@,
                )
            },
            _ => None,
        }
    }
}

impl EffectiveAviEncoding<String> {
    /// The encoding with what its texts hold.
    pub open spec fn model(&self) -> EffectiveAviEncoding<Seq<char>> {
        EffectiveAviEncoding {
            display_codec: self.display_codec@,
            ffmpeg_codec: optional(self.ffmpeg_codec),
            pixel_format: self.pixel_format@,
            custom_hlae_preset: self.custom_hlae_preset,
        }
    }

    /// The encoding as it is shown to the user.
    pub fn summary(&self, resolution: &str, fps: u32) -> (out: String)
        ensures
            out@ == self.model().summary_text(resolution@, fps as nat),
    {
        let mut out = "Video Encoding\nAVI / ".to_owned();
        out.append(self.display_codec.as_str());
        out.append("\n");
        out.append(resolution);
        out.append(" @ ");
        out.append(u64_text(fps as u64).as_str());
        out.append(" FPS\nPixel Format: ");
        out.append(self.pixel_format.as_str());
        out.append("\nAudio: PCM 16-bit");
        out
    }

    /// The encoding as it is logged.
    pub fn diagnostic(&self) -> (out: String)
        ensures
            out@ == self.model().diagnostic_text(),
    {
        let codec = match &self.ffmpeg_codec {
            Some(codec) => codec.clone(),
            None => "existing HLAE afxFfmpegRaw preset".to_owned(),
        };
        let mut out = "[Recording] Container: AVI\n[Recording] Encoder: ".to_owned();
        out.append(codec.as_str());
        out.append("\n[Recording] Pixel Format: ");
        out.append(self.pixel_format.as_str());
        out.append("\n[Recording] Audio: PCM s16le");
        out
    }
}

impl EffectiveDnxhrEncoding<Seq<char>> {
    /// The encoding as it is shown to the user.
    pub open spec fn summary_text(self, resolution: Seq<char>, fps: nat) -> Seq<char> {
        "Video Encoding\nAvid DNxHR "@
            + self.profile
            + " / MOV\n"@
            + resolution
            + " @ "@
            + nat_text(fps)
            + " FPS\nPixel Format: "@
            + self.pixel_format
            + " ("@
            + nat_text(self.bit_depth as nat)
            + "-bit)\nAudio: PCM 16-bit\nEditing intermediate: very large files"@
    }

    /// The encoding as it is logged.
    pub open spec fn diagnostic_text(self) -> Seq<char> {
        "[Recording] Container: MOV\n[Recording] Encoder: dnxhd\n[Recording] DNxHR Profile: "@
            + self.ffmpeg_profile
            + "\n[Recording] Pixel Format: "@
            + self.pixel_format
            + " ("@
            + nat_text(self.bit_depth as nat)
            + "-bit)\n[Recording] Audio: PCM s16le"@
    }

    /// The command that registers the encoder.
    pub open spec fn preset_command(self) -> Seq<char> {
        encoder_head("tf2FragDnxhr"@) + "dnxhd -profile:v "@
            + self.ffmpeg_profile
            + " -pix_fmt "@
            + self.pixel_format
            + " {QUOTE}{AFX_STREAM_PATH}\\\\video.mov{QUOTE}\""@
    }
}

impl EffectiveDnxhrEncoding<String> {
    /// The encoding with what its texts hold.
    pub open spec fn model(&self) -> EffectiveDnxhrEncoding<Seq<char>> {
        EffectiveDnxhrEncoding {
            profile: self.profile@,
            ffmpeg_profile: self.ffmpeg_profile@,
            pixel_format: self.pixel_format@,
            bit_depth: self.bit_depth,
        }
    }

    /// The encoding as it is shown to the user.
    pub fn summary(&self, resolution: &str, fps: u32) -> (out: String)
        ensures
            out@ == self.model().summary_text(resolution@, fps as nat),
    {
        let mut out = "Video Encoding\nAvid DNxHR ".to_owned();
        out.append(self.profile.as_str());
        out.append(" / MOV\n");
        out.append(resolution);
        out.append(" @ ");
        out.append(u64_text(fps as u64).as_str());
        out.append(" FPS\nPixel Format: ");
        out.append(self.pixel_format.as_str());
        out.append(" (");
        out.append(u64_text(self.bit_depth as u64).as_str());
        out.append("-bit)\nAudio: PCM 16-bit\nEditing intermediate: very large files");
        out
    }

    /// The encoding as it is logged.
    pub fn diagnostic(&self) -> (out: String)
        ensures
            out@ == self.model().diagnostic_text(),
    {
        let mut out = "[Recording] Container: MOV\n[Recording] Encoder: dnxhd\n[Recording] DNxHR Profile: ".to_owned();
        out.append(self.ffmpeg_profile.as_str());
        out.append("\n[Recording] Pixel Format: ");
        out.append(self.pixel_format.as_str());
        out.append(" (");
        out.append(u64_text(self.bit_depth as u64).as_str());
        out.append("-bit)\n[Recording] Audio: PCM s16le");
        out
    }
}

/// The command that registers the MP4 encoder, where the stock one is not used.
pub fn hlae_custom_mp4_preset_command(encoding: &EffectiveMp4Encoding<String>) -> (out: Option<
    String,
>)
    ensures
        optional(out) == encoding.model().preset_command(),
{
    match (encoding.crf, &encoding.encoder_preset) {
        (Some(crf), Some(preset)) => {
            if !encoding.custom_hlae_preset {
                return None;
            }
            let mut out = write_head("tf2FragMp4");
            out.append("libx264 -preset ");
            out.append(preset.as_str());
            out.append(" -crf ");
            out.append(u64_text(crf as u64).as_str());
            out.append(" -pix_fmt ");
            out.append(encoding.pixel_format.as_str());
            out.append(" -profile:v ");
            out.append(encoding.ffmpeg_profile.as_str());
            out.append(" {QUOTE}{AFX_STREAM_PATH}\\\\video.mp4{QUOTE}\"");
            Some(out)
        },
        _ => None,
    }
}

/// The command that registers the AVI encoder, where the stock one is not used.
pub fn hlae_custom_avi_preset_command(encoding: &EffectiveAviEncoding<String>) -> (out: Option<
    String,
>)
    ensures
        optional(out) == encoding.model().preset_command(),
{
    match &encoding.ffmpeg_codec {
        Some(codec) => {
            if !encoding.custom_hlae_preset {
                return None;
            }
            let options = if same_text(codec.as_str(), "ffv1") {
                " -level 3 -coder range_tab -context 1 -slicecrc 1"
            } else {
                ""
            };
            let mut out = write_head("tf2FragAvi");
            out.append(codec.as_str());
            out.append(options);
            out.append(" -pix_fmt ");
            out.append(encoding.pixel_format.as_str());
            out.append(" {QUOTE}{AFX_STREAM_PATH}\\\\video.avi{QUOTE}\"");
            Some(out)
        },
        None => None,
    }
}

/// The command that registers the DNxHR encoder.
pub fn hlae_custom_dnxhr_preset_command(encoding: &EffectiveDnxhrEncoding<String>) -> (out: String)
    ensures
        out@ == encoding.model().preset_command(),
{
    let mut out = write_head("tf2FragDnxhr");
    out.append("dnxhd -profile:v ");
    out.append(encoding.ffmpeg_profile.as_str());
    out.append(" -pix_fmt ");
    out.append(encoding.pixel_format.as_str());
    out.append(" {QUOTE}{AFX_STREAM_PATH}\\\\video.mov{QUOTE}\"");
    out
}

// ---------------------------------------------------------------------------
// What takes effect
// ---------------------------------------------------------------------------

/// Whether a format is an MP4 format with lossy compression.
pub open spec fn lossy_mp4(format: Seq<char>) -> bool {
    begins_with(format, "MP4"@) && !has_text(format, "Lossless"@)
}

/// The name that FFmpeg gives to the profile of a pixel format.
pub open spec fn ffmpeg_profile_for(pixel_format: Seq<char>) -> Seq<char> {
    if pixel_format == "yuv422p"@ {
        "high422"@
    } else if pixel_format == "yuv444p"@ {
        "high444"@
    } else {
        "high"@
    }
}

/// The encoding with its quality fixed by constant rate factor and preset.
pub open spec fn rate_factor_encoding(
    compatibility: Seq<char>,
    pixel_format: Seq<char>,
    crf: u8,
    preset: Seq<char>,
    bitrate: u32,
) -> EffectiveMp4Encoding<Seq<char>> {
    EffectiveMp4Encoding {
        compatibility,
        video_codec: "H.264 / libx264"@,
        pixel_format,
        h264_profile: profile_for(pixel_format),
        ffmpeg_profile: ffmpeg_profile_for(pixel_format),
        crf: Some(crf),
        encoder_preset: Some(preset),
        audio_codec: "AAC"@,
        audio_bitrate_kbps: bitrate,
        custom_hlae_preset: true,
    }
}

/// The MP4 encoding that takes effect: none unless the format is a lossy MP4.
pub open spec fn mp4_encoding(settings: AppSettings) -> Result<
    Option<EffectiveMp4Encoding<Seq<char>>>,
    EncodingFault<Seq<char>>,
> {
    let bitrate = settings.mp4_audio_bitrate_kbps;
    let compatibility = settings.mp4_compatibility@;
    let pixel_format = settings.mp4_pixel_format@;
    if !lossy_mp4(settings.recording_format@) {
        Ok(None)
    } else if bitrate != 192 && bitrate != 256 && bitrate != 320 {
        Err(EncodingFault::AacBitrate(bitrate))
    } else if compatibility == "Maximum Color Quality"@ {
        Ok(
            Some(
                EffectiveMp4Encoding {
                    compatibility,
                    video_codec: "H.264 / libx264"@,
                    pixel_format: "yuv444p"@,
                    h264_profile: "High 4:4:4 Predictive"@,
                    ffmpeg_profile: "high444"@,
                    crf: None,
                    encoder_preset: None,
                    audio_codec: "AAC"@,
                    audio_bitrate_kbps: bitrate,
                    custom_hlae_preset: false,
                },
            ),
        )
    } else if compatibility == "Custom"@ {
        if settings.mp4_video_codec@ != "H.264 / libx264"@ {
            Err(EncodingFault::VideoCodec(settings.mp4_video_codec@))
        } else if settings.mp4_audio_codec@ != "AAC"@ {
            Err(EncodingFault::AudioCodec(settings.mp4_audio_codec@))
        } else if pixel_format != "yuv420p"@ && pixel_format != "yuv422p"@ && pixel_format
            != "yuv444p"@ {
            Err(EncodingFault::PixelFormat(pixel_format))
        } else if settings.mp4_h264_profile@ != profile_for(pixel_format) {
            Err(EncodingFault::ProfileMismatch { pixel_format, profile: profile_for(pixel_format) })
        } else if settings.mp4_crf > 35 {
            Err(EncodingFault::Crf)
        } else if !offered_preset(settings.mp4_encoder_preset@) {
            Err(EncodingFault::EncoderPreset(settings.mp4_encoder_preset@))
        } else {
            Ok(
                Some(
                    rate_factor_encoding(
                        compatibility,
                        pixel_format,
                        settings.mp4_crf,
                        settings.mp4_encoder_preset@,
                        bitrate,
                    ),
                ),
            )
        }
    } else if compatibility == "DaVinci Resolve / Universal"@ {
        Ok(Some(rate_factor_encoding(compatibility, "yuv420p"@, 18, "medium"@, bitrate)))
    } else {
        Err(EncodingFault::Compatibility(compatibility))
    }
}

/// Whether an x264 preset is one of those offered.
pub open spec fn offered_preset(preset: Seq<char>) -> bool {
    preset == "veryfast"@ || preset == "faster"@ || preset == "fast"@ || preset == "medium"@
        || preset == "slow"@ || preset == "slower"@
}

/// The AVI encoding that takes effect: none unless the format is AVI.
pub open spec fn avi_encoding(settings: AppSettings) -> Result<
    Option<EffectiveAviEncoding<Seq<char>>>,
    EncodingFault<Seq<char>>,
> {
    let codec = settings.avi_video_codec@;
    let pixel_format = settings.avi_pixel_format@;
    if settings.recording_format@ != "AVI - Raw"@ {
        Ok(None)
    } else if codec == "Original HLAE Raw"@ {
        if pixel_format != "HLAE Native"@ {
            Err(EncodingFault::AviNativeFormat { codec, pixel_format: "HLAE Native"@ })
        } else {
            Ok(
                Some(
                    EffectiveAviEncoding {
                        display_codec: "Uncompressed Raw (original preset)"@,
                        ffmpeg_codec: None,
                        pixel_format: "HLAE Native"@,
                        custom_hlae_preset: false,
                    },
                ),
            )
        }
    } else if codec == "FFV1 Lossless"@ {
        if pixel_format != "bgr0"@ && pixel_format != "yuv422p"@ && pixel_format != "yuv444p"@ {
            Err(EncodingFault::Ffv1PixelFormat(pixel_format))
        } else {
            Ok(
                Some(
                    EffectiveAviEncoding {
                        display_codec: "FFV1 Lossless"@,
                        ffmpeg_codec: Some("ffv1"@),
                        pixel_format,
                        custom_hlae_preset: true,
                    },
                ),
            )
        }
    } else if codec == "HuffYUV Lossless"@ {
        if pixel_format != "rgb24"@ && pixel_format != "yuv422p"@ {
            Err(EncodingFault::HuffYuvPixelFormat(pixel_format))
        } else {
            Ok(
                Some(
                    EffectiveAviEncoding {
                        display_codec: "HuffYUV Lossless"@,
                        ffmpeg_codec: Some("huffyuv"@),
                        pixel_format,
                        custom_hlae_preset: true,
                    },
                ),
            )
        }
    } else {
        Err(EncodingFault::AviCodec(codec))
    }
}

/// The FFmpeg profile, pixel format and bit depth of a DNxHR profile.
pub open spec fn dnxhr_traits(profile: Seq<char>) -> Option<(Seq<char>, Seq<char>, u8)> {
    if profile == "LB"@ {
        Some(("dnxhr_lb"@, "yuv422p"@, 8u8))
    } else if profile == "SQ"@ {
        Some(("dnxhr_sq"@, "yuv422p"@, 8u8))
    } else if profile == "HQ"@ {
        Some(("dnxhr_hq"@, "yuv422p"@, 8u8))
    } else if profile == "HQX"@ {
        Some(("dnxhr_hqx"@, "yuv422p10le"@, 10u8))
    } else if profile == "444"@ {
        Some(("dnxhr_444"@, "gbrp10le"@, 10u8))
    } else {
        None
    }
}

/// The DNxHR encoding that takes effect: none unless the format is DNxHR.
pub open spec fn dnxhr_encoding(settings: AppSettings) -> Result<
    Option<EffectiveDnxhrEncoding<Seq<char>>>,
    EncodingFault<Seq<char>>,
> {
    if settings.recording_format@ != "MOV - DNxHR"@ {
        Ok(None)
    } else {
        match dnxhr_traits(settings.dnxhr_profile@) {
            Some((ffmpeg_profile, pixel_format, bit_depth)) => Ok(
                Some(
                    EffectiveDnxhrEncoding {
                        profile: settings.dnxhr_profile@,
                        ffmpeg_profile,
                        pixel_format,
                        bit_depth,
                    },
                ),
            ),
            None => Err(EncodingFault::DnxhrProfile(settings.dnxhr_profile@)),
        }
    }
}

/// What a result about an MP4 encoding holds.
pub open spec fn mp4_model(r: Result<Option<EffectiveMp4Encoding<String>>, EncodingError>) -> Result<
    Option<EffectiveMp4Encoding<Seq<char>>>,
    EncodingFault<Seq<char>>,
> {
    match r {
        Ok(Some(e)) => Ok(Some(e.model())),
        Ok(None) => Ok(None),
        Err(e) => Err(e.model()),
    }
}

/// What a result about an AVI encoding holds.
pub open spec fn avi_model(r: Result<Option<EffectiveAviEncoding<String>>, EncodingError>) -> Result<
    Option<EffectiveAviEncoding<Seq<char>>>,
    EncodingFault<Seq<char>>,
> {
    match r {
        Ok(Some(e)) => Ok(Some(e.model())),
        Ok(None) => Ok(None),
        Err(e) => Err(e.model()),
    }
}

/// What a result about a DNxHR encoding holds.
pub open spec fn dnxhr_model(
    r: Result<Option<EffectiveDnxhrEncoding<String>>, EncodingError>,
) -> Result<Option<EffectiveDnxhrEncoding<Seq<char>>>, EncodingFault<Seq<char>>> {
    match r {
        Ok(Some(e)) => Ok(Some(e.model())),
        Ok(None) => Ok(None),
        Err(e) => Err(e.model()),
    }
}

/// The MP4 encoding that takes effect for some settings.
pub fn effective_mp4_encoding(settings: &AppSettings) -> (out: Result<
    Option<EffectiveMp4Encoding<String>>,
    EncodingError,
>)
    ensures
        mp4_model(out) == mp4_encoding(*settings),
{
    if !starts_with(settings.recording_format.as_str(), "MP4") || contains_text(
        settings.recording_format.as_str(),
        "Lossless",
    ) {
        return Ok(None);
    }
    let bitrate: u32 = settings.mp4_audio_bitrate_kbps;
    if bitrate != 192 && bitrate != 256 && bitrate != 320 {
        return Err(EncodingFault::AacBitrate(bitrate));
    }
    let compatibility = settings.mp4_compatibility.as_str();
    if same_text(compatibility, "Maximum Color Quality") {
        return Ok(
            Some(
                EffectiveMp4Encoding {
                    compatibility: compatibility.to_owned(),
                    video_codec: "H.264 / libx264".to_owned(),
                    pixel_format: "yuv444p".to_owned(),
                    h264_profile: "High 4:4:4 Predictive".to_owned(),
                    ffmpeg_profile: "high444".to_owned(),
                    crf: None,
                    encoder_preset: None,
                    audio_codec: "AAC".to_owned(),
                    audio_bitrate_kbps: bitrate,
                    custom_hlae_preset: false,
                },
            ),
        );
    }
    if same_text(compatibility, "Custom") {
        return custom_mp4_encoding(settings, bitrate);
    }
    if same_text(compatibility, "DaVinci Resolve / Universal") {
        return Ok(
            Some(make_rate_factor_encoding(compatibility, "yuv420p", 18, "medium", bitrate)),
        );
    }
    Err(EncodingFault::Compatibility(compatibility.to_owned()))
}

fn make_rate_factor_encoding(
    compatibility: &str,
    pixel_format: &str,
    crf: u8,
    preset: &str,
    bitrate: u32,
) -> (out: EffectiveMp4Encoding<String>)
    ensures
        out.model() == rate_factor_encoding(compatibility@, pixel_format@, crf, preset@, bitrate),
{
    let ffmpeg_profile = if same_text(pixel_format, "yuv422p") {
        "high422"
    } else if same_text(pixel_format, "yuv444p") {
        "high444"
    } else {
        "high"
    };
    EffectiveMp4Encoding {
        compatibility: compatibility.to_owned(),
        video_codec: "H.264 / libx264".to_owned(),
        pixel_format: pixel_format.to_owned(),
        h264_profile: h264_profile_for(pixel_format),
        ffmpeg_profile: ffmpeg_profile.to_owned(),
        crf: Some(crf),
        encoder_preset: Some(preset.to_owned()),
        audio_codec: "AAC".to_owned(),
        audio_bitrate_kbps: bitrate,
        custom_hlae_preset: true,
    }
}

fn is_offered_preset(preset: &str) -> (r: bool)
    ensures
        r == offered_preset(preset@),
{
    same_text(preset, "veryfast") || same_text(preset, "faster") || same_text(preset, "fast")
        || same_text(preset, "medium") || same_text(preset, "slow") || same_text(preset, "slower")
}

/// The encoding of the custom choices, once the format and the bit rate are
/// known to be usable.
fn custom_mp4_encoding(settings: &AppSettings, bitrate: u32) -> (out: Result<
    Option<EffectiveMp4Encoding<String>>,
    EncodingError,
>)
    requires
        lossy_mp4(settings.recording_format@),
        bitrate == settings.mp4_audio_bitrate_kbps,
        bitrate == 192 || bitrate == 256 || bitrate == 320,
        settings.mp4_compatibility@ == "Custom"@,
    ensures
        mp4_model(out) == mp4_encoding(*settings),
{
    assert("Custom"@ != "Maximum Color Quality"@) by {
        reveal_strlit("Custom");
        reveal_strlit("Maximum Color Quality");
        assert("Custom"@.len() != "Maximum Color Quality"@.len());
    }
    let pixel_format = settings.mp4_pixel_format.as_str();
    if !same_text(settings.mp4_video_codec.as_str(), "H.264 / libx264") {
        return Err(EncodingFault::VideoCodec(settings.mp4_video_codec.clone()));
    }
    if !same_text(settings.mp4_audio_codec.as_str(), "AAC") {
        return Err(EncodingFault::AudioCodec(settings.mp4_audio_codec.clone()));
    }
    if !same_text(pixel_format, "yuv420p") && !same_text(pixel_format, "yuv422p") && !same_text(
        pixel_format,
        "yuv444p",
    ) {
        return Err(EncodingFault::PixelFormat(pixel_format.to_owned()));
    }
    let profile = h264_profile_for(pixel_format);
    if !same_text(settings.mp4_h264_profile.as_str(), profile.as_str()) {
        return Err(
            EncodingFault::ProfileMismatch { pixel_format: pixel_format.to_owned(), profile },
        );
    }
    if settings.mp4_crf > 35 {
        return Err(EncodingFault::Crf);
    }
    if !is_offered_preset(settings.mp4_encoder_preset.as_str()) {
        return Err(EncodingFault::EncoderPreset(settings.mp4_encoder_preset.clone()));
    }
    Ok(
        Some(
            make_rate_factor_encoding(
                settings.mp4_compatibility.as_str(),
                pixel_format,
                settings.mp4_crf,
                settings.mp4_encoder_preset.as_str(),
                bitrate,
            ),
        ),
    )
}

/// The AVI encoding that takes effect for some settings.
pub fn effective_avi_encoding(settings: &AppSettings) -> (out: Result<
    Option<EffectiveAviEncoding<String>>,
    EncodingError,
>)
    ensures
        avi_model(out) == avi_encoding(*settings),
{
    if !same_text(settings.recording_format.as_str(), "AVI - Raw") {
        return Ok(None);
    }
    let codec = settings.avi_video_codec.as_str();
    let pixel_format = settings.avi_pixel_format.as_str();
    if same_text(codec, "Original HLAE Raw") {
        if !same_text(pixel_format, "HLAE Native") {
            return Err(
                EncodingFault::AviNativeFormat {
                    codec: codec.to_owned(),
                    pixel_format: "HLAE Native".to_owned(),
                },
            );
        }
        return Ok(
            Some(
                EffectiveAviEncoding {
                    display_codec: "Uncompressed Raw (original preset)".to_owned(),
                    ffmpeg_codec: None,
                    pixel_format: "HLAE Native".to_owned(),
                    custom_hlae_preset: false,
                },
            ),
        );
    }
    if same_text(codec, "FFV1 Lossless") {
        if !same_text(pixel_format, "bgr0") && !same_text(pixel_format, "yuv422p") && !same_text(
            pixel_format,
            "yuv444p",
        ) {
            return Err(EncodingFault::Ffv1PixelFormat(pixel_format.to_owned()));
        }
        return Ok(
            Some(
                EffectiveAviEncoding {
                    display_codec: "FFV1 Lossless".to_owned(),
                    ffmpeg_codec: Some("ffv1".to_owned()),
                    pixel_format: pixel_format.to_owned(),
                    custom_hlae_preset: true,
                },
            ),
        );
    }
    if same_text(codec, "HuffYUV Lossless") {
        if !same_text(pixel_format, "rgb24") && !same_text(pixel_format, "yuv422p") {
            return Err(EncodingFault::HuffYuvPixelFormat(pixel_format.to_owned()));
        }
        return Ok(
            Some(
                EffectiveAviEncoding {
                    display_codec: "HuffYUV Lossless".to_owned(),
                    ffmpeg_codec: Some("huffyuv".to_owned()),
                    pixel_format: pixel_format.to_owned(),
                    custom_hlae_preset: true,
                },
            ),
        );
    }
    Err(EncodingFault::AviCodec(codec.to_owned()))
}

/// The DNxHR encoding that takes effect for some settings.
pub fn effective_dnxhr_encoding(settings: &AppSettings) -> (out: Result<
    Option<EffectiveDnxhrEncoding<String>>,
    EncodingError,
>)
    ensures
        dnxhr_model(out) == dnxhr_encoding(*settings),
{
    if !same_text(settings.recording_format.as_str(), "MOV - DNxHR") {
        return Ok(None);
    }
    let profile = settings.dnxhr_profile.as_str();
    let (ffmpeg_profile, pixel_format, bit_depth): (&str, &str, u8) = if same_text(profile, "LB") {
        ("dnxhr_lb", "yuv422p", 8)
    } else if same_text(profile, "SQ") {
        ("dnxhr_sq", "yuv422p", 8)
    } else if same_text(profile, "HQ") {
        ("dnxhr_hq", "yuv422p", 8)
    } else if same_text(profile, "HQX") {
        ("dnxhr_hqx", "yuv422p10le", 10)
    } else if same_text(profile, "444") {
        ("dnxhr_444", "gbrp10le", 10)
    } else {
        return Err(EncodingFault::DnxhrProfile(profile.to_owned()));
    };
    Ok(
        Some(
            EffectiveDnxhrEncoding {
                profile: profile.to_owned(),
                ffmpeg_profile: ffmpeg_profile.to_owned(),
                pixel_format: pixel_format.to_owned(),
                bit_depth,
            },
        ),
    )
}

/// The description of whichever encoding takes effect; none for image
/// sequences and lossless formats.
pub open spec fn encoding_summary(
    settings: AppSettings,
    resolution: Seq<char>,
    fps: nat,
) -> Result<Option<Seq<char>>, EncodingFault<Seq<char>>> {
    match mp4_encoding(settings) {
        Err(fault) => Err(fault),
        Ok(Some(encoding)) => Ok(Some(encoding.summary_text(resolution, fps))),
        Ok(None) => match avi_encoding(settings) {
            Err(fault) => Err(fault),
            Ok(Some(encoding)) => Ok(Some(encoding.summary_text(resolution, fps))),
            Ok(None) => match dnxhr_encoding(settings) {
                Err(fault) => Err(fault),
                Ok(Some(encoding)) => Ok(Some(encoding.summary_text(resolution, fps))),
                Ok(None) => Ok(None),
            },
        },
    }
}

/// What a result about an optional text holds.
pub open spec fn text_model(r: Result<Option<String>, EncodingError>) -> Result<
    Option<Seq<char>>,
    EncodingFault<Seq<char>>,
> {
    match r {
        Ok(text) => Ok(optional(text)),
        Err(fault) => Err(fault.model()),
    }
}

/// The description of whichever encoding takes effect.
pub fn effective_encoding_summary(settings: &AppSettings, resolution: &str, fps: u32) -> (out: Result<
    Option<String>,
    EncodingError,
>)
    ensures
        text_model(out) == encoding_summary(*settings, resolution@, fps as nat),
{
    match effective_mp4_encoding(settings) {
        Err(fault) => return Err(fault),
        Ok(Some(encoding)) => return Ok(Some(encoding.summary(resolution, fps))),
        Ok(None) => {},
    }
    match effective_avi_encoding(settings) {
        Err(fault) => return Err(fault),
        Ok(Some(encoding)) => return Ok(Some(encoding.summary(resolution, fps))),
        Ok(None) => {},
    }
    match effective_dnxhr_encoding(settings) {
        Err(fault) => Err(fault),
        Ok(Some(encoding)) => Ok(Some(encoding.summary(resolution, fps))),
        Ok(None) => Ok(None),
    }
}

/// The encoder that FFmpeg must provide for the selected format, if any.
pub open spec fn encoder_needed(settings: AppSettings) -> Result<
    Option<Seq<char>>,
    EncodingFault<Seq<char>>,
> {
    match mp4_encoding(settings) {
        Err(fault) => Err(fault),
        Ok(Some(encoding)) if encoding.custom_hlae_preset => Ok(Some("libx264"@)),
        Ok(_) => match avi_encoding(settings) {
            Err(fault) => Err(fault),
            Ok(Some(encoding)) => Ok(encoding.ffmpeg_codec),
            Ok(None) => match dnxhr_encoding(settings) {
                Err(fault) => Err(fault),
                Ok(Some(_)) => Ok(Some("dnxhd"@)),
                Ok(None) => Ok(None),
            },
        },
    }
}

/// The encoder that FFmpeg must provide for the selected format, if any.
pub fn required_encoder(settings: &AppSettings) -> (out: Result<Option<String>, EncodingError>)
    ensures
        text_model(out) == encoder_needed(*settings),
{
    match effective_mp4_encoding(settings) {
        Err(fault) => return Err(fault),
        Ok(Some(encoding)) => {
            if encoding.custom_hlae_preset {
                return Ok(Some("libx264".to_owned()));
            }
        },
        Ok(None) => {},
    }
    match effective_avi_encoding(settings) {
        Err(fault) => return Err(fault),
        Ok(Some(encoding)) => return Ok(encoding.ffmpeg_codec),
        Ok(None) => {},
    }
    match effective_dnxhr_encoding(settings) {
        Err(fault) => Err(fault),
        Ok(Some(_)) => Ok(Some("dnxhd".to_owned())),
        Ok(None) => Ok(None),
    }
}

/// What is wrong with the FFmpeg that was selected, given what it printed when
/// it was asked for its encoders.
#[derive(Clone, Debug, PartialEq, Eq)]
pub enum EncoderCheck {
    /// The encoder is there, or none is needed.
    Usable,
    /// FFmpeg ended with a failure.
    CheckFailed,
    /// FFmpeg does not list the encoder.
    Missing,
}

/// Judges the list of encoders that FFmpeg printed.
pub fn judge_encoder_list(required: &str, succeeded: bool, encoder_list: &str) -> (out: EncoderCheck)
    ensures
        out is CheckFailed <==> !succeeded,
        out is Missing <==> succeeded && !has_text(encoder_list@, required@),
        out is Usable <==> succeeded && has_text(encoder_list@, required@),
{
    if !succeeded {
        EncoderCheck::CheckFailed
    } else if contains_text(encoder_list, required) {
        EncoderCheck::Usable
    } else {
        EncoderCheck::Missing
    }
}

/// The file extension of an encoded recording.
pub open spec fn extension_for(format: Seq<char>) -> Seq<char> {
    if has_text(format, "AVI"@) {
        "avi"@
    } else if format == "MOV - DNxHR"@ {
        "mov"@
    } else {
        "mp4"@
    }
}

/// The file extension of an encoded recording.
pub fn encoded_extension(settings: &AppSettings) -> (out: &'static str)
    ensures
        out@ == extension_for(settings.recording_format@),
{
    if contains_text(settings.recording_format.as_str(), "AVI") {
        "avi"
    } else if same_text(settings.recording_format.as_str(), "MOV - DNxHR") {
        "mov"
    } else {
        "mp4"
    }
}

/// The name of the video file that the recorder writes.
pub fn encoded_media_name(settings: &AppSettings) -> (out: &'static str)
    ensures
        out@ == "video."@ + extension_for(settings.recording_format@),
{
    proof {
        reveal_media_names();
    }
    if contains_text(settings.recording_format.as_str(), "AVI") {
        "video.avi"
    } else if same_text(settings.recording_format.as_str(), "MOV - DNxHR") {
        "video.mov"
    } else {
        "video.mp4"
    }
}

/// The name of the video file while its sound is being added.
pub fn encoded_muxing_name(settings: &AppSettings) -> (out: &'static str)
    ensures
        out@ == "video_muxing."@ + extension_for(settings.recording_format@),
{
    proof {
        reveal_media_names();
    }
    if contains_text(settings.recording_format.as_str(), "AVI") {
        "video_muxing.avi"
    } else if same_text(settings.recording_format.as_str(), "MOV - DNxHR") {
        "video_muxing.mov"
    } else {
        "video_muxing.mp4"
    }
}

/// The names of the video files are made of a stem and an extension.
proof fn reveal_media_names()
    ensures
        "video.avi"@ == "video."@ + "avi"@,
        "video.mov"@ == "video."@ + "mov"@,
        "video.mp4"@ == "video."@ + "mp4"@,
        "video_muxing.avi"@ == "video_muxing."@ + "avi"@,
        "video_muxing.mov"@ == "video_muxing."@ + "mov"@,
        "video_muxing.mp4"@ == "video_muxing."@ + "mp4"@,
{
    reveal_strlit("video.");
    reveal_strlit("video_muxing.");
    reveal_strlit("avi");
    reveal_strlit("mov");
    reveal_strlit("mp4");
    reveal_strlit("video.avi");
    reveal_strlit("video.mov");
    reveal_strlit("video.mp4");
    reveal_strlit("video_muxing.avi");
    reveal_strlit("video_muxing.mov");
    reveal_strlit("video_muxing.mp4");
    assert("video.avi"@ =~= "video."@ + "avi"@);
    assert("video.mov"@ =~= "video."@ + "mov"@);
    assert("video.mp4"@ =~= "video."@ + "mp4"@);
    assert("video_muxing.avi"@ =~= "video_muxing."@ + "avi"@);
    assert("video_muxing.mov"@ =~= "video_muxing."@ + "mov"@);
    assert("video_muxing.mp4"@ =~= "video_muxing."@ + "mp4"@);
}

// ---------------------------------------------------------------------------
// What is kept with a retained session
// ---------------------------------------------------------------------------

/// The MP4 choices kept in a session's manifest.
#[derive(Clone, Debug, PartialEq, Eq)]
pub struct StoredMp4Encoding {
    pub compatibility: String,
    pub video_codec: String,
    pub pixel_format: String,
    pub h264_profile: String,
    pub crf: u8,
    pub encoder_preset: String,
    pub audio_codec: String,
    pub audio_bitrate_kbps: u32,
}

/// The AVI choices kept in a session's manifest.
#[derive(Clone, Debug, PartialEq, Eq)]
pub struct StoredAviEncoding {
    pub video_codec: String,
    pub pixel_format: String,
}

/// The DNxHR choice kept in a session's manifest.
#[derive(Clone, Debug, PartialEq, Eq)]
pub struct StoredDnxhrEncoding {
    pub profile: String,
}

/// The MP4 choices to keep: those of the settings where the format is MP4.
pub fn mp4_encoding_manifest(settings: &AppSettings) -> (out: Option<StoredMp4Encoding>)
    ensures
        out is Some <==> begins_with(settings.recording_format@, "MP4"@),
        out matches Some(kept) ==> {
            &&& kept.compatibility@ == settings.mp4_compatibility@
            &&& kept.video_codec@ == settings.mp4_video_codec@
            &&& kept.pixel_format@ == settings.mp4_pixel_format@
            &&& kept.h264_profile@ == settings.mp4_h264_profile@
            &&& kept.crf == settings.mp4_crf
            &&& kept.encoder_preset@ == settings.mp4_encoder_preset@
            &&& kept.audio_codec@ == settings.mp4_audio_codec@
            &&& kept.audio_bitrate_kbps == settings.mp4_audio_bitrate_kbps
        },
{
    if !starts_with(settings.recording_format.as_str(), "MP4") {
        return None;
    }
    Some(
        StoredMp4Encoding {
            compatibility: settings.mp4_compatibility.clone(),
            video_codec: settings.mp4_video_codec.clone(),
            pixel_format: settings.mp4_pixel_format.clone(),
            h264_profile: settings.mp4_h264_profile.clone(),
            crf: settings.mp4_crf,
            encoder_preset: settings.mp4_encoder_preset.clone(),
            audio_codec: settings.mp4_audio_codec.clone(),
            audio_bitrate_kbps: settings.mp4_audio_bitrate_kbps,
        },
    )
}

/// The AVI choices to keep: those of the settings where the format is AVI.
pub fn avi_encoding_manifest(settings: &AppSettings) -> (out: Option<StoredAviEncoding>)
    ensures
        out is Some <==> settings.recording_format@ == "AVI - Raw"@,
        out matches Some(kept) ==> kept.video_codec@ == settings.avi_video_codec@
            && kept.pixel_format@ == settings.avi_pixel_format@,
{
    if !same_text(settings.recording_format.as_str(), "AVI - Raw") {
        return None;
    }
    Some(
        StoredAviEncoding {
            video_codec: settings.avi_video_codec.clone(),
            pixel_format: settings.avi_pixel_format.clone(),
        },
    )
}

/// The DNxHR choice to keep: that of the settings where the format is DNxHR.
pub fn dnxhr_encoding_manifest(settings: &AppSettings) -> (out: Option<StoredDnxhrEncoding>)
    ensures
        out is Some <==> settings.recording_format@ == "MOV - DNxHR"@,
        out matches Some(kept) ==> kept.profile@ == settings.dnxhr_profile@,
{
    if !same_text(settings.recording_format.as_str(), "MOV - DNxHR") {
        return None;
    }
    Some(StoredDnxhrEncoding { profile: settings.dnxhr_profile.clone() })
}

// ---------------------------------------------------------------------------
// Laws
// ---------------------------------------------------------------------------

/// Normal encoding choices can always be used: no format refuses them.
pub proof fn law_normal_encoding_is_accepted(settings: AppSettings)
    requires
        settings.encoding_is_normal(),
    ensures
        mp4_encoding(settings) is Ok,
        avi_encoding(settings) is Ok,
        dnxhr_encoding(settings) is Ok,
{
    reveal(compatibility_options);
    reveal(pixel_format_options);
    reveal(encoder_preset_options);
    reveal(avi_codec_options);
    reveal(dnxhr_profile_options);
    reveal(avi_pixel_format_for);
    reveal_strlit("Original HLAE Raw");
    reveal_strlit("FFV1 Lossless");
    reveal_strlit("HuffYUV Lossless");
    assert("Original HLAE Raw"@[0] != "FFV1 Lossless"@[0]);
    assert("Original HLAE Raw"@[0] != "HuffYUV Lossless"@[0]);
    let wish = settings.avi_pixel_format@;
    let ffv1 = seq!["bgr0"@, "yuv422p"@, "yuv444p"@];
    let huffyuv = seq!["rgb24"@, "yuv422p"@];
    if ffv1.contains(wish) {
        assert(wish == "bgr0"@ || wish == "yuv422p"@ || wish == "yuv444p"@);
    }
    if huffyuv.contains(wish) {
        assert(wish == "rgb24"@ || wish == "yuv422p"@);
    }
}

/// At most one kind of encoding takes effect, and lossless and image formats
/// take no account of the lossy choices.
pub proof fn law_encodings_exclude_each_other(settings: AppSettings)
    ensures
        mp4_encoding(settings) !is Ok || mp4_encoding(settings)->Ok_0 is Some ==> avi_encoding(
            settings,
        ) == Ok::<Option<EffectiveAviEncoding<Seq<char>>>, EncodingFault<Seq<char>>>(None),
        mp4_encoding(settings) !is Ok || mp4_encoding(settings)->Ok_0 is Some ==> dnxhr_encoding(
            settings,
        ) == Ok::<Option<EffectiveDnxhrEncoding<Seq<char>>>, EncodingFault<Seq<char>>>(None),
        has_text(settings.recording_format@, "Lossless"@) || !begins_with(
            settings.recording_format@,
            "MP4"@,
        ) ==> mp4_encoding(settings) == Ok::<
            Option<EffectiveMp4Encoding<Seq<char>>>,
            EncodingFault<Seq<char>>,
        >(None),
{
    let format = settings.recording_format@;
    reveal_strlit("MP4");
    reveal_strlit("AVI - Raw");
    reveal_strlit("MOV - DNxHR");
    if begins_with(format, "MP4"@) {
        assert(format.subrange(0, 3)[0] == 'M' && format.subrange(0, 3)[1] == 'P');
        assert(format[0] == 'M' && format[1] == 'P');
    }
}

/// How a recording is encoded says nothing of how many frames it has: the frame
/// rate that was asked for stays what it is.
pub proof fn law_encoding_leaves_the_frame_rate_alone(settings: AppSettings, fps: u32)
    ensures
        mp4_encoding(AppSettings { capture_fps: fps, ..settings }) == mp4_encoding(settings),
        avi_encoding(AppSettings { capture_fps: fps, ..settings }) == avi_encoding(settings),
        dnxhr_encoding(AppSettings { capture_fps: fps, ..settings }) == dnxhr_encoding(settings),
{
}

proof fn lemma_formats_differ()
    ensures
        "yuv420p"@ != "yuv422p"@,
        "yuv420p"@ != "yuv444p"@,
        "yuv422p"@ != "yuv444p"@,
        "Custom"@ != "Maximum Color Quality"@,
        "DaVinci Resolve / Universal"@ != "Maximum Color Quality"@,
        "DaVinci Resolve / Universal"@ != "Custom"@,
{
    reveal_strlit("yuv420p");
    reveal_strlit("yuv422p");
    reveal_strlit("yuv444p");
    reveal_strlit("Custom");
    reveal_strlit("Maximum Color Quality");
    reveal_strlit("DaVinci Resolve / Universal");
    assert("yuv420p"@[4] == '2' && "yuv422p"@[4] == '2' && "yuv444p"@[4] == '4');
    assert("yuv420p"@[5] == '0' && "yuv422p"@[5] == '2');
    assert("Custom"@[0] == 'C' && "Maximum Color Quality"@[0] == 'M'
        && "DaVinci Resolve / Universal"@[0] == 'D');
}

/// Every MP4 encoding that takes effect is H.264 with AAC sound at one of three rates; its
/// profile is the one that its pixel format needs, and its rate factor is at most 35.
pub proof fn law_mp4_encodings_fit_together(settings: AppSettings)
    ensures
        mp4_encoding(settings) matches Ok(Some(encoding)) ==> ({
            &&& encoding.video_codec == "H.264 / libx264"@ && encoding.audio_codec == "AAC"@
            &&& encoding.audio_bitrate_kbps == 192 || encoding.audio_bitrate_kbps == 256
                || encoding.audio_bitrate_kbps == 320
            &&& encoding.audio_bitrate_kbps == settings.mp4_audio_bitrate_kbps
            &&& encoding.pixel_format == "yuv420p"@ && encoding.h264_profile == "High"@
                && encoding.ffmpeg_profile == "high"@ || encoding.pixel_format == "yuv422p"@
                && encoding.h264_profile == "High 4:2:2"@ && encoding.ffmpeg_profile == "high422"@
                || encoding.pixel_format == "yuv444p"@ && encoding.h264_profile
                == "High 4:4:4 Predictive"@ && encoding.ffmpeg_profile == "high444"@
            &&& encoding.crf matches Some(crf) ==> crf <= 35
        }),
{
    lemma_formats_differ();
}

/// The universal encoding is one that any editor reads: 8 bit 4:2:0 in the High profile at
/// a rate factor of 18, whatever else was chosen.
pub proof fn law_universal_encoding_is_plain(settings: AppSettings)
    requires
        begins_with(settings.recording_format@, "MP4"@),
        !has_text(settings.recording_format@, "Lossless"@),
        settings.mp4_compatibility@ == "DaVinci Resolve / Universal"@,
        settings.mp4_audio_bitrate_kbps == 192 || settings.mp4_audio_bitrate_kbps == 256
            || settings.mp4_audio_bitrate_kbps == 320,
    ensures
        mp4_encoding(settings) matches Ok(Some(encoding)) && encoding.pixel_format == "yuv420p"@
            && encoding.h264_profile == "High"@ && encoding.crf == Some(18u8)
            && encoding.encoder_preset == Some("medium"@) && encoding.custom_hlae_preset,
{
    lemma_formats_differ();
}

/// A custom encoding is used as it was chosen, where it was chosen from what is offered and
/// its parts fit together, and else refused.
pub proof fn law_custom_encoding_is_kept(settings: AppSettings)
    requires
        begins_with(settings.recording_format@, "MP4"@),
        !has_text(settings.recording_format@, "Lossless"@),
        settings.mp4_compatibility@ == "Custom"@,
        settings.mp4_audio_bitrate_kbps == 192,
        settings.mp4_video_codec@ == "H.264 / libx264"@,
        settings.mp4_audio_codec@ == "AAC"@,
    ensures
        mp4_encoding(settings) is Ok <==> settings.mp4_crf <= 35 && (settings.mp4_pixel_format@
            == "yuv420p"@ && settings.mp4_h264_profile@ == "High"@ || settings.mp4_pixel_format@
            == "yuv422p"@ && settings.mp4_h264_profile@ == "High 4:2:2"@
            || settings.mp4_pixel_format@ == "yuv444p"@ && settings.mp4_h264_profile@
            == "High 4:4:4 Predictive"@) && (settings.mp4_encoder_preset@ == "veryfast"@
            || settings.mp4_encoder_preset@ == "faster"@ || settings.mp4_encoder_preset@
            == "fast"@ || settings.mp4_encoder_preset@ == "medium"@ || settings.mp4_encoder_preset@
            == "slow"@ || settings.mp4_encoder_preset@ == "slower"@),
        mp4_encoding(settings) is Ok ==> (mp4_encoding(settings) matches Ok(Some(encoding))
            && encoding.crf == Some(settings.mp4_crf) && encoding.pixel_format
            == settings.mp4_pixel_format@ && encoding.encoder_preset == Some(
            settings.mp4_encoder_preset@,
        )),
{
    lemma_formats_differ();
}

/// The DNxHR profiles have their chroma and depth: 8 bit 4:2:2 up to HQ, 10 bit from HQX
/// on; any other is refused.
pub proof fn law_dnxhr_profiles_have_their_depth(settings: AppSettings)
    requires
        settings.recording_format@ == "MOV - DNxHR"@,
    ensures
        ({
            let profile = settings.dnxhr_profile@;
            &&& profile == "LB"@ ==> (dnxhr_encoding(settings) matches Ok(Some(e))
                && e.ffmpeg_profile == "dnxhr_lb"@ && e.pixel_format == "yuv422p"@ && e.bit_depth == 8)
            &&& profile == "SQ"@ ==> (dnxhr_encoding(settings) matches Ok(Some(e))
                && e.ffmpeg_profile == "dnxhr_sq"@ && e.pixel_format == "yuv422p"@ && e.bit_depth == 8)
            &&& profile == "HQ"@ ==> (dnxhr_encoding(settings) matches Ok(Some(e))
                && e.ffmpeg_profile == "dnxhr_hq"@ && e.pixel_format == "yuv422p"@ && e.bit_depth == 8)
            &&& profile == "HQX"@ ==> (dnxhr_encoding(settings) matches Ok(Some(e))
                && e.ffmpeg_profile == "dnxhr_hqx"@ && e.pixel_format == "yuv422p10le"@
                && e.bit_depth == 10)
            &&& profile == "444"@ ==> (dnxhr_encoding(settings) matches Ok(Some(e))
                && e.ffmpeg_profile == "dnxhr_444"@ && e.pixel_format == "gbrp10le"@ && e.bit_depth
                == 10)
            &&& profile != "LB"@ && profile != "SQ"@ && profile != "HQ"@ && profile != "HQX"@
                && profile != "444"@ ==> dnxhr_encoding(settings) is Err
        }),
{
    reveal_strlit("LB");
    reveal_strlit("SQ");
    reveal_strlit("HQ");
    reveal_strlit("HQX");
    reveal_strlit("444");
    assert("LB"@[0] == 'L' && "SQ"@[0] == 'S' && "HQ"@[0] == 'H' && "HQX"@[0] == 'H'
        && "444"@[0] == '4');
    assert("HQ"@.len() == 2 && "HQX"@.len() == 3);
}

/// Each lossless codec of AVI takes its own pixel formats, and the raw one none but its
/// own.
pub proof fn law_avi_codecs_take_their_formats(settings: AppSettings)
    requires
        settings.recording_format@ == "AVI - Raw"@,
    ensures
        ({
            let format = settings.avi_pixel_format@;
            &&& settings.avi_video_codec@ == "FFV1 Lossless"@ ==> (avi_encoding(settings) is Ok
                <==> format == "bgr0"@ || format == "yuv422p"@ || format == "yuv444p"@)
            &&& settings.avi_video_codec@ == "HuffYUV Lossless"@ ==> (avi_encoding(settings) is Ok
                <==> format == "rgb24"@ || format == "yuv422p"@)
            &&& settings.avi_video_codec@ == "Original HLAE Raw"@ ==> (avi_encoding(settings) is Ok
                <==> format == "HLAE Native"@)
            &&& avi_encoding(settings) matches Ok(Some(e)) ==> e.pixel_format == format
        }),
{
    reveal_strlit("Original HLAE Raw");
    reveal_strlit("FFV1 Lossless");
    reveal_strlit("HuffYUV Lossless");
    assert("Original HLAE Raw"@[0] == 'O' && "FFV1 Lossless"@[0] == 'F' && "HuffYUV Lossless"@[0]
        == 'H');
}

} // verus!
