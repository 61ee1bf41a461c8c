//! How much disk space recordings need.
use vstd::prelude::*;
use crate::clips::{
    clip_window, format_number, grouped, parse_resolution, resolution_of, window_end, window_fits,
    window_start, windows_fit,
};
use crate::encoding::{
    effective_encoding_summary, encoding_summary, optional, EncodingError, EncodingFault,
};
use crate::floating::{
    ceiling, fraction, lemma_one_positive, natural, one, product, quotient, sum, tenths, Double,
};
use crate::models::Candidate;
use crate::number::{nat_text, u64_text};
use crate::preflight::{
    bytes_text, format_bytes, require_disk_space, shortage_text, u128_text, DiskSpace,
};
use crate::settings::AppSettings;
use crate::text::{contains_text, has_text, same_text};

verus! {

/// The least headroom that is kept free.
pub const LEAST_HEADROOM: u64 = 1_073_741_824;

/// What is set aside for the files around a batch.
pub const BATCH_ALLOWANCE: u64 = 33_554_432;

/// What is set aside for the files around a clip.
pub const CLIP_ALLOWANCE: u64 = 65_536;

// ---------------------------------------------------------------------------
// Rounding
// ---------------------------------------------------------------------------

/// A number, or the largest of its kind where it is larger.
pub open spec fn capped(v: int) -> int {
    if v > u64::MAX {
        u64::MAX as int
    } else {
        v
    }
}

fn cap(v: u128) -> (out: u64)
    ensures
        out == capped(v as int),
{
    if v > 0xffff_ffff_ffff_ffff {
        u64::MAX
    } else {
        v as u64
    }
}

fn capped_sum(a: u64, b: u64) -> (out: u64)
    ensures
        out == capped(a + b),
{
    cap(a as u128 + b as u128)
}

// ---------------------------------------------------------------------------
// Formats
// ---------------------------------------------------------------------------

/// How many bytes a frame of the reference size takes in a DNxHR profile.
pub open spec fn dnxhr_reference(profile: Seq<char>) -> int {
    if profile == "LB"@ {
        188_416
    } else if profile == "SQ"@ {
        602_112
    } else if profile == "444"@ {
        1_822_720
    } else {
        909_312
    }
}

/// The quality of images, within its range.
pub open spec fn image_quality(quality: u8) -> int {
    if quality < 1 {
        1
    } else if quality > 100 {
        100
    } else {
        quality as int
    }
}

/// How many bytes a frame of a number of pixels takes in a format.
pub open spec fn frame_size(settings: AppSettings, pixels: int) -> int {
    let format = settings.recording_format@;
    if format == "JPG Image Sequence"@ {
        product(
            pixels,
            sum(
                fraction(25, 1000) as int,
                product(
                    fraction(32, 10_000) as int,
                    natural(image_quality(settings.jpg_quality) as nat) as int,
                ),
            ),
        )
    } else if format == "TGA Image Sequence"@ {
        sum(product(pixels, natural(3) as int), natural(18) as int)
    } else if format == "MP4 - Compatible"@ {
        product(pixels, fraction(875, 100_000) as int)
    } else if format == "MP4 - Lossless"@ {
        product(pixels, fraction(125, 100) as int)
    } else if format == "AVI - Raw"@ {
        product(pixels, natural(3) as int)
    } else if format == "MOV - DNxHR"@ {
        quotient(
            product(natural(dnxhr_reference(settings.dnxhr_profile@) as nat) as int, pixels) as nat,
            natural(2_073_600),
        ) as int
    } else {
        product(pixels, fraction(1125, 100_000) as int)
    }
}

fn find_reference(profile: &str) -> (out: u64)
    ensures
        out == dnxhr_reference(profile@),
{
    if same_text(profile, "LB") {
        188_416
    } else if same_text(profile, "SQ") {
        602_112
    } else if same_text(profile, "444") {
        1_822_720
    } else {
        909_312
    }
}

fn size_frame(settings: &AppSettings, pixels: Double) -> (out: Double)
    requires
        pixels.value() >= 0,
    ensures
        out.value() == frame_size(*settings, pixels.value()),
        out.value() >= 0,
{
    let format = settings.recording_format.as_str();
    if same_text(format, "JPG Image Sequence") {
        let quality: u64 = if settings.jpg_quality < 1 {
            1
        } else if settings.jpg_quality > 100 {
            100
        } else {
            settings.jpg_quality as u64
        };
        pixels.times(
            Double::fraction(25, 1000).plus(
                Double::fraction(32, 10_000).times(Double::natural(quality)),
            ),
        )
    } else if same_text(format, "TGA Image Sequence") {
        pixels.times(Double::natural(3)).plus(Double::natural(18))
    } else if same_text(format, "MP4 - Compatible") {
        pixels.times(Double::fraction(875, 100_000))
    } else if same_text(format, "MP4 - Lossless") {
        pixels.times(Double::fraction(125, 100))
    } else if same_text(format, "AVI - Raw") {
        pixels.times(Double::natural(3))
    } else if same_text(format, "MOV - DNxHR") {
        Double::natural(find_reference(settings.dnxhr_profile.as_str())).times(pixels).over(
            Double::natural(2_073_600),
        )
    } else {
        pixels.times(Double::fraction(1125, 100_000))
    }
}

/// Whether a format records images.
pub open spec fn records_images(format: Seq<char>) -> bool {
    has_text(format, "Image"@)
}

/// How many bytes of sound a second of a recording takes before it is encoded.
pub open spec fn raw_sound_rate() -> nat {
    natural(192_000)
}

/// How many bytes of sound a second of a finished recording takes.
pub open spec fn sound_rate(settings: AppSettings) -> nat {
    let format = settings.recording_format@;
    if records_images(format) || has_text(format, "AVI"@) || format == "MOV - DNxHR"@ {
        raw_sound_rate()
    } else {
        quotient(
            product(
                natural(settings.mp4_audio_bitrate_kbps as nat) as int,
                natural(1000) as int,
            ) as nat,
            natural(8),
        )
    }
}

fn find_sound_rate(settings: &AppSettings) -> (out: Double)
    ensures
        out.value() == sound_rate(*settings),
{
    let format = settings.recording_format.as_str();
    if contains_text(format, "Image") || contains_text(format, "AVI") || same_text(
        format,
        "MOV - DNxHR",
    ) {
        Double::natural(192_000)
    } else {
        Double::natural(settings.mp4_audio_bitrate_kbps as u64).times(Double::natural(1000)).over(
            Double::natural(8),
        )
    }
}

// ---------------------------------------------------------------------------
// Clips
// ---------------------------------------------------------------------------

/// How many ticks a second has.
pub open spec fn tick_rate() -> nat {
    fraction(666_666_667, 10_000_000)
}

/// The frame rate, at least one.
pub open spec fn frame_rate(settings: AppSettings) -> int {
    if settings.capture_fps > 0 {
        settings.capture_fps as int
    } else {
        1
    }
}

/// How many ticks the clip of a candidate lasts.
pub open spec fn clip_ticks(candidate: Candidate, settings: AppSettings) -> int {
    window_end(candidate, settings) - window_start(candidate, settings)
}

/// How many seconds the clip of a candidate lasts.
pub open spec fn clip_seconds(candidate: Candidate, settings: AppSettings) -> nat {
    quotient(natural(clip_ticks(candidate, settings) as nat), tick_rate())
}

/// How many frames the clip of a candidate has.
pub open spec fn clip_frames(candidate: Candidate, settings: AppSettings) -> int {
    let frames = ceiling(
        product(
            clip_seconds(candidate, settings) as int,
            natural(frame_rate(settings) as nat) as int,
        ) as nat,
    );
    if frames > 1 {
        frames
    } else {
        1
    }
}

/// How many pixels a frame has.
pub open spec fn frame_pixels(settings: AppSettings) -> int {
    product(
        natural(resolution_of(settings.resolution@).0 as nat) as int,
        natural(resolution_of(settings.resolution@).1 as nat) as int,
    )
}

/// How many bytes the picture of a clip takes.
pub open spec fn clip_picture(candidate: Candidate, settings: AppSettings) -> int {
    ceiling(
        product(
            natural(clip_frames(candidate, settings) as nat) as int,
            frame_size(settings, frame_pixels(settings)),
        ) as nat,
    )
}

/// How many bytes the sound of a clip takes at a rate.
pub open spec fn clip_sound(candidate: Candidate, settings: AppSettings, rate: nat) -> int {
    ceiling(product(clip_seconds(candidate, settings) as int, rate as int) as nat)
}

/// What recordings need.
pub struct SpaceSums {
    pub seconds: int,
    pub frames: int,
    pub output: int,
    pub largest: int,
}

/// What the recordings of candidates need.
pub open spec fn space_sums(candidates: Seq<Candidate>, settings: AppSettings) -> SpaceSums
    decreases candidates.len(),
{
    if candidates.len() == 0 {
        SpaceSums { seconds: 0, frames: 0, output: 0, largest: 0 }
    } else {
        let before = space_sums(candidates.drop_last(), settings);
        let candidate = candidates.last();
        let picture = clip_picture(candidate, settings);
        let working = capped(picture + clip_sound(candidate, settings, raw_sound_rate()));
        SpaceSums {
            seconds: sum(before.seconds, clip_seconds(candidate, settings) as int),
            frames: capped(before.frames + clip_frames(candidate, settings)),
            output: capped(
                capped(before.output + picture) + clip_sound(
                    candidate,
                    settings,
                    sound_rate(settings),
                ),
            ),
            largest: if !records_images(settings.recording_format@) && working > before.largest {
                working
            } else {
                before.largest
            },
        }
    }
}

/// What the recording of a batch takes while it runs: the finished clips, the
/// largest one being worked on, and the files around them.
pub open spec fn peak_space(candidates: Seq<Candidate>, settings: AppSettings) -> int {
    let sums = space_sums(candidates, settings);
    capped(
        capped(sums.output + sums.largest) + BATCH_ALLOWANCE + candidates.len() * CLIP_ALLOWANCE,
    )
}

/// What is kept free beside: a fifth, and at least a gigabyte.
pub open spec fn headroom(peak: int) -> int {
    if peak / 5 > LEAST_HEADROOM {
        peak / 5
    } else {
        LEAST_HEADROOM as int
    }
}

/// What recordings need, and what there is.
#[derive(Debug)]
pub struct RecordingSpaceEstimate {
    pub clip_count: usize,
    pub duration_seconds: Double,
    pub frame_count: u64,
    pub final_output_bytes: u64,
    pub peak_working_bytes: u64,
    pub safety_headroom_bytes: u64,
    pub required_free_bytes: u64,
    pub available_free_bytes: u64,
    pub output_volume: String,
    pub format: String,
    pub width: u32,
    pub height: u32,
    pub fps: u32,
    pub jpg_quality: u8,
    pub encoding_summary: Option<String>,
}

/// Why no estimate can be made.
#[derive(Debug)]
pub enum SpaceFault {
    NothingSelected,
    NoOutput,
    Encoding(EncodingError),
}

impl SpaceFault {
    /// What went wrong, in words.
    pub fn message(&self) -> (out: String)
        ensures
            out@ == (match *self {
                SpaceFault::NothingSelected => "select one or more candidates"@,
                SpaceFault::NoOutput => "choose a recording output location"@,
                SpaceFault::Encoding(fault) => fault.model().words(),
            }),
    {
        match self {
            SpaceFault::NothingSelected => "select one or more candidates".to_owned(),
            SpaceFault::NoOutput => "choose a recording output location".to_owned(),
            SpaceFault::Encoding(fault) => fault.message(),
        }
    }
}

/// Whether an estimate is right.
pub open spec fn estimates(
    estimate: RecordingSpaceEstimate,
    candidates: Seq<Candidate>,
    settings: AppSettings,
    disk: DiskSpace,
) -> bool {
    let sums = space_sums(candidates, settings);
    let peak = peak_space(candidates, settings);
    &&& estimate.clip_count == candidates.len()
    &&& estimate.duration_seconds.value() == sums.seconds
    &&& estimate.frame_count == sums.frames
    &&& estimate.final_output_bytes == sums.output
    &&& estimate.peak_working_bytes == peak
    &&& estimate.safety_headroom_bytes == headroom(peak)
    &&& estimate.required_free_bytes == capped(peak + headroom(peak))
    &&& estimate.available_free_bytes == disk.available_bytes
    &&& estimate.output_volume@ == disk.mount_point@
    &&& estimate.format@ == settings.recording_format@
    &&& (estimate.width as int, estimate.height as int) == resolution_of(settings.resolution@)
    &&& estimate.fps == frame_rate(settings)
    &&& estimate.jpg_quality == settings.jpg_quality
    &&& Ok::<Option<Seq<char>>, EncodingFault<Seq<char>>>(optional(estimate.encoding_summary))
        == encoding_summary(settings, settings.resolution@, frame_rate(settings) as nat)
}

/// What clips need so far.
struct SpaceTally {
    seconds: Double,
    frames: u64,
    output: u64,
    largest: u64,
}

fn tally_space(
    candidates: &Vec<Candidate>,
    settings: &AppSettings,
    fps: u32,
    frame: Double,
) -> (out: SpaceTally)
    requires
        windows_fit(candidates@, *settings),
        fps == frame_rate(*settings),
        frame.value() == frame_size(*settings, frame_pixels(*settings)),
        frame.value() >= 0,
    ensures
        out.seconds.value() == space_sums(candidates@, *settings).seconds,
        out.seconds.value() >= 0,
        out.frames == space_sums(candidates@, *settings).frames,
        out.output == space_sums(candidates@, *settings).output,
        out.largest == space_sums(candidates@, *settings).largest,
{
    let images = contains_text(settings.recording_format.as_str(), "Image");
    let sound = find_sound_rate(settings);
    let rate = Double::fraction(666_666_667, 10_000_000);
    let mut tally = SpaceTally { seconds: Double::zero(), frames: 0, output: 0, largest: 0 };
    let mut i: usize = 0;
    while i < candidates.len()
        invariant
            i <= candidates.len(),
            windows_fit(candidates@, *settings),
            fps == frame_rate(*settings),
            frame.value() == frame_size(*settings, frame_pixels(*settings)),
            frame.value() >= 0,
            images == records_images(settings.recording_format@),
            sound.value() == sound_rate(*settings),
            rate.value() == tick_rate(),
            rate.value() > 0,
            tally.seconds.value() == space_sums(candidates@.take(i as int), *settings).seconds,
            tally.seconds.value() >= 0,
            tally.frames == space_sums(candidates@.take(i as int), *settings).frames,
            tally.output == space_sums(candidates@.take(i as int), *settings).output,
            tally.largest == space_sums(candidates@.take(i as int), *settings).largest,
        decreases candidates.len() - i,
    {
        proof {
            assert(candidates@.take(i + 1).drop_last() =~= candidates@.take(i as int));
            assert(candidates@.take(i + 1).last() == candidates@[i as int]);
            assert(window_fits(candidates@[i as int], *settings));
        }
        let (start, end) = clip_window(&candidates[i], settings);
        let seconds = Double::natural((end - start) as u64).over(rate);
        let whole: u64 = seconds.times(Double::natural(fps as u64)).ceiling();
        let frames: u64 = if whole > 1 {
            whole
        } else {
            1
        };
        let picture: u64 = Double::natural(frames).times(frame).ceiling();
        let raw_sound: u64 = seconds.times(Double::natural(192_000)).ceiling();
        let final_sound: u64 = seconds.times(sound).ceiling();
        let working: u64 = capped_sum(picture, raw_sound);
        let largest: u64 = if !images && working > tally.largest {
            working
        } else {
            tally.largest
        };
        tally = SpaceTally {
            seconds: tally.seconds.plus(seconds),
            frames: capped_sum(tally.frames, frames),
            output: capped_sum(capped_sum(tally.output, picture), final_sound),
            largest,
        };
        i += 1;
    }
    assert(candidates@.take(candidates.len() as int) =~= candidates@);
    tally
}

/// What the recordings of candidates need, and what a disk has. Fractions of a
/// byte and of a frame are rounded up.
pub fn estimate_recording_space(
    candidates: &Vec<Candidate>,
    settings: &AppSettings,
    disk: &DiskSpace,
) -> (out: Result<RecordingSpaceEstimate, SpaceFault>)
    requires
        windows_fit(candidates@, *settings),
    ensures
        match out {
            Ok(estimate) => candidates.len() > 0 && settings.recording_output_directory@.len() > 0
                && estimate.duration_seconds.value() >= 0 && estimates(estimate, candidates@, *settings, *disk),
            Err(SpaceFault::NothingSelected) => candidates.len() == 0,
            Err(SpaceFault::NoOutput) => candidates.len() > 0
                && settings.recording_output_directory@.len() == 0,
            Err(SpaceFault::Encoding(fault)) => candidates.len() > 0
                && settings.recording_output_directory@.len() > 0 && encoding_summary(
                *settings,
                settings.resolution@,
                frame_rate(*settings) as nat,
            ) == Err::<Option<Seq<char>>, EncodingFault<Seq<char>>>(fault.model()),
        },
{
    if candidates.len() == 0 {
        return Err(SpaceFault::NothingSelected);
    }
    if settings.recording_output_directory.as_str().is_empty() {
        return Err(SpaceFault::NoOutput);
    }
    let (width, height) = parse_resolution(settings.resolution.as_str());
    let fps: u32 = if settings.capture_fps > 0 {
        settings.capture_fps
    } else {
        1
    };
    let summary = match effective_encoding_summary(settings, settings.resolution.as_str(), fps) {
        Ok(summary) => summary,
        Err(fault) => return Err(SpaceFault::Encoding(fault)),
    };
    let pixels = Double::natural(width as u64).times(Double::natural(height as u64));
    let tally = tally_space(candidates, settings, fps, size_frame(settings, pixels));
    let peak: u64 = cap(
        capped_sum(tally.output, tally.largest) as u128 + BATCH_ALLOWANCE as u128
            + candidates.len() as u128 * CLIP_ALLOWANCE as u128,
    );
    let spare: u64 = if peak / 5 > LEAST_HEADROOM {
        peak / 5
    } else {
        LEAST_HEADROOM
    };
    Ok(
        RecordingSpaceEstimate {
            clip_count: candidates.len(),
            duration_seconds: tally.seconds,
            frame_count: tally.frames,
            final_output_bytes: tally.output,
            peak_working_bytes: peak,
            safety_headroom_bytes: spare,
            required_free_bytes: capped_sum(peak, spare),
            available_free_bytes: disk.available_bytes,
            output_volume: disk.mount_point.clone(),
            format: settings.recording_format.clone(),
            width,
            height,
            fps,
            jpg_quality: settings.jpg_quality,
            encoding_summary: summary,
        },
    )
}

/// More is needed than the finished recordings take, and still more must be
/// free, as long as the numbers do not run out.
pub proof fn law_space_leaves_headroom(candidates: Seq<Candidate>, settings: AppSettings)
    requires
        peak_space(candidates, settings) + headroom(peak_space(candidates, settings)) < u64::MAX,
    ensures
        space_sums(candidates, settings).output < peak_space(candidates, settings),
        capped(
            peak_space(candidates, settings) + headroom(peak_space(candidates, settings)),
        ) >= peak_space(candidates, settings) + LEAST_HEADROOM,
{
    lemma_sums_not_negative(candidates, settings);
}

proof fn lemma_sums_not_negative(candidates: Seq<Candidate>, settings: AppSettings)
    ensures
        space_sums(candidates, settings).largest >= 0,
    decreases candidates.len(),
{
    if candidates.len() > 0 {
        lemma_sums_not_negative(candidates.drop_last(), settings);
    }
}

// ---------------------------------------------------------------------------
// In words
// ---------------------------------------------------------------------------

/// A number of tenths, with its point.
pub open spec fn tenths_text(tenths: int) -> Seq<char> {
    nat_text((tenths / 10) as nat) + "."@ + nat_text((tenths % 10) as nat)
}

/// A number of seconds as it is shown, with one digit behind the point.
pub open spec fn seconds_text(seconds: int) -> Seq<char> {
    if seconds < 0 {
        "-"@ + tenths_text(tenths((-seconds) as nat) as int)
    } else {
        tenths_text(tenths(seconds as nat) as int)
    }
}

/// What is said of the quality of images.
pub open spec fn quality_text(format: Seq<char>, quality: u8) -> Seq<char> {
    if format == "JPG Image Sequence"@ {
        " at quality "@ + nat_text(quality as nat)
    } else {
        Seq::empty()
    }
}

impl RecordingSpaceEstimate {
    /// Whether the recordings fit.
    pub open spec fn fits(&self) -> bool {
        self.available_free_bytes >= self.required_free_bytes
    }

    /// Whether the recordings fit.
    pub fn has_enough_space(&self) -> (r: bool)
        ensures
            r == self.fits(),
    {
        self.available_free_bytes >= self.required_free_bytes
    }

    /// Whether the recordings fit on a disk; what is missing where they do not.
    pub fn ensure_space(&self, disk: DiskSpace) -> (out: Result<DiskSpace, String>)
        ensures
            match out {
                Ok(same) => same == disk && disk.available_bytes >= self.required_free_bytes,
                Err(text) => disk.available_bytes < self.required_free_bytes && text@
                    == shortage_text(disk, self.required_free_bytes as int, "HLAE recording"@),
            },
    {
        require_disk_space(disk, self.required_free_bytes, "HLAE recording")
    }

    /// The estimate in words.
    pub open spec fn words(&self) -> Seq<char> {
        let status = if self.fits() {
            "PASS"@
        } else {
            "BLOCKED — insufficient free space"@
        };
        let base = "Recording pre-flight ("@ + status + ")\n"@ + nat_text(self.clip_count as nat)
            + " clip(s), "@ + seconds_text(self.duration_seconds.value()) + " seconds, "@
            + grouped(
            nat_text(self.frame_count as nat),
            nat_text(self.frame_count as nat).len() as int,
        ) + " frames\n"@ + nat_text(self.width as nat) + "x"@ + nat_text(self.height as nat)
            + " at "@ + nat_text(self.fps as nat) + " FPS, "@ + self.format@ + quality_text(
            self.format@,
            self.jpg_quality,
        ) + "\nEstimated finalized output: "@ + bytes_text(self.final_output_bytes as nat)
            + "\nEstimated peak working use (including the largest in-progress encoded capture): "@
            + bytes_text(self.peak_working_bytes as nat)
            + "\nSafety headroom (20%, minimum 1 GB): "@ + bytes_text(
            self.safety_headroom_bytes as nat,
        ) + "\nRequired free space: "@ + bytes_text(self.required_free_bytes as nat)
            + "\nAvailable on "@ + self.output_volume@ + ": "@ + bytes_text(
            self.available_free_bytes as nat,
        ) + "\nCompressed-video estimates vary with scene complexity."@;
        match self.encoding_summary {
            Some(summary) => base + "\n\n"@ + summary@,
            None => base,
        }
    }

    /// The estimate in words.
    pub fn summary(&self) -> (out: String)
        ensures
            out@ == self.words(),
    {
        let mut out = "Recording pre-flight (".to_owned();
        out.append(
            if self.has_enough_space() {
                "PASS"
            } else {
                "BLOCKED — insufficient free space"
            },
        );
        out.append(")\n");
        out.append(u64_text(self.clip_count as u64).as_str());
        out.append(" clip(s), ");
        out.append(write_seconds(self.duration_seconds).as_str());
        out.append(" seconds, ");
        out.append(format_number(self.frame_count).as_str());
        out.append(" frames\n");
        out.append(u64_text(self.width as u64).as_str());
        out.append("x");
        out.append(u64_text(self.height as u64).as_str());
        out.append(" at ");
        out.append(u64_text(self.fps as u64).as_str());
        out.append(" FPS, ");
        out.append(self.format.as_str());
        out.append(write_quality(self.format.as_str(), self.jpg_quality).as_str());
        out.append("\nEstimated finalized output: ");
        out.append(format_bytes(self.final_output_bytes).as_str());
        out.append(
            "\nEstimated peak working use (including the largest in-progress encoded capture): ",
        );
        out.append(format_bytes(self.peak_working_bytes).as_str());
        out.append("\nSafety headroom (20%, minimum 1 GB): ");
        out.append(format_bytes(self.safety_headroom_bytes).as_str());
        out.append("\nRequired free space: ");
        out.append(format_bytes(self.required_free_bytes).as_str());
        out.append("\nAvailable on ");
        out.append(self.output_volume.as_str());
        out.append(": ");
        out.append(format_bytes(self.available_free_bytes).as_str());
        out.append("\nCompressed-video estimates vary with scene complexity.");
        if let Some(summary) = &self.encoding_summary {
            out.append("\n\n");
            out.append(summary.as_str());
        }
        out
    }
}

fn write_seconds(seconds: Double) -> (out: String)
    ensures
        out@ == seconds_text(seconds.value()),
{
    let all: u128 = seconds.without_sign().tenths();
    let mut out = if seconds.less(Double::zero()) {
        "-".to_owned()
    } else {
        String::new()
    };
    out.append(u128_text(all / 10).as_str());
    out.append(".");
    out.append(u128_text(all % 10).as_str());
    out
}

fn write_quality(format: &str, quality: u8) -> (out: String)
    ensures
        out@ == quality_text(format@, quality),
{
    if same_text(format, "JPG Image Sequence") {
        let mut out = " at quality ".to_owned();
        out.append(u64_text(quality as u64).as_str());
        out
    } else {
        let out = String::new();
        assert(out@ =~= Seq::empty());
        out
    }
}

/// A fifth of what a batch takes is kept free on top of it, and at least a gigabyte.
pub proof fn law_a_fifth_is_kept_free(peak: int)
    requires
        peak >= 0,
    ensures
        headroom(peak) >= 1_073_741_824,
        5 * headroom(peak) >= peak - 4,
        5 * headroom(peak) <= peak || headroom(peak) == 1_073_741_824,
{
}

/// Every further clip takes more space: at least the 64 kilobytes that are set aside for
/// the files around it, as long as the numbers do not run out.
pub proof fn law_more_clips_take_more_space(
    candidates: Seq<Candidate>,
    candidate: Candidate,
    settings: AppSettings,
)
    requires
        peak_space(candidates.push(candidate), settings) < u64::MAX,
    ensures
        peak_space(candidates.push(candidate), settings) >= peak_space(candidates, settings)
            + 65_536 + clip_picture(candidate, settings),
        space_sums(candidates.push(candidate), settings).frames >= space_sums(
            candidates,
            settings,
        ).frames,
        peak_space(Seq::empty(), settings) == 33_554_432,
{
    let more = candidates.push(candidate);
    assert(more.drop_last() =~= candidates);
    assert(more.last() == candidate);
    lemma_sums_not_negative(more, settings);
    lemma_sums_not_negative(candidates, settings);
    let before = space_sums(candidates, settings);
    let after = space_sums(more, settings);
    lemma_sizes(candidate, settings);
    lemma_sums_capped(candidates, settings);
    assert(before.largest <= after.largest);
    assert(capped(after.output + after.largest) < u64::MAX);
    assert(after.output == before.output + clip_picture(candidate, settings) + clip_sound(
        candidate,
        settings,
        sound_rate(settings),
    ));
    assert(more.len() * CLIP_ALLOWANCE == candidates.len() * CLIP_ALLOWANCE + 65_536)
        by (nonlinear_arith)
        requires
            more.len() == candidates.len() + 1,
            CLIP_ALLOWANCE == 65_536,
    ;
}

proof fn lemma_sizes(candidate: Candidate, settings: AppSettings)
    ensures
        clip_picture(candidate, settings) >= 0,
        clip_sound(candidate, settings, sound_rate(settings)) >= 0,
        clip_frames(candidate, settings) >= 1,
{
    lemma_one_positive();
    let frames = product(
        natural(clip_frames(candidate, settings) as nat) as int,
        frame_size(settings, frame_pixels(settings)),
    ) as nat;
    let sound = product(clip_seconds(candidate, settings) as int, sound_rate(settings) as int) as nat;
    assert((frames + one() - 1) / one() as int >= 0) by (nonlinear_arith)
        requires
            one() > 0,
            frames >= 0,
    ;
    assert((sound + one() - 1) / one() as int >= 0) by (nonlinear_arith)
        requires
            one() > 0,
            sound >= 0,
    ;
}

proof fn lemma_sums_capped(candidates: Seq<Candidate>, settings: AppSettings)
    ensures
        0 <= space_sums(candidates, settings).output <= u64::MAX,
        0 <= space_sums(candidates, settings).frames <= u64::MAX,
    decreases candidates.len(),
{
    if candidates.len() > 0 {
        lemma_sums_capped(candidates.drop_last(), settings);
        lemma_sizes(candidates.last(), settings);
    }
}

/// Nothing is being worked on while images are recorded, which are written as they are;
/// a video is worked on with its sound at 192000 bytes a second.
pub proof fn law_images_need_no_working_space(candidates: Seq<Candidate>, settings: AppSettings)
    requires
        has_text(settings.recording_format@, "Image"@),
    ensures
        space_sums(candidates, settings).largest == 0,
    decreases candidates.len(),
{
    if candidates.len() > 0 {
        law_images_need_no_working_space(candidates.drop_last(), settings);
    }
}

/// How many bytes a frame takes: three a pixel, and a head of 18, for a TGA image; three a
/// pixel for raw video; 1.25 a pixel for lossless video, 0.00875 for compatible video and
/// 0.01125 for standard video; and by profile for DNxHR, of which each has its share of a
/// frame of 1920 by 1080.
pub proof fn law_frames_have_their_size(settings: AppSettings, pixels: int)
    ensures
        settings.recording_format@ == "TGA Image Sequence"@ ==> frame_size(settings, pixels) == sum(
            product(pixels, natural(3) as int),
            natural(18) as int,
        ),
        settings.recording_format@ == "AVI - Raw"@ ==> frame_size(settings, pixels) == product(
            pixels,
            natural(3) as int,
        ),
        settings.recording_format@ == "MP4 - Lossless"@ ==> frame_size(settings, pixels) == product(
            pixels,
            fraction(125, 100) as int,
        ),
        settings.recording_format@ == "MP4 - Compatible"@ ==> frame_size(settings, pixels)
            == product(pixels, fraction(875, 100_000) as int),
        settings.recording_format@ == "MP4 - Standard"@ ==> frame_size(settings, pixels) == product(
            pixels,
            fraction(1125, 100_000) as int,
        ),
        settings.recording_format@ == "MOV - DNxHR"@ && settings.dnxhr_profile@ == "LB"@
            ==> frame_size(settings, pixels) == quotient(
            product(natural(188_416) as int, pixels) as nat,
            natural(2_073_600),
        ),
        settings.recording_format@ == "MOV - DNxHR"@ && settings.dnxhr_profile@ == "SQ"@
            ==> frame_size(settings, pixels) == quotient(
            product(natural(602_112) as int, pixels) as nat,
            natural(2_073_600),
        ),
        settings.recording_format@ == "MOV - DNxHR"@ && settings.dnxhr_profile@ == "444"@
            ==> frame_size(settings, pixels) == quotient(
            product(natural(1_822_720) as int, pixels) as nat,
            natural(2_073_600),
        ),
        settings.recording_format@ == "MOV - DNxHR"@ && (settings.dnxhr_profile@ == "HQ"@
            || settings.dnxhr_profile@ == "HQX"@) ==> frame_size(settings, pixels) == quotient(
            product(natural(909_312) as int, pixels) as nat,
            natural(2_073_600),
        ),
{
    reveal_strlit("JPG Image Sequence");
    reveal_strlit("TGA Image Sequence");
    reveal_strlit("MP4 - Compatible");
    reveal_strlit("MP4 - Lossless");
    reveal_strlit("AVI - Raw");
    reveal_strlit("MOV - DNxHR");
    reveal_strlit("MP4 - Standard");
    reveal_strlit("LB");
    reveal_strlit("SQ");
    reveal_strlit("444");
    reveal_strlit("HQ");
    reveal_strlit("HQX");
    assert("JPG Image Sequence"@[0] == 'J' && "TGA Image Sequence"@[0] == 'T');
    assert("MP4 - Compatible"@.len() == 16 && "MP4 - Lossless"@.len() == 14
        && "MP4 - Standard"@.len() == 14 && "AVI - Raw"@.len() == 9 && "MOV - DNxHR"@.len() == 11
        && "TGA Image Sequence"@.len() == 18);
    assert("MP4 - Lossless"@[6] == 'L' && "MP4 - Standard"@[6] == 'S');
    assert("LB"@[0] == 'L' && "SQ"@[0] == 'S' && "HQ"@[0] == 'H' && "HQX"@[0] == 'H'
        && "444"@[0] == '4');
    assert("LB"@.len() == 2 && "444"@.len() == 3 && "HQX"@.len() == 3);
}

} // verus!
