use vstd::prelude::*;
use crate::registry::{Signal, Ticket};

verus! {

/// Codec chosen for the optional video step; `Unset` disables the step.
#[derive(PartialEq, Eq, Structural, Clone, Copy, Debug)]
pub enum VideoCodec {
    Unset,
    H264,
    ProRes,
}

/// Global settings handed to every job.
pub struct Settings {
    pub is_forest_green_enabled: bool,
    pub is_video_enabled: bool,
    pub video_codec: VideoCodec,
    pub ffmpeg_path: Option<String>,
    pub video_output_path: Option<String>,
    pub frame_rate: u32,
}

pub open spec fn default_frame_rate() -> u32 {
    4
}

impl Settings {
    /// Video off, no codec, no encoder or output folder, four frames per second.
    pub fn new() -> (r: Self)
        ensures
            !r.is_forest_green_enabled,
            !r.is_video_enabled,
            r.video_codec == VideoCodec::Unset,
            r.ffmpeg_path is None,
            r.video_output_path is None,
            r.frame_rate == default_frame_rate(),
    {
        Settings {
            is_forest_green_enabled: false,
            is_video_enabled: false,
            video_codec: VideoCodec::Unset,
            ffmpeg_path: None,
            video_output_path: None,
            frame_rate: 4,
        }
    }

    pub open spec fn spec_wants_video(&self) -> bool {
        self.is_video_enabled && self.video_codec != VideoCodec::Unset && self.ffmpeg_path is Some
    }

    /// Whether a job runs the video step after a successful migration: video
    /// enabled, a codec chosen and an encoder binary configured.
    pub fn wants_video(&self) -> (r: bool)
        ensures
            r == self.spec_wants_video(),
    {
        self.is_video_enabled && self.video_codec != VideoCodec::Unset && self.ffmpeg_path.is_some()
    }
}

pub open spec fn video_file_name_spec(
    location: Seq<char>,
    camera: Seq<char>,
    start_date: Seq<char>,
    end_date: Seq<char>,
) -> Seq<char> {
    location + seq!['-'] + camera + seq!['-'] + start_date + seq!['-'] + end_date + seq![
        '.',
        'm',
        'o',
        'v',
    ]
}

/// Name of the video file for a migration: location, camera, first and last
/// date joined by dashes, with the `.mov` extension.
pub fn video_file_name(location: &str, camera: &str, start_date: &str, end_date: &str) -> (r:
    String)
    ensures
        r@ == video_file_name_spec(location@, camera@, start_date@, end_date@),
{
    proof {
        reveal_strlit("-");
        reveal_strlit(".mov");
    }
    let mut name = String::from_str(location);
    name.append("-");
    name.append(camera);
    name.append("-");
    name.append(start_date);
    name.append("-");
    name.append(end_date);
    name.append(".mov");
    assert(name@ =~= video_file_name_spec(location@, camera@, start_date@, end_date@));
    name
}

/// The terminal signal of a job: success exactly when the migration step
/// succeeded, whatever became of the video step.
pub fn job_signal<E>(ticket: Ticket, migration: Result<(), E>) -> (r: Signal<E>)
    ensures
        r == (match migration {
            Ok(()) => Signal::Success(ticket),
            Err(e) => Signal::Error(ticket, e),
        }),
{
    match migration {
        Ok(()) => Signal::Success(ticket),
        Err(e) => Signal::Error(ticket, e),
    }
}

} // verus!
