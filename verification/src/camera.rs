//! The camera side: the `scrcpy` command that turns the phone's camera into a
//! V4L2 device, the GStreamer pipeline that reads it, and the decisions taken
//! on what the phone, the pipeline and the frame store report.
use vstd::prelude::*;
use crate::text::{decimal, u64_to_decimal};

verus! {

/// Width of a full capture, in pixels.
pub const WIDTH: u32 = 3840;

/// Height of a full capture, in pixels.
pub const HEIGHT: u32 = 2160;

/// Seconds to wait before restarting `scrcpy` after it failed.
pub const SCRCPY_RETRY_SECS: u64 = 3;

/// The views of a list of strings.
pub open spec fn texts(v: Seq<String>) -> Seq<Seq<char>> {
    v.map_values(|s: String| s@)
}

/// The arguments of the `scrcpy` run that feeds the camera into `device`.
pub open spec fn scrcpy_args_spec(device: Seq<char>, width: nat, height: nat, fps: Seq<char>) -> Seq<Seq<char>> {
    seq![
        "--video-source=camera"@,
        "--v4l2-sink="@ + device,
        "--camera-size="@ + decimal(width) + "x"@ + decimal(height),
        "--camera-fps="@ + fps,
        "--no-window"@,
        "--no-audio"@,
    ]
}

/// The arguments of the `scrcpy` run that feeds the phone's camera, at
/// `width` x `height` and `fps` frames a second, into the V4L2 `device`.
pub fn scrcpy_args(device: &str, width: u32, height: u32, fps: &str) -> (args: Vec<String>)
    ensures
        texts(args@) == scrcpy_args_spec(device@, width as nat, height as nat, fps@),
        texts(args@)[1] == "--v4l2-sink="@ + device@,
        texts(args@)[3] == "--camera-fps="@ + fps@,
{
    let mut sink = String::from_str("--v4l2-sink=");
    sink.append(device);
    let mut size = String::from_str("--camera-size=");
    let w = u64_to_decimal(width as u64);
    let h = u64_to_decimal(height as u64);
    size.append(w.as_str());
    size.append("x");
    size.append(h.as_str());
    let mut rate = String::from_str("--camera-fps=");
    rate.append(fps);
    let mut args: Vec<String> = Vec::new();
    args.push(String::from_str("--video-source=camera"));
    args.push(sink);
    args.push(size);
    args.push(rate);
    args.push(String::from_str("--no-window"));
    args.push(String::from_str("--no-audio"));
    assert(texts(args@) =~= scrcpy_args_spec(device@, width as nat, height as nat, fps@));
    proof {
        lemma_scrcpy_args_configured(device@, width as nat, height as nat, fps@, 0, 0);
    }
    args
}

/// The GStreamer pipeline: the V4L2 `device` split in two branches, one full
/// size behind a closed valve into `main_sink`, one scaled down into
/// `preview_sink`, both RGBA.
pub open spec fn pipeline_spec(
    device: Seq<char>,
    width: nat,
    height: nat,
    preview_width: nat,
    preview_height: nat,
) -> Seq<char> {
    "v4l2src device="@ + device
        + " ! tee name=t t. ! queue max-size-buffers=1 leaky=downstream ! valve name=snapshot_valve drop=true ! videoconvert ! video/x-raw,format=RGBA,width="@
        + decimal(width) + ",height="@ + decimal(height)
        + " ! appsink name=main_sink async=false sync=false max-buffers=1 drop=true t. ! queue ! videoconvert ! videoscale ! video/x-raw,format=RGBA,width="@
        + decimal(preview_width) + ",height="@ + decimal(preview_height)
        + " ! appsink name=preview_sink async=false sync=false max-buffers=1 drop=true"@
}

/// The description of the capture pipeline, in `gst-launch` syntax.
pub fn pipeline_description(
    device: &str,
    width: u32,
    height: u32,
    preview_width: u32,
    preview_height: u32,
) -> (d: String)
    ensures
        d@ == pipeline_spec(
            device@,
            width as nat,
            height as nat,
            preview_width as nat,
            preview_height as nat,
        ),
        d@.take(15 + device@.len() as int) == "v4l2src device="@ + device@,
{
    let mut d = String::from_str("v4l2src device=");
    d.append(device);
    d.append(
        " ! tee name=t t. ! queue max-size-buffers=1 leaky=downstream ! valve name=snapshot_valve drop=true ! videoconvert ! video/x-raw,format=RGBA,width=",
    );
    let s = u64_to_decimal(width as u64);
    d.append(s.as_str());
    d.append(",height=");
    let s = u64_to_decimal(height as u64);
    d.append(s.as_str());
    d.append(
        " ! appsink name=main_sink async=false sync=false max-buffers=1 drop=true t. ! queue ! videoconvert ! videoscale ! video/x-raw,format=RGBA,width=",
    );
    let s = u64_to_decimal(preview_width as u64);
    d.append(s.as_str());
    d.append(",height=");
    let s = u64_to_decimal(preview_height as u64);
    d.append(s.as_str());
    d.append(" ! appsink name=preview_sink async=false sync=false max-buffers=1 drop=true");
    proof {
        lemma_pipeline_reads_device(
            device@,
            width as nat,
            height as nat,
            preview_width as nat,
            preview_height as nat,
        );
    }
    d
}

/// The arguments of the `scrcpy` run that records the camera, as H.264 in
/// Matroska, into the pipe `fifo`.
pub open spec fn stream_scrcpy_args_spec(fifo: Seq<char>) -> Seq<Seq<char>> {
    seq![
        "--video-source=camera"@,
        "--camera-size=1280x960"@,
        "--no-audio"@,
        "--no-window"@,
        "--record"@,
        fifo,
        "--record-format=mkv"@,
        "--video-bit-rate=4M"@,
        "--max-fps=30"@,
        "--video-codec=h264"@,
    ]
}

/// The arguments of the `scrcpy` run that records the camera into `fifo`.
pub fn stream_scrcpy_args(fifo: &str) -> (args: Vec<String>)
    ensures
        texts(args@) == stream_scrcpy_args_spec(fifo@),
        texts(args@)[5] == fifo@,
        texts(args@)[9] == "--video-codec=h264"@,
{
    let mut args: Vec<String> = Vec::new();
    args.push(String::from_str("--video-source=camera"));
    args.push(String::from_str("--camera-size=1280x960"));
    args.push(String::from_str("--no-audio"));
    args.push(String::from_str("--no-window"));
    args.push(String::from_str("--record"));
    args.push(String::from_str(fifo));
    args.push(String::from_str("--record-format=mkv"));
    args.push(String::from_str("--video-bit-rate=4M"));
    args.push(String::from_str("--max-fps=30"));
    args.push(String::from_str("--video-codec=h264"));
    assert(texts(args@) =~= stream_scrcpy_args_spec(fifo@));
    proof {
        lemma_stream_commands_agree(fifo@);
    }
    args
}

/// The arguments of the `ffmpeg` run that reads the recording from `fifo`
/// and writes the bare H.264 Annex-B stream to its standard output, with as
/// little buffering as it allows.
pub open spec fn ffmpeg_args_spec(fifo: Seq<char>) -> Seq<Seq<char>> {
    seq![
        "-probesize"@,
        "32"@,
        "-analyzeduration"@,
        "0"@,
        "-i"@,
        fifo,
        "-c:v"@,
        "copy"@,
        "-f"@,
        "h264"@,
        "-bsf:v"@,
        "h264_mp4toannexb"@,
        "-tune"@,
        "zerolatency"@,
        "-fflags"@,
        "nobuffer+flush_packets"@,
        "-flags"@,
        "low_delay"@,
        "pipe:1"@,
    ]
}

/// The arguments of the `ffmpeg` run that turns the recording in `fifo` into
/// an Annex-B stream on its standard output.
pub fn ffmpeg_args(fifo: &str) -> (args: Vec<String>)
    ensures
        texts(args@) == ffmpeg_args_spec(fifo@),
        texts(args@)[5] == fifo@,
        texts(args@)[8] == "-f"@,
        texts(args@)[9] == "h264"@,
        texts(args@)[11] == "h264_mp4toannexb"@,
{
    let mut args: Vec<String> = Vec::new();
    args.push(String::from_str("-probesize"));
    args.push(String::from_str("32"));
    args.push(String::from_str("-analyzeduration"));
    args.push(String::from_str("0"));
    args.push(String::from_str("-i"));
    args.push(String::from_str(fifo));
    args.push(String::from_str("-c:v"));
    args.push(String::from_str("copy"));
    args.push(String::from_str("-f"));
    args.push(String::from_str("h264"));
    args.push(String::from_str("-bsf:v"));
    args.push(String::from_str("h264_mp4toannexb"));
    args.push(String::from_str("-tune"));
    args.push(String::from_str("zerolatency"));
    args.push(String::from_str("-fflags"));
    args.push(String::from_str("nobuffer+flush_packets"));
    args.push(String::from_str("-flags"));
    args.push(String::from_str("low_delay"));
    args.push(String::from_str("pipe:1"));
    assert(texts(args@) =~= ffmpeg_args_spec(fifo@));
    proof {
        lemma_stream_commands_agree(fifo@);
        reveal_strlit("h264_mp4toannexb");
        reveal_strlit("h264");
        reveal_strlit("_mp4toannexb");
        assert("h264_mp4toannexb"@ =~= "h264"@ + "_mp4toannexb"@);
    }
    args
}

/// When `scrcpy` has exited: `None` to start it again at once after a clean
/// exit, or the seconds to wait after reporting a failed one.
pub fn scrcpy_restart_delay(succeeded: bool) -> (delay: Option<u64>)
    ensures
        succeeded ==> delay is None,
        !succeeded ==> delay == Some(SCRCPY_RETRY_SECS),
{
    if succeeded {
        None
    } else {
        Some(SCRCPY_RETRY_SECS)
    }
}

/// The kinds of message the pipeline's bus delivers, as far as they matter here.
#[derive(Clone, Copy, Debug, PartialEq, Eq)]
pub enum BusMessage {
    EndOfStream,
    Error,
    Other,
}

/// What to do about a bus message.
#[derive(Clone, Copy, Debug, PartialEq, Eq)]
pub enum BusAction {
    /// Stop listening and shut the pipeline down.
    Stop,
    /// Report the error, then stop as above.
    ReportAndStop,
    /// Wait for the next message.
    Continue,
}

/// The end of the stream stops the pipeline, an error is reported and stops
/// it, anything else is passed over.
pub fn bus_action(m: BusMessage) -> (a: BusAction)
    ensures
        m == BusMessage::EndOfStream ==> a == BusAction::Stop,
        m == BusMessage::Error ==> a == BusAction::ReportAndStop,
        m == BusMessage::Other ==> a == BusAction::Continue,
{
    match m {
        BusMessage::EndOfStream => BusAction::Stop,
        BusMessage::Error => BusAction::ReportAndStop,
        BusMessage::Other => BusAction::Continue,
    }
}

/// The latest preview frame for the user interface, or why there is none.
pub fn latest_frame(frame: Option<Vec<u8>>) -> (r: Result<Vec<u8>, String>)
    ensures
        match frame {
            Some(f) => r matches Ok(g) && g@ == f@,
            None => r matches Err(e) && e@ == "No frame available"@,
        },
{
    match frame {
        Some(f) => Ok(f),
        None => Err(String::from_str("No frame available")),
    }
}

/// The preview frame to develop, once the camera has handed over its valve
/// and its full-size sink; else why a picture cannot be taken.
pub fn capture_preview(valve_ready: bool, sink_ready: bool, preview: Option<Vec<u8>>) -> (r: Result<
    Vec<u8>,
    String,
>)
    ensures
        !(valve_ready && sink_ready) ==> (r matches Err(e) && e@ == "Camera not started"@),
        valve_ready && sink_ready ==> match preview {
            Some(p) => r matches Ok(q) && q@ == p@,
            None => r matches Err(e) && e@ == "No preview frame available"@,
        },
{
    if !valve_ready || !sink_ready {
        return Err(String::from_str("Camera not started"));
    }
    match preview {
        Some(p) => Ok(p),
        None => Err(String::from_str("No preview frame available")),
    }
}

// ---------------------------------------------------------------------------
// What the commands are for.

/// The capture pipeline reads the device it is given: its description opens
/// with `v4l2src device=` followed by exactly that device, whatever it is.
pub proof fn lemma_pipeline_reads_device(
    device: Seq<char>,
    width: nat,
    height: nat,
    preview_width: nat,
    preview_height: nat,
)
    ensures
        pipeline_spec(device, width, height, preview_width, preview_height).take(15 + device.len() as int)
            == "v4l2src device="@ + device,
        pipeline_spec(device, width, height, preview_width, preview_height).subrange(
            15,
            15 + device.len() as int,
        ) == device,
{
    reveal_strlit("v4l2src device=");
    let d = pipeline_spec(device, width, height, preview_width, preview_height);
    let head = "v4l2src device="@ + device;
    assert(d.take(15 + device.len() as int) =~= head);
    assert(d.subrange(15, 15 + device.len() as int) =~= device);
}

/// `scrcpy` is asked for the configured sink, size and frame rate: its
/// second argument names the given device, its third the given width and
/// height in decimal, its fourth the given frame rate as written; and the
/// device it feeds is the one the capture pipeline reads.
pub proof fn lemma_scrcpy_args_configured(
    device: Seq<char>,
    width: nat,
    height: nat,
    fps: Seq<char>,
    preview_width: nat,
    preview_height: nat,
)
    ensures
        scrcpy_args_spec(device, width, height, fps).len() == 6,
        scrcpy_args_spec(device, width, height, fps)[1] == "--v4l2-sink="@ + device,
        scrcpy_args_spec(device, width, height, fps)[2] == "--camera-size="@ + decimal(width) + "x"@
            + decimal(height),
        scrcpy_args_spec(device, width, height, fps)[3] == "--camera-fps="@ + fps,
        scrcpy_args_spec(device, width, height, fps)[3].skip(13) == fps,
        scrcpy_args_spec(device, width, height, fps)[1].skip(12) == pipeline_spec(
            device,
            width,
            height,
            preview_width,
            preview_height,
        ).subrange(15, 15 + device.len() as int),
{
    reveal_strlit("--camera-fps=");
    reveal_strlit("--v4l2-sink=");
    lemma_pipeline_reads_device(device, width, height, preview_width, preview_height);
    let a = scrcpy_args_spec(device, width, height, fps);
    assert(a[3].skip(13) =~= fps);
    assert(a[1].skip(12) =~= device);
}

/// The two stream commands fit together: `scrcpy` records into the pipe
/// that `ffmpeg` reads; `ffmpeg` copies the video out as the bare
/// elementary stream of the very codec `scrcpy` records (H.264), turned into
/// Annex-B form by that codec's `mp4toannexb` filter, onto its standard
/// output, where the batcher reads it.
pub proof fn lemma_stream_commands_agree(fifo: Seq<char>)
    ensures
        stream_scrcpy_args_spec(fifo)[4] == "--record"@,
        stream_scrcpy_args_spec(fifo)[5] == fifo,
        ffmpeg_args_spec(fifo)[4] == "-i"@,
        ffmpeg_args_spec(fifo)[5] == fifo,
        ffmpeg_args_spec(fifo)[6] == "-c:v"@,
        ffmpeg_args_spec(fifo)[7] == "copy"@,
        ffmpeg_args_spec(fifo)[8] == "-f"@,
        ffmpeg_args_spec(fifo)[9] == "h264"@,
        stream_scrcpy_args_spec(fifo)[9] == "--video-codec="@ + ffmpeg_args_spec(fifo)[9],
        stream_scrcpy_args_spec(fifo)[9] == "--video-codec=h264"@,
        ffmpeg_args_spec(fifo)[10] == "-bsf:v"@,
        ffmpeg_args_spec(fifo)[11] == ffmpeg_args_spec(fifo)[9] + "_mp4toannexb"@,
        ffmpeg_args_spec(fifo).last() == "pipe:1"@,
{
    reveal_strlit("--video-codec=h264");
    reveal_strlit("--video-codec=");
    reveal_strlit("h264");
    reveal_strlit("h264_mp4toannexb");
    reveal_strlit("_mp4toannexb");
    assert("--video-codec=h264"@ =~= "--video-codec="@ + "h264"@);
    assert("h264_mp4toannexb"@ =~= "h264"@ + "_mp4toannexb"@);
}

} // verus!
