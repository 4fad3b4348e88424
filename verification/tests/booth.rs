use base64::Engine;
use szelfibox::buttons::{button_for_line, button_for_pin, serial_action, SerialAction, SerialRead};
use szelfibox::camera::{
    bus_action, capture_preview, ffmpeg_args, latest_frame, pipeline_description, scrcpy_args,
    scrcpy_restart_delay, stream_scrcpy_args, BusAction, BusMessage, HEIGHT, WIDTH,
};
use szelfibox::files::{newest_file, FileInfo};
use szelfibox::nal::{NalBatcher, MAX_PENDING, READ_CHUNK_MAX};
use szelfibox::payload::create_payload;
use szelfibox::phone::{copy_args, get_phone_picture_dir, print_steps, tap_args, tap_schedule, Tap};
use szelfibox::picture::{
    develop_picture, framed_picture, full_picture, image_path, picture_id, qr_link, PREVIEW_HEIGHT,
    PREVIEW_WIDTH,
};
use szelfibox::server::{picture_response, served_file, FileRead, PictureResponse};
use szelfibox::text::{i32_to_decimal, u64_to_decimal};

const PNG_SIGNATURE: [u8; 8] = [0x89, b'P', b'N', b'G', 0x0d, 0x0a, 0x1a, 0x0a];

// ---------------------------------------------------------------- payload

#[test]
fn payload_frames_length_image_and_qr() {
    let p = create_payload(vec![1, 2, 3], vec![9, 8]);
    assert_eq!(p, vec![3, 0, 0, 0, 1, 2, 3, 9, 8]);
}

#[test]
fn payload_length_is_little_endian() {
    let image = vec![7u8; 300];
    let p = create_payload(image.clone(), vec![]);
    assert_eq!(&p[..4], &[44, 1, 0, 0]);
    assert_eq!(p.len(), 304);
    assert_eq!(&p[4..], &image[..]);
}

#[test]
fn payload_of_empty_parts() {
    assert_eq!(create_payload(vec![], vec![]), vec![0, 0, 0, 0]);
}

#[test]
fn payload_splits_back_into_its_parts() {
    let image: Vec<u8> = (0..70000u32).map(|i| (i % 251) as u8).collect();
    let qr: Vec<u8> = vec![5, 6, 7];
    let p = create_payload(image.clone(), qr.clone());
    let n = u32::from_le_bytes([p[0], p[1], p[2], p[3]]) as usize;
    assert_eq!(n, image.len());
    assert_eq!(&p[4..4 + n], &image[..]);
    assert_eq!(&p[4 + n..], &qr[..]);
}

// ---------------------------------------------------------------- NAL batching

fn feed_all(b: &mut NalBatcher, chunks: &[&[u8]]) -> Vec<Vec<u8>> {
    let mut out = Vec::new();
    for c in chunks {
        out.extend(b.push_chunk(c));
    }
    out
}

#[test]
fn nal_batches_three_units() {
    let mut b = NalBatcher::new();
    let stream: Vec<u8> = vec![
        0, 0, 0, 1, 0x67, 1, // unit 1
        0, 0, 0, 1, 0x68, 2, // unit 2
        0, 0, 0, 1, 0x65, 3, // unit 3
        0, 0, 0, 1, 0x41, 4,
    ];
    let out = feed_all(&mut b, &[&stream]);
    // The third start code closes the first batch: everything before it.
    assert_eq!(out, vec![vec![0, 0, 0, 1, 0x67, 1, 0, 0, 0, 1, 0x68, 2]]);
}

#[test]
fn nal_start_code_split_across_chunks() {
    let mut b = NalBatcher::new();
    let out = feed_all(
        &mut b,
        &[&[9, 0, 0], &[0, 1, 8, 0, 0, 0], &[1, 7, 0], &[0, 0, 1, 6]],
    );
    assert_eq!(out, vec![vec![9, 0, 0, 0, 1, 8, 0, 0, 0, 1, 7]]);
}

#[test]
fn nal_empty_batch_is_not_sent() {
    let mut b = NalBatcher::new();
    // Three start codes in a row: the batch before the third is two start codes.
    let out = feed_all(&mut b, &[&[0, 0, 0, 1, 0, 0, 0, 1, 0, 0, 0, 1]]);
    assert_eq!(out, vec![vec![0, 0, 0, 1, 0, 0, 0, 1]]);
    // After a reset the batch holds one start code, not counted: three more
    // are needed before it goes out.
    let out = feed_all(&mut b, &[&[0, 0, 0, 1, 0, 0, 0, 1]]);
    assert!(out.is_empty());
    let out = feed_all(&mut b, &[&[0, 0, 0, 1]]);
    assert_eq!(out, vec![vec![0, 0, 0, 1, 0, 0, 0, 1, 0, 0, 0, 1]]);
}

#[test]
fn nal_conserves_bytes() {
    let mut stream = Vec::new();
    for i in 0..50u32 {
        stream.extend_from_slice(&[0, 0, 0, 1]);
        for k in 0..(i % 7) {
            stream.push((k * 3 + 2) as u8);
        }
    }
    let mut b = NalBatcher::new();
    let mut out: Vec<u8> = Vec::new();
    for chunk in stream.chunks(5) {
        for p in b.push_chunk(chunk) {
            assert!(!p.is_empty());
            out.extend(p);
        }
    }
    // What was sent is a prefix of the stream; the rest is still pending,
    // and a large chunk of filler bytes pushes it out.
    assert_eq!(&stream[..out.len()], &out[..]);
    let flushed = b.push_chunk(&vec![2u8; MAX_PENDING]);
    let mut all = out.clone();
    for p in flushed {
        all.extend(p);
    }
    let mut expected = stream.clone();
    expected.extend(vec![2u8; MAX_PENDING]);
    assert_eq!(all, expected);
}

#[test]
fn nal_flushes_oversized_batch() {
    let mut b = NalBatcher::new();
    let out = b.push_chunk(&vec![5u8; MAX_PENDING]);
    assert!(out.is_empty());
    let out = b.push_chunk(&[5u8]);
    assert_eq!(out.len(), 1);
    assert_eq!(out[0].len(), MAX_PENDING + 1);
    assert!(b.push_chunk(&[]).is_empty());
}

// ---------------------------------------------------------------- decimal text

#[test]
fn decimal_text_of_numbers() {
    assert_eq!(u64_to_decimal(0), "0");
    assert_eq!(u64_to_decimal(7), "7");
    assert_eq!(u64_to_decimal(1234567890), "1234567890");
    assert_eq!(u64_to_decimal(u64::MAX), u64::MAX.to_string());
    assert_eq!(i32_to_decimal(-42), "-42");
    assert_eq!(i32_to_decimal(0), "0");
    assert_eq!(i32_to_decimal(i32::MIN), i32::MIN.to_string());
    assert_eq!(i32_to_decimal(i32::MAX), i32::MAX.to_string());
}

// ---------------------------------------------------------------- pictures

fn expected_id(preview: &[u8]) -> String {
    let h = xxhash_rust::xxh3::xxh3_128(preview);
    let mut s = base64::prelude::BASE64_URL_SAFE_NO_PAD.encode(h.to_be_bytes());
    s.truncate(32);
    s
}

#[test]
fn picture_id_is_hash_in_url_safe_base64() {
    let preview = vec![1u8, 2, 3, 4, 5];
    let id = picture_id(&preview);
    assert_eq!(id, expected_id(&preview));
    assert_eq!(id.len(), 22);
    assert!(id.chars().all(|c| c.is_ascii_alphanumeric() || c == '-' || c == '_'));
    assert_ne!(picture_id(&[1u8, 2, 3, 4, 6]), id);
    for n in 0..40u8 {
        let p: Vec<u8> = (0..n).map(|k| k.wrapping_mul(37).wrapping_add(n)).collect();
        assert_eq!(picture_id(&p), expected_id(&p));
    }
    assert_eq!(picture_id(&[]), expected_id(&[]));
}

#[test]
fn picture_paths_and_links() {
    assert_eq!(image_path("abc"), "../static/images/abc.png");
    assert_eq!(qr_link("abc"), "https://box.kende.dev/abc");
}

#[test]
fn develop_picture_frames_preview_and_qr() {
    let preview = vec![128u8; (PREVIEW_WIDTH * PREVIEW_HEIGHT * 4) as usize];
    let dev = develop_picture(preview.clone()).expect("the preview encodes");
    assert_eq!(dev.id, expected_id(&preview));
    assert_eq!(dev.image_path, format!("../static/images/{}.png", dev.id));
    let payload = dev.payload.expect("the link fits in a QR code");
    let n = u32::from_le_bytes([payload[0], payload[1], payload[2], payload[3]]) as usize;
    assert_eq!(&payload[4..12], &PNG_SIGNATURE);
    assert_eq!(&payload[4 + n..4 + n + 8], &PNG_SIGNATURE);
    let png = image::load_from_memory(&payload[4..4 + n]).unwrap();
    assert_eq!((png.width(), png.height()), (PREVIEW_WIDTH, PREVIEW_HEIGHT));
    let qr = image::load_from_memory(&payload[4 + n..]).unwrap();
    assert!(qr.width() >= 256 && qr.height() >= 256);
}

#[test]
fn framed_picture_crops_sides_and_overlays() {
    let w = WIDTH as usize;
    let h = HEIGHT as usize;
    let mut frame = vec![0u8; w * h * 4];
    // Mark the pixel at (300, 5) and the one at (299, 5).
    let at = |x: usize, y: usize| (y * w + x) * 4;
    frame[at(300, 5)..at(300, 5) + 4].copy_from_slice(&[10, 20, 30, 255]);
    frame[at(299, 5)..at(299, 5) + 4].copy_from_slice(&[99, 99, 99, 255]);
    // An opaque 1x1 overlay paints the top left corner.
    let out = framed_picture(frame, vec![1, 2, 3, 255], 1, 1);
    let cw = w - 600;
    assert_eq!(out.len(), cw * h * 4);
    assert_eq!(&out[0..4], &[1, 2, 3, 255]);
    let o = (5 * cw) * 4;
    assert_eq!(&out[o..o + 4], &[10, 20, 30, 255]);
}

// ---------------------------------------------------------------- camera

#[test]
fn pipeline_description_matches_layout() {
    let expected = format!(
        "v4l2src device={} ! tee name=t \
         t. ! queue max-size-buffers=1 leaky=downstream \
            ! valve name=snapshot_valve drop=true \
            ! videoconvert ! video/x-raw,format=RGBA,width={},height={} \
            ! appsink name=main_sink async=false sync=false max-buffers=1 drop=true \
         t. ! queue \
            ! videoconvert ! videoscale ! video/x-raw,format=RGBA,width={},height={} \
            ! appsink name=preview_sink async=false sync=false max-buffers=1 drop=true",
        "/dev/video0", 3840, 2160, 720, 480
    );
    assert_eq!(pipeline_description("/dev/video0", WIDTH, HEIGHT, PREVIEW_WIDTH, PREVIEW_HEIGHT), expected);
}

#[test]
fn scrcpy_arguments() {
    assert_eq!(
        scrcpy_args("/dev/video0", 3840, 2160, "24"),
        vec![
            "--video-source=camera",
            "--v4l2-sink=/dev/video0",
            "--camera-size=3840x2160",
            "--camera-fps=24",
            "--no-window",
            "--no-audio"
        ]
    );
    let s = stream_scrcpy_args("/tmp/f");
    assert_eq!(s.len(), 10);
    assert_eq!(s[5], "/tmp/f");
    let f = ffmpeg_args("/tmp/f");
    assert_eq!(f.len(), 19);
    assert_eq!(f[5], "/tmp/f");
    assert_eq!(f[18], "pipe:1");
}

#[test]
fn camera_decisions() {
    assert_eq!(scrcpy_restart_delay(true), None);
    assert_eq!(scrcpy_restart_delay(false), Some(3));
    assert_eq!(bus_action(BusMessage::EndOfStream), BusAction::Stop);
    assert_eq!(bus_action(BusMessage::Error), BusAction::ReportAndStop);
    assert_eq!(bus_action(BusMessage::Other), BusAction::Continue);
}

#[test]
fn frames_and_capture_errors() {
    assert_eq!(latest_frame(Some(vec![1, 2])), Ok(vec![1, 2]));
    assert_eq!(latest_frame(None), Err("No frame available".to_string()));
    assert_eq!(capture_preview(false, true, Some(vec![1])), Err("Camera not started".to_string()));
    assert_eq!(capture_preview(true, false, None), Err("Camera not started".to_string()));
    assert_eq!(capture_preview(true, true, None), Err("No preview frame available".to_string()));
    assert_eq!(capture_preview(true, true, Some(vec![4])), Ok(vec![4]));
}

// ---------------------------------------------------------------- server

#[test]
fn served_files() {
    assert_eq!(
        served_file("abc"),
        ("abc.png".to_string(), "../static/images/abc.png".to_string())
    );
    assert_eq!(served_file("/etc/x"), ("/etc/x.png".to_string(), "/etc/x.png".to_string()));
    let id = picture_id(&[3, 1, 4]);
    assert_eq!(served_file(&id).1, image_path(&id));
}

#[test]
fn picture_responses() {
    assert!(matches!(picture_response("a.png", FileRead::Missing), PictureResponse::NotFound));
    assert!(matches!(picture_response("a.png", FileRead::OpenFailed), PictureResponse::NotFound));
    assert!(matches!(picture_response("a.png", FileRead::ReadFailed), PictureResponse::InternalError));
    match picture_response("a.png", FileRead::Contents(vec![1, 2])) {
        PictureResponse::Found { content_type, content_disposition, body } => {
            assert_eq!(content_type, "image/png");
            assert_eq!(content_disposition, "attachment; filename=\"a.png\"");
            assert_eq!(body, vec![1, 2]);
        }
        _ => panic!("a read file is found"),
    }
}

// ---------------------------------------------------------------- files

fn entry(_name: &str, is_file: bool, created: Option<i128>) -> FileInfo {
    FileInfo { is_file, created }
}

#[test]
fn newest_file_picks_latest_and_last_on_ties() {
    let entries = vec![
        entry("a", true, Some(5)),
        entry("dir", false, Some(100)),
        entry("b", true, Some(9)),
        entry("c", true, None),
        entry("d", true, Some(9)),
        entry("e", true, Some(-3)),
    ];
    assert_eq!(newest_file(&entries), Some(4));
    assert_eq!(newest_file(&vec![entry("dir", false, Some(1)), entry("x", true, None)]), None);
    assert_eq!(newest_file(&vec![]), None);
}

// ---------------------------------------------------------------- phone

#[test]
fn phone_commands() {
    assert_eq!(
        get_phone_picture_dir(),
        "mtp:/REDMAGIC 9 Pro/Internal shared storage/Pictures/szelfibox/"
    );
    assert_eq!(tap_args(160, -7), vec!["shell", "input", "tap", "160", "-7"]);
    assert_eq!(copy_args("a b", "mtp:/x/"), vec!["cp", "a b", "mtp:/x/"]);
}

#[test]
fn print_schedule_taps_each_step_as_often_as_it_says() {
    let taps = tap_schedule(&print_steps());
    let t = |x, y, wait_ms| Tap { x, y, wait_ms };
    assert_eq!(
        taps,
        vec![
            t(160, 700, 500),
            t(160, 1300, 500),
            t(1000, 2380, 500),
            t(1000, 2380, 500),
            t(1000, 2380, 500),
            t(300, 1450, 15000)
        ]
    );
    let total: u64 = taps.iter().map(|t| t.wait_ms).sum();
    assert_eq!(total, 17500);
}

// ---------------------------------------------------------------- buttons

#[test]
fn button_lines() {
    assert_eq!(button_for_line("1"), Some(1));
    assert_eq!(button_for_line("2\r\n"), Some(2));
    assert_eq!(button_for_line(" \t1 \n"), Some(1));
    assert_eq!(button_for_line("\u{3000}2\u{85}"), Some(2));
    assert_eq!(button_for_line("12"), None);
    assert_eq!(button_for_line("3"), None);
    assert_eq!(button_for_line(""), None);
    assert_eq!(button_for_line(" \r\n"), None);
    assert_eq!(button_for_line("1 1"), None);
}

#[test]
fn serial_decisions() {
    assert_eq!(serial_action(SerialRead::Bytes(3), "1\r\n"), SerialAction::Press(1));
    assert_eq!(serial_action(SerialRead::Bytes(2), "x\n"), SerialAction::Unexpected);
    assert_eq!(serial_action(SerialRead::Bytes(0), ""), SerialAction::ReadAgain);
    assert_eq!(serial_action(SerialRead::TimedOut, ""), SerialAction::ReadAgain);
    assert_eq!(serial_action(SerialRead::Failed, ""), SerialAction::Stop);
}

#[test]
fn gpio_buttons() {
    assert_eq!(button_for_pin(2), Some(1));
    assert_eq!(button_for_pin(3), Some(2));
    assert_eq!(button_for_pin(17), None);
}

#[test]
fn nal_run_packet_sizes_stay_bounded() {
    let mut b = NalBatcher::new();
    let read = vec![0u8; READ_CHUNK_MAX];
    let mut sent = Vec::new();
    for _ in 0..9 {
        sent.extend(b.push_chunk(&read));
    }
    assert_eq!(sent.len(), 1);
    assert_eq!(sent[0].len(), MAX_PENDING + READ_CHUNK_MAX);
    for p in &sent {
        assert!(!p.is_empty() && p.len() <= MAX_PENDING + READ_CHUNK_MAX);
    }
}

#[test]
fn nal_packets_end_before_start_codes() {
    let mut stream = Vec::new();
    for i in 0..12u8 {
        stream.extend_from_slice(&[0, 0, 0, 1, 0x60 + i, i]);
    }
    let mut b = NalBatcher::new();
    let packets = b.push_chunk(&stream);
    let mut offset = 0;
    for (i, p) in packets.iter().enumerate() {
        offset += p.len();
        assert_eq!(&stream[offset..offset + 4], &[0, 0, 0, 1]);
        let codes = p.windows(4).filter(|w| *w == [0, 0, 0, 1]).count();
        assert_eq!(codes, if i == 0 { 2 } else { 3 });
    }
}

#[test]
fn full_picture_is_png_of_framed_capture() {
    let w = WIDTH as usize;
    let h = HEIGHT as usize;
    let mut frame = vec![0u8; w * h * 4];
    let at = (7 * w + 310) * 4;
    frame[at..at + 4].copy_from_slice(&[40, 50, 60, 255]);
    let overlay = image::RgbaImage::from_raw(2, 1, vec![9, 8, 7, 255, 0, 0, 0, 0]).unwrap();
    let mut overlay_png = Vec::new();
    overlay
        .write_to(&mut std::io::Cursor::new(&mut overlay_png), image::ImageFormat::Png)
        .unwrap();
    let png = full_picture(frame, &overlay_png).expect("the overlay decodes");
    let img = image::load_from_memory(&png).unwrap().to_rgba8();
    assert_eq!(img.dimensions(), (WIDTH - 600, HEIGHT));
    assert_eq!(img.get_pixel(0, 0).0, [9, 8, 7, 255]);
    assert_eq!(img.get_pixel(1, 0).0, [0, 0, 0, 0]);
    assert_eq!(img.get_pixel(10, 7).0, [40, 50, 60, 255]);
}

#[test]
fn full_picture_needs_a_decodable_overlay() {
    let frame = vec![0u8; (WIDTH * HEIGHT * 4) as usize];
    assert!(full_picture(frame, b"not a png").is_none());
}
