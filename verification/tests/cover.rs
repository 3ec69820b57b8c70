use sleeve::cover::{
    build, cropdetect_args, dimensions, parse_cropdetect, render_args, square_filter, thumbnail_args,
    CropBox, DimensionsError,
};

#[test]
fn parses_a_cropdetect_line() {
    let stderr = "[Parsed_cropdetect_0 @ 0x14] x1:99 x2:1179 y1:0 y2:719 w:1080 h:720 \
                  x:100 y:0 pts:0 t:0 crop=1080:720:100:0";
    assert_eq!(
        parse_cropdetect(stderr),
        Some(CropBox {
            w: 1080,
            h: 720,
            x: 100,
            y: 0
        })
    );
}

#[test]
fn takes_the_last_estimate_when_several_are_reported() {
    let stderr = "crop=1280:720:0:0\ncrop=1080:720:100:0\n";
    assert_eq!(parse_cropdetect(stderr).unwrap().w, 1080);
}

#[test]
fn ignores_output_with_no_crop_line() {
    assert_eq!(parse_cropdetect("no crop here\nffmpeg version 8"), None);
}

#[test]
fn ignores_a_degenerate_zero_area_crop() {
    // cropdetect reports this for an all-black frame; honouring it would
    // produce an empty cover.
    assert_eq!(parse_cropdetect("crop=0:0:0:0"), None);
}

#[test]
fn pillarboxed_thumbnail_is_cropped_then_padded_to_square() {
    // The real case: a 1280x720 frame whose content is 1080x720.
    let crop = CropBox {
        w: 1080,
        h: 720,
        x: 100,
        y: 0,
    };
    let filter = square_filter(1280, 720, Some(crop));
    assert_eq!(filter, "crop=1080:720:100:0,pad=1080:1080:0:180:black");
}

#[test]
fn a_full_frame_16_9_thumbnail_pads_without_losing_picture() {
    let filter = square_filter(1280, 720, None);
    // Side is the long edge, so nothing is cropped away.
    assert_eq!(filter, "crop=1280:720:0:0,pad=1280:1280:0:280:black");
}

#[test]
fn an_already_square_image_is_a_no_op_filter() {
    let filter = square_filter(1000, 1000, None);
    assert_eq!(filter, "crop=1000:1000:0:0,pad=1000:1000:0:0:black");
}

#[test]
fn a_tall_image_pads_horizontally() {
    let filter = square_filter(600, 900, None);
    assert_eq!(filter, "crop=600:900:0:0,pad=900:900:150:0:black");
}

#[test]
fn odd_padding_rounds_down_and_never_exceeds_the_square() {
    // 101 -> side 101, pad_x = 0; the point is that (side - w)/2 can never
    // push the image outside the canvas.
    let filter = square_filter(100, 101, None);
    assert!(filter.contains("pad=101:101:0:0"), "{filter}");
}

#[test]
fn render_args_overwrite_and_stay_quiet() {
    let args = render_args("in.jpg", "out.jpg", "scale=1:1");
    assert!(args.contains(&"-y".to_string()), "must overwrite on re-run");
    assert!(args.windows(2).any(|w| w == ["-vf", "scale=1:1"]));
}

#[test]
fn cropdetect_loops_the_still_so_it_has_frames_to_converge_on() {
    // The regression this guards: handed one frame, cropdetect prints
    // nothing, detection silently returns None, and every cover is padded
    // as though it had no bars. The bug is invisible in the output.
    let args = cropdetect_args("thumb.jpg");
    let loop_at = args.iter().position(|a| a == "-loop").expect("must loop");
    let input_at = args.iter().position(|a| a == "-i").unwrap();
    assert!(loop_at < input_at, "-loop is an input option");

    let frames = args
        .iter()
        .position(|a| a == "-frames:v")
        .map(|i| args[i + 1].parse::<u32>().unwrap())
        .unwrap();
    assert!(
        frames >= 2,
        "one frame produces no cropdetect output at all"
    );
}

#[test]
fn thumbnail_args_request_jpeg_and_refuse_playlists() {
    let args = thumbnail_args("https://youtu.be/x", "thumb.%(ext)s");
    assert!(
        args.windows(2)
            .any(|w| w == ["--convert-thumbnails", "jpg"])
    );
    assert!(args.contains(&"--no-playlist".to_string()));
}

// ---------------------------------------------------------------------------

#[test]
fn a_cropdetect_line_needs_exactly_four_numbers() {
    assert_eq!(parse_cropdetect("crop=10:20:30"), None);
    assert_eq!(parse_cropdetect("crop=10:20:30:40:50"), None);
    assert_eq!(parse_cropdetect("crop=10:x:30:40"), None);
    assert_eq!(parse_cropdetect("crop=10:0:30:40"), None);
    assert_eq!(
        parse_cropdetect("crop= 10 : 20 :+3:4 \r\n"),
        Some(CropBox { w: 10, h: 20, x: 3, y: 4 })
    );
    // A later bad line does not undo an earlier good one.
    assert_eq!(
        parse_cropdetect("crop=8:6:1:2\ncrop=0:0:0:0\ncrop=junk"),
        Some(CropBox { w: 8, h: 6, x: 1, y: 2 })
    );
    // The last `crop=` of a line counts.
    assert_eq!(
        parse_cropdetect("crop=1:1:1:1 crop=5:6:7:8"),
        Some(CropBox { w: 5, h: 6, x: 7, y: 8 })
    );
    assert_eq!(parse_cropdetect("crop=99999999999:1:0:0"), None);
}

#[test]
fn the_square_side_is_the_long_edge() {
    let filter = square_filter(u32::MAX, 1, None);
    assert_eq!(
        filter,
        format!("crop={m}:1:0:0,pad={m}:{m}:0:{p}:black", m = u32::MAX, p = (u32::MAX - 1) / 2)
    );
}

#[test]
fn dimensions_read_width_and_height() {
    assert_eq!(dimensions("1280,720\n"), Ok((1280, 720)));
    assert_eq!(dimensions(" 640 , 480 \nignored"), Ok((640, 480)));
    assert_eq!(dimensions(""), Err(DimensionsError::NoDimensions));
    assert_eq!(dimensions("1280x720"), Err(DimensionsError::NoDimensions));
    assert_eq!(dimensions("wide,720"), Err(DimensionsError::NotANumber));
    assert_eq!(dimensions("1280,720,3"), Err(DimensionsError::NotANumber));
}

#[test]
fn build_renders_the_detected_box_padded_to_square_into_cover_jpg() {
    let (output, args) = build(
        "/work/thumb.jpg",
        "/work",
        1280,
        720,
        "frame 1 crop=1280:720:0:0\nframe 2 crop=1080:720:100:0\n",
    );
    assert_eq!(output, "/work/cover.jpg");
    assert_eq!(
        args,
        vec![
            "-v",
            "error",
            "-y",
            "-i",
            "/work/thumb.jpg",
            "-vf",
            "crop=1080:720:100:0,pad=1080:1080:0:180:black",
            "-q:v",
            "2",
            "/work/cover.jpg",
        ]
    );
}

#[test]
fn build_without_a_detected_box_squares_the_whole_frame() {
    let (output, args) = build("thumb.jpg", "out", 600, 900, "no crop here");
    assert_eq!(output, "out/cover.jpg");
    assert_eq!(args[6], "crop=600:900:0:0,pad=900:900:150:0:black");
}

#[test]
fn a_later_all_black_frame_does_not_replace_a_real_box() {
    let stderr = "crop=1080:720:100:0\ncrop=0:0:0:0\n";
    assert_eq!(
        parse_cropdetect(stderr),
        Some(CropBox {
            w: 1080,
            h: 720,
            x: 100,
            y: 0
        })
    );
}
