use sleeve::tools::{check_available, Tool};

#[test]
fn every_tool_has_an_install_hint() {
    for tool in [Tool::YtDlp, Tool::Ffmpeg, Tool::Ffprobe] {
        assert!(!tool.install_hint().is_empty(), "{:?}", tool.binary());
    }
}

#[test]
fn ffprobe_hint_points_at_the_ffmpeg_formula() {
    // ffprobe has no formula of its own; a hint saying `brew install
    // ffprobe` would send people to a package that does not exist.
    assert_eq!(Tool::Ffprobe.install_hint(), Tool::Ffmpeg.install_hint());
}

#[test]
fn check_available_names_all_missing_tools() {
    // yt-dlp, looked for and not found.
    let err = check_available(&[Tool::YtDlp], &[false]).err();
    if let Some(err) = err {
        let msg = err;
        assert!(msg.contains("yt-dlp"), "{msg}");
        assert!(msg.contains("install with"), "{msg}");
    }
}

// ---------------------------------------------------------------------------

#[test]
fn nothing_missing_is_ok() {
    assert_eq!(check_available(&[Tool::YtDlp, Tool::Ffmpeg], &[true, true]), Ok(()));
    assert_eq!(check_available(&[], &[]), Ok(()));
}

#[test]
fn the_report_lists_every_missing_tool_in_order() {
    let msg = check_available(
        &[Tool::YtDlp, Tool::Ffmpeg, Tool::Ffprobe],
        &[false, true, false],
    )
    .unwrap_err();
    assert_eq!(
        msg,
        "required tool(s) not found on PATH:\n  \
         yt-dlp   install with: brew install yt-dlp   (or: pipx install yt-dlp)\n  \
         ffprobe  install with: brew install ffmpeg"
    );
}

#[test]
fn binaries_are_named_as_on_path() {
    assert_eq!(Tool::YtDlp.binary(), "yt-dlp");
    assert_eq!(Tool::Ffmpeg.binary(), "ffmpeg");
    assert_eq!(Tool::Ffprobe.binary(), "ffprobe");
}
