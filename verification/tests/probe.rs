use sleeve::probe::{probe_args, upload_year};

#[test]
fn probe_args_refuse_playlists() {
    let args = probe_args("https://youtu.be/abc");
    assert!(args.contains(&"--no-playlist".to_string()));
    assert_eq!(args.last().unwrap(), "https://youtu.be/abc");
}

// ---------------------------------------------------------------------------

#[test]
fn year_comes_from_the_first_four_digits_of_upload_date() {
    assert_eq!(upload_year(Some("20260807")), Some(2026));
}

#[test]
fn missing_upload_date_yields_no_year() {
    assert_eq!(upload_year(None), None);
}

#[test]
fn a_short_or_non_numeric_upload_date_yields_no_year() {
    assert_eq!(upload_year(Some("202")), None);
    assert_eq!(upload_year(Some("2O26")), None);
    assert_eq!(upload_year(Some("+202")), Some(202));
    assert_eq!(upload_year(Some("éé26")), None);
    assert_eq!(upload_year(Some("99999")), Some(9999));
}

#[test]
fn probe_args_dump_the_json_once() {
    assert_eq!(
        probe_args("u"),
        vec!["--dump-single-json", "--no-warnings", "--no-playlist", "u"]
    );
}
