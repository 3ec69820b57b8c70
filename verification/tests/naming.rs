use sleeve::naming::{
    infer_tags, safe_stem, strip_noise_tags, track_filename, track_prefix, truncate_bytes,
    MAX_STEM_BYTES,
};

#[test]
fn path_separators_become_dashes() {
    // The real case this came from: a chapter titled with a date.
    assert_eq!(safe_stem("Live 8/7/26"), "Live 8-7-26");
    assert_eq!(safe_stem(r"A\B"), "A-B");
    assert_eq!(safe_stem("A:B"), "A-B");
}

#[test]
fn apostrophes_and_ampersands_survive() {
    // These are legal in filenames and stripping them mangles real titles.
    assert_eq!(
        safe_stem("Heron's Landing Part II"),
        "Heron's Landing Part II"
    );
    assert_eq!(
        safe_stem("Nightjar, Wren & Friends"),
        "Nightjar, Wren & Friends"
    );
}

#[test]
fn whitespace_is_collapsed_and_trimmed() {
    assert_eq!(safe_stem("  A   B  "), "A B");
    assert_eq!(safe_stem("A\tB"), "A B");
}

#[test]
fn leading_dots_are_stripped_so_tracks_are_not_hidden() {
    assert_eq!(safe_stem(".hidden"), "hidden");
    assert_eq!(safe_stem("trailing."), "trailing");
}

#[test]
fn a_title_of_only_unsafe_characters_still_yields_a_filename() {
    assert_eq!(safe_stem("..."), "untitled");
    assert_eq!(safe_stem("   "), "untitled");
}

#[test]
fn long_titles_truncate_on_a_char_boundary() {
    let long = "é".repeat(200); // 400 bytes
    let stem = safe_stem(&long);
    assert!(stem.len() <= MAX_STEM_BYTES);
    assert!(stem.chars().all(|c| c == 'é'), "truncated mid-character");
}

#[test]
fn track_prefix_widens_with_the_total() {
    assert_eq!(track_prefix(1, 9), "01"); // never narrower than 2
    assert_eq!(track_prefix(7, 23), "07");
    assert_eq!(track_prefix(7, 100), "007");
}

#[test]
fn track_filename_composes_prefix_stem_and_extension() {
    assert_eq!(
        track_filename(3, 23, "Slow Ascent", "m4a"),
        "03 - Slow Ascent.m4a"
    );
}

#[test]
fn artist_and_album_split_on_the_first_dash() {
    let tags = infer_tags("Some Band - Live - Second Night");
    assert_eq!(tags.artist.as_deref(), Some("Some Band"));
    assert_eq!(tags.album, "Live - Second Night");
}

#[test]
fn trailing_noise_tags_are_dropped() {
    let tags = infer_tags("Some Band - The Album [Full Album]");
    assert_eq!(tags.artist.as_deref(), Some("Some Band"));
    assert_eq!(tags.album, "The Album");
}

#[test]
fn several_stacked_noise_tags_are_all_dropped() {
    assert_eq!(strip_noise_tags("A Show [Full Show] (HD) [4K]"), "A Show");
}

#[test]
fn meaningful_parentheses_are_kept() {
    // (Live) and (Deluxe Edition) are part of the album's name.
    assert_eq!(strip_noise_tags("The Album (Live)"), "The Album (Live)");
    assert_eq!(
        strip_noise_tags("The Album (Deluxe Edition)"),
        "The Album (Deluxe Edition)"
    );
}

#[test]
fn a_title_without_a_dash_becomes_an_album_with_no_artist() {
    let tags = infer_tags("Just A Concert Recording");
    assert_eq!(tags.artist, None);
    assert_eq!(tags.album, "Just A Concert Recording");
}

#[test]
fn a_dangling_dash_is_not_treated_as_a_split() {
    let tags = infer_tags(" - Album");
    assert_eq!(tags.artist, None);
}

#[test]
fn noise_matching_is_case_insensitive() {
    assert_eq!(strip_noise_tags("X [FULL ALBUM]"), "X");
    assert_eq!(strip_noise_tags("X [Full album]"), "X");
}

// ---------------------------------------------------------------------------

#[test]
fn control_characters_become_dashes_but_tabs_become_spaces() {
    assert_eq!(safe_stem("A\u{7}B"), "A-B");
    assert_eq!(safe_stem("A\u{85}B"), "A B");
    assert_eq!(safe_stem("A\u{3000}\u{2003}B"), "A B");
}

#[test]
fn a_stem_is_never_empty_and_never_starts_with_a_dot_or_space() {
    for title in ["", ".", " . ", "/", "..a..", "  ::  ", "\t.x"] {
        let stem = safe_stem(title);
        assert!(!stem.is_empty(), "{title:?}");
        assert!(!stem.starts_with('.'), "{title:?} -> {stem:?}");
        assert!(!stem.starts_with(' ') && !stem.ends_with(' '), "{title:?} -> {stem:?}");
        assert!(!stem.contains('/') && !stem.contains(':') && !stem.contains('\\'));
        assert!(!stem.contains("  "));
    }
    assert_eq!(safe_stem("..a.."), "a");
}

#[test]
fn truncation_counts_bytes_and_drops_the_trailing_space_it_exposes() {
    let title = format!("{} {}", "a".repeat(179), "b".repeat(10));
    assert_eq!(safe_stem(&title), "a".repeat(179));
    let exact = "x".repeat(180);
    assert_eq!(safe_stem(&exact), exact);
    let over = "x".repeat(181);
    assert_eq!(safe_stem(&over), "x".repeat(180));
    // Three-byte characters: 60 fit into 180 bytes.
    let wide = "あ".repeat(100);
    assert_eq!(safe_stem(&wide), "あ".repeat(60));
}

#[test]
fn truncate_bytes_leaves_a_string_that_fits_alone() {
    let mut s = String::from("abc ");
    truncate_bytes(&mut s, 4);
    assert_eq!(s, "abc ");
    let mut s = String::from("ab cd");
    truncate_bytes(&mut s, 3);
    assert_eq!(s, "ab");
    let mut s = String::from("é");
    truncate_bytes(&mut s, 1);
    assert_eq!(s, "");
}

#[test]
fn prefixes_sort_like_track_numbers() {
    let names: Vec<String> = (1..=120).map(|i| track_prefix(i, 120)).collect();
    let mut sorted = names.clone();
    sorted.sort();
    assert_eq!(names, sorted);
    assert!(names.iter().all(|n| n.len() == 3));
    assert_eq!(track_prefix(0, 5), "00");
    assert_eq!(track_prefix(1234, 9), "1234");
}

#[test]
fn an_artist_never_contains_the_separator() {
    let tags = infer_tags("A - B - C - D");
    assert_eq!(tags.artist.as_deref(), Some("A"));
    assert_eq!(tags.album, "B - C - D");
    let tags = infer_tags("Artist -  ");
    assert_eq!(tags.artist, None);
    assert_eq!(tags.album, "Artist -");
}

#[test]
fn only_a_trailing_group_is_noise() {
    assert_eq!(strip_noise_tags("[HD] Album"), "[HD] Album");
    assert_eq!(strip_noise_tags("Album [ hd ]  "), "Album");
    assert_eq!(strip_noise_tags("Album (Live) [Lyrics]"), "Album (Live)");
    assert_eq!(strip_noise_tags("  A   B  (Visualizer)"), "A B");
    assert_eq!(strip_noise_tags("HD]"), "HD]");
}

#[test]
fn a_dot_exposed_by_the_cut_is_dropped_too() {
    let title = format!("{}.{}", "a".repeat(179), "b".repeat(10));
    assert_eq!(safe_stem(&title), "a".repeat(179));
    let title = format!("{}. .{}", "a".repeat(177), "b".repeat(10));
    assert_eq!(safe_stem(&title), "a".repeat(177));
}

#[test]
fn a_track_prefix_reads_back_as_its_number() {
    for (i, total) in [(7usize, 12usize), (1, 9), (42, 100), (100, 100), (1234, 99)] {
        let p = track_prefix(i, total);
        assert!(p.chars().all(|c| c.is_ascii_digit()), "{p}");
        assert_eq!(p.parse::<usize>(), Ok(i));
    }
    assert_eq!(track_prefix(7, 12).len(), 2);
    assert_eq!(track_prefix(7, 100).len(), 3);
}

#[test]
fn a_split_title_is_artist_dash_album_again() {
    let title = "  Some   Band - Live - At the Hall [Full Show] (HD)";
    let cleaned = strip_noise_tags(title);
    let t = infer_tags(title);
    let artist = t.artist.clone().unwrap();
    assert_eq!(cleaned, format!("{artist} - {}", t.album));
    assert_eq!(artist, "Some Band");
    assert_eq!(t.album, "Live - At the Hall");

    let t = infer_tags(" - Album");
    assert_eq!(t.artist, None);
    assert_eq!(t.album, "- Album");
    let t = infer_tags("Just A Concert Recording");
    assert_eq!(t.artist, None);
    assert_eq!(t.album, "Just A Concert Recording");
}

#[test]
fn whitespace_and_control_codes_are_told_apart_as_std_does() {
    for u in (0u32..0x3100).chain(0xfeff..0xff00) {
        let Some(c) = char::from_u32(u) else { continue };
        let stem = safe_stem(&format!("a{c}b"));
        if c.is_whitespace() {
            assert_eq!(stem, "a b", "U+{u:04X}");
        } else if c.is_control() || c == '/' || c == '\\' || c == ':' {
            assert_eq!(stem, "a-b", "U+{u:04X}");
        } else {
            assert_eq!(stem, format!("a{c}b"), "U+{u:04X}");
        }
    }
}
