use hls_wavelet::client::HlsClient;
use hls_wavelet::manifest::{HlsManifest, HlsManifestMetadataType, Metadata, Track};

fn integer_under(manifest: &HlsManifest, key: &str) -> Option<i32> {
    match manifest.metadata.get(key) {
        Some(HlsManifestMetadataType::Integer(v)) => Some(*v),
        _ => None,
    }
}

fn names(manifest: &HlsManifest) -> Vec<String> {
    manifest.tracks.iter().map(|t| t.name.clone()).collect()
}

fn durations(manifest: &HlsManifest) -> Vec<f32> {
    manifest.tracks.iter().map(|t| t.duration.parse::<f32>().unwrap()).collect()
}

#[test]
fn test_manifest_fetch() {
    let url = "https://rd-trtradyo3.medya.trt.com.tr/master_128.m3u8";
    let client = HlsClient::new(url).unwrap();
    assert_eq!(client.root().as_str(), "https://rd-trtradyo3.medya.trt.com.tr/");
    let text = String::from(
        "#EXTM3U\n#EXT-X-VERSION:3\n#EXT-X-TARGETDURATION:6\n#EXT-X-MEDIA-SEQUENCE:48213\n\
         #EXTINF:5.994,\nmaster_128_48213.aac\n#EXTINF:6.016,\nmaster_128_48214.aac\n\
         #EXTINF:5.994,\nmaster_128_48215.aac\n",
    );
    let manifest = HlsManifest::new(&text);
    println!("Debugging: {:?}", manifest);
    let manifest = manifest.unwrap();
    assert_eq!(integer_under(&manifest, "#EXT-X-VERSION"), Some(3));
    assert_eq!(integer_under(&manifest, "#EXT-X-TARGETDURATION"), Some(6));
    assert_eq!(integer_under(&manifest, "#EXT-X-MEDIA-SEQUENCE"), Some(48213));
    assert_eq!(integer_under(&manifest, "#EXT-X-DISCONTINUITY-SEQUENCE"), None);
    assert_eq!(
        names(&manifest),
        vec!["master_128_48213.aac", "master_128_48214.aac", "master_128_48215.aac"]
    );
    assert_eq!(durations(&manifest), vec![5.994f32, 6.016, 5.994]);
}

#[test]
fn version_and_one_segment() {
    let manifest = HlsManifest::new("#EXTM3U\n#EXT-X-VERSION:3\n#EXTINF:6.0,seg1.aac\n").unwrap();
    assert_eq!(manifest.metadata.len(), 1);
    assert_eq!(integer_under(&manifest, "#EXT-X-VERSION"), Some(3));
    assert_eq!(manifest.tracks.len(), 1);
    assert_eq!(manifest.tracks[0].name, "seg1.aac");
    assert_eq!(manifest.tracks[0].duration, "6.0");
    assert_eq!(durations(&manifest), vec![6.0f32]);
}

#[test]
fn document_without_marker_is_none() {
    assert!(HlsManifest::new("#EXT-X-VERSION:3\n#EXTINF:6.0,seg1.aac\n").is_none());
    assert!(HlsManifest::new("EXTM3U #EXTINF:6.0,seg1.aac").is_none());
    assert!(HlsManifest::new("#extm3u #EXTINF:6.0,seg1.aac").is_none());
}

#[test]
fn empty_document_is_none() {
    assert!(HlsManifest::new("").is_none());
    assert!(HlsManifest::new(" \n\t,:,\r\n").is_none());
}

#[test]
fn document_without_segment_is_none() {
    assert!(HlsManifest::new("#EXTM3U").is_none());
    assert!(HlsManifest::new("#EXTM3U\n#EXT-X-VERSION:3\n#EXT-X-TARGETDURATION:6\n").is_none());
}

#[test]
fn every_separator_cuts_tokens() {
    let manifest =
        HlsManifest::new("#EXTM3U,#EXT-X-VERSION\t7:#EXTINF\r\n1.5 a.aac\x0C#EXTINF,,::2,b.aac")
            .unwrap();
    assert_eq!(integer_under(&manifest, "#EXT-X-VERSION"), Some(7));
    assert_eq!(names(&manifest), vec!["a.aac", "b.aac"]);
    assert_eq!(durations(&manifest), vec![1.5f32, 2.0]);
}

#[test]
fn vertical_tab_is_no_separator() {
    let manifest = HlsManifest::new("#EXTM3U #EXTINF 1 a\x0Bb").unwrap();
    assert_eq!(names(&manifest), vec!["a\x0Bb"]);
}

#[test]
fn header_without_integer_is_skipped_with_its_value() {
    let manifest =
        HlsManifest::new("#EXTM3U #EXT-X-VERSION three #EXT-X-TARGETDURATION 6 #EXTINF 6.0 s.aac")
            .unwrap();
    assert_eq!(integer_under(&manifest, "#EXT-X-VERSION"), None);
    assert_eq!(integer_under(&manifest, "#EXT-X-TARGETDURATION"), Some(6));
    assert_eq!(manifest.metadata.len(), 1);
    assert_eq!(names(&manifest), vec!["s.aac"]);
}

#[test]
fn header_takes_the_token_after_it_along() {
    // The segment tag stands where the version's value is looked for: it is
    // taken along with the header and announces nothing.
    assert!(HlsManifest::new("#EXTM3U #EXT-X-VERSION #EXTINF 6.0 s.aac").is_none());
    let manifest =
        HlsManifest::new("#EXTM3U #EXT-X-VERSION #EXTINF 6.0 s.aac #EXTINF 2 t.aac").unwrap();
    assert_eq!(names(&manifest), vec!["t.aac"]);
    assert_eq!(manifest.metadata.len(), 0);
}

#[test]
fn header_at_the_end_is_skipped() {
    let manifest = HlsManifest::new("#EXTM3U #EXTINF 6.0 s.aac #EXT-X-VERSION").unwrap();
    assert_eq!(manifest.metadata.len(), 0);
    assert_eq!(names(&manifest), vec!["s.aac"]);
}

#[test]
fn later_header_replaces_earlier() {
    let manifest =
        HlsManifest::new("#EXTM3U #EXT-X-VERSION 3 #EXT-X-VERSION 4 #EXTINF 6.0 s.aac").unwrap();
    assert_eq!(manifest.metadata.len(), 1);
    assert_eq!(integer_under(&manifest, "#EXT-X-VERSION"), Some(4));
}

#[test]
fn all_four_headers_are_read() {
    let manifest = HlsManifest::new(
        "#EXTM3U\n#EXT-X-VERSION:3\n#EXT-X-TARGETDURATION:10\n#EXT-X-MEDIA-SEQUENCE:-2\n\
         #EXT-X-DISCONTINUITY-SEQUENCE:+5\n#EXTINF:1,a\n",
    )
    .unwrap();
    assert_eq!(manifest.metadata.len(), 4);
    assert_eq!(integer_under(&manifest, "#EXT-X-VERSION"), Some(3));
    assert_eq!(integer_under(&manifest, "#EXT-X-TARGETDURATION"), Some(10));
    assert_eq!(integer_under(&manifest, "#EXT-X-MEDIA-SEQUENCE"), Some(-2));
    assert_eq!(integer_under(&manifest, "#EXT-X-DISCONTINUITY-SEQUENCE"), Some(5));
    assert_eq!(integer_under(&manifest, "#EXTINF"), None);
}

#[test]
fn integers_at_the_edge_of_the_range() {
    let top = HlsManifest::new("#EXTM3U #EXT-X-VERSION 2147483647 #EXTINF 1 a").unwrap();
    assert_eq!(integer_under(&top, "#EXT-X-VERSION"), Some(i32::MAX));
    let over = HlsManifest::new("#EXTM3U #EXT-X-VERSION 2147483648 #EXTINF 1 a").unwrap();
    assert_eq!(integer_under(&over, "#EXT-X-VERSION"), None);
    let bottom = HlsManifest::new("#EXTM3U #EXT-X-VERSION -2147483648 #EXTINF 1 a").unwrap();
    assert_eq!(integer_under(&bottom, "#EXT-X-VERSION"), Some(i32::MIN));
    let under = HlsManifest::new("#EXTM3U #EXT-X-VERSION -2147483649 #EXTINF 1 a").unwrap();
    assert_eq!(integer_under(&under, "#EXT-X-VERSION"), None);
    let zeros =
        HlsManifest::new("#EXTM3U #EXT-X-VERSION 000000000000000000000000012 #EXTINF 1 a").unwrap();
    assert_eq!(integer_under(&zeros, "#EXT-X-VERSION"), Some(12));
    let long =
        HlsManifest::new("#EXTM3U #EXT-X-VERSION 99999999999999999999999999 #EXTINF 1 a").unwrap();
    assert_eq!(integer_under(&long, "#EXT-X-VERSION"), None);
}

#[test]
fn what_is_no_integer() {
    for value in ["", "+", "-", "1.0", "1e3", "0x10", "١٢", "1_000", "--1", "3a"] {
        let text = format!("#EXTM3U #EXT-X-VERSION {} #EXTINF 1 a", value);
        match HlsManifest::new(&text) {
            Some(m) => assert_eq!(integer_under(&m, "#EXT-X-VERSION"), None, "{:?}", value),
            None => assert_eq!(value, ""),
        }
    }
}

#[test]
fn the_integer_parser_agrees_with_the_standard_one() {
    for value in ["0", "-0", "+0", "7", "-7", "+7", "0042", "2147483647", "-2147483648"] {
        let text = format!("#EXTM3U #EXT-X-VERSION {} #EXTINF 1 a", value);
        let m = HlsManifest::new(&text).unwrap();
        assert_eq!(integer_under(&m, "#EXT-X-VERSION"), value.parse::<i32>().ok());
    }
}

#[test]
fn durations_that_are_taken() {
    for value in [
        "6", "6.0", "6.", ".5", "+6.25", "0", "0.0", "+0", "1e3", "1E3", "1e+3", "1.5e-3", "1.e2",
        ".5E1", "00012.500", "1e-999", "1e999",
    ] {
        let text = format!("#EXTM3U #EXTINF {} seg", value);
        let m = HlsManifest::new(&text).unwrap();
        assert_eq!(m.tracks.len(), 1, "{:?}", value);
        assert_eq!(m.tracks[0].duration, value);
        let parsed = m.tracks[0].duration.parse::<f32>().unwrap();
        assert!(parsed >= 0.0);
    }
}

#[test]
fn durations_that_are_refused() {
    for value in [
        "-6.0", "-0", "-0.0", "-inf", "-nan", ".", "+", "-", "e5", "1e", "1e+", ".e1", "six", "6s",
        "1.2.3", "1e5.0", "in", "infinit", "infinityy", "nana", "0x10", "1_0", "++1", "٦", "nan",
        "NaN", "NAN", "+nan", "inf", "INF", "Inf", "+inf", "infinity", "Infinity", "INFINITY",
        "+infinity",
    ] {
        let text = format!("#EXTM3U #EXTINF {} seg", value);
        assert!(HlsManifest::new(&text).is_none(), "{:?}", value);
    }
}

#[test]
fn durations_agree_with_the_standard_parser() {
    for value in [
        "6", "6.0", "6.", ".5", "+6.25", "-6", "-0", "1e3", "1e", "e1", ".", "", "inf", "-inf",
        "nan", "infinity", "infinit", "1.5e-3", "1.5e-", "abc", "1..2", "+.5", "-.5", "+", "5e+2",
    ] {
        let text = format!("#EXTM3U #EXTINF {} seg", value);
        let taken = match HlsManifest::new(&text) {
            Some(m) => m.tracks[0].duration == value,
            None => false,
        };
        // A duration is a number that the standard parser reads as not
        // negative; the words that it reads as no number are none.
        let expected = match value.parse::<f32>() {
            Ok(v) => v.is_sign_positive() && value.chars().any(|c| c.is_ascii_digit()),
            Err(_) => false,
        };
        assert_eq!(taken, expected, "{:?}", value);
    }
}

#[test]
fn segment_whose_duration_is_no_number_is_skipped() {
    assert!(HlsManifest::new("#EXTM3U\n#EXTINF:nan,seg1.aac\n").is_none());
    assert!(HlsManifest::new("#EXTM3U\n#EXTINF:inf,seg1.aac\n").is_none());
    assert!(HlsManifest::new("#EXTM3U\n#EXTINF:infinity,seg1.aac\n").is_none());
    assert!(HlsManifest::new("#EXTM3U\n#EXT-X-VERSION:3\n#EXTINF:NaN,seg1.aac\n").is_none());
    let manifest =
        HlsManifest::new("#EXTM3U\n#EXTINF:nan,seg1.aac\n#EXTINF:6.0,seg2.aac\n").unwrap();
    assert_eq!(names(&manifest), vec!["seg2.aac"]);
    assert_eq!(durations(&manifest), vec![6.0f32]);
}

#[test]
fn every_duration_is_a_number_that_is_not_negative() {
    let manifest = HlsManifest::new(
        "#EXTM3U #EXTINF 0 a #EXTINF -1 b #EXTINF nan c #EXTINF 2.5 d #EXTINF inf e #EXTINF +3 f",
    )
    .unwrap();
    assert_eq!(names(&manifest), vec!["a", "d", "f"]);
    for track in manifest.tracks.iter() {
        let seconds = track.duration.parse::<f32>().unwrap();
        assert!(seconds >= 0.0);
    }
    assert_eq!(durations(&manifest), vec![0.0f32, 2.5, 3.0]);
}

#[test]
fn segment_without_locator_is_skipped() {
    assert!(HlsManifest::new("#EXTM3U #EXTINF 6.0").is_none());
    assert!(HlsManifest::new("#EXTM3U #EXTINF").is_none());
    let manifest = HlsManifest::new("#EXTM3U #EXTINF 1 a #EXTINF 6.0").unwrap();
    assert_eq!(names(&manifest), vec!["a"]);
}

#[test]
fn segment_with_bad_duration_is_skipped_alone() {
    let manifest = HlsManifest::new("#EXTM3U #EXTINF long a.aac #EXTINF 2 b.aac").unwrap();
    assert_eq!(names(&manifest), vec!["b.aac"]);
    // The token after a refused duration is read as a token of its own.
    let manifest = HlsManifest::new("#EXTM3U #EXTINF #EXTINF 2 b.aac").unwrap();
    assert_eq!(names(&manifest), vec!["b.aac"]);
}

#[test]
fn locator_is_read_again_as_a_token() {
    let manifest = HlsManifest::new("#EXTM3U #EXTINF 1 #EXTINF 2 b.aac").unwrap();
    assert_eq!(names(&manifest), vec!["#EXTINF", "b.aac"]);
    assert_eq!(durations(&manifest), vec![1.0f32, 2.0]);
    let manifest = HlsManifest::new("#EXTM3U #EXTINF 1 #EXT-X-VERSION 9").unwrap();
    assert_eq!(names(&manifest), vec!["#EXT-X-VERSION"]);
    assert_eq!(integer_under(&manifest, "#EXT-X-VERSION"), Some(9));
}

#[test]
fn tracks_keep_the_order_of_the_document() {
    let manifest =
        HlsManifest::new("#EXTM3U\n#EXTINF:1,c\n#EXTINF:2,a\n#EXTINF:3,b\n#EXTINF:4,a\n").unwrap();
    assert_eq!(names(&manifest), vec!["c", "a", "b", "a"]);
    assert_eq!(durations(&manifest), vec![1.0f32, 2.0, 3.0, 4.0]);
}

#[test]
fn text_beyond_ascii_is_kept() {
    let manifest = HlsManifest::new("#EXTM3U\n#EXTINF:6.0,şarkı-é.aac\n").unwrap();
    assert_eq!(names(&manifest), vec!["şarkı-é.aac"]);
    assert_eq!(manifest.tracks[0].duration, "6.0");
}

#[test]
fn unknown_tags_are_passed_over() {
    let manifest = HlsManifest::new(
        "#EXTM3U\n#EXT-X-PROGRAM-DATE-TIME:2024-01-01T00:00:00Z\n#EXTINF:6.0,seg1.aac\n#EXT-X-ENDLIST\n",
    )
    .unwrap();
    assert_eq!(names(&manifest), vec!["seg1.aac"]);
    assert_eq!(manifest.metadata.len(), 0);
}

#[test]
fn metadata_holds_what_is_stored() {
    let mut metadata = Metadata::new();
    assert_eq!(metadata.len(), 0);
    assert!(metadata.get("a").is_none());
    metadata.insert(String::from("a"), HlsManifestMetadataType::Integer(1));
    metadata.insert(String::from("b"), HlsManifestMetadataType::Text(String::from("x")));
    metadata.insert(String::from("c"), HlsManifestMetadataType::Double(6.0f32.to_bits()));
    assert_eq!(metadata.len(), 3);
    metadata.insert(String::from("a"), HlsManifestMetadataType::Integer(2));
    assert_eq!(metadata.len(), 3);
    assert!(matches!(metadata.get("a"), Some(HlsManifestMetadataType::Integer(2))));
    assert!(matches!(metadata.get("b"), Some(HlsManifestMetadataType::Text(s)) if s == "x"));
    match metadata.get("c") {
        Some(HlsManifestMetadataType::Double(bits)) => assert_eq!(f32::from_bits(*bits), 6.0),
        _ => panic!("no real under c"),
    }
    assert!(metadata.get("d").is_none());
    assert!(metadata.get("").is_none());
}

#[test]
fn duplicate_is_equal_to_its_track() {
    let track = Track { name: String::from("seg1.aac"), duration: String::from("6.0") };
    let copy = track.duplicate();
    assert_eq!(copy.name, "seg1.aac");
    assert_eq!(copy.duration, "6.0");
}

#[test]
fn entries_hold_each_key_once() {
    let manifest = HlsManifest::new(
        "#EXTM3U #EXT-X-VERSION 3 #EXT-X-TARGETDURATION 6 #EXT-X-VERSION 4 #EXTINF 1 a",
    )
    .unwrap();
    let mut keys: Vec<String> = manifest.metadata.entries().iter().map(|e| e.0.clone()).collect();
    keys.sort();
    assert_eq!(keys, vec!["#EXT-X-TARGETDURATION", "#EXT-X-VERSION"]);
    for (key, value) in manifest.metadata.entries() {
        assert!(matches!(
            (key.as_str(), value),
            ("#EXT-X-TARGETDURATION", HlsManifestMetadataType::Integer(6))
                | ("#EXT-X-VERSION", HlsManifestMetadataType::Integer(4))
        ));
    }
}
