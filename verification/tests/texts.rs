//! Texts and the display.

use oscilloscope_me::app::{AppState, StereoSample};
use oscilloscope_me::display::{
    append_for_display, decimate_for_render, decimate_scope_pair, decode_mode_label, first_line,
    format_audio_rate, help_text, status_line, truncate_name, DISPLAY_POINTS, TRACE_CAPACITY,
};
use oscilloscope_me::text::{chars_of, contains, parse_i32, push_decimal, push_signed, text_of, trim};

#[test]
fn numbers_are_written() {
    let mut s = String::from("n=");
    push_decimal(&mut s, 0);
    s.push(' ');
    push_decimal(&mut s, u64::MAX);
    s.push(' ');
    push_signed(&mut s, i32::MIN);
    assert_eq!(s, "n=0 18446744073709551615 -2147483648");
}

#[test]
fn numbers_are_read() {
    assert_eq!(parse_i32("0"), Some(0));
    assert_eq!(parse_i32("-0012"), Some(-12));
    assert_eq!(parse_i32("+7"), Some(7));
    assert_eq!(parse_i32("2147483647"), Some(i32::MAX));
    assert_eq!(parse_i32("-2147483648"), Some(i32::MIN));
    for bad in ["", "-", "+", "2147483648", "-2147483649", "1 ", "--1", "٣", "1e3"] {
        assert_eq!(parse_i32(bad), None);
        assert!(bad.parse::<i32>().is_err());
    }
}

#[test]
fn written_numbers_read_back() {
    for n in [i32::MIN, -1000, -1, 0, 9, 10, 99, 12345, i32::MAX] {
        let mut s = String::new();
        push_signed(&mut s, n);
        assert_eq!(s, n.to_string());
        assert_eq!(parse_i32(&s), Some(n));
    }
}

#[test]
fn parts_are_found() {
    let hay = chars_of("abcabd");
    assert!(contains(&hay, &chars_of("abd")));
    assert!(contains(&hay, &chars_of("")));
    assert!(!contains(&hay, &chars_of("abe")));
    assert!(!contains(&chars_of("a"), &chars_of("ab")));
    assert_eq!(text_of(&hay, 2, 5), "cab");
}

#[test]
fn white_space_is_trimmed() {
    assert_eq!(trim("  a b\t\n"), "a b");
    assert_eq!(trim("\u{2003}x\u{85}"), "x");
    assert_eq!(trim(" \t "), "");
    assert_eq!(trim("x"), "x");
    let white = "\t\n\u{b}\u{c}\r \u{85}\u{a0}\u{1680}\u{2000}\u{2001}\u{2002}\u{2003}\u{2004}\
                 \u{2005}\u{2006}\u{2007}\u{2008}\u{2009}\u{200a}\u{2028}\u{2029}\u{202f}\u{205f}\u{3000}";
    assert_eq!(white.chars().count(), 25);
    let listed = |c: &char| white.contains(*c);
    assert!(('\0'..=char::MAX).all(|c| c.is_whitespace() == listed(&c)));
    assert_eq!(trim(&format!("{white}94.1{white}")), "94.1");
    assert_eq!(trim("\u{200b}x\u{feff}"), "\u{200b}x\u{feff}");
}

#[test]
fn long_names_are_shortened() {
    assert_eq!(truncate_name("short"), "short");
    let exact = "12345678901234567890";
    assert_eq!(truncate_name(exact), exact);
    assert_eq!(truncate_name("123456789012345678901"), "1234567890123456789…");
    assert_eq!(truncate_name(&"ä".repeat(30)), format!("{}…", "ä".repeat(19)));
}

#[test]
fn mode_labels() {
    assert_eq!(decode_mode_label(true, true), "FM-MONO");
    assert_eq!(decode_mode_label(false, true), "STEREO");
    assert_eq!(decode_mode_label(false, false), "STEREO (locking)");
}

#[test]
fn audio_rates() {
    assert_eq!(format_audio_rate(48_000, 192_000), "48000 Hz (wanted 192000)");
    assert_eq!(format_audio_rate(48_000, 48_000), "48000 Hz");
    assert_eq!(format_audio_rate(48_000, 0), "48000 Hz");
}

#[test]
fn first_lines() {
    for text in ["", "one", "one\ntwo", "one\r\ntwo", "\n", "\r\n", "a\r", "a\rb\n", "a\r\r\nb"] {
        assert_eq!(first_line(text), text.lines().next().unwrap_or(""));
    }
}

#[test]
fn status_lines() {
    let mut s: AppState<f32> = AppState::new(94_100_000, 0, -120.0, 1.0);
    assert_eq!(
        status_line(&s, false, "94.1", "-120", "-120"),
        " 94.1 MHz | SDR -- | STEREO (locking) | gain auto | - @ 0 Hz | L -120 dBFS | R -120 dBFS"
    );
    s.sdr_connected = true;
    s.audio_device = "A very long device name".to_string();
    s.audio_rate = 48_000;
    s.requested_rate = 192_000;
    s.status_message = "Usb(Busy)\n\nAnother process".to_string();
    s.cycle_gain();
    assert_eq!(
        status_line(&s, true, "101.3", "CLIP", "-6"),
        " 101.3 MHz | SDR OK | STEREO | gain 0.0 dB | A very long device …\
         \u{20}@ 48000 Hz (wanted 192000) | L CLIP dBFS | R -6 dBFS | Usb(Busy)"
    );
    assert_eq!(help_text(), " q quit | + / - tune +/-0.1 MHz | g cycle gain ");
}

fn points(n: usize) -> Vec<StereoSample<usize>> {
    (0..n).map(|i| StereoSample { x: i, y: 2 * i }).collect()
}

#[test]
fn few_points_are_all_drawn() {
    assert!(decimate_for_render(&points(0)).is_empty());
    assert_eq!(decimate_for_render(&points(DISPLAY_POINTS)).len(), DISPLAY_POINTS);
    let drawn = decimate_for_render(&points(3));
    assert_eq!((drawn[2].x, drawn[2].y, drawn.len()), (2, 4, 3));
}

#[test]
fn many_points_are_thinned() {
    let drawn = decimate_for_render(&points(2 * DISPLAY_POINTS - 1));
    assert_eq!((drawn.len(), drawn[DISPLAY_POINTS - 1].x), (DISPLAY_POINTS, DISPLAY_POINTS - 1));
    let drawn = decimate_for_render(&points(3 * DISPLAY_POINTS + 7));
    assert_eq!((drawn.len(), drawn[1].x), (DISPLAY_POINTS, 3));
}

#[test]
fn scope_channels_are_thinned_alike() {
    let left: Vec<i32> = (0..10).collect();
    let right: Vec<i32> = (10..20).collect();
    let (l, r) = decimate_scope_pair(&left, &right, 4);
    assert_eq!(l, vec![0, 2, 4, 6]);
    assert_eq!(r, vec![10, 12, 14, 16]);
}

#[test]
fn trace_keeps_the_newest_points() {
    let mut buf = Vec::new();
    append_for_display(&[1, 2, 3], &[4, 5], &mut buf);
    assert_eq!(buf.iter().map(|p| (p.x, p.y)).collect::<Vec<_>>(), vec![(1, 4), (2, 5)]);
    append_for_display(&[], &[9], &mut buf);
    assert_eq!(buf.len(), 2);
    let many: Vec<i32> = (0..TRACE_CAPACITY as i32).collect();
    append_for_display(&many[1..], &many[1..], &mut buf);
    assert_eq!((buf.len(), buf[0].x, buf[0].y, buf[1].x), (TRACE_CAPACITY, 2, 5, 1));
}
