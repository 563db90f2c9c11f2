//! The trend image, and the bytes that carry it to a terminal.
use heft::kgp;
use heft::kgp::{Frame, Image, Kgp, Transport};
use heft::sixel;

const ALPHABET: &[u8] = b"ABCDEFGHIJKLMNOPQRSTUVWXYZabcdefghijklmnopqrstuvwxyz0123456789+/";

/// What `?` is, the sixel with no pixel lit.
const SIXEL_ZERO: u8 = 63;

fn buf(v: &[u64]) -> Option<Vec<u64>> {
    Some(v.to_vec())
}

fn inline(f: Frame) -> String {
    match f {
        Frame::Inline(s) => s,
        other => panic!("expected an inline frame, got {other:?}"),
    }
}

#[test]
fn ssh_forces_the_inline_transport() {
    assert_eq!(kgp::transport_for_env(false, false), Transport::Shm);
    assert_eq!(kgp::transport_for_env(true, false), Transport::Direct);
    assert_eq!(kgp::transport_for_env(false, true), Transport::Direct);
}

#[test]
fn base64_matches_the_worked_examples() {
    let mut s = String::new();
    kgp::b64(b"", &mut s);
    assert_eq!(s, "");
    for (input, want) in [
        ("f", "Zg=="),
        ("fo", "Zm8="),
        ("foo", "Zm9v"),
        ("foob", "Zm9vYg=="),
        ("fooba", "Zm9vYmE="),
        ("foobar", "Zm9vYmFy"),
    ] {
        let mut s = String::new();
        kgp::b64(input.as_bytes(), &mut s);
        assert_eq!(s, want, "{input}");
    }
}

#[test]
fn only_the_first_chunk_carries_control_data() {
    let payload = "A".repeat(kgp::CHUNK + 8);
    let s = kgp::write_chunked("a=T,f=32", &payload);
    assert!(s.starts_with("\x1b_Ga=T,f=32,t=d,m=1;AAA"), "{}", &s[..40]);
    // Every chunk but the last is a multiple of four, so a base64 group is
    // never split across two escapes.
    assert_eq!(kgp::CHUNK % 4, 0);
    assert!(s.contains("\x1b\\\x1b_Gm=0;"), "last chunk ends the sequence");
    assert_eq!(s.matches("\x1b_G").count(), 2);
}

#[test]
fn a_short_payload_is_one_chunk_that_closes_itself() {
    let s = kgp::write_chunked("a=T", "QUJD");
    assert_eq!(s, "\x1b_Ga=T,t=d,m=0;QUJD\x1b\\");
}

#[test]
fn the_first_cell_names_its_band_and_the_rest_run_on() {
    let p = kgp::placeholder(2, 9).unwrap();
    let chars: Vec<char> = p.chars().collect();
    assert_eq!(chars[0], kgp::PLACEHOLDER);
    assert_eq!(chars[1], kgp::diacritic(2).unwrap(), "row 2");
    assert_eq!(chars[2], kgp::diacritic(0).unwrap(), "column 0");
    // Nine cells: one spelled out, eight inheriting from the left.
    assert_eq!(chars.iter().filter(|c| **c == kgp::PLACEHOLDER).count(), 9);
    assert_eq!(chars.len(), 9 + 2);
    // A band past the table's own diacritics draws nothing rather than
    // drawing the wrong row.
    assert!(kgp::placeholder(kgp::MAX_BANDS, 9).is_none());
    assert_eq!(kgp::DIACRITICS.len(), kgp::MAX_BANDS, "MAX_BANDS is the table length");
}

fn b64_decode(s: &str) -> Vec<u8> {
    let idx = |c: u8| ALPHABET.iter().position(|b| *b == c).unwrap() as u32;
    let raw: Vec<u8> = s.bytes().filter(|b| *b != b'=').collect();
    let pad = s.bytes().filter(|b| *b == b'=').count();
    let mut out = Vec::new();
    for c in raw.chunks(4) {
        let mut n = 0u32;
        for (i, b) in c.iter().enumerate() {
            n |= idx(*b) << (18 - 6 * i);
        }
        out.extend_from_slice(&[(n >> 16) as u8, (n >> 8) as u8, n as u8]);
    }
    out.truncate(out.len() - pad);
    out
}

/// The bytes that reach the terminal: control data, chunking and payload, and
/// the pixels decoded back out.
#[test]
fn the_inline_transport_round_trips_the_pixels() {
    let mut k = Kgp::with_transport(Transport::Direct);
    let img = kgp::paint(&vec![buf(&[1, 2])], 2, (4, 8), [10, 20, 30], 100).unwrap();
    let s = inline(k.send(&img, 9, 1, 4242));
    assert!(
        s.starts_with(&format!(
            "\x1b_Ga=T,U=1,i={},f=32,s={},v={},c=9,r=1,q=2,t=d,m=",
            kgp::IMAGE_ID,
            img.w,
            img.h
        )),
        "{}",
        &s[..70.min(s.len())]
    );
    assert!(s.ends_with("\x1b\\"));
    let payload: String = s
        .split("\x1b_G")
        .filter(|p| !p.is_empty())
        .map(|p| {
            let body = p.split_once(';').unwrap().1;
            body.trim_end_matches("\x1b\\").to_string()
        })
        .collect();
    assert_eq!(b64_decode(&payload), img.rgba, "the pixels survive the wire");
}

/// The same pixels over more than one chunk.
#[test]
fn a_long_payload_round_trips_over_its_chunks() {
    let mut k = Kgp::with_transport(Transport::Direct);
    let img = kgp::paint(&vec![buf(&[1, 90, 2, 80])], 9, (8, 64), [10, 20, 30], 100).unwrap();
    let s = inline(k.send(&img, 9, 1, 1));
    assert!(s.matches("\x1b_G").count() > 2);
    let payload: String = s
        .split("\x1b_G")
        .filter(|p| !p.is_empty())
        .map(|p| p.split_once(';').unwrap().1.trim_end_matches("\x1b\\").to_string())
        .collect();
    assert_eq!(b64_decode(&payload), img.rgba);
}

#[test]
fn an_unchanged_image_is_not_sent_twice() {
    let mut k = Kgp::with_transport(Transport::Direct);
    let img = kgp::paint(&vec![buf(&[1])], 1, (4, 8), [1, 2, 3], 100).unwrap();
    let first = inline(k.send(&img, 9, 1, 1));
    assert!(!first.is_empty());
    k.sent(&img);
    assert!(matches!(k.send(&img, 9, 1, 1), Frame::Same), "same pixels, nothing on the wire");
    // A changed row sends again.
    let other = kgp::paint(&vec![buf(&[1, 9])], 2, (4, 8), [1, 2, 3], 100).unwrap();
    let third = inline(k.send(&other, 9, 1, 1));
    assert!(!third.is_empty());
}

/// Over shared memory the escape names an object instead of carrying pixels,
/// and every frame names a new one.
#[test]
fn the_shared_transport_names_its_object() {
    let mut k = Kgp::with_transport(Transport::Shm);
    let img = kgp::paint(&vec![buf(&[1])], 1, (4, 8), [1, 2, 3], 100).unwrap();
    let (name, text) = match k.send(&img, 9, 1, 77) {
        Frame::Shared(name, text) => (name, text),
        other => panic!("{other:?}"),
    };
    assert!(name.starts_with('/') && name.contains("77"), "{name}");
    let payload = text.split_once(';').unwrap().1.trim_end_matches("\x1b\\");
    assert_eq!(b64_decode(payload), name.as_bytes());
    assert!(text.contains(",t=s"), "{text}");
    assert_eq!(k.hold(name.clone()), None);
    k.sent(&img);
    let other = kgp::paint(&vec![buf(&[1, 9])], 2, (4, 8), [1, 2, 3], 100).unwrap();
    let second = match k.send(&other, 9, 1, 77) {
        Frame::Shared(name, _) => name,
        other => panic!("{other:?}"),
    };
    assert_ne!(second, name);
    // The object before it is handed back to be taken away.
    assert_eq!(k.hold(second.clone()).as_deref(), Some(name.as_str()));
    assert_eq!(k.teardown().1.as_deref(), Some(second.as_str()));
    assert_eq!(k.teardown().1, None);
}

#[test]
fn teardown_frees_the_image_data() {
    let mut k = Kgp::with_transport(Transport::Direct);
    let (s, _) = k.teardown();
    // `d=I` uppercase: delete the placements and free the data, so the image
    // does not stay in the terminal's store.
    assert_eq!(s, format!("\x1b_Ga=d,d=I,i={},q=2\x1b\\", kgp::IMAGE_ID));
}

#[test]
fn the_id_rides_in_the_foreground_colour() {
    let (r, g, b) = kgp::id_rgb();
    assert_eq!((u32::from(r) << 16) | (u32::from(g) << 8) | u32::from(b), kgp::IMAGE_ID);
    assert_eq!(kgp::IMAGE_ID >> 24, 0, "no third diacritic needed");
}

#[test]
fn a_sample_sits_where_the_fixed_scale_puts_it() {
    assert_eq!(kgp::sample_y(0, 100, 8), 7, "zero is the floor");
    assert_eq!(kgp::sample_y(100, 100, 8), 0, "full scale is the ceiling");
    assert_eq!(kgp::sample_y(400, 100, 8), 0, "above full pins, never rescales");
    // Eight pixel rows span 0..=7, so half scale is 3.5 steps up from the
    // floor and lands on row 3.
    assert_eq!(kgp::sample_y(50, 100, 8), 3);
    // Nothing on screen has a figure yet: everything is on the floor.
    assert_eq!(kgp::sample_y(5, 0, 8), 7);
}

#[test]
fn a_line_joins_the_samples_and_leaves_the_rest_clear() {
    let cell = (4, 8);
    let rows = vec![buf(&[0, 100]), None];
    let img = kgp::paint(&rows, 2, cell, [1, 2, 3], 100).unwrap();
    assert_eq!((img.w, img.h), (8, 16));
    let at = |x: u32, y: u32| img.rgba[((y * img.w + x) * 4 + 3) as usize];
    // Sample 0 is zero: a mark on the floor, and nothing above it.
    assert_eq!(at(0, 7), 0xff);
    assert_eq!(at(0, 6), 0, "a line, not a bar filled up from the floor");
    // Sample 1 is full scale: a mark on the ceiling, and nothing below it
    // except the riser joining it to the sample before.
    assert_eq!(at(7, 0), 0xff);
    assert_eq!(at(7, 7), 0, "no fill under the mark");
    // The riser sits on the new sample's first column.
    assert!((0..8).all(|y| at(4, y) == 0xff), "samples are joined");
    // A row with no history is transparent, not flat.
    assert!(img.rgba[(img.w * cell.1 * 4) as usize..].iter().all(|b| *b == 0));
}

#[test]
fn a_flat_busy_row_is_a_flat_line_near_the_floor() {
    let rows = vec![buf(&[2, 2, 2])];
    let img = kgp::paint(&rows, 3, (4, 16), [9, 9, 9], 100).unwrap();
    let lit: Vec<u32> = (0..img.h)
        .filter(|y| (0..img.w).any(|x| img.rgba[((y * img.w + x) * 4 + 3) as usize] != 0))
        .collect();
    assert_eq!(lit.len(), 1, "a flat row is one row of pixels, not a block");
    assert_eq!(lit[0], 15, "2 of 100 rounds onto the floor");
    // Flat at zero draws too: a history that is flat is still a history.
    let zero = vec![buf(&[0, 0])];
    let img = kgp::paint(&zero, 2, (2, 4), [9, 9, 9], 100).unwrap();
    assert!(img.rgba.iter().any(|b| *b != 0));
}

#[test]
fn an_absurd_cell_or_an_empty_table_is_refused() {
    let rows = vec![buf(&[0, 0])];
    assert!(kgp::paint(&rows, 2, (100_000, 100_000), [0, 0, 0], 100).is_none());
    assert!(kgp::paint(&Vec::new(), 9, (8, 16), [0, 0, 0], 100).is_none());
}

fn img(w: u32, h: u32, lit: &[(u32, u32)]) -> Image {
    let mut rgba = vec![0u8; (w * h * 4) as usize];
    for (x, y) in lit {
        rgba[((y * w + x) * 4 + 3) as usize] = 0xff;
    }
    Image { w, h, rgba }
}

#[test]
fn a_pixel_becomes_the_bit_that_names_its_row() {
    // One lit pixel at the top of a six-tall band is bit 0, so `?` + 1.
    let s = sixel::encode(&img(2, 6, &[(0, 0)]), [255, 0, 0]);
    assert!(s.starts_with("\x1bP0;1;0q\"1;1;2;6"), "{s}");
    assert!(s.contains("#0;2;100;0;0"), "components are percentages: {s}");
    assert!(s.ends_with("\x1b\\"));
    assert!(s.contains("#0@?"), "bit 0 and an empty column: {s}");
    // Bottom of the band is bit 5, so `?` + 32.
    let s = sixel::encode(&img(1, 6, &[(0, 5)]), [0, 0, 0]);
    assert!(s.contains(&format!("#0{}", (SIXEL_ZERO + 32) as char)), "{s}");
}

#[test]
fn empty_columns_are_run_length_encoded() {
    let s = sixel::encode(&img(400, 6, &[(0, 0)]), [0, 0, 0]);
    assert!(s.contains("!399?"), "399 blank columns in one run: {s}");
    assert!(s.len() < 60, "a near-empty band stays tiny, got {}", s.len());
    // Below the threshold it is cheaper to write the columns out.
    let s = sixel::encode(&img(3, 6, &[]), [0, 0, 0]);
    assert!(s.contains("#0???"), "{s}");
}

#[test]
fn bands_are_separated_but_the_last_one_is_not() {
    let s = sixel::encode(&img(1, 18, &[]), [0, 0, 0]);
    assert_eq!(s.matches('-').count(), 2, "three bands, two separators");
    let s = sixel::encode(&img(1, 6, &[]), [0, 0, 0]);
    assert_eq!(s.matches('-').count(), 0);
    // A height that is not a multiple of six still gets a whole band, and the
    // rows past the end read as empty rather than out of bounds.
    let s = sixel::encode(&img(1, 7, &[(0, 6)]), [0, 0, 0]);
    assert_eq!(s.matches('-').count(), 1);
    assert!(s.contains(&format!("-#0{}", (SIXEL_ZERO + 1) as char)), "{s}");
}

#[test]
fn the_cursor_goes_back_where_it_was() {
    let s = sixel::at(4, 9, "X");
    assert_eq!(s, "\x1b7\x1b[5;10HX\x1b8", "one-based screen coordinates");
}

#[test]
fn a_payload_that_divides_evenly_ends_in_an_empty_chunk() {
    let full = "A".repeat(kgp::CHUNK);
    assert_eq!(
        kgp::write_chunked("a=T", &full),
        format!("\u{1b}_Ga=T,t=d,m=1;{full}\u{1b}\\\u{1b}_Gm=0;\u{1b}\\")
    );
    assert_eq!(
        kgp::write_chunked("a=T", &full[1..]),
        format!("\u{1b}_Ga=T,t=d,m=0;{}\u{1b}\\", &full[1..])
    );
    assert_eq!(kgp::write_chunked("a=T", ""), "");
}
