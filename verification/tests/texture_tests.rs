use scop::texture::{decode_ppm, find_image_format, parse_ppm, pixels_from_values, Pixel, Texture};

fn px(r: u8, g: u8, b: u8) -> Pixel {
    Pixel { r, g, b, a: 255 }
}

#[test]
fn image_format_by_suffix() {
    assert_eq!(find_image_format("texture.ppm"), Some("ppm"));
    assert_eq!(find_image_format("dir/image.bmp"), Some("bmp"));
    assert_eq!(find_image_format(".ppm"), Some("ppm"));
    assert_eq!(find_image_format("image.png"), None);
    assert_eq!(find_image_format("ppm"), None);
    assert_eq!(find_image_format(""), None);
    assert_eq!(find_image_format("x.ppm.bak"), None);
}

#[test]
fn pixels_pack_in_threes() {
    let pixels = pixels_from_values(&[1, 2, 3, 4, 5, 6]);
    assert_eq!(pixels, vec![px(1, 2, 3), px(4, 5, 6)]);
    assert_eq!(pixels_from_values(&[]), vec![]);
}

#[test]
fn decode_plain_text_image() {
    let data = b"P3\nP3\n2 1\n255\n255 0 0 0 255 0\n";
    let img = decode_ppm(data).expect("image should decode");
    assert_eq!(img.width, 2);
    assert_eq!(img.height, 1);
    assert_eq!(img.max_color, 255);
    assert_eq!(img.pixels, vec![px(255, 0, 0), px(0, 255, 0)]);
}

#[test]
fn decode_raw_image() {
    let mut data = b"any\nP6\n# palette\n1 2\n255\n".to_vec();
    data.extend_from_slice(&[1, 2, 3, 4, 5, 6]);
    let img = decode_ppm(&data).expect("image should decode");
    assert_eq!(img.width, 1);
    assert_eq!(img.height, 2);
    assert_eq!(img.pixels, vec![px(1, 2, 3), px(4, 5, 6)]);
}

#[test]
fn decode_accepts_signed_plus_numerals() {
    let data = b"x\nP3\n+1 +1\n255\n+10 20 +30\n";
    let img = decode_ppm(data).expect("image should decode");
    assert_eq!(img.width, 1);
    assert_eq!(img.height, 1);
    assert_eq!(img.pixels, vec![px(10, 20, 30)]);
}

#[test]
fn decode_empty_body_gives_no_pixels() {
    let img = decode_ppm(b"x\nP3\n0 0\n255\n").expect("image should decode");
    assert_eq!(img.width, 0);
    assert_eq!(img.height, 0);
    assert!(img.pixels.is_empty());
}

#[test]
fn decode_handles_carriage_returns() {
    let mut data = b"x\r\nP6\r\n1 1\r\n255\r\n".to_vec();
    data.extend_from_slice(&[10, 20, 30]);
    let img = decode_ppm(&data).expect("image should decode");
    assert_eq!(img.max_color, 255);
    assert_eq!(img.pixels, vec![px(10, 20, 30)]);
}

#[test]
fn decode_raw_body_is_taken_verbatim() {
    // '#' and line feeds in the raw body are samples, not markup
    let mut data = b"x\nP6\n1 1\n255\n".to_vec();
    data.extend_from_slice(&[b'#', b'\n', 7]);
    let img = decode_ppm(&data).expect("image should decode");
    assert_eq!(img.pixels, vec![px(35, 10, 7)]);
}

#[test]
fn decode_rejects_broken_streams() {
    // no header at all
    assert!(decode_ppm(b"").is_none());
    // a format line the loader does not know
    assert!(decode_ppm(b"x\nP9\n1 1\n255\n1 2 3\n").is_none());
    // a plain-text sample out of the u8 range
    assert!(decode_ppm(b"x\nP3\n1 1\n255\n1 2 300\n").is_none());
    // samples that do not fill whole pixels
    assert!(decode_ppm(b"x\nP3\n1 1\n255\n1 2 3 4\n").is_none());
    let mut raw = b"x\nP6\n1 1\n255\n".to_vec();
    raw.extend_from_slice(&[1, 2]);
    assert!(decode_ppm(&raw).is_none());
    // the header never ends
    assert!(decode_ppm(b"x\nP3\n1 1\n").is_none());
}

#[test]
fn decode_needs_the_first_line_sacrificed() {
    // a well-formed PPM file proper: its magic line is eaten as the skipped
    // first line, so the next line becomes the format and scanning fails
    assert!(decode_ppm(b"P3\n1 1\n255\n1 2 3\n").is_none());
}

#[test]
fn parse_ppm_sets_the_pixels_aside() {
    let data = b"P3\nP3\n1 1\n255\n9 9 9\n";
    assert!(decode_ppm(data).is_some());
    assert_eq!(parse_ppm(data), vec![]);
}

#[test]
fn texture_from_ppm_file_is_still_empty() {
    let data = b"P3\nP3\n2 1\n255\n255 0 0 0 255 0\n";
    let tex = Texture::new("tri.ppm", data);
    assert_eq!(tex.file_path, "tri.ppm");
    assert_eq!(tex.width, 0);
    assert_eq!(tex.height, 0);
    assert!(tex.pixels.is_empty());
}

#[test]
fn texture_from_bmp_path_reads_nothing() {
    let tex = Texture::new("brick.bmp", b"not even parsed");
    assert_eq!(tex.file_path, "brick.bmp");
    assert_eq!(tex.width, 0);
    assert_eq!(tex.height, 0);
    assert!(tex.pixels.is_empty());
}
